//! Behavioral (`B`) source expressions: the right-hand sides of `V=...` / `I=...`
//! as trees over node voltages `V(node)`, branch currents `I(element)`,
//! parameters and arithmetic / functions.
use crate::circuit::{bterms, BExpr, BTerm};
use crate::netlist::expr::{lex, lexed, token_name, token_text, tok_views, Tok, TokView};
use crate::netlist::nodes::{NodeMap, NodesView};
use crate::numerics::{whole, Answers, Ask, Host, Rel, Reply};
use crate::text::{concat2, concat3, decimal, decimal_text, lower, same, signed_decimal, signed_text, to_lower};
use vstd::prelude::*;

verus! {

/// The character that stands for a comparison in [`BExpr::Bin`].
pub open spec fn sentinel(r: Rel) -> char {
    match r {
        Rel::Lt => '<',
        Rel::Gt => '>',
        Rel::Le => 'l',
        Rel::Ge => 'g',
        Rel::Eq => 'e',
        Rel::Ne => 'n',
    }
}

fn rel_sentinel(r: Rel) -> (c: char)
    ensures
        c == sentinel(r),
{
    match r {
        Rel::Lt => '<',
        Rel::Gt => '>',
        Rel::Le => 'l',
        Rel::Ge => 'g',
        Rel::Eq => 'e',
        Rel::Ne => 'n',
    }
}

/// How many arguments a function of a behavioral source takes.
pub open spec fn arity(name: Seq<char>) -> Option<nat> {
    if name == "sin"@ || name == "cos"@ || name == "tan"@ || name == "exp"@ || name == "ln"@ || name
        == "log"@ || name == "log10"@ || name == "sqrt"@ || name == "tanh"@ || name == "sinh"@ || name
        == "cosh"@ || name == "abs"@ || name == "atan"@ || name == "floor"@ {
        Some(1)
    } else if name == "pow"@ || name == "pwr"@ || name == "min"@ || name == "max"@ {
        Some(2)
    } else if name == "if"@ {
        Some(3)
    } else {
        None
    }
}

/// Why a call is refused, if it is.
pub open spec fn call_error(name: Seq<char>, argc: nat) -> Option<Seq<char>> {
    match arity(name) {
        None => Some(
            "unknown function '"@ + name
                + "' in B source (supported: sin cos tan exp ln log sqrt tanh sinh cosh abs atan floor pow min max if)"@,
        ),
        Some(n) => if n == argc {
            None
        } else {
            Some(
                "function '"@ + name + "' expects "@ + decimal(n) + " argument(s), got "@ + decimal(
                    argc,
                ),
            )
        },
    }
}

fn arity_of(name: &str) -> (r: Option<usize>)
    ensures
        (r is Some) == (arity(name@) is Some),
        r matches Some(n) ==> n as nat == arity(name@)->0,
{
    if same(name, "sin") || same(name, "cos") || same(name, "tan") || same(name, "exp") || same(name, "ln")
        || same(name, "log") || same(name, "log10") || same(name, "sqrt") || same(name, "tanh") || same(
        name,
        "sinh",
    ) || same(name, "cosh") || same(name, "abs") || same(name, "atan") || same(name, "floor") {
        Some(1)
    } else if same(name, "pow") || same(name, "pwr") || same(name, "min") || same(name, "max") {
        Some(2)
    } else if same(name, "if") {
        Some(3)
    } else {
        None
    }
}

/// The functions a behavioral source may call, with their arity: an unknown name
/// or wrong argument count is an error rather than a silent zero.
pub fn validate_call(name: &str, argc: usize) -> (r: Result<(), String>)
    ensures
        match call_error(name@, argc as nat) {
            None => r is Ok,
            Some(m) => r matches Err(e) && e@ == m,
        },
{
    match arity_of(name) {
        None => Err(
            concat3(
                "unknown function '",
                name,
                "' in B source (supported: sin cos tan exp ln log sqrt tanh sinh cosh abs atan floor pow min max if)",
            ),
        ),
        Some(n) => if n == argc {
            Ok(())
        } else {
            let mut msg = concat3("function '", name, "' expects ");
            msg.append(&decimal_text(n as u64));
            msg.append(" argument(s), got ");
            msg.append(&decimal_text(argc as u64));
            Err(msg)
        },
    }
}

// ---------------------------------------------------------------------------
// The grammar.
// ---------------------------------------------------------------------------
/// An expression, the position after it and the nodes known after it.
pub type BParsed = Result<(BTerm, int, NodesView), Seq<char>>;

/// Left and right binding power: comparisons bind loosest, `^` is
/// right-associative.
pub open spec fn b_binding(t: TokView) -> Option<(int, int)> {
    match t {
        TokView::Op(c) => if c == '+' || c == '-' {
            Some((3, 4))
        } else if c == '*' || c == '/' {
            Some((5, 6))
        } else if c == '^' {
            Some((8, 7))
        } else {
            None
        },
        TokView::Rel(_) => Some((1, 2)),
        _ => None,
    }
}

pub open spec fn b_operator(t: TokView) -> char {
    match t {
        TokView::Op(c) => c,
        TokView::Rel(r) => sentinel(r),
        _ => '+',
    }
}

/// A token that may be missing, as a diagnostic names it.
pub open spec fn maybe_token_text(h: Answers, t: Seq<TokView>, pos: int) -> Seq<char> {
    if 0 <= pos < t.len() {
        "Some("@ + token_text(h, t[pos]) + ")"@
    } else {
        "None"@
    }
}

/// What parsing goes by: the host and the tokens.
pub struct BScope {
    pub h: Answers,
    pub t: Seq<TokView>,
}

impl BScope {
    pub open spec fn at(self, pos: int, t: TokView) -> bool {
        0 <= pos < self.t.len() && self.t[pos] == t
    }

    pub open spec fn expr(self, nodes: NodesView, pos: int, min: int) -> BParsed
        decreases self.t.len() - pos, 2int,
    {
        match self.atom(nodes, pos) {
            Err(e) => Err(e),
            Ok((v, p, m)) => if pos < p <= self.t.len() {
                self.climb(m, v, p, min)
            } else {
                Err(seq![])
            },
        }
    }

    pub open spec fn climb(self, nodes: NodesView, lhs: BTerm, pos: int, min: int) -> BParsed
        decreases self.t.len() - pos, 1int,
    {
        if 0 <= pos < self.t.len() && b_binding(self.t[pos]) is Some && (b_binding(self.t[pos])->0).0
            >= min {
            let op = self.t[pos];
            match self.expr(nodes, pos + 1, (b_binding(op)->0).1) {
                Err(e) => Err(e),
                Ok((rhs, p, m)) => if pos < p <= self.t.len() {
                    self.climb(m, BTerm::Bin(b_operator(op), Box::new(lhs), Box::new(rhs)), p, min)
                } else {
                    Err(seq![])
                },
            }
        } else {
            Ok((lhs, pos, nodes))
        }
    }

    /// A node inside `V(...)`: an identifier or a whole number.
    pub open spec fn node_ref(self, nodes: NodesView, pos: int) -> Result<
        (usize, int, NodesView),
        Seq<char>,
    > {
        if pos < 0 || pos >= self.t.len() {
            Err("expected node name"@)
        } else {
            match self.t[pos] {
                TokView::Ident(n) => {
                    let (i, m) = nodes.resolve(n);
                    Ok((i as usize, pos + 1, m))
                },
                TokView::Num(x) => match whole(self.h, x) {
                    Some(w) => {
                        let (i, m) = nodes.resolve(signed_decimal(w as int));
                        Ok((i as usize, pos + 1, m))
                    },
                    None => Err("expected node name, got "@ + token_text(self.h, self.t[pos])),
                },
                _ => Err("expected node name, got "@ + token_text(self.h, self.t[pos])),
            }
        }
    }

    /// `V(a)` or `V(a,b)`, from behind the parenthesis on.
    pub open spec fn voltage(self, nodes: NodesView, pos: int) -> BParsed {
        match self.node_ref(nodes, pos) {
            Err(e) => Err(e),
            Ok((a, p, m)) => if self.at(p, TokView::Comma) {
                match self.node_ref(m, p + 1) {
                    Err(e) => Err(e),
                    Ok((b, q, n)) => if self.at(q, TokView::RParen) {
                        Ok(
                            (
                                BTerm::Bin('-', Box::new(BTerm::NodeV(a)), Box::new(BTerm::NodeV(b))),
                                q + 1,
                                n,
                            ),
                        )
                    } else {
                        Err("expected ')'"@)
                    },
                }
            } else if self.at(p, TokView::RParen) {
                Ok((BTerm::NodeV(a), p + 1, m))
            } else {
                Err("expected ')'"@)
            },
        }
    }

    pub open spec fn atom(self, nodes: NodesView, pos: int) -> BParsed
        decreases self.t.len() - pos, 0int,
    {
        if pos < 0 || pos >= self.t.len() {
            Err("unexpected end of B expression"@)
        } else {
            match self.t[pos] {
                TokView::Num(n) => Ok((BTerm::Const(n), pos + 1, nodes)),
                TokView::Op(c) => if c == '-' {
                    match self.expr(nodes, pos + 1, 7) {
                        Err(e) => Err(e),
                        Ok((v, p, m)) => Ok((BTerm::Neg(Box::new(v)), p, m)),
                    }
                } else if c == '+' {
                    self.expr(nodes, pos + 1, 7)
                } else {
                    Err("unexpected token "@ + token_text(self.h, self.t[pos]))
                },
                TokView::LParen => match self.expr(nodes, pos + 1, 0) {
                    Err(e) => Err(e),
                    Ok((v, p, m)) => if self.at(p, TokView::RParen) {
                        Ok((v, p + 1, m))
                    } else {
                        Err("expected ')'"@)
                    },
                },
                TokView::Ident(name) => if self.at(pos + 1, TokView::LParen) {
                    let key = lower(name);
                    if key == "v"@ {
                        self.voltage(nodes, pos + 2)
                    } else if key == "i"@ {
                        if 0 <= pos + 2 < self.t.len() && self.t[pos + 2] is Ident {
                            if self.at(pos + 3, TokView::RParen) {
                                Ok((BTerm::BranchI(self.t[pos + 2]->Ident_0), pos + 4, nodes))
                            } else {
                                Err("expected ')'"@)
                            }
                        } else {
                            Err(
                                "I() expects an element name, got "@ + maybe_token_text(
                                    self.h,
                                    self.t,
                                    pos + 2,
                                ),
                            )
                        }
                    } else {
                        let args = if self.at(pos + 2, TokView::RParen) {
                            Ok((Seq::<BTerm>::empty(), pos + 3, nodes))
                        } else {
                            self.args(nodes, pos + 2, seq![])
                        };
                        match args {
                            Err(e) => Err(e),
                            Ok((a, p, m)) => match call_error(key, a.len()) {
                                Some(e) => Err(e),
                                None => Ok((BTerm::Call(key, a), p, m)),
                            },
                        }
                    }
                } else {
                    Ok((BTerm::Param(name), pos + 1, nodes))
                },
                _ => Err("unexpected token "@ + token_text(self.h, self.t[pos])),
            }
        }
    }

    pub open spec fn args(self, nodes: NodesView, pos: int, acc: Seq<BTerm>) -> Result<
        (Seq<BTerm>, int, NodesView),
        Seq<char>,
    >
        decreases self.t.len() - pos, 3int,
    {
        match self.expr(nodes, pos, 0) {
            Err(e) => Err(e),
            Ok((v, p, m)) => if self.at(p, TokView::Comma) && p > pos {
                self.args(m, p + 1, acc.push(v))
            } else if self.at(p, TokView::RParen) {
                Ok((acc.push(v), p + 1, m))
            } else {
                Err("expected ',' or ')'"@)
            },
        }
    }
}

/// A behavioral right-hand side, and the nodes known after it.
pub open spec fn behavioral_of(h: Answers, nodes: NodesView, s: Seq<char>) -> Result<
    (BTerm, NodesView),
    Seq<char>,
> {
    match lexed(h, s) {
        Err(e) => Err(e),
        Ok(t) => match (BScope { h, t }).expr(nodes, 0, 0) {
            Err(e) => Err(e),
            Ok((v, p, m)) => if p == t.len() {
                Ok((v, m))
            } else {
                Err("trailing tokens in B expression"@)
            },
        },
    }
}

// ---------------------------------------------------------------------------
// The parser.
// ---------------------------------------------------------------------------
struct BP<'a, F: Fn(Ask) -> Reply> {
    t: &'a Vec<Tok>,
    host: &'a Host<F>,
}

spec fn b_agrees(r: Result<(BExpr, usize), String>, nodes: NodesView, s: BParsed) -> bool {
    match (r, s) {
        (Ok((e, p)), Ok((v, q, m))) => e.term() == v && p as int == q && nodes == m,
        (Err(e), Err(m)) => e@ == m,
        _ => false,
    }
}

impl<'a, F: Fn(Ask) -> Reply> BP<'a, F> {
    spec fn scope(&self) -> BScope {
        BScope { h: self.host.answers(), t: tok_views(self.t@) }
    }

    fn closes(&self, pos: usize) -> (r: bool)
        ensures
            r == self.scope().at(pos as int, TokView::RParen),
            r ==> pos < self.t.len(),
    {
        if pos < self.t.len() {
            assert(tok_views(self.t@)[pos as int] == self.t@[pos as int]@);
            matches!(self.t[pos], Tok::RParen)
        } else {
            false
        }
    }

    fn opens(&self, pos: usize) -> (r: bool)
        ensures
            r == self.scope().at(pos as int, TokView::LParen),
            r ==> pos < self.t.len(),
    {
        if pos < self.t.len() {
            assert(tok_views(self.t@)[pos as int] == self.t@[pos as int]@);
            matches!(self.t[pos], Tok::LParen)
        } else {
            false
        }
    }

    fn separates(&self, pos: usize) -> (r: bool)
        ensures
            r == self.scope().at(pos as int, TokView::Comma),
            r ==> pos < self.t.len(),
    {
        if pos < self.t.len() {
            assert(tok_views(self.t@)[pos as int] == self.t@[pos as int]@);
            matches!(self.t[pos], Tok::Comma)
        } else {
            false
        }
    }

    fn operator(&self, pos: usize) -> (r: Option<(u8, u8, char)>)
        requires
            pos < self.t@.len(),
        ensures
            (r is Some) == (b_binding(self.scope().t[pos as int]) is Some),
            r matches Some(b) ==> (b.0 as int, b.1 as int) == b_binding(self.scope().t[pos as int])->0 && b.2
                == b_operator(self.scope().t[pos as int]),
    {
        assert(tok_views(self.t@)[pos as int] == self.t@[pos as int]@);
        match &self.t[pos] {
            Tok::Op(c) => if *c == '+' || *c == '-' {
                Some((3, 4, *c))
            } else if *c == '*' || *c == '/' {
                Some((5, 6, *c))
            } else if *c == '^' {
                Some((8, 7, *c))
            } else {
                None
            },
            Tok::Rel(r) => Some((1, 2, rel_sentinel(*r))),
            _ => None,
        }
    }

    fn expr(&self, nodes: &mut NodeMap, pos: usize, min_bp: u8) -> (r: Result<(BExpr, usize), String>)
        requires
            old(nodes)@.wf(),
            pos <= self.t@.len(),
        ensures
            final(nodes)@.wf(),
            b_agrees(r, final(nodes)@, self.scope().expr(old(nodes)@, pos as int, min_bp as int)),
            r matches Ok((_, p)) ==> pos < p <= self.t@.len(),
        decreases self.t@.len() - pos, 2int,
    {
        let ghost goal = self.scope().expr(nodes@, pos as int, min_bp as int);
        let (first, p) = match self.atom(nodes, pos) {
            Err(e) => {
                return Err(e);
            },
            Ok(x) => x,
        };
        let mut lhs = first;
        let mut at: usize = p;
        while at < self.t.len()
            invariant
                nodes@.wf(),
                pos < at <= self.t@.len(),
                self.scope().climb(nodes@, lhs.term(), at as int, min_bp as int) == goal,
                goal == self.scope().expr(old(nodes)@, pos as int, min_bp as int),
            decreases self.t@.len() - at,
        {
            let (lbp, rbp, op) = match self.operator(at) {
                Some(b) => b,
                None => {
                    return Ok((lhs, at));
                },
            };
            if lbp < min_bp {
                return Ok((lhs, at));
            }
            let ghost before = nodes@;
            let (rhs, q) = match self.expr(nodes, at + 1, rbp) {
                Err(e) => {
                    assert(self.scope().climb(before, lhs.term(), at as int, min_bp as int) == Err::<(BTerm, int, NodesView), Seq<char>>(e@));
                    return Err(e);
                },
                Ok(x) => x,
            };
            lhs = BExpr::Bin(op, Box::new(lhs), Box::new(rhs));
            at = q;
        }
        Ok((lhs, at))
    }

    fn node_ref(&self, nodes: &mut NodeMap, pos: usize) -> (r: Result<(usize, usize), String>)
        requires
            old(nodes)@.wf(),
            pos <= self.t@.len(),
        ensures
            final(nodes)@.wf(),
            match (r, self.scope().node_ref(old(nodes)@, pos as int)) {
                (Ok((i, p)), Ok((j, q, m))) => i == j && p as int == q && final(nodes)@ == m,
                (Err(e), Err(m)) => e@ == m,
                _ => false,
            },
            r matches Ok((_, p)) ==> p == pos + 1 && p <= self.t@.len(),
    {
        if pos >= self.t.len() {
            return Err("expected node name".to_owned());
        }
        assert(tok_views(self.t@)[pos as int] == self.t@[pos as int]@);
        match &self.t[pos] {
            Tok::Ident(n) => {
                let i: usize = nodes.resolve(n);
                Ok((i, pos + 1))
            },
            Tok::Num(x) => match self.host.whole(*x) {
                Some(w) => {
                    let i: usize = nodes.resolve(&signed_text(w));
                    Ok((i, pos + 1))
                },
                None => Err(concat2("expected node name, got ", &token_name(&self.t[pos], self.host))),
            },
            _ => Err(concat2("expected node name, got ", &token_name(&self.t[pos], self.host))),
        }
    }

    fn voltage(&self, nodes: &mut NodeMap, pos: usize) -> (r: Result<(BExpr, usize), String>)
        requires
            old(nodes)@.wf(),
            pos <= self.t@.len(),
        ensures
            final(nodes)@.wf(),
            b_agrees(r, final(nodes)@, self.scope().voltage(old(nodes)@, pos as int)),
            r matches Ok((_, p)) ==> pos < p <= self.t@.len(),
    {
        let (a, p) = match self.node_ref(nodes, pos) {
            Err(e) => {
                return Err(e);
            },
            Ok(x) => x,
        };
        if self.separates(p) {
            let (b, q) = match self.node_ref(nodes, p + 1) {
                Err(e) => {
                    return Err(e);
                },
                Ok(x) => x,
            };
            if self.closes(q) {
                let x = BExpr::NodeV(a);
                let y = BExpr::NodeV(b);
                assert(x.term() == BTerm::NodeV(a) && y.term() == BTerm::NodeV(b));
                Ok((BExpr::Bin('-', Box::new(x), Box::new(y)), q + 1))
            } else {
                Err("expected ')'".to_owned())
            }
        } else if self.closes(p) {
            Ok((BExpr::NodeV(a), p + 1))
        } else {
            Err("expected ')'".to_owned())
        }
    }

    fn atom(&self, nodes: &mut NodeMap, pos: usize) -> (r: Result<(BExpr, usize), String>)
        requires
            old(nodes)@.wf(),
            pos <= self.t@.len(),
        ensures
            final(nodes)@.wf(),
            b_agrees(r, final(nodes)@, self.scope().atom(old(nodes)@, pos as int)),
            r matches Ok((_, p)) ==> pos < p <= self.t@.len(),
        decreases self.t@.len() - pos, 0int,
    {
        if pos >= self.t.len() {
            return Err("unexpected end of B expression".to_owned());
        }
        assert(tok_views(self.t@)[pos as int] == self.t@[pos as int]@);
        match &self.t[pos] {
            Tok::Num(n) => Ok((BExpr::Const(*n), pos + 1)),
            Tok::Op(c) => {
                if *c == '-' {
                    match self.expr(nodes, pos + 1, 7) {
                        Err(e) => Err(e),
                        Ok((v, p)) => Ok((BExpr::Neg(Box::new(v)), p)),
                    }
                } else if *c == '+' {
                    self.expr(nodes, pos + 1, 7)
                } else {
                    Err(concat2("unexpected token ", &token_name(&self.t[pos], self.host)))
                }
            },
            Tok::LParen => match self.expr(nodes, pos + 1, 0) {
                Err(e) => Err(e),
                Ok((v, p)) => if self.closes(p) {
                    Ok((v, p + 1))
                } else {
                    Err("expected ')'".to_owned())
                },
            },
            Tok::Ident(name) => {
                if self.opens(pos + 1) {
                    let key = to_lower(name);
                    let inner: usize = pos + 2;
                    if same(&key, "v") {
                        self.voltage(nodes, inner)
                    } else if same(&key, "i") {
                        if inner < self.t.len() {
                            assert(tok_views(self.t@)[inner as int] == self.t@[inner as int]@);
                            match &self.t[inner] {
                                Tok::Ident(n) => if self.closes(inner + 1) {
                                    Ok((BExpr::BranchI(n.clone()), inner + 2))
                                } else {
                                    Err("expected ')'".to_owned())
                                },
                                other => Err(
                                    concat2(
                                        "I() expects an element name, got ",
                                        &concat3("Some(", &token_name(other, self.host), ")"),
                                    ),
                                ),
                            }
                        } else {
                            Err(concat2("I() expects an element name, got ", "None"))
                        }
                    } else {
                        let (a, p) = if self.closes(inner) {
                            let none: Vec<BExpr> = Vec::new();
                            (none, inner + 1)
                        } else {
                            match self.args(nodes, inner) {
                                Err(e) => {
                                    return Err(e);
                                },
                                Ok(x) => x,
                            }
                        };
                        proof {
                            bterms_len(a@);
                        }
                        match validate_call(&key, a.len()) {
                            Err(e) => Err(e),
                            Ok(()) => Ok((BExpr::Call(key, a), p)),
                        }
                    }
                } else {
                    Ok((BExpr::Param(name.clone()), pos + 1))
                }
            },
            _ => Err(concat2("unexpected token ", &token_name(&self.t[pos], self.host))),
        }
    }

    fn args(&self, nodes: &mut NodeMap, start: usize) -> (r: Result<(Vec<BExpr>, usize), String>)
        requires
            old(nodes)@.wf(),
            start <= self.t@.len(),
        ensures
            final(nodes)@.wf(),
            match (r, self.scope().args(old(nodes)@, start as int, seq![])) {
                (Ok((a, p)), Ok((v, q, m))) => bterms(a@) == v && p as int == q && final(nodes)@ == m,
                (Err(e), Err(m)) => e@ == m,
                _ => false,
            },
            r matches Ok((_, p)) ==> start < p <= self.t@.len(),
        decreases self.t@.len() - start, 3int,
    {
        let ghost goal = self.scope().args(nodes@, start as int, seq![]);
        let mut acc: Vec<BExpr> = Vec::new();
        let mut pos: usize = start;
        assert(bterms(acc@) =~= seq![]);
        loop
            invariant
                nodes@.wf(),
                start <= pos <= self.t@.len(),
                goal == self.scope().args(old(nodes)@, start as int, seq![]),
                self.scope().args(nodes@, pos as int, bterms(acc@)) == goal,
            decreases self.t@.len() - pos,
        {
            let ghost before = nodes@;
            let (v, p) = match self.expr(nodes, pos, 0) {
                Err(e) => {
                    return Err(e);
                },
                Ok(x) => x,
            };
            let ghost acc0 = acc@;
            acc.push(v);
            assert(acc@.drop_last() =~= acc0);
            assert(bterms(acc@) == bterms(acc0).push(v.term()));
            if self.separates(p) {
                pos = p + 1;
            } else if self.closes(p) {
                return Ok((acc, p + 1));
            } else {
                return Err("expected ',' or ')'".to_owned());
            }
        }
    }
}

proof fn bterms_len(v: Seq<BExpr>)
    ensures
        bterms(v).len() == v.len(),
    decreases v.len(),
{
    if v.len() > 0 {
        bterms_len(v.drop_last());
    }
}

/// Parse a behavioral right-hand side; a node name met for the first time gets
/// the next number.
pub fn parse_bexpr<F: Fn(Ask) -> Reply>(s: &str, nodes: &mut NodeMap, host: &Host<F>) -> (r: Result<BExpr, String>)
    requires
        old(nodes)@.wf(),
    ensures
        final(nodes)@.wf(),
        match (r, behavioral_of(host.answers(), old(nodes)@, s@)) {
            (Ok(e), Ok((v, m))) => e.term() == v && final(nodes)@ == m,
            (Err(e), Err(m)) => e@ == m,
            _ => false,
        },
{
    let t = match lex(s, host) {
        Err(e) => {
            return Err(e);
        },
        Ok(t) => t,
    };
    let p = BP { t: &t, host };
    match p.expr(nodes, 0, 0) {
        Err(e) => Err(e),
        Ok((v, pos)) => if pos == t.len() {
            Ok(v)
        } else {
            Err("trailing tokens in B expression".to_owned())
        },
    }
}

} // verus!

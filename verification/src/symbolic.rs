//! Symbolic expressions, held by the host.
//!
//! The expression graph lives with the host: the library holds handles to
//! expressions and symbols and asks the host to build, differentiate and inspect
//! them. One graph gives one answer to one question for as long as it lives, so
//! that what the library builds is a function of the host's answers.
use crate::numerics::Rel;
use vstd::prelude::*;

verus! {

/// An expression of the host's graph.
#[derive(Clone, Copy, Debug, PartialEq, Eq, Structural)]
pub struct ExprId(pub u64);

/// A free symbol of the host's graph.
#[derive(Clone, Copy, Debug, PartialEq, Eq, Structural)]
pub struct SymbolId(pub u64);

/// Functions of one expression.
#[derive(Clone, Copy, Debug, PartialEq, Eq, Structural)]
pub enum Fun1 {
    Neg,
    Recip,
    Sqrt,
    Ln,
    Exp,
    Sin,
    Floor,
}

/// Functions of two expressions.
#[derive(Clone, Copy, Debug, PartialEq, Eq, Structural)]
pub enum Fun2 {
    Add,
    Sub,
    Mul,
    Div,
}

/// A question to the host.
#[derive(Debug)]
pub enum Query {
    /// A real constant, by its bits.
    Number(u64),
    /// An integer constant.
    Int(i64),
    /// The symbol of a name.
    Symbol(String),
    /// A symbol as an expression.
    SymbolExpr(SymbolId),
    SymbolName(SymbolId),
    Apply1(Fun1, ExprId),
    Apply2(Fun2, ExprId, ExprId),
    /// An integer power.
    Power(ExprId, i64),
    /// One where the comparison holds, zero elsewhere.
    Compare(Rel, ExprId, ExprId),
    /// The second expression where the first is not zero, else the third.
    Select(ExprId, ExprId, ExprId),
    /// The fused sum of a list.
    Sum(Vec<ExprId>),
    /// A call of an elementary function, where the host knows it.
    Call(String, Vec<ExprId>),
    IsZero(ExprId),
    /// The symbols that an expression depends on.
    FreeSymbols(ExprId),
    /// The derivative with respect to a symbol.
    Derive(ExprId, SymbolId),
    /// An expression with symbols replaced.
    Substitute(ExprId, Vec<(SymbolId, ExprId)>),
    /// The summands of a fused sum, where the expression is one.
    Terms(ExprId),
    /// The symbol that an expression is, or else the expressions it is made of. An
    /// expression is made of earlier ones: their handles are smaller.
    Parts(ExprId),
    /// An output of a registered outside function at given arguments.
    Outside(String, u32, Vec<ExprId>),
    /// The time derivative of an expression, given the derivatives of symbols.
    Rate(ExprId, Vec<(SymbolId, ExprId)>),
    /// The determinant of a matrix, row by row.
    Determinant(Vec<Vec<ExprId>>),
    /// The values of expressions at given values of the symbols (a later one
    /// replaces an earlier one).
    Eval(Vec<ExprId>, Vec<(SymbolId, u64)>),
    /// The bodies of the functions that expressions call, in order, where they
    /// are known.
    Bodies(Vec<ExprId>),
    /// How nonlinear expressions are in a set of symbols.
    Nonlinearity(Vec<ExprId>, Vec<SymbolId>),
}

/// How nonlinear expressions are: their degree as polynomials, and whether some
/// are transcendental, piecewise or opaque.
#[derive(Clone, Copy, Debug, PartialEq, Eq, Structural)]
pub struct Nonlinearity {
    pub degree: u32,
    pub transcendental: bool,
    pub piecewise: bool,
    pub opaque: bool,
}

/// The host's answer.
#[derive(Debug)]
pub enum Answer {
    Nothing,
    Expr(ExprId),
    Symbol(SymbolId),
    Text(String),
    Truth(bool),
    Symbols(Vec<SymbolId>),
    Exprs(Vec<ExprId>),
    Numbers(Vec<u64>),
    Nonlinearity(Nonlinearity),
}

pub enum QueryView {
    Number(u64),
    Int(i64),
    Symbol(Seq<char>),
    SymbolExpr(SymbolId),
    SymbolName(SymbolId),
    Apply1(Fun1, ExprId),
    Apply2(Fun2, ExprId, ExprId),
    Power(ExprId, i64),
    Compare(Rel, ExprId, ExprId),
    Select(ExprId, ExprId, ExprId),
    Sum(Seq<ExprId>),
    Call(Seq<char>, Seq<ExprId>),
    IsZero(ExprId),
    FreeSymbols(ExprId),
    Derive(ExprId, SymbolId),
    Substitute(ExprId, Seq<(SymbolId, ExprId)>),
    Terms(ExprId),
    Parts(ExprId),
    Outside(Seq<char>, u32, Seq<ExprId>),
    Rate(ExprId, Seq<(SymbolId, ExprId)>),
    Determinant(Seq<Seq<ExprId>>),
    Eval(Seq<ExprId>, Seq<(SymbolId, u64)>),
    Bodies(Seq<ExprId>),
    Nonlinearity(Seq<ExprId>, Seq<SymbolId>),
}

pub enum AnswerView {
    Nothing,
    Expr(ExprId),
    Symbol(SymbolId),
    Text(Seq<char>),
    Truth(bool),
    Symbols(Seq<SymbolId>),
    Exprs(Seq<ExprId>),
    Numbers(Seq<u64>),
    Nonlinearity(Nonlinearity),
}

/// A matrix of expressions as rows of sequences.
pub open spec fn rows_of(m: Seq<Vec<ExprId>>) -> Seq<Seq<ExprId>> {
    m.map_values(|r: Vec<ExprId>| r@)
}

impl View for Query {
    type V = QueryView;

    open spec fn view(&self) -> QueryView {
        match *self {
            Query::Number(b) => QueryView::Number(b),
            Query::Int(i) => QueryView::Int(i),
            Query::Symbol(n) => QueryView::Symbol(n@),
            Query::SymbolExpr(s) => QueryView::SymbolExpr(s),
            Query::SymbolName(s) => QueryView::SymbolName(s),
            Query::Apply1(f, a) => QueryView::Apply1(f, a),
            Query::Apply2(f, a, b) => QueryView::Apply2(f, a, b),
            Query::Power(a, n) => QueryView::Power(a, n),
            Query::Compare(r, a, b) => QueryView::Compare(r, a, b),
            Query::Select(a, b, c) => QueryView::Select(a, b, c),
            Query::Sum(v) => QueryView::Sum(v@),
            Query::Call(n, v) => QueryView::Call(n@, v@),
            Query::IsZero(a) => QueryView::IsZero(a),
            Query::FreeSymbols(a) => QueryView::FreeSymbols(a),
            Query::Derive(a, s) => QueryView::Derive(a, s),
            Query::Substitute(a, m) => QueryView::Substitute(a, m@),
            Query::Terms(a) => QueryView::Terms(a),
            Query::Parts(a) => QueryView::Parts(a),
            Query::Outside(n, k, v) => QueryView::Outside(n@, k, v@),
            Query::Rate(a, m) => QueryView::Rate(a, m@),
            Query::Determinant(m) => QueryView::Determinant(rows_of(m@)),
            Query::Eval(v, e) => QueryView::Eval(v@, e@),
            Query::Bodies(v) => QueryView::Bodies(v@),
            Query::Nonlinearity(v, s) => QueryView::Nonlinearity(v@, s@),
        }
    }
}

impl View for Answer {
    type V = AnswerView;

    open spec fn view(&self) -> AnswerView {
        match *self {
            Answer::Nothing => AnswerView::Nothing,
            Answer::Expr(e) => AnswerView::Expr(e),
            Answer::Symbol(s) => AnswerView::Symbol(s),
            Answer::Text(t) => AnswerView::Text(t@),
            Answer::Truth(b) => AnswerView::Truth(b),
            Answer::Symbols(v) => AnswerView::Symbols(v@),
            Answer::Exprs(v) => AnswerView::Exprs(v@),
            Answer::Numbers(v) => AnswerView::Numbers(v@),
            Answer::Nonlinearity(n) => AnswerView::Nonlinearity(n),
        }
    }
}

/// The graph may be asked anything, and a question has one answer.
pub open spec fn steady<G: Fn(Query) -> Answer>(f: G) -> bool {
    &&& forall|a: Query| #[trigger] f.requires((a,))
    &&& forall|a: Query, b: Query, r: Answer, s: Answer|
        #![trigger f.ensures((a,), r), f.ensures((b,), s)]
        a@ == b@ && f.ensures((a,), r) && f.ensures((b,), s) ==> r@ == s@
}

/// All answers of a graph.
pub struct Graph {
    pub ask: spec_fn(QueryView) -> AnswerView,
}

/// The expression that an answer is; another answer is none that a graph holds.
pub open spec fn expr_of(a: AnswerView) -> ExprId {
    match a {
        AnswerView::Expr(e) => e,
        _ => ExprId(u64::MAX),
    }
}

/// What the answers mean.
impl Graph {
    pub open spec fn number(self, bits: u64) -> ExprId {
        expr_of((self.ask)(QueryView::Number(bits)))
    }

    pub open spec fn whole(self, i: i64) -> ExprId {
        expr_of((self.ask)(QueryView::Int(i)))
    }

    pub open spec fn zero(self) -> ExprId {
        self.whole(0)
    }

    pub open spec fn one(self) -> ExprId {
        self.whole(1)
    }

    pub open spec fn symbol(self, name: Seq<char>) -> SymbolId {
        match (self.ask)(QueryView::Symbol(name)) {
            AnswerView::Symbol(s) => s,
            _ => SymbolId(0),
        }
    }

    pub open spec fn symbol_expr(self, s: SymbolId) -> ExprId {
        expr_of((self.ask)(QueryView::SymbolExpr(s)))
    }

    /// The symbol of a name as an expression.
    pub open spec fn sym(self, name: Seq<char>) -> ExprId {
        self.symbol_expr(self.symbol(name))
    }

    pub open spec fn symbol_name(self, s: SymbolId) -> Seq<char> {
        match (self.ask)(QueryView::SymbolName(s)) {
            AnswerView::Text(t) => t,
            _ => seq![],
        }
    }

    pub open spec fn fun1(self, f: Fun1, a: ExprId) -> ExprId {
        expr_of((self.ask)(QueryView::Apply1(f, a)))
    }

    pub open spec fn fun2(self, f: Fun2, a: ExprId, b: ExprId) -> ExprId {
        expr_of((self.ask)(QueryView::Apply2(f, a, b)))
    }

    pub open spec fn neg(self, a: ExprId) -> ExprId {
        self.fun1(Fun1::Neg, a)
    }

    pub open spec fn recip(self, a: ExprId) -> ExprId {
        self.fun1(Fun1::Recip, a)
    }

    pub open spec fn plus(self, a: ExprId, b: ExprId) -> ExprId {
        self.fun2(Fun2::Add, a, b)
    }

    pub open spec fn minus(self, a: ExprId, b: ExprId) -> ExprId {
        self.fun2(Fun2::Sub, a, b)
    }

    pub open spec fn times(self, a: ExprId, b: ExprId) -> ExprId {
        self.fun2(Fun2::Mul, a, b)
    }

    pub open spec fn over(self, a: ExprId, b: ExprId) -> ExprId {
        self.fun2(Fun2::Div, a, b)
    }

    pub open spec fn power(self, a: ExprId, n: i64) -> ExprId {
        expr_of((self.ask)(QueryView::Power(a, n)))
    }

    pub open spec fn compare(self, r: Rel, a: ExprId, b: ExprId) -> ExprId {
        expr_of((self.ask)(QueryView::Compare(r, a, b)))
    }

    pub open spec fn select(self, a: ExprId, b: ExprId, c: ExprId) -> ExprId {
        expr_of((self.ask)(QueryView::Select(a, b, c)))
    }

    pub open spec fn sum(self, v: Seq<ExprId>) -> ExprId {
        expr_of((self.ask)(QueryView::Sum(v)))
    }

    pub open spec fn call(self, name: Seq<char>, args: Seq<ExprId>) -> Option<ExprId> {
        match (self.ask)(QueryView::Call(name, args)) {
            AnswerView::Expr(e) => Some(e),
            _ => None,
        }
    }

    pub open spec fn is_zero(self, a: ExprId) -> bool {
        (self.ask)(QueryView::IsZero(a)) == AnswerView::Truth(true)
    }

    pub open spec fn free(self, a: ExprId) -> Seq<SymbolId> {
        match (self.ask)(QueryView::FreeSymbols(a)) {
            AnswerView::Symbols(v) => v,
            _ => seq![],
        }
    }

    pub open spec fn derive(self, a: ExprId, s: SymbolId) -> ExprId {
        expr_of((self.ask)(QueryView::Derive(a, s)))
    }

    pub open spec fn substitute(self, a: ExprId, m: Seq<(SymbolId, ExprId)>) -> ExprId {
        expr_of((self.ask)(QueryView::Substitute(a, m)))
    }

    pub open spec fn terms(self, a: ExprId) -> Option<Seq<ExprId>> {
        match (self.ask)(QueryView::Terms(a)) {
            AnswerView::Exprs(v) => Some(v),
            _ => None,
        }
    }

    /// The symbol that an expression is.
    pub open spec fn as_symbol(self, a: ExprId) -> Option<SymbolId> {
        match (self.ask)(QueryView::Parts(a)) {
            AnswerView::Symbol(s) => Some(s),
            _ => None,
        }
    }

    /// The expressions that an expression is made of, in order.
    pub open spec fn parts(self, a: ExprId) -> Seq<ExprId> {
        match (self.ask)(QueryView::Parts(a)) {
            AnswerView::Exprs(v) => v,
            _ => seq![],
        }
    }

    /// The bodies of the functions that expressions call.
    pub open spec fn bodies(self, v: Seq<ExprId>) -> Seq<ExprId> {
        match (self.ask)(QueryView::Bodies(v)) {
            AnswerView::Exprs(b) => b,
            _ => seq![],
        }
    }

    /// How nonlinear expressions are; what a host does not classify is opaque.
    pub open spec fn nonlinearity(self, v: Seq<ExprId>, vars: Seq<SymbolId>) -> Nonlinearity {
        match (self.ask)(QueryView::Nonlinearity(v, vars)) {
            AnswerView::Nonlinearity(n) => n,
            _ => Nonlinearity { degree: 0, transcendental: false, piecewise: false, opaque: true },
        }
    }

    pub open spec fn outside(self, name: Seq<char>, k: u32, args: Seq<ExprId>) -> ExprId {
        expr_of((self.ask)(QueryView::Outside(name, k, args)))
    }

    pub open spec fn rate(self, a: ExprId, m: Seq<(SymbolId, ExprId)>) -> ExprId {
        expr_of((self.ask)(QueryView::Rate(a, m)))
    }

    pub open spec fn determinant(self, m: Seq<Seq<ExprId>>) -> ExprId {
        expr_of((self.ask)(QueryView::Determinant(m)))
    }

    /// The values of expressions; one that the host leaves out counts as zero.
    pub open spec fn eval(self, v: Seq<ExprId>, env: Seq<(SymbolId, u64)>) -> Seq<u64> {
        match (self.ask)(QueryView::Eval(v, env)) {
            AnswerView::Numbers(x) => Seq::new(
                v.len(),
                |i: int|
                    if i < x.len() {
                        x[i]
                    } else {
                        0
                    },
            ),
            _ => Seq::new(v.len(), |i: int| 0),
        }
    }
}

/// The expression graph of the host.
pub struct Algebra<G: Fn(Query) -> Answer> {
    ask: G,
}

impl<G: Fn(Query) -> Answer> Algebra<G> {
    #[verifier::type_invariant]
    spec fn wf(&self) -> bool {
        steady(self.ask)
    }

    /// The graph behind `ask`: its answers are those that `ask` gives.
    pub fn new(ask: G) -> (r: Self)
        requires
            steady(ask),
        ensures
            forall|a: Query, b: Answer| #[trigger] ask.ensures((a,), b) ==> (r.graph().ask)(a@) == b@,
    {
        let r = Algebra { ask };
        assert forall|a: Query, b: Answer| #[trigger] ask.ensures((a,), b) implies (r.graph().ask)(a@) == b@ by {
            assert(r.gives(a@, b@));
        }
        r
    }

    spec fn gives(&self, q: QueryView, r: AnswerView) -> bool {
        exists|a: Query, b: Answer| a@ == q && b@ == r && #[trigger] self.ask.ensures((a,), b)
    }

    pub closed spec fn answer(&self, q: QueryView) -> AnswerView {
        choose|r: AnswerView| self.gives(q, r)
    }

    /// All answers of this graph.
    pub open spec fn graph(&self) -> Graph {
        Graph { ask: |q: QueryView| self.answer(q) }
    }

    fn put(&self, q: Query) -> (r: Answer)
        ensures
            r@ == (self.graph().ask)(q@),
    {
        proof {
            use_type_invariant(self);
        }
        let ghost view = q@;
        let ghost asked = q;
        let r = (self.ask)(q);
        assert(self.ask.ensures((asked,), r));
        assert(self.gives(view, r@));
        r
    }

    fn expr(&self, q: Query) -> (r: ExprId)
        ensures
            r == expr_of((self.graph().ask)(q@)),
    {
        match self.put(q) {
            Answer::Expr(e) => e,
            _ => ExprId(u64::MAX),
        }
    }

    pub fn number(&self, bits: u64) -> (r: ExprId)
        ensures
            r == self.graph().number(bits),
    {
        self.expr(Query::Number(bits))
    }

    pub fn whole(&self, i: i64) -> (r: ExprId)
        ensures
            r == self.graph().whole(i),
    {
        self.expr(Query::Int(i))
    }

    pub fn zero(&self) -> (r: ExprId)
        ensures
            r == self.graph().zero(),
    {
        self.whole(0)
    }

    pub fn one(&self) -> (r: ExprId)
        ensures
            r == self.graph().one(),
    {
        self.whole(1)
    }

    pub fn symbol(&self, name: &str) -> (r: SymbolId)
        ensures
            r == self.graph().symbol(name@),
    {
        match self.put(Query::Symbol(name.to_owned())) {
            Answer::Symbol(s) => s,
            _ => SymbolId(0),
        }
    }

    pub fn symbol_expr(&self, s: SymbolId) -> (r: ExprId)
        ensures
            r == self.graph().symbol_expr(s),
    {
        self.expr(Query::SymbolExpr(s))
    }

    pub fn sym(&self, name: &str) -> (r: ExprId)
        ensures
            r == self.graph().sym(name@),
    {
        self.symbol_expr(self.symbol(name))
    }

    pub fn symbol_name(&self, s: SymbolId) -> (r: String)
        ensures
            r@ == self.graph().symbol_name(s),
    {
        match self.put(Query::SymbolName(s)) {
            Answer::Text(t) => t,
            _ => {
                let r = String::new();
                assert(r@ =~= seq![]);
                r
            },
        }
    }

    pub fn fun1(&self, f: Fun1, a: ExprId) -> (r: ExprId)
        ensures
            r == self.graph().fun1(f, a),
    {
        self.expr(Query::Apply1(f, a))
    }

    pub fn fun2(&self, f: Fun2, a: ExprId, b: ExprId) -> (r: ExprId)
        ensures
            r == self.graph().fun2(f, a, b),
    {
        self.expr(Query::Apply2(f, a, b))
    }

    pub fn neg(&self, a: ExprId) -> (r: ExprId)
        ensures
            r == self.graph().neg(a),
    {
        self.fun1(Fun1::Neg, a)
    }

    pub fn recip(&self, a: ExprId) -> (r: ExprId)
        ensures
            r == self.graph().recip(a),
    {
        self.fun1(Fun1::Recip, a)
    }

    pub fn plus(&self, a: ExprId, b: ExprId) -> (r: ExprId)
        ensures
            r == self.graph().plus(a, b),
    {
        self.fun2(Fun2::Add, a, b)
    }

    pub fn minus(&self, a: ExprId, b: ExprId) -> (r: ExprId)
        ensures
            r == self.graph().minus(a, b),
    {
        self.fun2(Fun2::Sub, a, b)
    }

    pub fn times(&self, a: ExprId, b: ExprId) -> (r: ExprId)
        ensures
            r == self.graph().times(a, b),
    {
        self.fun2(Fun2::Mul, a, b)
    }

    pub fn over(&self, a: ExprId, b: ExprId) -> (r: ExprId)
        ensures
            r == self.graph().over(a, b),
    {
        self.fun2(Fun2::Div, a, b)
    }

    pub fn power(&self, a: ExprId, n: i64) -> (r: ExprId)
        ensures
            r == self.graph().power(a, n),
    {
        self.expr(Query::Power(a, n))
    }

    pub fn compare(&self, rel: Rel, a: ExprId, b: ExprId) -> (r: ExprId)
        ensures
            r == self.graph().compare(rel, a, b),
    {
        self.expr(Query::Compare(rel, a, b))
    }

    pub fn select(&self, a: ExprId, b: ExprId, c: ExprId) -> (r: ExprId)
        ensures
            r == self.graph().select(a, b, c),
    {
        self.expr(Query::Select(a, b, c))
    }

    pub fn sum(&self, v: &Vec<ExprId>) -> (r: ExprId)
        ensures
            r == self.graph().sum(v@),
    {
        self.expr(Query::Sum(copy_exprs(v)))
    }

    pub fn call(&self, name: &str, args: &Vec<ExprId>) -> (r: Option<ExprId>)
        ensures
            r == self.graph().call(name@, args@),
    {
        match self.put(Query::Call(name.to_owned(), copy_exprs(args))) {
            Answer::Expr(e) => Some(e),
            _ => None,
        }
    }

    pub fn is_zero(&self, a: ExprId) -> (r: bool)
        ensures
            r == self.graph().is_zero(a),
    {
        match self.put(Query::IsZero(a)) {
            Answer::Truth(t) => t,
            _ => false,
        }
    }

    pub fn free_symbols(&self, a: ExprId) -> (r: Vec<SymbolId>)
        ensures
            r@ == self.graph().free(a),
    {
        match self.put(Query::FreeSymbols(a)) {
            Answer::Symbols(v) => v,
            _ => {
                let r: Vec<SymbolId> = Vec::new();
                assert(r@ =~= seq![]);
                r
            },
        }
    }

    pub fn derive(&self, a: ExprId, s: SymbolId) -> (r: ExprId)
        ensures
            r == self.graph().derive(a, s),
    {
        self.expr(Query::Derive(a, s))
    }

    pub fn substitute(&self, a: ExprId, m: &Vec<(SymbolId, ExprId)>) -> (r: ExprId)
        ensures
            r == self.graph().substitute(a, m@),
    {
        self.expr(Query::Substitute(a, copy_map(m)))
    }

    pub fn terms(&self, a: ExprId) -> (r: Option<Vec<ExprId>>)
        ensures
            match (r, self.graph().terms(a)) {
                (Some(v), Some(w)) => v@ == w,
                (None, None) => true,
                _ => false,
            },
    {
        match self.put(Query::Terms(a)) {
            Answer::Exprs(v) => Some(v),
            _ => None,
        }
    }

    pub fn bodies(&self, v: &Vec<ExprId>) -> (r: Vec<ExprId>)
        ensures
            r@ == self.graph().bodies(v@),
    {
        match self.put(Query::Bodies(copy_exprs(v))) {
            Answer::Exprs(b) => b,
            _ => Vec::new(),
        }
    }

    pub fn nonlinearity(&self, v: Vec<ExprId>, vars: Vec<SymbolId>) -> (r: Nonlinearity)
        ensures
            r == self.graph().nonlinearity(v@, vars@),
    {
        match self.put(Query::Nonlinearity(v, vars)) {
            Answer::Nonlinearity(n) => n,
            _ => Nonlinearity { degree: 0, transcendental: false, piecewise: false, opaque: true },
        }
    }

    pub fn parts(&self, a: ExprId) -> (r: (Option<SymbolId>, Vec<ExprId>))
        ensures
            r.0 == self.graph().as_symbol(a),
            r.1@ == self.graph().parts(a),
    {
        match self.put(Query::Parts(a)) {
            Answer::Symbol(s) => {
                let v: Vec<ExprId> = Vec::new();
                assert(v@ =~= seq![]);
                (Some(s), v)
            },
            Answer::Exprs(v) => (None, v),
            _ => {
                let v: Vec<ExprId> = Vec::new();
                assert(v@ =~= seq![]);
                (None, v)
            },
        }
    }

    pub fn outside(&self, name: &str, k: u32, args: &Vec<ExprId>) -> (r: ExprId)
        ensures
            r == self.graph().outside(name@, k, args@),
    {
        self.expr(Query::Outside(name.to_string(), k, copy_exprs(args)))
    }

    pub fn rate(&self, a: ExprId, m: &Vec<(SymbolId, ExprId)>) -> (r: ExprId)
        ensures
            r == self.graph().rate(a, m@),
    {
        self.expr(Query::Rate(a, copy_map(m)))
    }

    pub fn determinant(&self, m: &Vec<Vec<ExprId>>) -> (r: ExprId)
        ensures
            r == self.graph().determinant(rows_of(m@)),
    {
        self.expr(Query::Determinant(copy_rows(m)))
    }

    pub fn eval(&self, v: &Vec<ExprId>, env: &Vec<(SymbolId, u64)>) -> (r: Vec<u64>)
        ensures
            r@ == self.graph().eval(v@, env@),
    {
        let mut e: Vec<(SymbolId, u64)> = Vec::new();
        for i in 0..env.len()
            invariant
                e@ =~= env@.take(i as int),
        {
            e.push(env[i]);
        }
        assert(env@.take(env@.len() as int) =~= env@);
        let ghost goal = self.graph().eval(v@, env@);
        let got: Vec<u64> = match self.put(Query::Eval(copy_exprs(v), e)) {
            Answer::Numbers(x) => x,
            _ => Vec::new(),
        };
        let mut out: Vec<u64> = Vec::new();
        for i in 0..v.len()
            invariant
                goal.len() == v@.len(),
                forall|k: int| 0 <= k < v@.len() ==> #[trigger] goal[k] == (if k < got@.len() {
                    got@[k]
                } else {
                    0
                }),
                out@ =~= goal.take(i as int),
        {
            if i < got.len() {
                out.push(got[i]);
            } else {
                out.push(0);
            }
        }
        assert(goal.take(goal.len() as int) =~= goal);
        out
    }
}

pub fn copy_exprs(v: &Vec<ExprId>) -> (r: Vec<ExprId>)
    ensures
        r@ == v@,
{
    let mut out: Vec<ExprId> = Vec::new();
    for i in 0..v.len()
        invariant
            out@ =~= v@.take(i as int),
    {
        out.push(v[i]);
    }
    assert(v@.take(v@.len() as int) =~= v@);
    out
}

pub fn copy_map(v: &Vec<(SymbolId, ExprId)>) -> (r: Vec<(SymbolId, ExprId)>)
    ensures
        r@ == v@,
{
    let mut out: Vec<(SymbolId, ExprId)> = Vec::new();
    for i in 0..v.len()
        invariant
            out@ =~= v@.take(i as int),
    {
        out.push(v[i]);
    }
    assert(v@.take(v@.len() as int) =~= v@);
    out
}

pub fn copy_rows(m: &Vec<Vec<ExprId>>) -> (r: Vec<Vec<ExprId>>)
    ensures
        rows_of(r@) == rows_of(m@),
{
    let mut out: Vec<Vec<ExprId>> = Vec::new();
    let ghost all = rows_of(m@);
    for i in 0..m.len()
        invariant
            all == rows_of(m@),
            rows_of(out@) =~= all.take(i as int),
    {
        let ghost before = rows_of(out@);
        out.push(copy_exprs(&m[i]));
        assert(rows_of(out@) =~= before.push(all[i as int]));
    }
    assert(all.take(all.len() as int) =~= all);
    out
}

} // verus!

//! Export for human reading: the equations in LaTeX, and how the graph is drawn.
use crate::numerics::Rel;
use crate::symbolic::{Algebra, Answer, ExprId, Graph, Query, SymbolId};
use crate::text::{
    concat2, concat3, decimal, decimal_text, digit, has_prefix, is_digit, join, join_texts, same,
    signed_decimal, signed_text, starts_with, texts,
};
use vstd::prelude::*;

verus! {

/// An expression written out as a tree.
#[derive(Debug)]
pub enum Tree {
    /// A rational constant, by the decimal digits of its numerator (with its sign)
    /// and denominator.
    Const(String, String),
    Symbol(String),
    Add(Box<Tree>, Box<Tree>),
    Mul(Box<Tree>, Box<Tree>),
    Neg(Box<Tree>),
    /// An integer power.
    Pow(Box<Tree>, i64),
    /// A function of one argument, by name.
    Unary(String, Box<Tree>),
    Cmp(Rel, Box<Tree>, Box<Tree>),
    Select(Box<Tree>, Box<Tree>, Box<Tree>),
    /// A function of two arguments, by name.
    Binary(String, Box<Tree>, Box<Tree>),
    /// A component of the solution of a linear system.
    Solve(Vec<Tree>, u32),
    /// An output of a named function.
    Call(String, u32, Vec<Tree>),
    Sum(Vec<Tree>),
    Product(Vec<Tree>),
    Min(Vec<Tree>),
    Max(Vec<Tree>),
    /// The dot product of two lists.
    Dot(Vec<Tree>, Vec<Tree>),
}

// ---------------------------------------------------------------------------
// Names.
// ---------------------------------------------------------------------------
/// A text with every underscore escaped.
pub open spec fn escaped(s: Seq<char>) -> Seq<char>
    decreases s.len(),
{
    if s.len() == 0 {
        seq![]
    } else if s.last() == '_' {
        escaped(s.drop_last()) + seq!['\\', '_']
    } else {
        escaped(s.drop_last()).push(s.last())
    }
}

pub open spec fn named(s: Seq<char>) -> Seq<char> {
    "\\mathrm{"@ + escaped(s) + "}"@
}

fn latex_name(name: &str) -> (r: String)
    ensures
        r@ == named(name@),
{
    let v = crate::text::chars_of(name);
    let mut out: Vec<char> = Vec::new();
    assert(v@.take(0).len() == 0);
    for i in 0..v.len()
        invariant
            out@ == escaped(v@.take(i as int)),
    {
        let ghost before = out@;
        assert(v@.take(i + 1).drop_last() =~= v@.take(i as int));
        if v[i] == '_' {
            out.push('\\');
            out.push('_');
            assert(out@ =~= before + seq!['\\', '_']);
        } else {
            out.push(v[i]);
        }
    }
    assert(v@.take(v@.len() as int) =~= v@);
    let mid = crate::text::string_of(&out);
    concat3("\\mathrm{", &mid, "}")
}

// ---------------------------------------------------------------------------
// Expressions.
// ---------------------------------------------------------------------------
/// Sums and negations stand in parentheses where they are a factor or a base; a
/// fused sum and a sum of products are sums.
pub open spec fn guarded(t: Tree, s: Seq<char>) -> Seq<char> {
    if t is Add || t is Neg || t is Sum || t is Dot {
        "\\left("@ + s + "\\right)"@
    } else {
        s
    }
}

/// The sign of a comparison.
pub open spec fn sign_of(r: Rel) -> Seq<char> {
    match r {
        Rel::Gt => ">"@,
        Rel::Ge => "\\ge"@,
        Rel::Lt => "<"@,
        Rel::Le => "\\le"@,
        Rel::Eq => "="@,
        Rel::Ne => "\\ne"@,
    }
}

/// A function that LaTeX knows by its name.
pub open spec fn has_command(name: Seq<char>) -> bool {
    ||| name == "exp"@
    ||| name == "ln"@
    ||| name == "sin"@
    ||| name == "cos"@
    ||| name == "sinh"@
    ||| name == "cosh"@
    ||| name == "tanh"@
}

/// A function of one argument.
pub open spec fn applied(name: Seq<char>, inner: Seq<char>) -> Seq<char> {
    if name == "sqrt"@ {
        "\\sqrt{"@ + inner + "}"@
    } else if name == "floor"@ {
        "\\lfloor "@ + inner + " \\rfloor"@
    } else if name == "atan"@ {
        "\\arctan\\left("@ + inner + "\\right)"@
    } else if has_command(name) {
        "\\"@ + name + "\\left("@ + inner + "\\right)"@
    } else {
        "\\operatorname{"@ + name + "}\\left("@ + inner + "\\right)"@
    }
}

/// A power with an integer exponent: a negative one is a fraction.
pub open spec fn raised(t: Tree, s: Seq<char>, n: i64) -> Seq<char> {
    if n == -1 {
        "\\frac{1}{"@ + s + "}"@
    } else if n < 0 {
        "\\frac{1}{"@ + guarded(t, s) + "^{"@ + decimal((-(n as int)) as nat) + "}}"@
    } else {
        guarded(t, s) + "^{"@ + signed_decimal(n as int) + "}"@
    }
}

/// The products of two lists of factors, as far as both go.
pub open spec fn products(a: Seq<Seq<char>>, b: Seq<Seq<char>>) -> Seq<Seq<char>> {
    Seq::new(
        if a.len() <= b.len() {
            a.len()
        } else {
            b.len()
        },
        |i: int| a[i] + " \\cdot "@ + b[i],
    )
}

impl Tree {
    /// The expression in LaTeX.
    pub open spec fn latex(self) -> Seq<char>
        decreases self,
    {
        match self {
            Tree::Const(n, d) => if d@ == "1"@ {
                n@
            } else {
                "\\frac{"@ + n@ + "}{"@ + d@ + "}"@
            },
            Tree::Symbol(s) => named(s@),
            Tree::Add(a, b) => a.latex() + " + "@ + b.latex(),
            Tree::Mul(a, b) => guarded(*a, a.latex()) + " \\cdot "@ + guarded(*b, b.latex()),
            Tree::Neg(a) => "-"@ + guarded(*a, a.latex()),
            Tree::Pow(a, n) => raised(*a, a.latex(), n),
            Tree::Unary(f, a) => applied(f@, a.latex()),
            Tree::Cmp(r, a, b) => "["@ + a.latex() + " "@ + sign_of(r) + " "@ + b.latex() + "]"@,
            Tree::Select(c, a, b) => "\\mathrm{select}\\left("@ + c.latex() + ",\\, "@ + a.latex() + ",\\, "@ + b.latex()
                + "\\right)"@,
            Tree::Binary(f, a, b) => "\\operatorname{"@ + f@ + "}\\left("@ + a.latex() + ", "@ + b.latex() + "\\right)"@,
            Tree::Solve(v, n) => "\\operatorname{solve}_{"@ + decimal(n as nat) + "}\\left("@ + join(
                latex_each(v@),
                ", "@,
            ) + "\\right)"@,
            Tree::Call(f, k, v) => named(f@) + "_{"@ + decimal(k as nat) + "}\\left("@ + join(latex_each(v@), ",\\, "@)
                + "\\right)"@,
            Tree::Sum(v) => join(latex_factors(v@), " + "@),
            Tree::Product(v) => join(latex_factors(v@), " \\cdot "@),
            Tree::Min(v) => "\\min\\left("@ + join(latex_factors(v@), ",\\, "@) + "\\right)"@,
            Tree::Max(v) => "\\max\\left("@ + join(latex_factors(v@), ",\\, "@) + "\\right)"@,
            Tree::Dot(a, b) => join(products(latex_factors(a@), latex_factors(b@)), " + "@),
        }
    }
}

pub open spec fn latex_each(v: Seq<Tree>) -> Seq<Seq<char>>
    decreases v,
{
    if v.len() == 0 {
        seq![]
    } else {
        latex_each(v.drop_last()).push(v.last().latex())
    }
}

pub open spec fn latex_factors(v: Seq<Tree>) -> Seq<Seq<char>>
    decreases v,
{
    if v.len() == 0 {
        seq![]
    } else {
        latex_factors(v.drop_last()).push(guarded(v.last(), v.last().latex()))
    }
}

fn guard(t: &Tree, s: String) -> (r: String)
    ensures
        r@ == guarded(*t, s@),
{
    match t {
        Tree::Add(_, _) => concat3("\\left(", &s, "\\right)"),
        Tree::Neg(_) => concat3("\\left(", &s, "\\right)"),
        Tree::Sum(_) => concat3("\\left(", &s, "\\right)"),
        Tree::Dot(_, _) => concat3("\\left(", &s, "\\right)"),
        _ => s,
    }
}

fn sign_text(r: Rel) -> (s: &'static str)
    ensures
        s@ == sign_of(r),
{
    match r {
        Rel::Gt => ">",
        Rel::Ge => "\\ge",
        Rel::Lt => "<",
        Rel::Le => "\\le",
        Rel::Eq => "=",
        Rel::Ne => "\\ne",
    }
}

fn apply_text(name: &str, inner: &str) -> (r: String)
    ensures
        r@ == applied(name@, inner@),
{
    if same(name, "sqrt") {
        concat3("\\sqrt{", inner, "}")
    } else if same(name, "floor") {
        concat3("\\lfloor ", inner, " \\rfloor")
    } else if same(name, "atan") {
        concat3("\\arctan\\left(", inner, "\\right)")
    } else if same(name, "exp") || same(name, "ln") || same(name, "sin") || same(name, "cos") || same(name, "sinh")
        || same(name, "cosh") || same(name, "tanh") {
        let head = concat3("\\", name, "\\left(");
        concat3(&head, inner, "\\right)")
    } else {
        let head = concat3("\\operatorname{", name, "}\\left(");
        concat3(&head, inner, "\\right)")
    }
}

fn raise_text(t: &Tree, s: String, n: i64) -> (r: String)
    ensures
        r@ == raised(*t, s@, n),
{
    if n == -1 {
        concat3("\\frac{1}{", &s, "}")
    } else if n < 0 {
        let k: u64 = (-(n + 1)) as u64 + 1;
        let head = concat3("\\frac{1}{", &guard(t, s), "^{");
        concat3(&head, &decimal_text(k), "}}")
    } else {
        let head = concat2(&guard(t, s), "^{");
        concat3(&head, &signed_text(n), "}")
    }
}

fn pair_products(a: &Vec<String>, b: &Vec<String>) -> (r: Vec<String>)
    ensures
        texts(r@) == products(texts(a@), texts(b@)),
{
    let ghost all = products(texts(a@), texts(b@));
    let n: usize = if a.len() <= b.len() {
        a.len()
    } else {
        b.len()
    };
    let mut out: Vec<String> = Vec::new();
    for i in 0..n
        invariant
            n <= a@.len(),
            n <= b@.len(),
            n == all.len(),
            all == products(texts(a@), texts(b@)),
            texts(out@) =~= all.take(i as int),
    {
        let ghost before = texts(out@);
        out.push(concat3(&a[i], " \\cdot ", &b[i]));
        assert(texts(out@) =~= before.push(all[i as int]));
    }
    assert(all.take(all.len() as int) =~= all);
    out
}

/// Render a single expression to LaTeX.
pub fn latex_expr(t: &Tree) -> (r: String)
    ensures
        r@ == t.latex(),
    decreases *t,
{
    match t {
        Tree::Const(n, d) => if same(d, "1") {
            n.clone()
        } else {
            let head = concat3("\\frac{", n, "}{");
            concat3(&head, d, "}")
        },
        Tree::Symbol(s) => latex_name(s),
        Tree::Add(a, b) => {
            let x = latex_expr(a);
            let y = latex_expr(b);
            concat3(&x, " + ", &y)
        },
        Tree::Mul(a, b) => {
            let x = guard(a, latex_expr(a));
            let y = guard(b, latex_expr(b));
            concat3(&x, " \\cdot ", &y)
        },
        Tree::Neg(a) => {
            let x = guard(a, latex_expr(a));
            concat2("-", &x)
        },
        Tree::Pow(a, n) => {
            let x = latex_expr(a);
            raise_text(a, x, *n)
        },
        Tree::Unary(f, a) => {
            let x = latex_expr(a);
            apply_text(f, &x)
        },
        Tree::Cmp(r, a, b) => {
            let x = latex_expr(a);
            let y = latex_expr(b);
            let head = concat3("[", &x, " ");
            let mid = concat3(&head, sign_text(*r), " ");
            concat3(&mid, &y, "]")
        },
        Tree::Select(c, a, b) => {
            let x = latex_expr(c);
            let y = latex_expr(a);
            let z = latex_expr(b);
            let one = concat3("\\mathrm{select}\\left(", &x, ",\\, ");
            let two = concat3(&one, &y, ",\\, ");
            concat3(&two, &z, "\\right)")
        },
        Tree::Binary(f, a, b) => {
            let x = latex_expr(a);
            let y = latex_expr(b);
            let one = concat3("\\operatorname{", f, "}\\left(");
            let two = concat3(&one, &x, ", ");
            concat3(&two, &y, "\\right)")
        },
        Tree::Solve(v, n) => {
            let list = join_texts(&each(v), ", ");
            let one = concat3("\\operatorname{solve}_{", &decimal_text(*n as u64), "}\\left(");
            concat3(&one, &list, "\\right)")
        },
        Tree::Call(f, k, v) => {
            let list = join_texts(&each(v), ",\\, ");
            let one = concat3(&latex_name(f), "_{", &decimal_text(*k as u64));
            let two = concat3(&one, "}\\left(", &list);
            concat2(&two, "\\right)")
        },
        Tree::Sum(v) => join_texts(&factors(v), " + "),
        Tree::Product(v) => join_texts(&factors(v), " \\cdot "),
        Tree::Min(v) => concat3("\\min\\left(", &join_texts(&factors(v), ",\\, "), "\\right)"),
        Tree::Max(v) => concat3("\\max\\left(", &join_texts(&factors(v), ",\\, "), "\\right)"),
        Tree::Dot(a, b) => {
            let x = factors(a);
            let y = factors(b);
            join_texts(&pair_products(&x, &y), " + ")
        },
    }
}

fn each(v: &Vec<Tree>) -> (r: Vec<String>)
    ensures
        texts(r@) == latex_each(v@),
    decreases v@,
{
    let mut out: Vec<String> = Vec::new();
    assert(texts(out@) =~= latex_each(v@.take(0)));
    for i in 0..v.len()
        invariant
            texts(out@) == latex_each(v@.take(i as int)),
    {
        let ghost before = texts(out@);
        let s = latex_expr(&v[i]);
        let ghost sv = s@;
        out.push(s);
        proof {
            assert(v@.take(i + 1).drop_last() =~= v@.take(i as int));
            assert(texts(out@) =~= before.push(sv));
        }
    }
    assert(v@.take(v@.len() as int) =~= v@);
    out
}

fn factors(v: &Vec<Tree>) -> (r: Vec<String>)
    ensures
        texts(r@) == latex_factors(v@),
    decreases v@,
{
    let mut out: Vec<String> = Vec::new();
    assert(texts(out@) =~= latex_factors(v@.take(0)));
    for i in 0..v.len()
        invariant
            texts(out@) == latex_factors(v@.take(i as int)),
    {
        let ghost before = texts(out@);
        let s = guard(&v[i], latex_expr(&v[i]));
        let ghost sv = s@;
        out.push(s);
        proof {
            assert(v@.take(i + 1).drop_last() =~= v@.take(i as int));
            assert(texts(out@) =~= before.push(sv));
        }
    }
    assert(v@.take(v@.len() as int) =~= v@);
    out
}

/// The equations of the rows, one line each.
pub open spec fn equations(rows: Seq<Tree>) -> Seq<char>
    decreases rows.len(),
{
    if rows.len() == 0 {
        seq![]
    } else {
        equations(rows.drop_last()) + ("0 &= "@ + rows.last().latex() + " \\\\\n"@)
    }
}

/// The residual equations `0 = F_i(x, x', t)` as a LaTeX `aligned` block.
pub fn export_latex(rows: &Vec<Tree>) -> (r: String)
    ensures
        r@ == "\\begin{aligned}\n"@ + equations(rows@) + "\\end{aligned}\n"@,
{
    let mut out = "".to_string();
    proof {
        reveal_strlit("");
        assert(rows@.take(0).len() == 0);
        assert(out@ =~= equations(rows@.take(0)));
    }
    for i in 0..rows.len()
        invariant
            out@ == equations(rows@.take(i as int)),
    {
        let e = latex_expr(&rows[i]);
        let line = concat3("0 &= ", &e, " \\\\\n");
        assert(rows@.take(i + 1).drop_last() =~= rows@.take(i as int));
        out = concat2(&out, &line);
    }
    assert(rows@.take(rows@.len() as int) =~= rows@);
    concat3("\\begin{aligned}\n", &out, "\\end{aligned}\n")
}

// ---------------------------------------------------------------------------
// Roles.
// ---------------------------------------------------------------------------
/// At least one character, all of them digits.
pub open spec fn all_digits(s: Seq<char>) -> bool {
    s.len() > 0 && forall|i: int| 0 <= i < s.len() ==> is_digit(#[trigger] s[i])
}

/// A name is a state's by the naming convention: `v{k}` and `vdot{k}` of a node,
/// `i_{x}` and `idot_{x}` of a branch, and `t`.
pub open spec fn names_state(s: Seq<char>) -> bool {
    if has_prefix(s, "vdot"@) {
        all_digits(s.skip(4))
    } else {
        has_prefix(s, "idot_"@) || has_prefix(s, "i_"@) || s == "t"@ || (has_prefix(s, "v"@) && all_digits(s.skip(1)))
    }
}

fn digits_from(v: &Vec<char>, lo: usize) -> (r: bool)
    requires
        lo <= v@.len(),
    ensures
        r == all_digits(v@.skip(lo as int)),
{
    if lo >= v.len() {
        return false;
    }
    for i in lo..v.len()
        invariant
            lo < v@.len(),
            forall|k: int| lo <= k < i ==> is_digit(v@[k]),
    {
        if !digit(v[i]) {
            assert(v@.skip(lo as int)[i - lo] == v@[i as int]);
            return false;
        }
    }
    assert forall|k: int| 0 <= k < v@.skip(lo as int).len() implies is_digit(#[trigger] v@.skip(lo as int)[k]) by {
        assert(v@.skip(lo as int)[k] == v@[lo + k]);
    }
    true
}

/// Whether a symbol is a state rather than a parameter.
pub fn is_state(name: &str) -> (r: bool)
    ensures
        r == names_state(name@),
{
    let v = crate::text::chars_of(name);
    proof {
        reveal_strlit("vdot");
        reveal_strlit("v");
    }
    if starts_with(name, "vdot") {
        return digits_from(&v, 4);
    }
    if starts_with(name, "idot_") || starts_with(name, "i_") || same(name, "t") {
        return true;
    }
    starts_with(name, "v") && digits_from(&v, 1)
}

// ---------------------------------------------------------------------------
// Drawing the graph.
// ---------------------------------------------------------------------------
/// How a drawn graph looks: whether nodes are filled and operators labelled in
/// mathematical notation, the font, the colours of text and lines, the opacity of
/// fills and of what is faded, and the fill of each role.
#[derive(Debug)]
pub struct Theme {
    pub filled: bool,
    pub math: bool,
    pub font: String,
    /// The size of the font, by the bits of the number.
    pub font_size: u64,
    pub text: String,
    pub line: String,
    pub fill_alpha: String,
    pub fade_alpha: String,
    pub fade_fill_alpha: String,
    pub input: String,
    pub param: String,
    pub constant: String,
    pub op: String,
    pub choice: String,
    pub kernel: String,
    pub call: String,
    pub output: String,
    pub state: String,
}

/// The palette: black lines and text, and a pale fill per role (light blue
/// states, light green parameters, white constants, grey operators, yellow
/// decisions, orange device calls, red residuals), with mathematical operator
/// labels.
pub fn theme() -> (r: Theme)
    ensures
        r.font@ == "Helvetica"@,
        r.font_size == 0x4026_0000_0000_0000u64,
        r.text@ == "#000000"@,
        r.line@ == "#000000"@,
        r.filled,
        r.math,
        r.fill_alpha@ == ""@,
        r.fade_alpha@ == "33"@,
        r.fade_fill_alpha@ == "33"@,
        r.input@ == "#CFE7F0"@,
        r.param@ == "#D7EAC8"@,
        r.constant@ == "#FFFFFF"@,
        r.op@ == "#E0E0E0"@,
        r.choice@ == "#EDD9A3"@,
        r.kernel@ == "#E0E0E0"@,
        r.call@ == "#E8B06A"@,
        r.output@ == "#E89A9A"@,
        r.state@ == "#000000"@,
{
    Theme {
        font: "Helvetica".to_string(),
        font_size: 0x4026_0000_0000_0000,
        text: "#000000".to_string(),
        line: "#000000".to_string(),
        filled: true,
        math: true,
        fill_alpha: "".to_string(),
        fade_alpha: "33".to_string(),
        fade_fill_alpha: "33".to_string(),
        input: "#CFE7F0".to_string(),
        param: "#D7EAC8".to_string(),
        constant: "#FFFFFF".to_string(),
        op: "#E0E0E0".to_string(),
        choice: "#EDD9A3".to_string(),
        kernel: "#E0E0E0".to_string(),
        call: "#E8B06A".to_string(),
        output: "#E89A9A".to_string(),
        state: "#000000".to_string(),
    }
}

/// The parameters among the expressions from `k` on: the symbols that are no
/// states.
pub open spec fn params_among(g: Graph, reached: Seq<ExprId>, k: int) -> Seq<SymbolId>
    decreases reached.len() - k,
{
    if k < 0 || k >= reached.len() {
        seq![]
    } else {
        let rest = params_among(g, reached, k + 1);
        match g.as_symbol(reached[k]) {
            Some(s) if !names_state(g.symbol_name(s)) => seq![s] + rest,
            _ => rest,
        }
    }
}

/// The symbols that are drawn as parameters, among the expressions that a graph's
/// roots reach.
pub fn drawn_params<G: Fn(Query) -> Answer>(al: &Algebra<G>, reached: &Vec<ExprId>) -> (r: Vec<SymbolId>)
    ensures
        r@ == params_among(al.graph(), reached@, 0),
{
    let ghost g = al.graph();
    let ghost goal = params_among(g, reached@, 0);
    let mut out: Vec<SymbolId> = Vec::new();
    assert(out@ + goal =~= goal);
    for k in 0..reached.len()
        invariant
            g == al.graph(),
            out@ + params_among(g, reached@, k as int) == goal,
    {
        let ghost before = out@;
        let ghost rest = params_among(g, reached@, k + 1);
        if let Some(s) = al.parts(reached[k]).0 {
            if !is_state(&al.symbol_name(s)) {
                out.push(s);
                assert(before.push(s) + rest =~= before + (seq![s] + rest));
            }
        }
    }
    assert(out@ + seq![] =~= out@);
    out
}

} // verus!

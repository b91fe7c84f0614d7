//! What expressions evaluate to, from their text: the operators on the values of
//! their operands.
use crate::corners::Reading;
use crate::netlist::expr::{
    binding, called, digit_or_dot, engineering, evaluated, function1, ident_end, is_word, letters, lex_from, lex_one, lexed, literal_end,
    span_end, Scope, TokView,
};
use crate::numerics::{apply1, apply2, compares, is_true, truth, Answers, Op1, Op2, Rel};
use crate::text::{is_alpha, is_digit, is_space, lower};
use vstd::prelude::*;

verus! {

/// An operator between two operands.
pub enum Infix {
    Plus,
    Minus,
    Times,
    Over,
    Power,
    Below,
    Above,
    AtMost,
    AtLeast,
    Same,
    Differs,
    Both,
    Either,
}

impl Infix {
    pub open spec fn text(self) -> Seq<char> {
        match self {
            Infix::Plus => seq!['+'],
            Infix::Minus => seq!['-'],
            Infix::Times => seq!['*'],
            Infix::Over => seq!['/'],
            Infix::Power => seq!['^'],
            Infix::Below => seq!['<'],
            Infix::Above => seq!['>'],
            Infix::AtMost => seq!['<', '='],
            Infix::AtLeast => seq!['>', '='],
            Infix::Same => seq!['=', '='],
            Infix::Differs => seq!['!', '='],
            Infix::Both => seq!['&', '&'],
            Infix::Either => seq!['|', '|'],
        }
    }

    /// The value of the operator on the values of its left and its right operand.
    pub open spec fn value(self, h: Answers, a: u64, b: u64) -> u64 {
        match self {
            Infix::Plus => apply2(h, Op2::Add, a, b),
            Infix::Minus => apply2(h, Op2::Sub, a, b),
            Infix::Times => apply2(h, Op2::Mul, a, b),
            Infix::Over => apply2(h, Op2::Div, a, b),
            Infix::Power => apply2(h, Op2::Pow, a, b),
            Infix::Below => truth(compares(h, Rel::Lt, a, b)),
            Infix::Above => truth(compares(h, Rel::Gt, a, b)),
            Infix::AtMost => truth(compares(h, Rel::Le, a, b)),
            Infix::AtLeast => truth(compares(h, Rel::Ge, a, b)),
            Infix::Same => truth(compares(h, Rel::Eq, a, b)),
            Infix::Differs => truth(compares(h, Rel::Ne, a, b)),
            Infix::Both => truth(is_true(h, a) && is_true(h, b)),
            Infix::Either => truth(is_true(h, a) || is_true(h, b)),
        }
    }

    /// How tightly the operator binds.
    pub open spec fn rank(self) -> int {
        match self {
            Infix::Either => 0,
            Infix::Both => 1,
            Infix::Below => 2,
            Infix::Above => 2,
            Infix::AtMost => 2,
            Infix::AtLeast => 2,
            Infix::Same => 2,
            Infix::Differs => 2,
            Infix::Plus => 3,
            Infix::Minus => 3,
            Infix::Times => 4,
            Infix::Over => 4,
            Infix::Power => 5,
        }
    }

    pub(crate) open spec fn token(self) -> TokView {
        match self {
            Infix::Plus => TokView::Op('+'),
            Infix::Minus => TokView::Op('-'),
            Infix::Times => TokView::Op('*'),
            Infix::Over => TokView::Op('/'),
            Infix::Power => TokView::Op('^'),
            Infix::Below => TokView::Rel(Rel::Lt),
            Infix::Above => TokView::Rel(Rel::Gt),
            Infix::AtMost => TokView::Rel(Rel::Le),
            Infix::AtLeast => TokView::Rel(Rel::Ge),
            Infix::Same => TokView::Rel(Rel::Eq),
            Infix::Differs => TokView::Rel(Rel::Ne),
            Infix::Both => TokView::Logic(false),
            Infix::Either => TokView::Logic(true),
        }
    }
}

// ---------------------------------------------------------------------------
// Operands.
// ---------------------------------------------------------------------------
/// A number made of digits.
pub open spec fn numeral(x: Seq<char>) -> bool {
    x.len() > 0 && forall|i: int| 0 <= i < x.len() ==> is_digit(#[trigger] x[i])
}

/// The name of a parameter.
pub open spec fn plain_name(x: Seq<char>) -> bool {
    &&& x.len() > 0
    &&& is_alpha(x[0]) || x[0] == '_'
    &&& forall|i: int| 0 <= i < x.len() ==> is_word(#[trigger] x[i])
}

/// A number or a parameter.
pub open spec fn operand(x: Seq<char>) -> bool {
    numeral(x) || plain_name(x)
}

/// A character that ends a number or a name.
pub(crate) open spec fn breaks(c: char) -> bool {
    !is_word(c) && c != '.'
}

pub(crate) open spec fn ends_at(s: Seq<char>, j: int) -> bool {
    j == s.len() || (j < s.len() && breaks(s[j]))
}

proof fn span_is(s: Seq<char>, i: int, j: int, p: spec_fn(char) -> bool)
    requires
        0 <= i <= j <= s.len(),
        forall|k: int| i <= k < j ==> p(#[trigger] s[k]),
        j == s.len() || !p(s[j]),
    ensures
        span_end(s, i, p) == j,
    decreases j - i,
{
    if i < j {
        span_is(s, i + 1, j, p);
    }
}

proof fn word_is(s: Seq<char>, i: int, j: int)
    requires
        0 <= i <= j <= s.len(),
        forall|k: int| i <= k < j ==> is_word(#[trigger] s[k]),
        ends_at(s, j),
    ensures
        ident_end(s, i) == j,
    decreases j - i,
{
    if i < j {
        word_is(s, i + 1, j);
    }
}

/// An operand that is read as a token.
#[verifier::opaque]
pub(crate) open spec fn lexable(h: Answers, x: Seq<char>) -> bool {
    operand(x) && !(numeral(x) && engineering(h, x) is None)
}

/// One token stands from `i` to `j`.
#[verifier::opaque]
pub(crate) open spec fn one(h: Answers, s: Seq<char>, i: int, t: TokView, j: int) -> bool {
    0 <= i < j <= s.len() && lex_one(h, s, i) == Ok::<(Seq<TokView>, int), Seq<char>>((seq![t], j))
}

/// The tokens from `i` on.
#[verifier::opaque]
pub(crate) open spec fn tokens(h: Answers, s: Seq<char>, i: int, t: Seq<TokView>) -> bool {
    lex_from(h, s, i) == Ok::<Seq<TokView>, Seq<char>>(t)
}

/// The text of an operator.
#[verifier::opaque]
pub(crate) open spec fn spells(op: Infix, o: Seq<char>) -> bool {
    o == op.text()
}

pub(crate) proof fn spelling(op: Infix)
    ensures
        spells(op, op.text()),
        1 <= op.text().len() <= 2,
{
    reveal(spells);
}

pub(crate) proof fn lexable_starts(h: Answers, x: Seq<char>)
    requires
        lexable(h, x),
    ensures
        x.len() > 0,
        is_word(x[0]),
{
    reveal(lexable);
}

/// The token of an operand.
#[verifier::opaque]
pub(crate) open spec fn token(h: Answers, x: Seq<char>) -> TokView {
    if numeral(x) {
        TokView::Num(engineering(h, x)->0)
    } else {
        TokView::Ident(x)
    }
}

/// An operand is one token wherever it stands.
pub(crate) proof fn operand_is_a_token(h: Answers, s: Seq<char>, i: int, x: Seq<char>)
    requires
        operand(x),
        0 <= i,
        i + x.len() <= s.len(),
        s.subrange(i, i + x.len()) == x,
        ends_at(s, i + x.len()),
    ensures
        !lexable(h, x) ==> lex_one(h, s, i) is Err,
        lexable(h, x) ==> one(h, s, i, token(h, x), i + x.len()),
{
    reveal(lexable);
    reveal(one);
    reveal(token);
    let j = i + x.len();
    assert forall|k: int| i <= k < j implies #[trigger] s[k] == x[k - i] by {
        assert(s.subrange(i, j)[k - i] == s[k]);
    }
    assert(s[i] == x[0]);
    if numeral(x) {
        assert(is_digit(x[0]));
        span_is(s, i, j, digit_or_dot());
        span_is(s, j, j, letters());
        assert(literal_end(s, i) == j);
        assert(!is_space(s[i]));
    } else {
        assert(is_word(x[0]));
        word_is(s, i, j);
        assert(!is_space(s[i]));
    }
}

pub(crate) proof fn operand_is_read(h: Answers, s: Seq<char>, i: int, x: Seq<char>)
    requires
        lexable(h, x),
        0 <= i,
        i + x.len() <= s.len(),
        s.subrange(i, i + x.len()) == x,
        ends_at(s, i + x.len()),
    ensures
        one(h, s, i, token(h, x), i + x.len()),
{
    assert(operand(x)) by {
        reveal(lexable);
    }
    operand_is_a_token(h, s, i, x);
}

/// What an operand alone evaluates to is what its token denotes.
proof fn operand_alone(h: Answers, env: Map<Seq<char>, u64>, x: Seq<char>, a: u64)
    requires
        operand(x),
        evaluated(h, env, x) == Ok::<u64, Seq<char>>(a),
    ensures
        lexable(h, x),
        denotes(env, token(h, x), a),
{
    reveal(one);
    reveal(token);
    assert(x.subrange(0, x.len() as int) =~= x);
    operand_is_a_token(h, x, 0, x);
    reveal_with_fuel(lex_from, 3);
    let t = seq![token(h, x)];
    assert(t + Seq::<TokView>::empty() =~= t);
    assert(lexed(h, x) is Ok);
    assert(lexed(h, x)->Ok_0 =~= t);
    let sc = Scope { h, env, t };
    assert(sc.ternary(0) is Ok);
    assert(sc.expr(0, 0) is Ok);
    assert(sc.atom(0) is Ok);
    let b = sc.atom(0)->Ok_0.0;
    expr_is(sc, 0, 0, b, 1);
    climb_ends(sc, b, 1, 0);
    ternary_is(sc, 0, b, 1);
}

/// The token of an operand denotes a value.
spec fn denotes(env: Map<Seq<char>, u64>, t: TokView, a: u64) -> bool {
    match t {
        TokView::Num(n) => n == a,
        TokView::Ident(n) => env.contains_key(lower(n)) && env[lower(n)] == a,
        _ => false,
    }
}

// ---------------------------------------------------------------------------
// Steps of the evaluation.
// ---------------------------------------------------------------------------
proof fn climb_ends(sc: Scope, lhs: u64, pos: int, min: int)
    requires
        0 <= pos <= sc.t.len(),
        pos == sc.t.len() || binding(sc.t[pos]) is None || (binding(sc.t[pos])->0).0 < min,
    ensures
        sc.climb(lhs, pos, min) == Ok::<(u64, int), Seq<char>>((lhs, pos)),
{
}

proof fn climb_goes_on(sc: Scope, lhs: u64, pos: int, min: int, op: Infix, rhs: u64, p: int)
    requires
        0 <= pos < p <= sc.t.len(),
        sc.t[pos] == op.token(),
        (binding(op.token())->0).0 >= min,
        sc.expr(pos + 1, (binding(op.token())->0).1) == Ok::<(u64, int), Seq<char>>((rhs, p)),
    ensures
        sc.climb(lhs, pos, min) == sc.climb(op.value(sc.h, lhs, rhs), p, min),
{
}

proof fn expr_is(sc: Scope, pos: int, min: int, a: u64, p: int)
    requires
        0 <= pos < p <= sc.t.len(),
        sc.atom(pos) == Ok::<(u64, int), Seq<char>>((a, p)),
    ensures
        sc.expr(pos, min) == sc.climb(a, p, min),
{
}

proof fn ternary_is(sc: Scope, pos: int, a: u64, p: int)
    requires
        sc.expr(pos, 0) == Ok::<(u64, int), Seq<char>>((a, p)),
        !sc.at(p, TokView::Question),
    ensures
        sc.ternary(pos) == Ok::<(u64, int), Seq<char>>((a, p)),
{
}

proof fn atom_is(sc: Scope, pos: int, a: u64)
    requires
        0 <= pos < sc.t.len(),
        denotes(sc.env, sc.t[pos], a),
        !sc.at(pos + 1, TokView::LParen),
    ensures
        sc.atom(pos) == Ok::<(u64, int), Seq<char>>((a, pos + 1)),
{
}

// ---------------------------------------------------------------------------
// Texts.
// ---------------------------------------------------------------------------
/// An operator is one token wherever an operand or a bracket follows.
proof fn operator_is_a_token(h: Answers, s: Seq<char>, i: int, op: Infix, o: Seq<char>)
    requires
        spells(op, o),
        0 <= i,
        i + o.len() < s.len(),
        s.subrange(i, i + o.len()) == o,
        is_word(s[i + o.len()]),
    ensures
        one(h, s, i, op.token(), i + o.len()),
        breaks(s[i]),
{
    reveal(spells);
    reveal(one);
    assert(s.subrange(i, i + o.len())[0] == s[i]);
    if o.len() == 2 {
        assert(s.subrange(i, i + o.len())[1] == s[i + 1]);
    }
}

/// The tokens from `i` on: one token and the tokens behind it.
pub(crate) proof fn lex_step(h: Answers, s: Seq<char>, i: int, t: TokView, j: int, rest: Seq<TokView>)
    requires
        one(h, s, i, t, j),
        tokens(h, s, j, rest),
    ensures
        tokens(h, s, i, seq![t] + rest),
{
    reveal(one);
    reveal(tokens);
}

pub(crate) proof fn pair_lexes(h: Answers, x: Seq<char>, op: Infix, o: Seq<char>, y: Seq<char>)
    requires
        spells(op, o),
        o.len() > 0,
        lexable(h, x),
        lexable(h, y),
    ensures
        lexed(h, x + o + y) == Ok::<Seq<TokView>, Seq<char>>(seq![token(h, x), op.token(), token(h, y)]),
{
    let s = x + o + y;
    let (p, q) = (x.len() as int, (x.len() + o.len()) as int);
    let n = s.len() as int;
    lexable_starts(h, x);
    lexable_starts(h, y);
    assert(s.subrange(0, p) =~= x);
    assert(s.subrange(p, q) =~= o);
    assert(s.subrange(q, n) =~= y);
    assert(s[q] == y[0]);
    operator_is_a_token(h, s, p, op, o);
    operand_is_read(h, s, 0, x);
    operand_is_read(h, s, q, y);
    lex_ends(h, s);
    let r3: Seq<TokView> = seq![];
    let r2 = seq![token(h, y)] + r3;
    let r1 = seq![op.token()] + r2;
    lex_step(h, s, q, token(h, y), n, r3);
    lex_step(h, s, p, op.token(), q, r2);
    lex_step(h, s, 0, token(h, x), p, r1);
    assert(seq![token(h, x)] + r1 =~= seq![token(h, x), op.token(), token(h, y)]);
    reveal(tokens);
}

/// The value of two operands with an operator between them is the operator on the
/// value of the left one and that of the right one, in this order.
pub proof fn operators_take_the_left_operand_first(
    h: Answers,
    env: Map<Seq<char>, u64>,
    x: Seq<char>,
    op: Infix,
    y: Seq<char>,
    a: u64,
    b: u64,
)
    requires
        operand(x),
        operand(y),
        evaluated(h, env, x) == Ok::<u64, Seq<char>>(a),
        evaluated(h, env, y) == Ok::<u64, Seq<char>>(b),
    ensures
        evaluated(h, env, x + op.text() + y) == Ok::<u64, Seq<char>>(op.value(h, a, b)),
{
    operand_alone(h, env, x, a);
    operand_alone(h, env, y, b);
    spelling(op);
    pair_lexes(h, x, op, op.text(), y);
    let t = seq![token(h, x), op.token(), token(h, y)];
    let sc = Scope { h, env, t };
    atom_is(sc, 0, a);
    atom_is(sc, 2, b);
    let c = op.value(h, a, b);
    let min = (binding(op.token())->0).1;
    expr_is(sc, 2, min, b, 3);
    climb_ends(sc, b, 3, min);
    expr_is(sc, 0, 0, a, 1);
    climb_goes_on(sc, a, 1, 0, op, b, 3);
    climb_ends(sc, c, 3, 0);
    ternary_is(sc, 0, c, 3);
}

/// What is subtracted can be added back: where the host computes without rounding,
/// `(x - y) + y` has the value of `x`.
pub proof fn adding_back_undoes_subtraction(
    r: Reading,
    h: Answers,
    env: Map<Seq<char>, u64>,
    x: Seq<char>,
    y: Seq<char>,
    a: u64,
    b: u64,
)
    requires
        r.exact(h),
        operand(x),
        operand(y),
        evaluated(h, env, x) == Ok::<u64, Seq<char>>(a),
        evaluated(h, env, y) == Ok::<u64, Seq<char>>(b),
        (r.number)(a),
        (r.number)(b),
        evaluated(h, env, x + seq!['-'] + y) is Ok,
        (r.number)(evaluated(h, env, x + seq!['-'] + y)->Ok_0),
        evaluated(h, env, seq!['('] + (x + seq!['-'] + y) + seq![')', '+'] + y) is Ok,
        (r.number)(evaluated(h, env, seq!['('] + (x + seq!['-'] + y) + seq![')', '+'] + y)->Ok_0),
    ensures
        (r.value)(evaluated(h, env, seq!['('] + (x + seq!['-'] + y) + seq![')', '+'] + y)->Ok_0) == (r.value)(a),
{
    operators_take_the_left_operand_first(h, env, x, Infix::Minus, y, a, b);
    brackets_come_first(h, env, x, Infix::Minus, y, Infix::Plus, y, a, b, b);
    assert(seq!['('] + (x + seq!['-'] + y) + seq![')', '+'] + y =~= seq!['('] + (x + seq!['-'] + y) + seq![')']
        + seq!['+'] + y);
    let d = apply2(h, Op2::Sub, a, b);
    r.subtracts(h, a, b);
    r.adds(h, d, b);
}

// ---------------------------------------------------------------------------
// Longer texts.
// ---------------------------------------------------------------------------
/// The token of a bracket, a comma or a mark of a choice.
pub(crate) open spec fn mark(c: char) -> TokView {
    if c == '(' {
        TokView::LParen
    } else if c == ')' {
        TokView::RParen
    } else if c == ',' {
        TokView::Comma
    } else if c == '?' {
        TokView::Question
    } else {
        TokView::Colon
    }
}

pub(crate) proof fn mark_is_a_token(h: Answers, s: Seq<char>, i: int, c: char)
    requires
        0 <= i < s.len(),
        s[i] == c,
        c == '(' || c == ')' || c == ',' || c == '?' || c == ':',
    ensures
        one(h, s, i, mark(c), i + 1),
        breaks(c),
{
    reveal(one);
}

pub(crate) proof fn lex_ends(h: Answers, s: Seq<char>)
    ensures
        tokens(h, s, s.len() as int, seq![]),
{
    reveal(tokens);
}

pub(crate) proof fn triple_lexes(
    h: Answers,
    x: Seq<char>,
    o: Infix,
    u: Seq<char>,
    y: Seq<char>,
    q: Infix,
    w: Seq<char>,
    z: Seq<char>,
)
    requires
        spells(o, u),
        spells(q, w),
        u.len() > 0,
        w.len() > 0,
        lexable(h, x),
        lexable(h, y),
        lexable(h, z),
    ensures
        lexed(h, x + u + y + w + z) == Ok::<Seq<TokView>, Seq<char>>(
            seq![token(h, x), o.token(), token(h, y), q.token(), token(h, z)],
        ),
{
    let s = x + u + y + w + z;
    let i1 = x.len() as int;
    let i2 = i1 + u.len();
    let i3 = i2 + y.len();
    let i4 = i3 + w.len();
    let n = s.len() as int;
    lexable_starts(h, x);
    lexable_starts(h, y);
    lexable_starts(h, z);
    assert(s.subrange(0, i1) =~= x);
    assert(s.subrange(i1, i2) =~= u);
    assert(s.subrange(i2, i3) =~= y);
    assert(s.subrange(i3, i4) =~= w);
    assert(s.subrange(i4, n) =~= z);
    assert(s[i2] == y[0] && s[i4] == z[0]);
    operator_is_a_token(h, s, i1, o, u);
    operator_is_a_token(h, s, i3, q, w);
    operand_is_read(h, s, 0, x);
    operand_is_read(h, s, i2, y);
    operand_is_read(h, s, i4, z);
    lex_ends(h, s);
    let r5: Seq<TokView> = seq![];
    let r4 = seq![token(h, z)] + r5;
    let r3 = seq![q.token()] + r4;
    let r2 = seq![token(h, y)] + r3;
    let r1 = seq![o.token()] + r2;
    lex_step(h, s, i4, token(h, z), n, r5);
    lex_step(h, s, i3, q.token(), i4, r4);
    lex_step(h, s, i2, token(h, y), i3, r3);
    lex_step(h, s, i1, o.token(), i2, r2);
    lex_step(h, s, 0, token(h, x), i1, r1);
    assert(seq![token(h, x)] + r1 =~= seq![token(h, x), o.token(), token(h, y), q.token(), token(h, z)]);
    reveal(tokens);
}

/// Of two operators the one that binds more tightly goes first; of two that bind
/// alike the left one does, but for powers, where it is the right one.
pub proof fn tighter_operators_go_first(
    h: Answers,
    env: Map<Seq<char>, u64>,
    x: Seq<char>,
    o: Infix,
    y: Seq<char>,
    q: Infix,
    z: Seq<char>,
    a: u64,
    b: u64,
    c: u64,
)
    requires
        operand(x),
        operand(y),
        operand(z),
        evaluated(h, env, x) == Ok::<u64, Seq<char>>(a),
        evaluated(h, env, y) == Ok::<u64, Seq<char>>(b),
        evaluated(h, env, z) == Ok::<u64, Seq<char>>(c),
    ensures
        evaluated(h, env, x + o.text() + y + q.text() + z) == Ok::<u64, Seq<char>>(
            if q.rank() > o.rank() || (o == Infix::Power && q == Infix::Power) {
                o.value(h, a, q.value(h, b, c))
            } else {
                q.value(h, o.value(h, a, b), c)
            },
        ),
{
    operand_alone(h, env, x, a);
    operand_alone(h, env, y, b);
    operand_alone(h, env, z, c);
    spelling(o);
    spelling(q);
    triple_lexes(h, x, o, o.text(), y, q, q.text(), z);
    let t = seq![token(h, x), o.token(), token(h, y), q.token(), token(h, z)];
    let sc = Scope { h, env, t };
    atom_is(sc, 0, a);
    atom_is(sc, 2, b);
    atom_is(sc, 4, c);
    let (mo, mq) = ((binding(o.token())->0).1, (binding(q.token())->0).1);
    expr_is(sc, 4, mq, c, 5);
    climb_ends(sc, c, 5, mq);
    expr_is(sc, 0, 0, a, 1);
    expr_is(sc, 2, mo, b, 3);
    if q.rank() > o.rank() || (o == Infix::Power && q == Infix::Power) {
        let d = q.value(h, b, c);
        climb_goes_on(sc, b, 3, mo, q, c, 5);
        climb_ends(sc, d, 5, mo);
        climb_goes_on(sc, a, 1, 0, o, d, 5);
        climb_ends(sc, o.value(h, a, d), 5, 0);
        ternary_is(sc, 0, o.value(h, a, d), 5);
    } else {
        let d = o.value(h, a, b);
        climb_ends(sc, b, 3, mo);
        climb_goes_on(sc, a, 1, 0, o, b, 3);
        climb_goes_on(sc, d, 3, 0, q, c, 5);
        climb_ends(sc, q.value(h, d, c), 5, 0);
        ternary_is(sc, 0, q.value(h, d, c), 5);
    }
}

proof fn bracketed_lexes(
    h: Answers,
    x: Seq<char>,
    o: Infix,
    u: Seq<char>,
    y: Seq<char>,
    q: Infix,
    w: Seq<char>,
    z: Seq<char>,
)
    requires
        spells(o, u),
        spells(q, w),
        u.len() > 0,
        w.len() > 0,
        lexable(h, x),
        lexable(h, y),
        lexable(h, z),
    ensures
        lexed(h, seq!['('] + (x + u + y) + seq![')'] + w + z) == Ok::<Seq<TokView>, Seq<char>>(
            seq![
                TokView::LParen,
                token(h, x),
                o.token(),
                token(h, y),
                TokView::RParen,
                q.token(),
                token(h, z),
            ],
        ),
{
    let s = seq!['('] + (x + u + y) + seq![')'] + w + z;
    let i0 = 1int;
    let i1 = i0 + x.len();
    let i2 = i1 + u.len();
    let i3 = i2 + y.len();
    let i4 = i3 + 1;
    let i5 = i4 + w.len();
    let n = s.len() as int;
    lexable_starts(h, x);
    lexable_starts(h, y);
    lexable_starts(h, z);
    assert(s.subrange(i0, i1) =~= x);
    assert(s.subrange(i1, i2) =~= u);
    assert(s.subrange(i2, i3) =~= y);
    assert(s.subrange(i4, i5) =~= w);
    assert(s.subrange(i5, n) =~= z);
    assert(s[i2] == y[0] && s[i5] == z[0] && s[0] == '(' && s[i3] == ')');
    mark_is_a_token(h, s, 0, '(');
    mark_is_a_token(h, s, i3, ')');
    operator_is_a_token(h, s, i1, o, u);
    operator_is_a_token(h, s, i4, q, w);
    operand_is_read(h, s, i0, x);
    operand_is_read(h, s, i2, y);
    operand_is_read(h, s, i5, z);
    lex_ends(h, s);
    let r7: Seq<TokView> = seq![];
    let r6 = seq![token(h, z)] + r7;
    let r5 = seq![q.token()] + r6;
    let r4 = seq![TokView::RParen] + r5;
    let r3 = seq![token(h, y)] + r4;
    let r2 = seq![o.token()] + r3;
    let r1 = seq![token(h, x)] + r2;
    lex_step(h, s, i5, token(h, z), n, r7);
    lex_step(h, s, i4, q.token(), i5, r6);
    lex_step(h, s, i3, TokView::RParen, i4, r5);
    lex_step(h, s, i2, token(h, y), i3, r4);
    lex_step(h, s, i1, o.token(), i2, r3);
    lex_step(h, s, i0, token(h, x), i1, r2);
    lex_step(h, s, 0, TokView::LParen, i0, r1);
    assert(seq![TokView::LParen] + r1 =~= seq![
        TokView::LParen,
        token(h, x),
        o.token(),
        token(h, y),
        TokView::RParen,
        q.token(),
        token(h, z),
    ]);
    reveal(tokens);
}

/// What stands in brackets goes first, whatever binds more tightly.
pub proof fn brackets_come_first(
    h: Answers,
    env: Map<Seq<char>, u64>,
    x: Seq<char>,
    o: Infix,
    y: Seq<char>,
    q: Infix,
    z: Seq<char>,
    a: u64,
    b: u64,
    c: u64,
)
    requires
        operand(x),
        operand(y),
        operand(z),
        evaluated(h, env, x) == Ok::<u64, Seq<char>>(a),
        evaluated(h, env, y) == Ok::<u64, Seq<char>>(b),
        evaluated(h, env, z) == Ok::<u64, Seq<char>>(c),
    ensures
        evaluated(h, env, seq!['('] + (x + o.text() + y) + seq![')'] + q.text() + z) == Ok::<u64, Seq<char>>(
            q.value(h, o.value(h, a, b), c),
        ),
{
    operand_alone(h, env, x, a);
    operand_alone(h, env, y, b);
    operand_alone(h, env, z, c);
    spelling(o);
    spelling(q);
    bracketed_lexes(h, x, o, o.text(), y, q, q.text(), z);
    let t = seq![
        TokView::LParen,
        token(h, x),
        o.token(),
        token(h, y),
        TokView::RParen,
        q.token(),
        token(h, z),
    ];
    let sc = Scope { h, env, t };
    let d = o.value(h, a, b);
    let e = q.value(h, d, c);
    let (mo, mq) = ((binding(o.token())->0).1, (binding(q.token())->0).1);
    atom_is(sc, 1, a);
    atom_is(sc, 3, b);
    atom_is(sc, 6, c);
    expr_is(sc, 3, mo, b, 4);
    climb_ends(sc, b, 4, mo);
    expr_is(sc, 1, 0, a, 2);
    climb_goes_on(sc, a, 2, 0, o, b, 4);
    climb_ends(sc, d, 4, 0);
    ternary_is(sc, 1, d, 4);
    assert(sc.atom(0) == Ok::<(u64, int), Seq<char>>((d, 5)));
    expr_is(sc, 0, 0, d, 5);
    expr_is(sc, 6, mq, c, 7);
    climb_ends(sc, c, 7, mq);
    climb_goes_on(sc, d, 5, 0, q, c, 7);
    climb_ends(sc, e, 7, 0);
    ternary_is(sc, 0, e, 7);
}

proof fn sign_is_a_token(h: Answers, s: Seq<char>, c: char, t: TokView)
    requires
        c == '-' && t == TokView::Op('-') || c == '+' && t == TokView::Op('+') || c == '!' && t == TokView::Not,
        s.len() > 1,
        s[0] == c,
        is_word(s[1]),
    ensures
        one(h, s, 0, t, 1),
{
    reveal(one);
}

pub(crate) proof fn signed_lexes(
    h: Answers,
    c: char,
    t: TokView,
    x: Seq<char>,
    o: Infix,
    w: Seq<char>,
    y: Seq<char>,
)
    requires
        spells(o, w),
        w.len() > 0,
        c == '-' && t == TokView::Op('-') || c == '+' && t == TokView::Op('+') || c == '!' && t == TokView::Not,
        lexable(h, x),
        lexable(h, y),
    ensures
        lexed(h, seq![c] + x + w + y) == Ok::<Seq<TokView>, Seq<char>>(
            seq![t, token(h, x), o.token(), token(h, y)],
        ),
        lexed(h, seq![c] + x) == Ok::<Seq<TokView>, Seq<char>>(seq![t, token(h, x)]),
{
    let s = seq![c] + x + w + y;
    let i0 = 1int;
    let i1 = i0 + x.len();
    let i2 = i1 + w.len();
    let n = s.len() as int;
    lexable_starts(h, x);
    lexable_starts(h, y);
    assert(s.subrange(i0, i1) =~= x);
    assert(s.subrange(i1, i2) =~= w);
    assert(s.subrange(i2, n) =~= y);
    assert(s[0] == c && s[1] == x[0] && s[i2] == y[0]);
    sign_is_a_token(h, s, c, t);
    operator_is_a_token(h, s, i1, o, w);
    operand_is_read(h, s, i0, x);
    operand_is_read(h, s, i2, y);
    lex_ends(h, s);
    let none: Seq<TokView> = seq![];
    let r3 = seq![token(h, y)] + none;
    let r2 = seq![o.token()] + r3;
    let r1 = seq![token(h, x)] + r2;
    lex_step(h, s, i2, token(h, y), n, none);
    lex_step(h, s, i1, o.token(), i2, r3);
    lex_step(h, s, i0, token(h, x), i1, r2);
    lex_step(h, s, 0, t, i0, r1);
    assert(seq![t] + r1 =~= seq![t, token(h, x), o.token(), token(h, y)]);
    let u = seq![c] + x;
    assert(u.subrange(1, u.len() as int) =~= x);
    assert(u[0] == c && u[1] == x[0]);
    sign_is_a_token(h, u, c, t);
    operand_is_read(h, u, 1, x);
    lex_ends(h, u);
    lex_step(h, u, 1, token(h, x), u.len() as int, none);
    lex_step(h, u, 0, t, 1, seq![token(h, x)] + none);
    assert(seq![t] + (seq![token(h, x)] + none) =~= seq![t, token(h, x)]);
    reveal(tokens);
}

/// The value of a sign or a negation on a value.
pub open spec fn signed(h: Answers, c: char, a: u64) -> u64 {
    if c == '-' {
        apply1(h, Op1::Neg, a)
    } else if c == '!' {
        truth(!is_true(h, a))
    } else {
        a
    }
}

/// A sign turns the value of its operand round, and `!` its truth. Both bind more
/// tightly than every operator but the power.
pub proof fn signs_bind_below_powers(
    h: Answers,
    env: Map<Seq<char>, u64>,
    c: char,
    x: Seq<char>,
    o: Infix,
    y: Seq<char>,
    a: u64,
    b: u64,
)
    requires
        c == '-' || c == '+' || c == '!',
        operand(x),
        operand(y),
        evaluated(h, env, x) == Ok::<u64, Seq<char>>(a),
        evaluated(h, env, y) == Ok::<u64, Seq<char>>(b),
    ensures
        evaluated(h, env, seq![c] + x) == Ok::<u64, Seq<char>>(signed(h, c, a)),
        evaluated(h, env, seq![c] + x + o.text() + y) == Ok::<u64, Seq<char>>(
            if o == Infix::Power {
                signed(h, c, o.value(h, a, b))
            } else {
                o.value(h, signed(h, c, a), b)
            },
        ),
{
    operand_alone(h, env, x, a);
    operand_alone(h, env, y, b);
    let first = if c == '!' {
        TokView::Not
    } else {
        TokView::Op(c)
    };
    spelling(o);
    signed_lexes(h, c, first, x, o, o.text(), y);
    let short = Scope { h, env, t: seq![first, token(h, x)] };
    atom_is(short, 1, a);
    expr_is(short, 1, 13, a, 2);
    climb_ends(short, a, 2, 13);
    assert(short.atom(0) == Ok::<(u64, int), Seq<char>>((signed(h, c, a), 2)));
    expr_is(short, 0, 0, signed(h, c, a), 2);
    climb_ends(short, signed(h, c, a), 2, 0);
    ternary_is(short, 0, signed(h, c, a), 2);
    let sc = Scope { h, env, t: seq![first, token(h, x), o.token(), token(h, y)] };
    let mo = (binding(o.token())->0).1;
    atom_is(sc, 1, a);
    atom_is(sc, 3, b);
    expr_is(sc, 3, mo, b, 4);
    climb_ends(sc, b, 4, mo);
    expr_is(sc, 1, 13, a, 2);
    if o == Infix::Power {
        let d = o.value(h, a, b);
        climb_goes_on(sc, a, 2, 13, o, b, 4);
        climb_ends(sc, d, 4, 13);
        assert(sc.atom(0) == Ok::<(u64, int), Seq<char>>((signed(h, c, d), 4)));
        expr_is(sc, 0, 0, signed(h, c, d), 4);
        climb_ends(sc, signed(h, c, d), 4, 0);
        ternary_is(sc, 0, signed(h, c, d), 4);
    } else {
        let d = signed(h, c, a);
        climb_ends(sc, a, 2, 13);
        assert(sc.atom(0) == Ok::<(u64, int), Seq<char>>((d, 2)));
        expr_is(sc, 0, 0, d, 2);
        climb_goes_on(sc, d, 2, 0, o, b, 4);
        climb_ends(sc, o.value(h, d, b), 4, 0);
        ternary_is(sc, 0, o.value(h, d, b), 4);
    }
}

proof fn choice_lexes(h: Answers, x: Seq<char>, y: Seq<char>, z: Seq<char>)
    requires
        lexable(h, x),
        lexable(h, y),
        lexable(h, z),
    ensures
        lexed(h, x + seq!['?'] + y + seq![':'] + z) == Ok::<Seq<TokView>, Seq<char>>(
            seq![token(h, x), TokView::Question, token(h, y), TokView::Colon, token(h, z)],
        ),
{
    let s = x + seq!['?'] + y + seq![':'] + z;
    let i1 = x.len() as int;
    let i2 = i1 + 1;
    let i3 = i2 + y.len();
    let i4 = i3 + 1;
    let n = s.len() as int;
    lexable_starts(h, x);
    lexable_starts(h, y);
    lexable_starts(h, z);
    assert(s.subrange(0, i1) =~= x);
    assert(s.subrange(i2, i3) =~= y);
    assert(s.subrange(i4, n) =~= z);
    assert(s[i1] == '?' && s[i3] == ':');
    mark_is_a_token(h, s, i1, '?');
    mark_is_a_token(h, s, i3, ':');
    operand_is_read(h, s, 0, x);
    operand_is_read(h, s, i2, y);
    operand_is_read(h, s, i4, z);
    lex_ends(h, s);
    let r5: Seq<TokView> = seq![];
    let r4 = seq![token(h, z)] + r5;
    let r3 = seq![TokView::Colon] + r4;
    let r2 = seq![token(h, y)] + r3;
    let r1 = seq![TokView::Question] + r2;
    lex_step(h, s, i4, token(h, z), n, r5);
    lex_step(h, s, i3, TokView::Colon, i4, r4);
    lex_step(h, s, i2, token(h, y), i3, r3);
    lex_step(h, s, i1, TokView::Question, i2, r2);
    lex_step(h, s, 0, token(h, x), i1, r1);
    assert(seq![token(h, x)] + r1 =~= seq![
        token(h, x),
        TokView::Question,
        token(h, y),
        TokView::Colon,
        token(h, z),
    ]);
    reveal(tokens);
}

proof fn alone_is(sc: Scope, pos: int, a: u64)
    requires
        0 <= pos < sc.t.len(),
        denotes(sc.env, sc.t[pos], a),
        pos + 1 == sc.t.len() || (binding(sc.t[pos + 1]) is None && sc.t[pos + 1] != TokView::LParen),
    ensures
        sc.expr(pos, 0) == Ok::<(u64, int), Seq<char>>((a, pos + 1)),
        pos + 1 == sc.t.len() || sc.t[pos + 1] != TokView::Question ==> sc.ternary(pos) == Ok::<
            (u64, int),
            Seq<char>,
        >((a, pos + 1)),
{
    atom_is(sc, pos, a);
    expr_is(sc, pos, 0, a, pos + 1);
    climb_ends(sc, a, pos + 1, 0);
    if pos + 1 == sc.t.len() || sc.t[pos + 1] != TokView::Question {
        ternary_is(sc, pos, a, pos + 1);
    }
}

/// `x ? y : z` has the value of `y` where that of `x` is not zero, else that of `z`.
pub proof fn choices_go_by_the_condition(
    h: Answers,
    env: Map<Seq<char>, u64>,
    x: Seq<char>,
    y: Seq<char>,
    z: Seq<char>,
    a: u64,
    b: u64,
    c: u64,
)
    requires
        operand(x),
        operand(y),
        operand(z),
        evaluated(h, env, x) == Ok::<u64, Seq<char>>(a),
        evaluated(h, env, y) == Ok::<u64, Seq<char>>(b),
        evaluated(h, env, z) == Ok::<u64, Seq<char>>(c),
    ensures
        evaluated(h, env, x + seq!['?'] + y + seq![':'] + z) == Ok::<u64, Seq<char>>(
            if is_true(h, a) {
                b
            } else {
                c
            },
        ),
{
    operand_alone(h, env, x, a);
    operand_alone(h, env, y, b);
    operand_alone(h, env, z, c);
    choice_lexes(h, x, y, z);
    let t = seq![token(h, x), TokView::Question, token(h, y), TokView::Colon, token(h, z)];
    let sc = Scope { h, env, t };
    alone_is(sc, 0, a);
    alone_is(sc, 2, b);
    alone_is(sc, 4, c);
    assert(sc.ternary(0) is Ok);
}

// ---------------------------------------------------------------------------
// Calls.
// ---------------------------------------------------------------------------
/// A function that a call may name.
pub enum Named {
    Sine,
    Cosine,
    Tangent,
    ArcSine,
    ArcCosine,
    ArcTangent,
    Exponential,
    NaturalLog,
    CommonLog,
    CommonLogTen,
    Root,
    Size,
}

impl Named {
    pub open spec fn text(self) -> Seq<char> {
        match self {
            Named::Sine => "sin"@,
            Named::Cosine => "cos"@,
            Named::Tangent => "tan"@,
            Named::ArcSine => "asin"@,
            Named::ArcCosine => "acos"@,
            Named::ArcTangent => "atan"@,
            Named::Exponential => "exp"@,
            Named::NaturalLog => "ln"@,
            Named::CommonLog => "log"@,
            Named::CommonLogTen => "log10"@,
            Named::Root => "sqrt"@,
            Named::Size => "abs"@,
        }
    }

    /// What the function is on numbers.
    pub open spec fn op(self) -> Op1 {
        match self {
            Named::Sine => Op1::Sin,
            Named::Cosine => Op1::Cos,
            Named::Tangent => Op1::Tan,
            Named::ArcSine => Op1::Asin,
            Named::ArcCosine => Op1::Acos,
            Named::ArcTangent => Op1::Atan,
            Named::Exponential => Op1::Exp,
            Named::NaturalLog => Op1::Ln,
            Named::CommonLog => Op1::Log10,
            Named::CommonLogTen => Op1::Log10,
            Named::Root => Op1::Sqrt,
            Named::Size => Op1::Abs,
        }
    }
}

/// What tells the names apart: their length and their first two letters.
spec fn code(n: Seq<char>) -> (nat, char, char) {
    (n.len(), n[0], n[1])
}

proof fn codes()
    ensures
        code("sin"@) == (3nat, 's', 'i'),
        code("cos"@) == (3nat, 'c', 'o'),
        code("tan"@) == (3nat, 't', 'a'),
        code("asin"@) == (4nat, 'a', 's'),
        code("acos"@) == (4nat, 'a', 'c'),
        code("atan"@) == (4nat, 'a', 't'),
        code("exp"@) == (3nat, 'e', 'x'),
        code("ln"@) == (2nat, 'l', 'n'),
        code("log"@) == (3nat, 'l', 'o'),
        code("log10"@) == (5nat, 'l', 'o'),
        code("sqrt"@) == (4nat, 's', 'q'),
        code("abs"@) == (3nat, 'a', 'b'),
        code("pow"@) == (3nat, 'p', 'o'),
        code("pwr"@) == (3nat, 'p', 'w'),
        code("min"@) == (3nat, 'm', 'i'),
        code("max"@) == (3nat, 'm', 'a'),
        code("if"@) == (2nat, 'i', 'f'),
        code("agauss"@) == (6nat, 'a', 'g'),
        code("gauss"@) == (5nat, 'g', 'a'),
        code("aunif"@) == (5nat, 'a', 'u'),
        code("unif"@) == (4nat, 'u', 'n'),
        code("limit"@) == (5nat, 'l', 'i'),
{
    reveal_strlit("sin");
    reveal_strlit("cos");
    reveal_strlit("tan");
    reveal_strlit("asin");
    reveal_strlit("acos");
    reveal_strlit("atan");
    reveal_strlit("exp");
    reveal_strlit("ln");
    reveal_strlit("log");
    reveal_strlit("log10");
    reveal_strlit("sqrt");
    reveal_strlit("abs");
    reveal_strlit("pow");
    reveal_strlit("pwr");
    reveal_strlit("min");
    reveal_strlit("max");
    reveal_strlit("if");
    reveal_strlit("agauss");
    reveal_strlit("gauss");
    reveal_strlit("aunif");
    reveal_strlit("unif");
    reveal_strlit("limit");
}

proof fn name_is_known(f: Named)
    ensures
        function1(f.text()) == Some(f.op()),
        f.text() != "if"@,
{
    codes();
}

proof fn call_lexes(h: Answers, f: Seq<char>, x: Seq<char>)
    requires
        plain_name(f),
        lexable(h, x),
    ensures
        lexed(h, f + seq!['('] + x + seq![')']) == Ok::<Seq<TokView>, Seq<char>>(
            seq![TokView::Ident(f), TokView::LParen, token(h, x), TokView::RParen],
        ),
{
    let s = f + seq!['('] + x + seq![')'];
    let i1 = f.len() as int;
    let i2 = i1 + 1;
    let i3 = i2 + x.len();
    let n = s.len() as int;
    lexable_starts(h, x);
    assert(s.subrange(0, i1) =~= f);
    assert(s.subrange(i2, i3) =~= x);
    assert(s[i1] == '(' && s[i3] == ')');
    mark_is_a_token(h, s, i1, '(');
    mark_is_a_token(h, s, i3, ')');
    name_is_read(h, s, f);
    operand_is_read(h, s, i2, x);
    lex_ends(h, s);
    let r4: Seq<TokView> = seq![];
    let r3 = seq![TokView::RParen] + r4;
    let r2 = seq![token(h, x)] + r3;
    let r1 = seq![TokView::LParen] + r2;
    lex_step(h, s, i3, TokView::RParen, n, r4);
    lex_step(h, s, i2, token(h, x), i3, r3);
    lex_step(h, s, i1, TokView::LParen, i2, r2);
    lex_step(h, s, 0, TokView::Ident(f), i1, r1);
    assert(seq![TokView::Ident(f)] + r1 =~= seq![
        TokView::Ident(f),
        TokView::LParen,
        token(h, x),
        TokView::RParen,
    ]);
    reveal(tokens);
}

pub(crate) proof fn name_is_read(h: Answers, s: Seq<char>, f: Seq<char>)
    requires
        plain_name(f),
        f.len() < s.len(),
        s.subrange(0, f.len() as int) == f,
        s[f.len() as int] == '(',
    ensures
        one(h, s, 0, TokView::Ident(f), f.len() as int),
{
    assert(!numeral(f)) by {
        assert(is_word(f[0]));
        assert(numeral(f) ==> is_digit(f[0]));
    }
    assert(lexable(h, f)) by {
        reveal(lexable);
    }
    operand_is_read(h, s, 0, f);
    reveal(token);
}

/// A call of a function of one argument, in whatever case its name is written, has
/// the value of the function on the value of the argument.
pub proof fn calls_go_by_name(
    h: Answers,
    env: Map<Seq<char>, u64>,
    f: Named,
    name: Seq<char>,
    x: Seq<char>,
    a: u64,
)
    requires
        plain_name(name),
        lower(name) == f.text(),
        operand(x),
        evaluated(h, env, x) == Ok::<u64, Seq<char>>(a),
    ensures
        evaluated(h, env, name + seq!['('] + x + seq![')']) == Ok::<u64, Seq<char>>(apply1(h, f.op(), a)),
{
    operand_alone(h, env, x, a);
    call_lexes(h, name, x);
    name_is_known(f);
    let sc = Scope { h, env, t: seq![TokView::Ident(name), TokView::LParen, token(h, x), TokView::RParen] };
    alone_is(sc, 2, a);
    assert(!sc.at(2, TokView::RParen));
    let none: Seq<u64> = seq![];
    assert(none.push(a) =~= seq![a]);
    assert(sc.args(2, none) == Ok::<(Seq<u64>, int), Seq<char>>((seq![a], 4)));
    let v = apply1(h, f.op(), a);
    assert(called(h, lower(name), seq![a]) == Ok::<u64, Seq<char>>(v));
    assert(sc.atom(0) == Ok::<(u64, int), Seq<char>>((v, 4)));
    expr_is(sc, 0, 0, v, 4);
    climb_ends(sc, v, 4, 0);
    ternary_is(sc, 0, v, 4);
}

/// The functions of two arguments, and those that choose among theirs: `pow` and
/// `pwr` raise the first to the second, `min` and `max` pick, `if` goes by its first,
/// and a statistical function is nominally its first argument.
pub proof fn calls_of_more_arguments(h: Answers, a: Seq<u64>)
    ensures
        a.len() == 2 ==> called(h, "pow"@, a) == Ok::<u64, Seq<char>>(apply2(h, Op2::Pow, a[0], a[1])),
        a.len() == 2 ==> called(h, "pwr"@, a) == Ok::<u64, Seq<char>>(apply2(h, Op2::Pow, a[0], a[1])),
        a.len() == 2 ==> called(h, "min"@, a) == Ok::<u64, Seq<char>>(apply2(h, Op2::Min, a[0], a[1])),
        a.len() == 2 ==> called(h, "max"@, a) == Ok::<u64, Seq<char>>(apply2(h, Op2::Max, a[0], a[1])),
        a.len() == 3 ==> called(h, "if"@, a) == Ok::<u64, Seq<char>>(
            if is_true(h, a[0]) {
                a[1]
            } else {
                a[2]
            },
        ),
        a.len() > 0 ==> called(h, "agauss"@, a) == Ok::<u64, Seq<char>>(a[0]),
        a.len() > 0 ==> called(h, "gauss"@, a) == Ok::<u64, Seq<char>>(a[0]),
        a.len() > 0 ==> called(h, "aunif"@, a) == Ok::<u64, Seq<char>>(a[0]),
        a.len() > 0 ==> called(h, "unif"@, a) == Ok::<u64, Seq<char>>(a[0]),
        a.len() > 0 ==> called(h, "limit"@, a) == Ok::<u64, Seq<char>>(a[0]),
{
    no_such_function("pow"@);
    no_such_function("pwr"@);
    no_such_function("min"@);
    no_such_function("max"@);
    no_such_function("if"@);
    no_such_function("agauss"@);
    no_such_function("gauss"@);
    no_such_function("aunif"@);
    no_such_function("unif"@);
    no_such_function("limit"@);
    codes();
}

/// None of these is a function of one argument.
proof fn no_such_function(n: Seq<char>)
    requires
        n == "pow"@ || n == "pwr"@ || n == "min"@ || n == "max"@ || n == "if"@ || n == "agauss"@ || n == "gauss"@ || n
            == "aunif"@ || n == "unif"@ || n == "limit"@,
    ensures
        function1(n) is None,
{
    codes();
}

} // verus!

//! What behavioral right-hand sides denote, from their text: the operators on their
//! operands, and the voltages between nodes.
use crate::circuit::BTerm;
use crate::dae::assemble::{translated, volt};
use crate::dae::meaning::{Env, Meaning};
use crate::dae::reading::Functions;
use crate::netlist::behavioral::{b_binding, behavioral_of, BScope};
use crate::netlist::expr::{is_word, lexed, TokView};
use crate::netlist::nodes::NodesView;
use crate::netlist::values::{
    lex_ends, lex_step, lexable, lexable_starts, mark_is_a_token, name_is_read, numeral, operand,
    operand_is_a_token, operand_is_read, pair_lexes, plain_name, signed_lexes, spelling, token, tokens, triple_lexes, Infix,
};
use crate::numerics::Answers;
use crate::symbolic::Graph;
use crate::text::{is_digit, lower};
use vstd::prelude::*;

verus! {

/// How a formula writes an operator; it has no logic.
pub open spec fn written(op: Infix) -> char {
    match op {
        Infix::Plus => '+',
        Infix::Minus => '-',
        Infix::Times => '*',
        Infix::Over => '/',
        Infix::Power => '^',
        Infix::Below => '<',
        Infix::Above => '>',
        Infix::AtMost => 'l',
        Infix::AtLeast => 'g',
        Infix::Same => 'e',
        Infix::Differs => 'n',
        _ => '?',
    }
}

pub open spec fn formal(op: Infix) -> bool {
    op != Infix::Both && op != Infix::Either
}

pub open spec fn joined_by(op: Infix, a: BTerm, b: BTerm) -> BTerm {
    BTerm::Bin(written(op), Box::new(a), Box::new(b))
}

// ---------------------------------------------------------------------------
// Steps of the parse.
// ---------------------------------------------------------------------------
proof fn climb_ends(sc: BScope, nodes: NodesView, lhs: BTerm, pos: int, min: int)
    requires
        0 <= pos <= sc.t.len(),
        pos == sc.t.len() || b_binding(sc.t[pos]) is None || (b_binding(sc.t[pos])->0).0 < min,
    ensures
        sc.climb(nodes, lhs, pos, min) == Ok::<(BTerm, int, NodesView), Seq<char>>((lhs, pos, nodes)),
{
}

proof fn climb_goes_on(
    sc: BScope,
    nodes: NodesView,
    lhs: BTerm,
    pos: int,
    min: int,
    op: Infix,
    rhs: BTerm,
    p: int,
)
    requires
        formal(op),
        0 <= pos < p <= sc.t.len(),
        sc.t[pos] == op.token(),
        (b_binding(op.token())->0).0 >= min,
        sc.expr(nodes, pos + 1, (b_binding(op.token())->0).1) == Ok::<(BTerm, int, NodesView), Seq<char>>(
            (rhs, p, nodes),
        ),
    ensures
        sc.climb(nodes, lhs, pos, min) == sc.climb(nodes, joined_by(op, lhs, rhs), p, min),
{
}

proof fn expr_is(sc: BScope, nodes: NodesView, pos: int, min: int, a: BTerm, p: int)
    requires
        0 <= pos < p <= sc.t.len(),
        sc.atom(nodes, pos) == Ok::<(BTerm, int, NodesView), Seq<char>>((a, p, nodes)),
    ensures
        sc.expr(nodes, pos, min) == sc.climb(nodes, a, p, min),
{
}

/// The leaf that an operand is.
spec fn leaf(t: TokView) -> BTerm {
    match t {
        TokView::Num(n) => BTerm::Const(n),
        TokView::Ident(n) => BTerm::Param(n),
        _ => BTerm::Const(0),
    }
}

spec fn leafy(t: TokView) -> bool {
    t is Num || t is Ident
}

proof fn atom_is(sc: BScope, nodes: NodesView, pos: int)
    requires
        0 <= pos < sc.t.len(),
        leafy(sc.t[pos]),
        !sc.at(pos + 1, TokView::LParen),
    ensures
        sc.atom(nodes, pos) == Ok::<(BTerm, int, NodesView), Seq<char>>((leaf(sc.t[pos]), pos + 1, nodes)),
{
}

/// What an operand alone denotes is its leaf.
proof fn operand_alone(h: Answers, nodes: NodesView, x: Seq<char>, a: BTerm, m: NodesView)
    requires
        operand(x),
        behavioral_of(h, nodes, x) == Ok::<(BTerm, NodesView), Seq<char>>((a, m)),
    ensures
        lexable(h, x),
        leafy(token(h, x)),
        a == leaf(token(h, x)),
        m == nodes,
{
    assert(x.subrange(0, x.len() as int) =~= x);
    operand_is_a_token(h, x, 0, x);
    if !lexable(h, x) {
        assert(lexed(h, x) is Err);
    }
    lex_ends(h, x);
    let none: Seq<TokView> = seq![];
    lex_step(h, x, 0, token(h, x), x.len() as int, none);
    let t = seq![token(h, x)];
    assert(t + none =~= t);
    assert(lexed(h, x) == Ok::<Seq<TokView>, Seq<char>>(t)) by {
        reveal(tokens);
    }
    assert(leafy(token(h, x))) by {
        reveal(token);
    }
    let sc = BScope { h, t };
    atom_is(sc, nodes, 0);
    expr_is(sc, nodes, 0, 0, leaf(t[0]), 1);
    climb_ends(sc, nodes, leaf(t[0]), 1, 0);
}

/// Two operands with an operator between them denote the operator on the left one and
/// the right one, in this order.
pub proof fn drives_take_the_left_operand_first(
    h: Answers,
    nodes: NodesView,
    x: Seq<char>,
    op: Infix,
    y: Seq<char>,
    a: BTerm,
    b: BTerm,
)
    requires
        formal(op),
        operand(x),
        operand(y),
        behavioral_of(h, nodes, x) == Ok::<(BTerm, NodesView), Seq<char>>((a, nodes)),
        behavioral_of(h, nodes, y) == Ok::<(BTerm, NodesView), Seq<char>>((b, nodes)),
    ensures
        behavioral_of(h, nodes, x + op.text() + y) == Ok::<(BTerm, NodesView), Seq<char>>((joined_by(op, a, b), nodes)),
{
    operand_alone(h, nodes, x, a, nodes);
    operand_alone(h, nodes, y, b, nodes);
    spelling(op);
    pair_lexes(h, x, op, op.text(), y);
    let t = seq![token(h, x), op.token(), token(h, y)];
    let sc = BScope { h, t };
    let min = (b_binding(op.token())->0).1;
    atom_is(sc, nodes, 0);
    atom_is(sc, nodes, 2);
    expr_is(sc, nodes, 2, min, b, 3);
    climb_ends(sc, nodes, b, 3, min);
    expr_is(sc, nodes, 0, 0, a, 1);
    climb_goes_on(sc, nodes, a, 1, 0, op, b, 3);
    climb_ends(sc, nodes, joined_by(op, a, b), 3, 0);
}

/// Of two operators the one that binds more tightly goes first; of two that bind
/// alike the left one does, but for powers, where it is the right one.
pub proof fn tighter_operators_drive_first(
    h: Answers,
    nodes: NodesView,
    x: Seq<char>,
    o: Infix,
    y: Seq<char>,
    q: Infix,
    z: Seq<char>,
    a: BTerm,
    b: BTerm,
    c: BTerm,
)
    requires
        formal(o),
        formal(q),
        operand(x),
        operand(y),
        operand(z),
        behavioral_of(h, nodes, x) == Ok::<(BTerm, NodesView), Seq<char>>((a, nodes)),
        behavioral_of(h, nodes, y) == Ok::<(BTerm, NodesView), Seq<char>>((b, nodes)),
        behavioral_of(h, nodes, z) == Ok::<(BTerm, NodesView), Seq<char>>((c, nodes)),
    ensures
        behavioral_of(h, nodes, x + o.text() + y + q.text() + z) == Ok::<(BTerm, NodesView), Seq<char>>(
            (
                if q.rank() > o.rank() || (o == Infix::Power && q == Infix::Power) {
                    joined_by(o, a, joined_by(q, b, c))
                } else {
                    joined_by(q, joined_by(o, a, b), c)
                },
                nodes,
            ),
        ),
{
    operand_alone(h, nodes, x, a, nodes);
    operand_alone(h, nodes, y, b, nodes);
    operand_alone(h, nodes, z, c, nodes);
    spelling(o);
    spelling(q);
    triple_lexes(h, x, o, o.text(), y, q, q.text(), z);
    let t = seq![token(h, x), o.token(), token(h, y), q.token(), token(h, z)];
    let sc = BScope { h, t };
    ranks_are_bindings(o, q);
    if q.rank() > o.rank() || (o == Infix::Power && q == Infix::Power) {
        right_goes_first(sc, nodes, o, q, a, b, c);
    } else {
        left_goes_first(sc, nodes, o, q, a, b, c);
    }
}

proof fn ranks_are_bindings(o: Infix, q: Infix)
    requires
        formal(o),
        formal(q),
    ensures
        b_binding(o.token()) is Some && b_binding(q.token()) is Some,
        (b_binding(o.token())->0).0 >= 0,
        (b_binding(q.token())->0).0 >= 0,
        (q.rank() > o.rank() || (o == Infix::Power && q == Infix::Power)) <==> (b_binding(q.token())->0).0 >= (
        b_binding(o.token())->0).1,
{
}

/// Three operands and two operators.
spec fn chain(sc: BScope, o: Infix, q: Infix, a: BTerm, b: BTerm, c: BTerm) -> bool {
    &&& sc.t.len() == 5
    &&& sc.t[1] == o.token() && sc.t[3] == q.token()
    &&& leafy(sc.t[0]) && leafy(sc.t[2]) && leafy(sc.t[4])
    &&& a == leaf(sc.t[0]) && b == leaf(sc.t[2]) && c == leaf(sc.t[4])
    &&& b_binding(o.token()) is Some && b_binding(q.token()) is Some
    &&& (b_binding(o.token())->0).0 >= 0 && (b_binding(q.token())->0).0 >= 0
}

proof fn right_goes_first(sc: BScope, nodes: NodesView, o: Infix, q: Infix, a: BTerm, b: BTerm, c: BTerm)
    requires
        formal(o),
        formal(q),
        chain(sc, o, q, a, b, c),
        (b_binding(q.token())->0).0 >= (b_binding(o.token())->0).1,
    ensures
        sc.expr(nodes, 0, 0) == Ok::<(BTerm, int, NodesView), Seq<char>>((joined_by(o, a, joined_by(q, b, c)), 5, nodes)),
{
    let (mo, mq) = ((b_binding(o.token())->0).1, (b_binding(q.token())->0).1);
    let d = joined_by(q, b, c);
    atom_is(sc, nodes, 0);
    atom_is(sc, nodes, 2);
    atom_is(sc, nodes, 4);
    expr_is(sc, nodes, 4, mq, c, 5);
    climb_ends(sc, nodes, c, 5, mq);
    expr_is(sc, nodes, 2, mo, b, 3);
    climb_goes_on(sc, nodes, b, 3, mo, q, c, 5);
    climb_ends(sc, nodes, d, 5, mo);
    expr_is(sc, nodes, 0, 0, a, 1);
    climb_goes_on(sc, nodes, a, 1, 0, o, d, 5);
    climb_ends(sc, nodes, joined_by(o, a, d), 5, 0);
}

proof fn left_goes_first(sc: BScope, nodes: NodesView, o: Infix, q: Infix, a: BTerm, b: BTerm, c: BTerm)
    requires
        formal(o),
        formal(q),
        chain(sc, o, q, a, b, c),
        (b_binding(q.token())->0).0 < (b_binding(o.token())->0).1,
    ensures
        sc.expr(nodes, 0, 0) == Ok::<(BTerm, int, NodesView), Seq<char>>((joined_by(q, joined_by(o, a, b), c), 5, nodes)),
{
    let (mo, mq) = ((b_binding(o.token())->0).1, (b_binding(q.token())->0).1);
    let d = joined_by(o, a, b);
    atom_is(sc, nodes, 0);
    atom_is(sc, nodes, 2);
    atom_is(sc, nodes, 4);
    expr_is(sc, nodes, 4, mq, c, 5);
    climb_ends(sc, nodes, c, 5, mq);
    expr_is(sc, nodes, 2, mo, b, 3);
    climb_ends(sc, nodes, b, 3, mo);
    expr_is(sc, nodes, 0, 0, a, 1);
    climb_goes_on(sc, nodes, a, 1, 0, o, b, 3);
    climb_goes_on(sc, nodes, d, 3, 0, q, c, 5);
    climb_ends(sc, nodes, joined_by(q, d, c), 5, 0);
}

/// A sign binds more tightly than every operator but the power.
pub proof fn signs_drive_below_powers(
    h: Answers,
    nodes: NodesView,
    x: Seq<char>,
    o: Infix,
    y: Seq<char>,
    a: BTerm,
    b: BTerm,
)
    requires
        formal(o),
        operand(x),
        operand(y),
        behavioral_of(h, nodes, x) == Ok::<(BTerm, NodesView), Seq<char>>((a, nodes)),
        behavioral_of(h, nodes, y) == Ok::<(BTerm, NodesView), Seq<char>>((b, nodes)),
    ensures
        behavioral_of(h, nodes, seq!['-'] + x + o.text() + y) == Ok::<(BTerm, NodesView), Seq<char>>(
            (
                if o == Infix::Power {
                    BTerm::Neg(Box::new(joined_by(o, a, b)))
                } else {
                    joined_by(o, BTerm::Neg(Box::new(a)), b)
                },
                nodes,
            ),
        ),
{
    operand_alone(h, nodes, x, a, nodes);
    operand_alone(h, nodes, y, b, nodes);
    spelling(o);
    signed_lexes(h, '-', TokView::Op('-'), x, o, o.text(), y);
    let sc = BScope { h, t: seq![TokView::Op('-'), token(h, x), o.token(), token(h, y)] };
    let mo = (b_binding(o.token())->0).1;
    atom_is(sc, nodes, 1);
    atom_is(sc, nodes, 3);
    expr_is(sc, nodes, 3, mo, b, 4);
    climb_ends(sc, nodes, b, 4, mo);
    expr_is(sc, nodes, 1, 7, a, 2);
    if o == Infix::Power {
        let d = joined_by(o, a, b);
        let n = BTerm::Neg(Box::new(d));
        climb_goes_on(sc, nodes, a, 2, 7, o, b, 4);
        climb_ends(sc, nodes, d, 4, 7);
        assert(sc.atom(nodes, 0) == Ok::<(BTerm, int, NodesView), Seq<char>>((n, 4, nodes)));
        expr_is(sc, nodes, 0, 0, n, 4);
        climb_ends(sc, nodes, n, 4, 0);
    } else {
        let n = BTerm::Neg(Box::new(a));
        climb_ends(sc, nodes, a, 2, 7);
        assert(sc.atom(nodes, 0) == Ok::<(BTerm, int, NodesView), Seq<char>>((n, 2, nodes)));
        expr_is(sc, nodes, 0, 0, n, 2);
        climb_goes_on(sc, nodes, n, 2, 0, o, b, 4);
        climb_ends(sc, nodes, joined_by(o, n, b), 4, 0);
    }
}

// ---------------------------------------------------------------------------
// Voltages.
// ---------------------------------------------------------------------------
proof fn voltage_lexes(h: Answers, v: Seq<char>, x: Seq<char>, y: Seq<char>)
    requires
        plain_name(v),
        lexable(h, x),
        lexable(h, y),
    ensures
        lexed(h, v + seq!['('] + x + seq![','] + y + seq![')']) == Ok::<Seq<TokView>, Seq<char>>(
            seq![
                TokView::Ident(v),
                TokView::LParen,
                token(h, x),
                TokView::Comma,
                token(h, y),
                TokView::RParen,
            ],
        ),
{
    let s = v + seq!['('] + x + seq![','] + y + seq![')'];
    let i1 = v.len() as int;
    let i2 = i1 + 1;
    let i3 = i2 + x.len();
    let i4 = i3 + 1;
    let i5 = i4 + y.len();
    let n = s.len() as int;
    lexable_starts(h, x);
    lexable_starts(h, y);
    assert(s.subrange(0, i1) =~= v);
    assert(s.subrange(i2, i3) =~= x);
    assert(s.subrange(i4, i5) =~= y);
    assert(s[i1] == '(' && s[i3] == ',' && s[i5] == ')');
    mark_is_a_token(h, s, i1, '(');
    mark_is_a_token(h, s, i3, ',');
    mark_is_a_token(h, s, i5, ')');
    name_is_read(h, s, v);
    operand_is_read(h, s, i2, x);
    operand_is_read(h, s, i4, y);
    lex_ends(h, s);
    let r6: Seq<TokView> = seq![];
    let r5 = seq![TokView::RParen] + r6;
    let r4 = seq![token(h, y)] + r5;
    let r3 = seq![TokView::Comma] + r4;
    let r2 = seq![token(h, x)] + r3;
    let r1 = seq![TokView::LParen] + r2;
    lex_step(h, s, i5, TokView::RParen, n, r6);
    lex_step(h, s, i4, token(h, y), i5, r5);
    lex_step(h, s, i3, TokView::Comma, i4, r4);
    lex_step(h, s, i2, token(h, x), i3, r3);
    lex_step(h, s, i1, TokView::LParen, i2, r2);
    lex_step(h, s, 0, TokView::Ident(v), i1, r1);
    assert(seq![TokView::Ident(v)] + r1 =~= seq![
        TokView::Ident(v),
        TokView::LParen,
        token(h, x),
        TokView::Comma,
        token(h, y),
        TokView::RParen,
    ]);
    reveal(tokens);
}

impl<V> Meaning<V> {
    /// `V(a,b)` is the voltage from the node `a` to the node `b`.
    pub proof fn voltages_go_from_the_first_node_to_the_second(
        self,
        h: Answers,
        g: Graph,
        c: Functions<V>,
        names: Seq<Seq<char>>,
        nodes: NodesView,
        v: Seq<char>,
        x: Seq<char>,
        y: Seq<char>,
        env: Env<V>,
    )
        requires
            self.sound(g),
            self.reads(g, c),
            plain_name(v),
            lower(v) == "v"@,
            plain_name(x),
            plain_name(y),
        ensures
            ({
                let (a, m) = nodes.resolve(x);
                let (b, n) = m.resolve(y);
                let r = behavioral_of(h, nodes, v + seq!['('] + x + seq![','] + y + seq![')']);
                &&& r is Ok
                &&& r->Ok_0.1 == n
                &&& self.lives(translated(h, g, names, r->Ok_0.0)) ==> self.formula(h, g, names, r->Ok_0.0, env)
                    == self.across(g, a as usize, b as usize, env)
            }),
    {
        let (a, m) = nodes.resolve(x);
        let (b, n) = m.resolve(y);
        assert(!numeral(x) && !numeral(y)) by {
            assert(numeral(x) ==> is_digit(x[0]));
            assert(numeral(y) ==> is_digit(y[0]));
            assert(is_word(x[0]) && is_word(y[0]));
        }
        assert(lexable(h, x) && lexable(h, y)) by {
            reveal(lexable);
        }
        voltage_lexes(h, v, x, y);
        reveal(token);
        let t = seq![
            TokView::Ident(v),
            TokView::LParen,
            TokView::Ident(x),
            TokView::Comma,
            TokView::Ident(y),
            TokView::RParen,
        ];
        let sc = BScope { h, t };
        let (na, nb) = (BTerm::NodeV(a as usize), BTerm::NodeV(b as usize));
        let e = BTerm::Bin('-', Box::new(na), Box::new(nb));
        assert(sc.voltage(nodes, 2) == Ok::<(BTerm, int, NodesView), Seq<char>>((e, 6, n)));
        assert(sc.atom(nodes, 0) == Ok::<(BTerm, int, NodesView), Seq<char>>((e, 6, n)));
        climb_ends(sc, n, e, 6, 0);
        assert(sc.expr(nodes, 0, 0) == Ok::<(BTerm, int, NodesView), Seq<char>>((e, 6, n)));
        if self.lives(translated(h, g, names, e)) {
            assert(translated(h, g, names, na) == volt(g, a as usize));
            assert(translated(h, g, names, nb) == volt(g, b as usize));
            assert(translated(h, g, names, e) == g.minus(volt(g, a as usize), volt(g, b as usize)));
            self.difference_is(g, c, a as usize, b as usize, env);
        }
    }
}

} // verus!

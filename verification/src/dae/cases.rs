//! Cases of the laws: over the reals there are graphs that keep every rule the laws
//! ask for, with room for whatever terms one likes.
use crate::dae::blocks::{placeholders_apart, structural, template};
use crate::dae::eliminate::core_of;
use crate::dae::jacobian::{column_of, fold_map, replaced, small_signal, Entry};
use crate::dae::linearize::{
    freeze_map, linear_form, linear_stamps, linearized, monomial, monomials, rates_from, running_sum, Granularity,
};
use crate::dae::meaning::{at_bias, bias, ports, ports_apart, Env, Field, Meaning};
use crate::dae::symbols::{folds, tells_symbols};
use crate::dae::system::{of_row, row_stamps, stamps_of, DaeView, Stamp};
use crate::dae::templates::{
    back, canonical, cells, encounter, forth, gathered, joined, names_of, renamed, stamp_entries,
};
use crate::dae::terms::{
    closed, derived, found_is, free_is_mentioned, graph, handle, leaves, operations, product_of, put, rewritten, stored, sum_of, term, terms_are_elementary,
    terms_are_sound, terms_differentiate, terms_follow_renaming, terms_tell_symbols, Sense, Term,
};
use crate::device::UnknownKind;
use crate::symbolic::{ExprId, Graph, SymbolId};
use crate::text::decimal;
use vstd::prelude::*;

verus! {

// ---------------------------------------------------------------------------
// The reals.
// ---------------------------------------------------------------------------
/// The field of the real numbers.
pub open spec fn reals() -> Field<real> {
    Field {
        zero: 0real,
        one: 1real,
        plus: |a: real, b: real| a + b,
        times: |a: real, b: real| a * b,
        neg: |a: real| 0real - a,
        recip: |a: real| 1real / a,
    }
}

/// The real numbers obey the arithmetic that values are asked to obey.
pub proof fn reals_obey()
    ensures
        reals().obeys(),
{
    let f = reals();
    assert forall|a: real, b: real| #[trigger] (f.times)(a, b) == (f.times)(b, a) by {
        assert(a * b == b * a) by (nonlinear_arith);
    }
    assert forall|a: real, b: real, c: real| #[trigger] (f.times)((f.times)(a, b), c) == (f.times)(a, (f.times)(b, c)) by {
        assert((a * b) * c == a * (b * c)) by (nonlinear_arith);
    }
    assert forall|a: real| #[trigger] (f.times)(a, f.one) == a by {
        assert(a * 1real == a) by (nonlinear_arith);
    }
    assert forall|a: real, b: real, c: real| #[trigger] (f.times)(a, (f.plus)(b, c)) == (f.plus)(
        (f.times)(a, b),
        (f.times)(a, c),
    ) by {
        assert(a * (b + c) == a * b + a * c) by (nonlinear_arith);
    }
    assert forall|a: real| a != f.zero implies (f.times)(a, #[trigger] (f.recip)(a)) == f.one by {
        assert(a * (1real / a) == 1real) by (nonlinear_arith)
            requires
                a != 0real,
        ;
    }
    reveal(Field::obeys);
}

// ---------------------------------------------------------------------------
// Room for terms.
// ---------------------------------------------------------------------------
/// How many terms a term is made of, counted with repetition.
pub open spec fn size(t: Term) -> nat
    decreases t,
{
    match t {
        Term::Zero => 1,
        Term::One => 1,
        Term::Num(_) => 1,
        Term::Sym(_) => 1,
        Term::Plus(a, b) => 1 + size(*a) + size(*b),
        Term::Times(a, b) => 1 + size(*a) + size(*b),
        Term::Neg(a) => 1 + size(*a),
        Term::Recip(a) => 1 + size(*a),
        Term::Exp(a) => 1 + size(*a),
        Term::Above(a, b) => 1 + size(*a) + size(*b),
        Term::Select(a, b, d) => 1 + size(*a) + size(*b) + size(*d),
    }
}

pub open spec fn sizes(v: Seq<Term>) -> nat
    decreases v.len(),
{
    if v.len() == 0 {
        0
    } else {
        sizes(v.drop_last()) + size(v.last())
    }
}

/// Every term of the one store is in the other.
pub open spec fn within(a: Seq<Term>, b: Seq<Term>) -> bool {
    forall|t: Term| #[trigger] a.contains(t) ==> b.contains(t)
}

/// A term goes behind those that it is made of.
proof fn added(st: Seq<Term>, t: Term) -> (r: Seq<Term>)
    requires
        closed(st),
        st.len() < u64::MAX,
        forall|k: int| 0 <= k < t.made_of().len() ==> st.contains(#[trigger] t.made_of()[k]),
    ensures
        closed(r),
        r.contains(t),
        within(st, r),
        r.len() <= st.len() + 1,
{
    if st.contains(t) {
        st
    } else {
        let r = st.push(t);
        let n = st.len() as int;
        assert(r[n] == t);
        assert forall|x: Term| #[trigger] st.contains(x) implies r.contains(x) by {
            let i = choose|i: int| 0 <= i < st.len() && st[i] == x;
            assert(r[i] == x);
        }
        assert forall|i: int, k: int| 0 <= i < r.len() && 0 <= k < r[i].made_of().len() implies exists|j: int|
            0 <= j < i && r[j] == #[trigger] r[i].made_of()[k] by {
            if i < n {
                let j = choose|j: int| 0 <= j < i && st[j] == st[i].made_of()[k];
                assert(r[j] == st[j]);
            } else {
                assert(st.contains(t.made_of()[k]));
                let j = choose|j: int| 0 <= j < st.len() && st[j] == t.made_of()[k];
                assert(r[j] == st[j]);
            }
        }
        assert(r.no_duplicates()) by {
            assert forall|i: int, j: int| 0 <= i < r.len() && 0 <= j < r.len() && i != j implies r[i] != r[j] by {
                if i == n {
                    assert(st.contains(st[j]));
                } else if j == n {
                    assert(st.contains(st[i]));
                }
            }
        }
        r
    }
}

/// A store grows until it has a term.
proof fn grown(st: Seq<Term>, t: Term) -> (r: Seq<Term>)
    requires
        closed(st),
        st.len() + size(t) <= u64::MAX,
    ensures
        closed(r),
        r.contains(t),
        within(st, r),
        r.len() <= st.len() + size(t),
    decreases t,
{
    match t {
        Term::Plus(a, b) => {
            let r = grown(st, *a);
            let r = grown(r, *b);
            added(r, t)
        },
        Term::Times(a, b) => {
            let r = grown(st, *a);
            let r = grown(r, *b);
            added(r, t)
        },
        Term::Neg(a) => {
            let r = grown(st, *a);
            added(r, t)
        },
        Term::Recip(a) => {
            let r = grown(st, *a);
            added(r, t)
        },
        Term::Exp(a) => {
            let r = grown(st, *a);
            added(r, t)
        },
        Term::Above(a, b) => {
            let r = grown(st, *a);
            let r = grown(r, *b);
            added(r, t)
        },
        Term::Select(a, b, d) => {
            let r = grown(st, *a);
            let r = grown(r, *b);
            let r = grown(r, *d);
            added(r, t)
        },
        _ => added(st, t),
    }
}

/// Whatever terms are wanted, some store has them all, as long as there are handles
/// enough.
pub proof fn every_list_of_terms_has_a_store(v: Seq<Term>) -> (st: Seq<Term>)
    requires
        sizes(v) < u64::MAX,
    ensures
        closed(st),
        st.len() <= 1 + sizes(v),
        forall|k: int| 0 <= k < v.len() ==> st.contains(#[trigger] v[k]),
    decreases v.len(),
{
    if v.len() == 0 {
        let st = seq![Term::Zero];
        assert(st[0] == Term::Zero);
        assert(st.contains(Term::Zero));
        st
    } else {
        let before = every_list_of_terms_has_a_store(v.drop_last());
        let st = grown(before, v.last());
        assert forall|k: int| 0 <= k < v.len() implies st.contains(#[trigger] v[k]) by {
            if k < v.len() - 1 {
                assert(v.drop_last()[k] == v[k]);
                assert(before.contains(v.drop_last()[k]));
            }
        }
        st
    }
}

// ---------------------------------------------------------------------------
// Graphs that keep the rules.
// ---------------------------------------------------------------------------
/// A graph that keeps every rule that the laws ask for.
pub open spec fn keeps_the_rules<V>(m: Meaning<V>, g: Graph) -> bool {
    &&& m.sound(g)
    &&& m.differentiates(g)
    &&& m.smooth(g)
    &&& m.follows_renaming(g)
    &&& structural(g)
    &&& tells_symbols(g, m.live)
}

/// Over any field, the graph of a store keeps the rules.
pub proof fn stores_keep_the_rules<V>(c: Sense<V>, st: Seq<Term>, names: Seq<Seq<char>>)
    requires
        closed(st),
        c.field.obeys(),
    ensures
        keeps_the_rules(c.meaning(st), graph(st, names)),
        c.meaning(st).elementary(graph(st, names), c.exp, c.above),
{
    terms_are_sound(c, st, names);
    terms_differentiate(c, st, names);
    terms_follow_renaming(c, st, names);
    terms_tell_symbols(c, st, names);
    terms_are_elementary(c, st, names);
}

/// Two symbols, their sum and their product are expressions of the graph.
pub open spec fn combines<V>(m: Meaning<V>, g: Graph, x: SymbolId, y: SymbolId) -> bool {
    &&& x != y
    &&& m.lives(g.symbol_expr(x)) && m.lives(g.symbol_expr(y))
    &&& m.lives(g.plus(g.symbol_expr(x), g.symbol_expr(y)))
    &&& m.lives(g.times(g.symbol_expr(x), g.symbol_expr(y)))
}

/// The reals, with any exponential: only its value at the knot matters to the laws.
pub open spec fn real_sense(literal: spec_fn(u64) -> real, exp: spec_fn(real) -> real) -> Sense<real> {
    Sense { field: reals(), literal, exp, above: |a: real, b: real| a > b }
}

/// There are graphs over the reals that keep every rule, with symbols, sums and
/// products in them.
pub proof fn sound_graphs_exist()
    ensures
        exists|m: Meaning<real>, g: Graph, x: SymbolId, y: SymbolId| #[trigger]
            combines(m, g, x, y) && keeps_the_rules(m, g),
{
    let (x, y) = (SymbolId(0), SymbolId(1));
    let (a, b) = (Term::Sym(x), Term::Sym(y));
    let v = seq![a, b, sum_of(a, b), product_of(a, b)];
    reveal_with_fuel(size, 3);
    reveal_with_fuel(sizes, 5);
    assert(v.drop_last() =~= seq![a, b, sum_of(a, b)]);
    assert(v.drop_last().drop_last() =~= seq![a, b]);
    assert(v.drop_last().drop_last().drop_last() =~= seq![a]);
    assert(seq![a].drop_last() =~= seq![]);
    let st = every_list_of_terms_has_a_store(v);
    let names: Seq<Seq<char>> = seq![];
    let c = real_sense(|n: u64| 0real, |r: real| r);
    let g = graph(st, names);
    let m = c.meaning(st);
    reals_obey();
    stores_keep_the_rules(c, st, names);
    assert(st.contains(v[0]) && st.contains(v[1]) && st.contains(v[2]) && st.contains(v[3]));
    found_is(st, a);
    found_is(st, b);
    found_is(st, sum_of(a, b));
    found_is(st, product_of(a, b));
    assert(combines(m, g, x, y));
}

// ---------------------------------------------------------------------------
// Cases of the laws.
// ---------------------------------------------------------------------------
/// A system of nodes alone, without rates.
pub open spec fn nodes_only(residuals: Seq<ExprId>, unknowns: Seq<Seq<char>>, x: Seq<SymbolId>, t: SymbolId) -> DaeView {
    DaeView {
        residuals,
        unknowns,
        kinds: Seq::new(x.len(), |i: int| UnknownKind::NodeVoltage),
        x,
        xdot: Seq::new(x.len(), |i: int| None),
        t,
        n_nodes: x.len() as usize,
        param_defaults: Map::empty(),
        events: seq![],
        delays: seq![],
        stamps: Seq::new(residuals.len(), |i: int| Stamp { row: i as usize, expr: residuals[i] }),
        companion: seq![],
        noise_sources: seq![],
        op_vars: seq![],
        dc_seeds: seq![],
        limits: seq![],
        sources: seq![],
        source_names: seq![],
    }
}

/// The laws of elimination speak of this system: one node of two goes.
pub open spec fn eliminates_one<V>(m: Meaning<V>, g: Graph, d: DaeView, keep: Seq<Seq<char>>, env: Env<V>) -> bool {
    &&& d.wf()
    &&& d.residuals.len() == 2
    &&& m.sound(g)
    &&& m.smooth_along(g, core_of(d), keep)
    &&& m.eliminates(g, core_of(d), keep)
    &&& m.pivots(g, core_of(d), keep, env)
    &&& core_of(d).dropped(g, keep).len() == 1
}

/// A store with the listed terms, one after the other.
proof fn store_with(v: Seq<Term>, bound: nat) -> (st: Seq<Term>)
    requires
        forall|k: int| 0 <= k < v.len() ==> size(#[trigger] v[k]) <= bound,
        v.len() * bound < 1000,
    ensures
        closed(st),
        st.len() <= 1 + v.len() * bound,
        forall|k: int| 0 <= k < v.len() ==> st.contains(#[trigger] v[k]),
{
    sizes_at_most(v, bound);
    every_list_of_terms_has_a_store(v)
}

proof fn sizes_at_most(v: Seq<Term>, bound: nat)
    requires
        forall|k: int| 0 <= k < v.len() ==> size(#[trigger] v[k]) <= bound,
    ensures
        sizes(v) <= v.len() * bound,
    decreases v.len(),
{
    if v.len() > 0 {
        let less = v.drop_last();
        assert forall|k: int| 0 <= k < less.len() implies size(#[trigger] less[k]) <= bound by {
            assert(less[k] == v[k]);
        }
        sizes_at_most(less, bound);
        assert(size(v[v.len() - 1]) <= bound);
        assert((v.len() - 1) * bound + bound == v.len() * bound) by (nonlinear_arith);
    }
}

/// The terms of two nodes with one conductance between them, and of the elimination
/// of the first.
struct TwoNodes {
    law: Term,
    other: Term,
    slope: Term,
    offset: Term,
    solved: Term,
    inlined: Term,
}

spec fn less(a: Term, b: Term) -> Term {
    sum_of(a, Term::Neg(Box::new(b)))
}

spec fn two_nodes() -> TwoNodes {
    let (v, w) = (Term::Sym(SymbolId(0)), Term::Sym(SymbolId(1)));
    let slope = sum_of(Term::One, Term::Zero);
    let offset = less(Term::Zero, w);
    let solved = product_of(Term::Neg(Box::new(offset)), Term::Recip(Box::new(slope)));
    TwoNodes { law: less(v, w), other: less(w, v), slope, offset, solved, inlined: less(w, solved) }
}

spec fn holds_two_nodes(st: Seq<Term>) -> bool {
    let t = two_nodes();
    &&& closed(st)
    &&& st.contains(t.law) && st.contains(t.other) && st.contains(t.slope) && st.contains(t.offset)
    &&& st.contains(Term::Neg(Box::new(t.offset))) && st.contains(Term::Recip(Box::new(t.slope)))
    &&& st.contains(t.solved) && st.contains(t.inlined)
}

proof fn size_of_difference(a: Term, b: Term)
    ensures
        size(less(a, b)) == 2 + size(a) + size(b),
{
    assert(size(Term::Neg(Box::new(b))) == 1 + size(b));
}

proof fn two_nodes_have_a_store() -> (st: Seq<Term>)
    ensures
        holds_two_nodes(st),
{
    let t = two_nodes();
    let list = seq![
        t.law,
        t.other,
        t.slope,
        t.offset,
        Term::Neg(Box::new(t.offset)),
        Term::Recip(Box::new(t.slope)),
        t.solved,
        t.inlined,
    ];
    let (v, w) = (Term::Sym(SymbolId(0)), Term::Sym(SymbolId(1)));
    assert(size(v) == 1 && size(w) == 1 && size(Term::Zero) == 1 && size(Term::One) == 1);
    size_of_difference(v, w);
    size_of_difference(w, v);
    size_of_difference(Term::Zero, w);
    assert(size(t.slope) == 3);
    assert(size(Term::Neg(Box::new(t.offset))) == 5);
    assert(size(Term::Recip(Box::new(t.slope))) == 4);
    assert(size(t.solved) == 10);
    size_of_difference(w, t.solved);
    assert forall|k: int| 0 <= k < list.len() implies size(#[trigger] list[k]) <= 20 by {}
    let st = store_with(list, 20);
    assert(st.contains(list[0]) && st.contains(list[1]) && st.contains(list[2]) && st.contains(list[3]));
    assert(st.contains(list[4]) && st.contains(list[5]) && st.contains(list[6]) && st.contains(list[7]));
    st
}

proof fn two_nodes_put(st: Seq<Term>, zero: ExprId, solved: ExprId)
    requires
        term(st, zero) == Term::Zero,
        term(st, solved) == two_nodes().solved,
    ensures
        put(st, two_nodes().law, seq![(SymbolId(0), zero)]) == two_nodes().offset,
        put(st, two_nodes().other, seq![(SymbolId(0), solved)]) == two_nodes().inlined,
{
    let (m, n) = (seq![(SymbolId(0), zero)], seq![(SymbolId(0), solved)]);
    reveal_with_fuel(put, 4);
    reveal_with_fuel(crate::dae::terms::image, 3);
    assert(m.drop_last() =~= seq![]);
    assert(n.drop_last() =~= seq![]);
}

proof fn two_nodes_slope()
    ensures
        two_nodes().law.slope(SymbolId(0)) == Some(two_nodes().slope),
        forall|s: SymbolId| !(#[trigger] two_nodes().slope.mentions(s)),
{
    reveal_with_fuel(Term::slope, 4);
    reveal_with_fuel(Term::mentions, 4);
}

/// What the graph makes of the two nodes.
proof fn two_nodes_made(st: Seq<Term>, names: Seq<Seq<char>>)
    requires
        holds_two_nodes(st),
    ensures
        ({
            let g = graph(st, names);
            let t = two_nodes();
            let s = SymbolId(0);
            let (e0, e1) = (handle(st, t.law), handle(st, t.other));
            let a = g.derive(e0, s);
            let b = g.substitute(e0, seq![(s, g.zero())]);
            let solved = g.times(g.neg(b), g.power(a, -1i64));
            &&& stored(st, a) && term(st, a) == t.slope
            &&& stored(st, solved)
            &&& stored(st, g.substitute(e1, seq![(s, solved)]))
        }),
{
    let g = graph(st, names);
    let t = two_nodes();
    let s = SymbolId(0);
    let (e0, e1) = (handle(st, t.law), handle(st, t.other));
    found_is(st, t.law);
    found_is(st, t.other);
    two_nodes_slope();
    let a = g.derive(e0, s);
    derived(st, names, e0, s);
    leaves(st, names, 0, s);
    let zero = seq![(s, g.zero())];
    let b = g.substitute(e0, zero);
    rewritten(st, names, e0, zero);
    found_is(st, t.solved);
    two_nodes_put(st, g.zero(), handle(st, t.solved));
    assert(stored(st, b) && term(st, b) == t.offset);
    operations(st, names, b, b);
    operations(st, names, a, a);
    let solved = g.times(g.neg(b), g.power(a, -1i64));
    operations(st, names, g.neg(b), g.power(a, -1i64));
    assert(stored(st, solved) && term(st, solved) == t.solved);
    let into = seq![(s, solved)];
    rewritten(st, names, e1, into);
    two_nodes_put(st, g.zero(), solved);
}

spec fn two_nodes_system(st: Seq<Term>) -> DaeView {
    let t = two_nodes();
    nodes_only(
        seq![handle(st, t.law), handle(st, t.other)],
        seq!["v"@, "w"@],
        seq![SymbolId(0), SymbolId(1)],
        SymbolId(2),
    )
}

/// The first node goes, and the second is kept.
proof fn two_nodes_reduce(st: Seq<Term>, names: Seq<Seq<char>>)
    requires
        holds_two_nodes(st),
    ensures
        ({
            let g = graph(st, names);
            let core = core_of(two_nodes_system(st));
            let keep = seq!["w"@];
            let rest = core.without(g, 0);
            &&& core.target(g, keep, 0) == Some(0int)
            &&& rest.target(g, keep, 0) is None
            &&& rest.residuals == seq![
                g.substitute(handle(st, two_nodes().other), seq![(SymbolId(0), core.solved(g, 0))]),
            ]
            &&& core.dropped(g, keep).len() == 1
        }),
{
    let g = graph(st, names);
    two_nodes_made(st, names);
    let (nv, nw) = ("v"@, "w"@);
    reveal_strlit("v");
    reveal_strlit("w");
    assert(nv[0] != nw[0]);
    let keep = seq![nw];
    assert(keep[0] == nw);
    let core = core_of(two_nodes_system(st));
    let (e0, e1) = (core.residuals[0], core.residuals[1]);
    let ea = g.derive(e0, SymbolId(0));
    let into = seq![(SymbolId(0), core.solved(g, 0))];
    let rest = core.without(g, 0);
    assert(replaced(g, core.residuals, into)[1] == g.substitute(e1, into));
    assert(rest.residuals =~= seq![g.substitute(e1, into)]);
    assert(core.eliminable(g, keep, 0)) by {
        two_nodes_slope();
        assert(g.free(ea).len() == 0) by {
            if g.free(ea).len() > 0 {
                free_is_mentioned(st, names, ea, g.free(ea)[0]);
                assert(g.free(ea).contains(g.free(ea)[0]));
            }
        }
        assert(core.branches().len() == 0);
        assert(!keep.contains(nv));
    }
    assert(core.target(g, keep, 0) == Some(0int));
    assert(rest.unknowns =~= seq![nw]);
    assert(keep.contains(rest.unknowns[0]));
    assert(!rest.eliminable(g, keep, 0));
    assert(rest.target(g, keep, 1) is None);
    assert(rest.target(g, keep, 0) is None);
    assert(rest.dropped(g, keep) =~= seq![]);
    assert(core.dropped(g, keep) =~= seq![SymbolId(0)]);
}

/// There is a system over the reals of which the law of elimination speaks.
pub proof fn elimination_has_cases()
    ensures
        exists|m: Meaning<real>, g: Graph, d: DaeView, keep: Seq<Seq<char>>, env: Env<real>| #[trigger]
            eliminates_one(m, g, d, keep, env),
{
    let st = two_nodes_have_a_store();
    let names: Seq<Seq<char>> = seq![];
    let c = real_sense(|n: u64| 0real, |r: real| r);
    let g = graph(st, names);
    let m = c.meaning(st);
    let keep = seq!["w"@];
    let d = two_nodes_system(st);
    let core = core_of(d);
    let env: Env<real> = |s: SymbolId| 0real;
    two_nodes_made(st, names);
    two_nodes_reduce(st, names);
    assert(m.at(g.derive(core.residuals[0], SymbolId(0)), env) == 1real) by {
        reveal_with_fuel(Term::value, 3);
    }
    let rest = core.without(g, 0);
    assert(m.eliminates(g, rest, keep));
    assert(m.pivots(g, rest, keep, env));
    assert(m.eliminates(g, core, keep));
    assert(m.pivots(g, core, keep, env));
    assert(m.sound(g) && m.smooth_along(g, core, keep)) by {
        reals_obey();
        stores_keep_the_rules(c, st, names);
        m.smooth_graphs_are_smooth_along(g, core, keep);
    }
    assert(eliminates_one(m, g, d, keep, env));
}

/// The laws of linearisation and of folding speak of this system.
pub open spec fn linearises_one<V>(m: Meaning<V>, g: Graph, d: DaeView, fold: Seq<(SymbolId, u64)>, env: Env<V>) -> bool {
    &&& d.wf()
    &&& d.residuals.len() == 1
    &&& d.stamps == stamps_of(g, d.residuals, 0)
    &&& keeps_the_rules(m, g)
    &&& ports_apart(g, d)
    &&& at_bias(g, d, env)
    &&& m.linearises(g, d, Granularity::Canonical, 0, 0)
    &&& linearized(g, d, Granularity::Canonical).stamps.len() == 1
    &&& m.lives(linearized(g, d, Granularity::Canonical).stamps[0].expr)
    &&& fold.len() == 1
    &&& folds(g, m.live, d, fold)
}

/// The terms of one node that a source drives, and of its linearisation and folding.
struct OneNode {
    law: Term,
    slope: Term,
    monomial: Term,
    linear: Term,
    product: Term,
    steep: Term,
    nothing: Term,
    entry: Term,
    linear_entry: Term,
    folded: Term,
}

spec fn one_node() -> OneNode {
    let (v, w, s) = (Term::Sym(SymbolId(0)), Term::Sym(SymbolId(1)), Term::Sym(SymbolId(3)));
    let slope = sum_of(Term::One, Term::Zero);
    let monomial = product_of(slope, v);
    let product = product_of(slope, Term::One);
    let steep = sum_of(Term::Zero, product);
    let nothing = product_of(s, Term::Zero);
    OneNode {
        law: less(v, w),
        slope,
        monomial,
        linear: sum_of(Term::Zero, monomial),
        product,
        steep,
        nothing,
        entry: sum_of(slope, nothing),
        linear_entry: sum_of(steep, nothing),
        folded: less(v, Term::Num(7)),
    }
}

spec fn holds_one_node(st: Seq<Term>) -> bool {
    let t = one_node();
    &&& closed(st)
    &&& st.contains(Term::Sym(SymbolId(0))) && st.contains(Term::Sym(SymbolId(2))) && st.contains(
        Term::Sym(SymbolId(3)),
    ) && st.contains(Term::Num(7))
    &&& st.contains(t.law) && st.contains(t.slope) && st.contains(t.monomial) && st.contains(t.linear)
    &&& st.contains(t.product) && st.contains(t.steep) && st.contains(t.nothing)
    &&& st.contains(t.entry) && st.contains(t.linear_entry) && st.contains(t.folded)
}

proof fn one_node_has_a_store() -> (st: Seq<Term>)
    ensures
        holds_one_node(st),
{
    let t = one_node();
    let (v, w, s) = (Term::Sym(SymbolId(0)), Term::Sym(SymbolId(1)), Term::Sym(SymbolId(3)));
    let list = seq![
        v,
        Term::Sym(SymbolId(2)),
        s,
        Term::Num(7),
        t.law,
        t.slope,
        t.monomial,
        t.linear,
        t.product,
        t.steep,
        t.nothing,
        t.entry,
        t.linear_entry,
        t.folded,
    ];
    assert(size(v) == 1 && size(w) == 1 && size(s) == 1 && size(Term::Zero) == 1 && size(Term::One) == 1);
    assert(size(Term::Num(7)) == 1 && size(Term::Sym(SymbolId(2))) == 1);
    size_of_difference(v, w);
    size_of_difference(v, Term::Num(7));
    assert(size(t.slope) == 3);
    assert(size(t.monomial) == 5);
    assert(size(t.linear) == 7);
    assert(size(t.product) == 5);
    assert(size(t.steep) == 7);
    assert(size(t.nothing) == 3);
    assert(size(t.entry) == 7);
    assert(size(t.linear_entry) == 11);
    assert forall|k: int| 0 <= k < list.len() implies size(#[trigger] list[k]) <= 20 by {}
    let st = store_with(list, 20);
    assert(st.contains(list[0]) && st.contains(list[1]) && st.contains(list[2]) && st.contains(list[3]));
    assert(st.contains(list[4]) && st.contains(list[5]) && st.contains(list[6]) && st.contains(list[7]));
    assert(st.contains(list[8]) && st.contains(list[9]) && st.contains(list[10]) && st.contains(list[11]));
    assert(st.contains(list[12]) && st.contains(list[13]));
    st
}

spec fn case_names() -> Seq<Seq<char>> {
    seq!["v"@, "w"@, "v"@ + "#op"@, "s"@]
}

proof fn case_symbols(st: Seq<Term>)
    ensures
        ({
            let g = graph(st, case_names());
            &&& g.symbol_name(SymbolId(0)) == "v"@
            &&& g.symbol("v"@ + "#op"@) == SymbolId(2)
            &&& g.symbol("s"@) == SymbolId(3)
        }),
{
    reveal_strlit("v");
    reveal_strlit("w");
    reveal_strlit("s");
    reveal_strlit("#op");
    let names = case_names();
    let n = "v"@ + "#op"@;
    assert(names[2] == n && names[3] == "s"@ && names[0] == "v"@ && names[1] == "w"@);
    assert(n.len() == 4 && "v"@.len() == 1 && "w"@.len() == 1 && "s"@.len() == 1);
    assert("v"@[0] == 'v' && "w"@[0] == 'w' && "s"@[0] == 's');
    assert(names.contains(n) && names.contains("s"@));
    let i = choose|i: int| 0 <= i < names.len() && names[i] == n;
    assert(i == 2);
    let j = choose|i: int| 0 <= i < names.len() && names[i] == "s"@;
    assert(j == 3);
}

proof fn one_node_slopes()
    ensures
        ({
            let t = one_node();
            let s = SymbolId(0);
            &&& t.law.slope(s) == Some(t.slope)
            &&& t.linear.slope(s) == Some(t.steep)
            &&& t.law.mentions(s)
            &&& t.linear.mentions(s)
        }),
{
    reveal_with_fuel(Term::slope, 4);
    reveal_with_fuel(Term::mentions, 4);
}

proof fn one_node_put(st: Seq<Term>, op: ExprId, seven: ExprId)
    requires
        term(st, seven) == Term::Num(7),
    ensures
        put(st, one_node().slope, seq![(SymbolId(0), op)]) == one_node().slope,
        put(st, one_node().law, seq![(SymbolId(1), seven)]) == one_node().folded,
{
    let n = seq![(SymbolId(1), seven)];
    reveal_with_fuel(put, 4);
    reveal_with_fuel(crate::dae::terms::image, 3);
    assert(n.drop_last() =~= seq![]);
}

spec fn one_node_system(st: Seq<Term>) -> DaeView {
    nodes_only(seq![handle(st, one_node().law)], seq!["v"@], seq![SymbolId(0)], SymbolId(9))
}

/// What the graph makes of the node.
proof fn one_node_made(st: Seq<Term>)
    requires
        holds_one_node(st),
    ensures
        ({
            let g = graph(st, case_names());
            let t = one_node();
            let s = SymbolId(0);
            let e = handle(st, t.law);
            let freeze = seq![(s, g.symbol_expr(SymbolId(2)))];
            let mono = g.times(g.substitute(g.derive(e, s), freeze), g.symbol_expr(s));
            let linear = g.plus(g.zero(), mono);
            let nothing = g.times(g.symbol_expr(SymbolId(3)), g.zero());
            &&& stored(st, g.derive(e, s))
            &&& stored(st, mono) && term(st, mono) == t.monomial
            &&& stored(st, g.derive(linear, s))
            &&& stored(st, linear) && term(st, linear) == t.linear
            &&& stored(st, g.plus(g.derive(e, s), nothing))
            &&& stored(st, g.plus(g.derive(linear, s), nothing))
            &&& stored(st, g.substitute(e, seq![(SymbolId(1), g.number(7))]))
        }),
{
    let names = case_names();
    let g = graph(st, names);
    let t = one_node();
    let s = SymbolId(0);
    let e = handle(st, t.law);
    found_is(st, t.law);
    one_node_slopes();
    leaves(st, names, 7, s);
    leaves(st, names, 7, SymbolId(2));
    leaves(st, names, 7, SymbolId(3));
    let freeze = seq![(s, g.symbol_expr(SymbolId(2)))];
    let fold = seq![(SymbolId(1), g.number(7))];
    one_node_put(st, g.symbol_expr(SymbolId(2)), g.number(7));
    let d = g.derive(e, s);
    derived(st, names, e, s);
    rewritten(st, names, d, freeze);
    rewritten(st, names, e, fold);
    let c = g.substitute(d, freeze);
    operations(st, names, c, g.symbol_expr(s));
    let mono = g.times(c, g.symbol_expr(s));
    operations(st, names, g.zero(), mono);
    let linear = g.plus(g.zero(), mono);
    derived(st, names, linear, s);
    operations(st, names, g.symbol_expr(SymbolId(3)), g.zero());
    let nothing = g.times(g.symbol_expr(SymbolId(3)), g.zero());
    operations(st, names, d, nothing);
    operations(st, names, g.derive(linear, s), nothing);
}

/// The linearised node.
proof fn one_node_linear(st: Seq<Term>)
    requires
        holds_one_node(st),
    ensures
        ({
            let g = graph(st, case_names());
            let d = one_node_system(st);
            let s = SymbolId(0);
            let e = handle(st, one_node().law);
            let mono = monomial(g, freeze_map(g, d), e, s);
            let l = linearized(g, d, Granularity::Canonical);
            &&& ports(d) == seq![s]
            &&& bias(g, s) == SymbolId(2)
            &&& freeze_map(g, d) == seq![(s, g.symbol_expr(SymbolId(2)))]
            &&& l.stamps == seq![Stamp { row: 0, expr: mono }]
            &&& l.residuals == seq![g.plus(g.zero(), mono)]
        }),
{
    let g = graph(st, case_names());
    let d = one_node_system(st);
    let s = SymbolId(0);
    let e = handle(st, one_node().law);
    case_symbols(st);
    one_node_made(st);
    one_node_slopes();
    found_is(st, one_node().law);
    let rates = rates_from(d.xdot, 0);
    assert(d.xdot[0] is None);
    assert(rates_from(d.xdot, 1) =~= seq![]);
    assert(rates =~= seq![]);
    assert(ports(d) =~= seq![s]);
    let freeze = freeze_map(g, d);
    assert(freeze =~= seq![(s, g.symbol_expr(SymbolId(2)))]);
    let mono = monomial(g, freeze, e, s);
    free_is_mentioned(st, case_names(), e, s);
    let own = monomials(g, freeze, e, d.x, 0);
    assert(monomials(g, freeze, e, d.x, 1) =~= seq![]);
    assert(own =~= seq![mono]);
    assert(monomials(g, freeze, e, rates, 0) =~= seq![]);
    let form = linear_form(g, d, e);
    assert(form =~= seq![mono]);
    let l = linearized(g, d, Granularity::Canonical);
    assert(linear_stamps(g, d, Granularity::Canonical, 0) =~= seq![]);
    assert(d.stamps[0] == (Stamp { row: 0, expr: e }));
    assert(l.stamps =~= row_stamps(0, form));
    assert(l.stamps =~= seq![Stamp { row: 0, expr: mono }]);
    assert(l.stamps.drop_last() =~= seq![]);
    let row = of_row(l.stamps, 0);
    assert(of_row(l.stamps.drop_last(), 0) =~= seq![]);
    assert(row =~= seq![mono]);
    assert(row.drop_last() =~= seq![]);
    assert(running_sum(g, g.zero(), row.drop_last()) == g.zero());
    assert(running_sum(g, g.zero(), row) == g.plus(g.zero(), mono));
    assert(l.residuals =~= seq![g.plus(g.zero(), mono)]);
}

proof fn one_node_entries(st: Seq<Term>, c: Sense<real>)
    requires
        holds_one_node(st),
    ensures
        c.meaning(st).linearises(graph(st, case_names()), one_node_system(st), Granularity::Canonical, 0, 0),
{
    let names = case_names();
    let g = graph(st, names);
    let m = c.meaning(st);
    let d = one_node_system(st);
    let s = SymbolId(0);
    let e = handle(st, one_node().law);
    case_symbols(st);
    one_node_made(st);
    one_node_linear(st);
    one_node_slopes();
    found_is(st, one_node().law);
    let l = linearized(g, d, Granularity::Canonical);
    let linear = l.residuals[0];
    free_is_mentioned(st, names, e, s);
    free_is_mentioned(st, names, linear, s);
    let mono = monomial(g, freeze_map(g, d), e, s);
    assert(m.expands_all(g, d)) by {
        assert forall|k: int| 0 <= k < d.stamps.len() implies m.expands(g, d, (#[trigger] d.stamps[k]).expr) by {
            assert(d.stamps[k].expr == e);
            assert forall|q: SymbolId| #![trigger monomial(g, freeze_map(g, d), e, q)]
                ports(d).contains(q) && g.free(e).contains(q) implies m.lives(
                monomial(g, freeze_map(g, d), e, q),
            ) by {
                assert(q == s);
            }
        }
    }
    let nothing = g.times(g.symbol_expr(SymbolId(3)), g.zero());
    assert(d.xdot[0] is None);
    assert(small_signal(g, d)[0][0] == g.plus(g.derive(e, s), nothing));
    assert(small_signal(g, l)[0][0] == g.plus(g.derive(linear, s), nothing));
}

/// There is a system over the reals of which the laws of linearisation and folding
/// speak.
pub proof fn linearisation_has_cases()
    ensures
        exists|m: Meaning<real>, g: Graph, d: DaeView, fold: Seq<(SymbolId, u64)>, env: Env<real>| #[trigger]
            linearises_one(m, g, d, fold, env),
{
    let st = one_node_has_a_store();
    let names = case_names();
    let c = real_sense(|n: u64| 0real, |r: real| r);
    let g = graph(st, names);
    let m = c.meaning(st);
    let d = one_node_system(st);
    let e = handle(st, one_node().law);
    let fold = seq![(SymbolId(1), 7u64)];
    let env: Env<real> = |s: SymbolId| 0real;
    one_node_made(st);
    one_node_linear(st);
    one_node_entries(st, c);
    assert(fold_map(g, fold) =~= seq![(SymbolId(1), g.number(7))]);
    assert(stamps_of(g, d.residuals, 1) =~= seq![]);
    assert(g.terms(e) is None);
    assert(d.stamps =~= stamps_of(g, d.residuals, 0));
    assert(ports(d).no_duplicates());
    assert forall|s: SymbolId| #[trigger] ports(d).contains(s) implies !ports(d).contains(bias(g, s)) by {
        assert(s == SymbolId(0));
    }
    assert(keeps_the_rules(m, g)) by {
        reals_obey();
        stores_keep_the_rules(c, st, names);
    }
    assert(linearises_one(m, g, d, fold, env));
}

/// The law of Jacobian blocks speaks of these stamps: one of them, with one column.
pub open spec fn assembles_one<V>(
    m: Meaning<V>,
    g: Graph,
    t: SymbolId,
    vars: Seq<SymbolId>,
    stamps: Seq<Stamp>,
    slots: Seq<Option<SymbolId>>,
    s: SymbolId,
) -> bool {
    &&& keeps_the_rules(m, g)
    &&& forall|i: int| 0 <= i < stamps.len() ==> placeholders_apart(g, t, vars, (#[trigger] stamps[i]).expr)
    &&& slots.len() <= usize::MAX
    &&& column_of(slots, s) is Some
    &&& s != t
    &&& m.templates_live(g, t, vars, stamps, slots)
    &&& m.entries_live(cells(g, t, vars, stamps, slots, stamps.len() as int))
    &&& m.lives(g.derive(running_sum(g, g.zero(), of_row(stamps, 0)), s))
    &&& cells(g, t, vars, stamps, slots, stamps.len() as int).len() == 1
}

spec fn stamp_terms() -> Seq<Term> {
    let v = Term::Sym(SymbolId(0));
    seq![v, Term::Sym(SymbolId(1)), Term::One, sum_of(Term::Zero, v), sum_of(Term::Zero, Term::One)]
}

spec fn holds_stamp(st: Seq<Term>) -> bool {
    let t = stamp_terms();
    closed(st) && st.contains(t[0]) && st.contains(t[1]) && st.contains(t[2]) && st.contains(t[3]) && st.contains(t[4])
}

spec fn stamp_names() -> Seq<Seq<char>> {
    seq!["v"@, "$p"@ + decimal(0)]
}

/// The one symbol of the stamp, and what stands for it.
proof fn stamp_is_renamed(st: Seq<Term>, t: SymbolId)
    requires
        holds_stamp(st),
        t == SymbolId(9),
    ensures
        ({
            let g = graph(st, stamp_names());
            let (v, p) = (SymbolId(0), SymbolId(1));
            let e = g.symbol_expr(v);
            &&& names_of(g, t, seq![v], e) == seq![(p, v)]
            &&& stored(st, e) && term(st, e) == Term::Sym(v)
            &&& stored(st, canonical(g, t, seq![v], e)) && term(st, canonical(g, t, seq![v], e)) == Term::Sym(p)
            &&& stored(st, template(g, t, seq![v], e, 0)) && term(st, template(g, t, seq![v], e, 0)) == Term::One
            &&& stored(st, g.derive(e, v))
            &&& stored(st, g.derive(g.plus(g.zero(), e), v))
            &&& g.derive(canonical(g, t, seq![v], e), p) == g.derive(e, v) && term(st, g.derive(e, v)) == Term::One
        }),
{
    let names = stamp_names();
    let g = graph(st, names);
    let (v, p) = (SymbolId(0), SymbolId(1));
    let e = g.symbol_expr(v);
    leaves(st, names, 0, v);
    leaves(st, names, 0, p);
    reveal_strlit("v");
    reveal_strlit("$p");
    let n = "$p"@ + decimal(0);
    assert(names[0] == "v"@ && names[1] == n);
    assert(n.len() >= 2 && "v"@.len() == 1);
    assert(names.contains(n));
    let i = choose|i: int| 0 <= i < names.len() && names[i] == n;
    assert(i == 1);
    assert(g.symbol(n) == p);
    let order = encounter(g, e);
    assert(order =~= seq![v]);
    let vars = seq![v];
    assert(vars[0] == v);
    assert(renamed(g, t, vars, order, 1, 1, 0) =~= seq![]);
    let list = names_of(g, t, vars, e);
    assert(list =~= seq![(p, v)]);
    let (there, again) = (forth(g, list), back(g, list));
    assert(there =~= seq![(v, g.symbol_expr(p))]);
    assert(again =~= seq![(p, e)]);
    rewritten(st, names, e, there);
    let canon = canonical(g, t, vars, e);
    assert(put(st, Term::Sym(v), there) == Term::Sym(p));
    derived(st, names, canon, p);
    derived(st, names, e, v);
    reveal_with_fuel(Term::slope, 3);
    reveal_with_fuel(Term::mentions, 3);
    let d = g.derive(canon, p);
    found_is(st, Term::One);
    assert(d == handle(st, Term::One));
    rewritten(st, names, d, again);
    assert(put(st, Term::One, again) == Term::One);
    operations(st, names, g.zero(), e);
    derived(st, names, g.plus(g.zero(), e), v);
}

/// There are stamps over the reals of which the law of Jacobian blocks speaks.
pub proof fn assembly_has_cases()
    ensures
        exists|
            m: Meaning<real>,
            g: Graph,
            t: SymbolId,
            vars: Seq<SymbolId>,
            stamps: Seq<Stamp>,
            slots: Seq<Option<SymbolId>>,
            s: SymbolId,
        | #[trigger] assembles_one(m, g, t, vars, stamps, slots, s),
{
    let list = stamp_terms();
    assert forall|k: int| 0 <= k < list.len() implies size(#[trigger] list[k]) <= 20 by {
        reveal_with_fuel(size, 3);
    }
    let st = store_with(list, 20);
    assert(st.contains(list[0]) && st.contains(list[1]) && st.contains(list[2]) && st.contains(list[3]));
    assert(st.contains(list[4]));
    let names = stamp_names();
    let c = real_sense(|n: u64| 0real, |r: real| r);
    let g = graph(st, names);
    let m = c.meaning(st);
    let (v, p, t) = (SymbolId(0), SymbolId(1), SymbolId(9));
    let e = g.symbol_expr(v);
    let vars = seq![v];
    let stamps = seq![Stamp { row: 0, expr: e }];
    let slots = seq![Some(v)];
    stamp_is_renamed(st, t);
    let own_names = names_of(g, t, vars, e);
    assert(own_names[0] == (p, v));
    assert(column_of(slots, v) == Some(0usize));
    assert(placeholders_apart(g, t, vars, e)) by {
        free_is_mentioned(st, names, e, p);
    }
    let canon = canonical(g, t, vars, e);
    let entries = stamp_entries(g, 0, canon, own_names, slots, 0);
    assert(stamp_entries(g, 0, canon, own_names, slots, 1) =~= seq![]);
    assert(entries =~= seq![(0usize, 0usize, template(g, t, vars, e, 0))]);
    let none: Seq<Entry> = seq![];
    assert(cells(g, t, vars, stamps, slots, 0) =~= none);
    let first = joined(g, none, entries[0], 0);
    assert(first =~= entries);
    assert(gathered(g, first, entries, 1) == first);
    assert(cells(g, t, vars, stamps, slots, 1) == first);
    assert(stamps.drop_last() =~= seq![]);
    let row = of_row(stamps, 0);
    assert(of_row(stamps.drop_last(), 0) =~= seq![]);
    assert(row =~= seq![e]);
    assert(row.drop_last() =~= seq![]);
    assert(running_sum(g, g.zero(), row.drop_last()) == g.zero());
    assert(keeps_the_rules(m, g)) by {
        reals_obey();
        stores_keep_the_rules(c, st, names);
    }
    assert(assembles_one(m, g, t, vars, stamps, slots, v));
}

} // verus!

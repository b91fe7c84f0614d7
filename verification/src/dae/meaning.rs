//! What the graph transformations mean: the laws they keep under every
//! interpretation that fits the expressions of the graph.
//!
//! An interpretation gives each expression of the graph a value wherever its
//! symbols have values. The values may lie in any field: real ones for operating
//! points, complex ones for small signals. A graph holds finitely many
//! expressions, so each law asks that what its transformation makes is among them.
//! The graphs of [`crate::dae::terms`] fit, over any field.
use crate::dae::eliminate::{core_of, eliminated, touches};
use crate::dae::jacobian::{fold_map, folded, replaced, small_signal};
use crate::dae::linearize::{
    freeze_map, linear_form, linear_parts, linear_stamps, linearized, monomial, monomials, rates_from,
    running_sum, Granularity,
};
use crate::dae::merge::{fused, merge_map, merged, merged_row, merging_shrinks, reps, survivor, Core};
use crate::dae::system::{of_row, row_stamps, stamps_of, stamps_reproduce_rows, summands, DaeView};
use crate::symbolic::{ExprId, Graph, SymbolId};
use vstd::prelude::*;

verus! {

/// The arithmetic that values obey.
#[verifier::reject_recursive_types(V)]
pub struct Field<V> {
    pub zero: V,
    pub one: V,
    pub plus: spec_fn(V, V) -> V,
    pub times: spec_fn(V, V) -> V,
    pub neg: spec_fn(V) -> V,
    pub recip: spec_fn(V) -> V,
}

impl<V> Field<V> {
    #[verifier::opaque]
    pub open spec fn obeys(self) -> bool {
        &&& forall|a: V, b: V| #[trigger] (self.plus)(a, b) == (self.plus)(b, a)
        &&& forall|a: V, b: V, c: V|
            #[trigger] (self.plus)((self.plus)(a, b), c) == (self.plus)(a, (self.plus)(b, c))
        &&& forall|a: V| #[trigger] (self.plus)(a, self.zero) == a
        &&& forall|a: V| (self.plus)(a, #[trigger] (self.neg)(a)) == self.zero
        &&& forall|a: V, b: V| #[trigger] (self.times)(a, b) == (self.times)(b, a)
        &&& forall|a: V, b: V, c: V|
            #[trigger] (self.times)((self.times)(a, b), c) == (self.times)(a, (self.times)(b, c))
        &&& forall|a: V| #[trigger] (self.times)(a, self.one) == a
        &&& forall|a: V, b: V, c: V|
            #[trigger] (self.times)(a, (self.plus)(b, c)) == (self.plus)((self.times)(a, b), (self.times)(a, c))
        &&& forall|a: V| a != self.zero ==> (self.times)(a, #[trigger] (self.recip)(a)) == self.one
        &&& self.zero != self.one
    }

    pub(crate) proof fn sums(self, a: V, b: V, c: V)
        requires
            self.obeys(),
        ensures
            (self.plus)(a, b) == (self.plus)(b, a),
            (self.plus)((self.plus)(a, b), c) == (self.plus)(a, (self.plus)(b, c)),
            (self.plus)(a, self.zero) == a,
            (self.plus)(self.zero, a) == a,
            (self.plus)(a, (self.neg)(a)) == self.zero,
    {
        reveal(Field::obeys);
    }

    pub(crate) proof fn products(self, a: V, b: V, c: V)
        requires
            self.obeys(),
        ensures
            (self.times)(a, b) == (self.times)(b, a),
            (self.times)((self.times)(a, b), c) == (self.times)(a, (self.times)(b, c)),
            (self.times)(a, self.one) == a,
            a != self.zero ==> (self.times)(a, (self.recip)(a)) == self.one,
    {
        reveal(Field::obeys);
    }

    pub(crate) proof fn spreads(self, a: V, b: V, c: V)
        requires
            self.obeys(),
        ensures
            (self.times)(a, (self.plus)(b, c)) == (self.plus)((self.times)(a, b), (self.times)(a, c)),
    {
        reveal(Field::obeys);
    }

    /// Nothing but zero can be added without a change.
    proof fn cancels(self, a: V, b: V)
        requires
            self.obeys(),
            (self.plus)(a, b) == a,
        ensures
            b == self.zero,
    {
        let n = (self.neg)(a);
        self.sums(b, a, n);
        self.sums(a, n, a);
        self.sums(a, b, n);
        assert((self.plus)((self.plus)(b, a), n) == (self.plus)(b, (self.plus)(a, n)));
        assert((self.plus)(b, self.zero) == b);
    }

    pub(crate) proof fn times_zero(self, a: V)
        requires
            self.obeys(),
        ensures
            (self.times)(a, self.zero) == self.zero,
            (self.times)(self.zero, a) == self.zero,
    {
        let p = (self.times)(a, self.zero);
        self.sums(self.zero, self.zero, self.zero);
        assert((self.times)(a, (self.plus)(self.zero, self.zero)) == (self.plus)(p, p)) by {
            reveal(Field::obeys);
        }
        self.cancels(p, p);
        self.products(a, self.zero, a);
    }

    /// What adds up to zero with a value is its negative.
    proof fn is_negative(self, a: V, b: V)
        requires
            self.obeys(),
            (self.plus)(a, b) == self.zero,
        ensures
            b == (self.neg)(a),
    {
        let n = (self.neg)(a);
        self.sums(b, a, n);
        self.sums(a, b, n);
        self.sums(a, n, n);
        self.sums(b, self.zero, n);
        self.sums(n, self.zero, n);
        self.sums(self.zero, n, n);
    }

    /// Negation goes into sums and products.
    pub(crate) proof fn negatives(self, a: V, b: V)
        requires
            self.obeys(),
        ensures
            (self.neg)((self.plus)(a, b)) == (self.plus)((self.neg)(a), (self.neg)(b)),
            (self.times)((self.neg)(a), b) == (self.neg)((self.times)(a, b)),
    {
        let (na, nb) = ((self.neg)(a), (self.neg)(b));
        let ab = (self.plus)(a, b);
        assert((self.plus)(ab, na) == b) by {
            self.sums(a, b, na);
            self.sums(b, a, na);
            self.sums(a, na, na);
            self.sums(b, na, na);
        }
        self.sums(ab, na, nb);
        self.sums(b, nb, nb);
        self.is_negative(ab, (self.plus)(na, nb));
        let p = (self.times)(a, b);
        self.products(a, b, b);
        self.products(na, b, b);
        self.spreads(b, a, na);
        self.sums(a, na, na);
        self.times_zero(b);
        self.is_negative(p, (self.times)(na, b));
    }

    /// A linear equation with a slope has one solution.
    proof fn solves_line(self, a: V, b: V, x: V)
        requires
            self.obeys(),
            a != self.zero,
        ensures
            (self.plus)(b, (self.times)(a, x)) == self.zero <==> x == (self.times)(
                (self.neg)(b),
                (self.recip)(a),
            ),
    {
        let nb = (self.neg)(b);
        let ra = (self.recip)(a);
        let ax = (self.times)(a, x);
        self.products(a, ra, x);
        self.products(a, x, ra);
        self.products(x, a, ra);
        self.products(x, self.one, x);
        // x == (a x) / a
        assert((self.times)(ax, ra) == x) by {
            assert((self.times)((self.times)(x, a), ra) == (self.times)(x, (self.times)(a, ra)));
        }
        if (self.plus)(b, ax) == self.zero {
            self.sums(nb, b, ax);
            self.sums(b, nb, b);
            self.sums(ax, b, b);
            self.sums(nb, self.zero, b);
            assert((self.plus)((self.plus)(nb, b), ax) == (self.plus)(nb, self.zero));
            assert(ax == nb);
        }
        if x == (self.times)(nb, ra) {
            self.products(nb, ra, a);
            self.products(ra, a, a);
            self.products(nb, self.one, a);
            self.products(x, a, a);
            assert(ax == nb);
            self.sums(b, nb, b);
        }
    }
}

/// The values of the symbols.
pub type Env<V> = spec_fn(SymbolId) -> V;

/// The same values but for one symbol.
pub open spec fn moved<V>(env: Env<V>, s: SymbolId, v: V) -> Env<V> {
    |t: SymbolId|
        if t == s {
            v
        } else {
            env(t)
        }
}

/// The same values but for the listed symbols.
pub open spec fn same_but<V>(a: Env<V>, b: Env<V>, v: Seq<SymbolId>) -> bool {
    forall|s: SymbolId| !v.contains(s) ==> #[trigger] a(s) == b(s)
}

/// An interpretation: which handles are expressions of the graph, the value of each
/// of them, and that of every literal.
#[verifier::reject_recursive_types(V)]
pub struct Meaning<V> {
    pub field: Field<V>,
    pub live: spec_fn(ExprId) -> bool,
    pub value: spec_fn(ExprId, Env<V>) -> V,
    pub literal: spec_fn(u64) -> V,
}

impl<V> Meaning<V> {
    /// The handle is an expression of the graph. There are only so many handles: a
    /// graph that has no room left, or is handed what is no expression, answers
    /// with a handle that is none.
    pub open spec fn lives(self, e: ExprId) -> bool {
        (self.live)(e)
    }

    pub open spec fn all_live(self, v: Seq<ExprId>) -> bool {
        forall|k: int| 0 <= k < v.len() ==> self.lives(#[trigger] v[k])
    }

    pub open spec fn at(self, e: ExprId, env: Env<V>) -> V {
        (self.value)(e, env)
    }

    /// The value that a substitution gives a symbol: the last one that names it
    /// counts.
    pub open spec fn put(self, env: Env<V>, m: Seq<(SymbolId, ExprId)>, s: SymbolId) -> V
        decreases m.len(),
    {
        if m.len() == 0 {
            env(s)
        } else if m.last().0 == s {
            self.at(m.last().1, env)
        } else {
            self.put(env, m.drop_last(), s)
        }
    }

    pub open spec fn under(self, env: Env<V>, m: Seq<(SymbolId, ExprId)>) -> Env<V> {
        |s: SymbolId| self.put(env, m, s)
    }

    /// The sum of the values of a list.
    pub open spec fn total(self, v: Seq<ExprId>, env: Env<V>) -> V
        decreases v.len(),
    {
        if v.len() == 0 {
            self.field.zero
        } else {
            (self.field.plus)(self.total(v.drop_last(), env), self.at(v.last(), env))
        }
    }

    /// The graph's expressions mean what they say, and are made of expressions.
    #[verifier::opaque]
    pub open spec fn sound(self, g: Graph) -> bool {
        let f = self.field;
        &&& f.obeys()
        &&& self.lives(g.zero())
        &&& forall|env: Env<V>| #[trigger] self.at(g.zero(), env) == f.zero
        &&& forall|b: u64, env: Env<V>|
            self.lives(g.number(b)) ==> #[trigger] self.at(g.number(b), env) == (self.literal)(b)
        &&& forall|s: SymbolId, env: Env<V>|
            self.lives(g.symbol_expr(s)) ==> #[trigger] self.at(g.symbol_expr(s), env) == env(s)
        &&& forall|a: ExprId, b: ExprId| #[trigger] self.lives(g.plus(a, b)) ==> self.lives(a) && self.lives(b)
        &&& forall|a: ExprId, b: ExprId, env: Env<V>|
            self.lives(g.plus(a, b)) ==> #[trigger] self.at(g.plus(a, b), env) == (f.plus)(
                self.at(a, env),
                self.at(b, env),
            )
        &&& forall|a: ExprId, b: ExprId| #[trigger] self.lives(g.times(a, b)) ==> self.lives(a) && self.lives(b)
        &&& forall|a: ExprId, b: ExprId, env: Env<V>|
            self.lives(g.times(a, b)) ==> #[trigger] self.at(g.times(a, b), env) == (f.times)(
                self.at(a, env),
                self.at(b, env),
            )
        &&& forall|a: ExprId| #[trigger] self.lives(g.neg(a)) ==> self.lives(a)
        &&& forall|a: ExprId, env: Env<V>|
            self.lives(g.neg(a)) ==> #[trigger] self.at(g.neg(a), env) == (f.neg)(self.at(a, env))
        &&& forall|a: ExprId| #[trigger] self.lives(g.power(a, -1i64)) ==> self.lives(a)
        &&& forall|a: ExprId, env: Env<V>|
            self.lives(g.power(a, -1i64)) && self.at(a, env) != f.zero ==> #[trigger] self.at(
                g.power(a, -1i64),
                env,
            ) == (f.recip)(self.at(a, env))
        &&& forall|v: Seq<ExprId>| #[trigger] self.lives(g.sum(v)) ==> self.all_live(v)
        &&& forall|v: Seq<ExprId>, env: Env<V>|
            self.lives(g.sum(v)) ==> #[trigger] self.at(g.sum(v), env) == self.total(v, env)
        &&& forall|e: ExprId, m: Seq<(SymbolId, ExprId)>| #[trigger]
            self.lives(g.substitute(e, m)) ==> self.lives(e) && (forall|k: int|
                0 <= k < m.len() ==> self.lives((#[trigger] m[k]).1))
        &&& forall|e: ExprId, m: Seq<(SymbolId, ExprId)>, env: Env<V>|
            self.lives(g.substitute(e, m)) ==> #[trigger] self.at(g.substitute(e, m), env) == self.at(
                e,
                self.under(env, m),
            )
        &&& forall|e: ExprId, s: SymbolId| #[trigger] self.lives(g.derive(e, s)) ==> self.lives(e)
        &&& forall|e: ExprId, env: Env<V>| #![trigger g.is_zero(e), self.at(e, env)]
            self.lives(e) && g.is_zero(e) ==> self.at(e, env) == f.zero
        &&& forall|e: ExprId| #![trigger g.terms(e), self.lives(e)]
            self.lives(e) && g.terms(e) is Some ==> self.all_live(g.terms(e)->0)
        &&& forall|e: ExprId, env: Env<V>| #![trigger g.terms(e), self.at(e, env)]
            self.lives(e) && g.terms(e) is Some ==> self.at(e, env) == self.total(g.terms(e)->0, env)
        &&& forall|e: ExprId, a: Env<V>, b: Env<V>| #![trigger self.at(e, a), self.at(e, b)]
            self.lives(e) && (forall|s: SymbolId| g.free(e).contains(s) ==> #[trigger] a(s) == b(s)) ==> self.at(e, a)
                == self.at(e, b)
    }

    /// Where the derivative does not mention the symbol, the expression is affine in
    /// it. This holds of an expression without jumps in the symbol.
    pub open spec fn smooth_in(self, g: Graph, e: ExprId, s: SymbolId) -> bool {
        forall|env: Env<V>| #![trigger self.at(g.derive(e, s), env)]
            self.lives(g.derive(e, s)) && !g.free(g.derive(e, s)).contains(s) ==> self.at(e, env) == (
            self.field.plus)(
                self.at(e, moved(env, s, self.field.zero)),
                (self.field.times)(self.at(g.derive(e, s), env), env(s)),
            )
    }

    /// All expressions are smooth in all symbols.
    pub open spec fn smooth(self, g: Graph) -> bool {
        forall|e: ExprId, s: SymbolId| #[trigger] self.smooth_in(g, e, s)
    }

    /// Symbols that an expression does not depend on do not change its value.
    pub(crate) proof fn agreement(self, g: Graph, e: ExprId, a: Env<V>, b: Env<V>)
        requires
            self.sound(g),
            self.lives(e),
            forall|s: SymbolId| g.free(e).contains(s) ==> #[trigger] a(s) == b(s),
        ensures
            self.at(e, a) == self.at(e, b),
    {
        reveal(Meaning::sound);
    }

    pub(crate) proof fn arithmetic(self, g: Graph)
        requires
            self.sound(g),
        ensures
            self.field.obeys(),
    {
        reveal(Meaning::sound);
    }

    proof fn idle_put(self, m: Seq<(SymbolId, ExprId)>, env: Env<V>, s: SymbolId)
        requires
            forall|k: int| 0 <= k < m.len() ==> self.at((#[trigger] m[k]).1, env) == env(m[k].0),
        ensures
            self.put(env, m, s) == env(s),
        decreases m.len(),
    {
        if m.len() > 0 {
            assert(self.at(m[m.len() - 1].1, env) == env(m[m.len() - 1].0));
            if m.last().0 != s {
                assert forall|k: int| 0 <= k < m.drop_last().len() implies self.at(
                    (#[trigger] m.drop_last()[k]).1,
                    env,
                ) == env(m.drop_last()[k].0) by {
                    assert(m.drop_last()[k] == m[k]);
                }
                self.idle_put(m.drop_last(), env, s);
            }
        }
    }

    /// A substitution that gives every symbol the value it has changes no value.
    proof fn idle_substitution(self, g: Graph, m: Seq<(SymbolId, ExprId)>, e: ExprId, env: Env<V>)
        requires
            self.sound(g),
            self.lives(g.substitute(e, m)),
            forall|k: int| 0 <= k < m.len() ==> self.at((#[trigger] m[k]).1, env) == env(m[k].0),
        ensures
            self.at(g.substitute(e, m), env) == self.at(e, env),
    {
        reveal(Meaning::sound);
        assert forall|s: SymbolId| #[trigger] self.under(env, m)(s) == env(s) by {
            self.idle_put(m, env, s);
        }
        self.agreement(g, e, self.under(env, m), env);
    }

    proof fn total_concat(self, g: Graph, a: Seq<ExprId>, b: Seq<ExprId>, env: Env<V>)
        requires
            self.sound(g),
        ensures
            self.total(a + b, env) == (self.field.plus)(self.total(a, env), self.total(b, env)),
        decreases b.len(),
    {
        self.arithmetic(g);
        let x = self.total(a, env);
        if b.len() == 0 {
            assert(a + b =~= a);
            self.field.sums(x, x, x);
        } else {
            assert((a + b).drop_last() =~= a + b.drop_last());
            self.total_concat(g, a, b.drop_last(), env);
            self.field.sums(x, self.total(b.drop_last(), env), self.at(b.last(), env));
        }
    }

    /// A row has the value of its summands.
    proof fn total_of_row(self, g: Graph, e: ExprId, env: Env<V>)
        requires
            self.sound(g),
            self.lives(e),
        ensures
            self.total(summands(g, e), env) == self.at(e, env),
    {
        reveal(Meaning::sound);
        if g.terms(e) is None {
            let one = seq![e];
            assert(one.drop_last().len() == 0);
            reveal_with_fuel(Meaning::total, 2);
            let x = self.at(e, env);
            self.field.sums(x, x, x);
        }
    }

    /// All residuals vanish.
    pub open spec fn solves(self, rows: Seq<ExprId>, env: Env<V>) -> bool {
        forall|k: int| 0 <= k < rows.len() ==> self.at(#[trigger] rows[k], env) == self.field.zero
    }
}

// ---------------------------------------------------------------------------
// Elimination.
// ---------------------------------------------------------------------------
impl Core {
    /// The symbols of the nodes that elimination removes, in order.
    pub open spec fn dropped(self, g: Graph, keep: Seq<Seq<char>>) -> Seq<SymbolId>
        decreases self.n_nodes,
    {
        match self.target(g, keep, 0) {
            Some(i) if 0 <= i < self.n_nodes => seq![self.x[i]] + self.without(g, i).dropped(g, keep),
            _ => seq![],
        }
    }
}

impl<V> Meaning<V> {
    /// No self-conductance that elimination divides by is zero.
    pub open spec fn pivots(self, g: Graph, c: Core, keep: Seq<Seq<char>>, env: Env<V>) -> bool
        decreases c.n_nodes,
    {
        match c.target(g, keep, 0) {
            Some(i) if 0 <= i < c.n_nodes => self.at(g.derive(c.residuals[i], c.x[i]), env) != self.field.zero
                && self.pivots(g, c.without(g, i), keep, env),
            _ => true,
        }
    }

    /// All that elimination makes has room in the graph.
    pub open spec fn eliminates(self, g: Graph, c: Core, keep: Seq<Seq<char>>) -> bool
        decreases c.n_nodes,
    {
        match c.target(g, keep, 0) {
            Some(i) if 0 <= i < c.n_nodes => self.lives(c.solved(g, i)) && self.all_live(c.without(g, i).residuals)
                && self.eliminates(g, c.without(g, i), keep),
            _ => true,
        }
    }

    /// The current law of each node that goes has no jump in its voltage.
    pub open spec fn smooth_along(self, g: Graph, c: Core, keep: Seq<Seq<char>>) -> bool
        decreases c.n_nodes,
    {
        match c.target(g, keep, 0) {
            Some(i) if 0 <= i < c.n_nodes => self.smooth_in(g, c.residuals[i], c.x[i]) && self.smooth_along(
                g,
                c.without(g, i),
                keep,
            ),
            _ => true,
        }
    }

    /// In a graph without jumps nothing is left to ask.
    pub proof fn smooth_graphs_are_smooth_along(self, g: Graph, c: Core, keep: Seq<Seq<char>>)
        requires
            self.smooth(g),
        ensures
            self.smooth_along(g, c, keep),
        decreases c.n_nodes,
    {
        match c.target(g, keep, 0) {
            Some(i) if 0 <= i < c.n_nodes => {
                assert(self.smooth_in(g, c.residuals[i], c.x[i]));
                self.smooth_graphs_are_smooth_along(g, c.without(g, i), keep);
            },
            _ => {},
        }
    }

    /// What node `i` is solved for does not depend on its own voltage.
    proof fn solution_is_free(self, g: Graph, c: Core, keep: Seq<Seq<char>>, i: int, env: Env<V>, v: V)
        requires
            c.wf(),
            self.sound(g),
            c.eliminable(g, keep, i),
            self.lives(c.solved(g, i)),
            self.at(g.derive(c.residuals[i], c.x[i]), env) != self.field.zero,
        ensures
            self.at(g.derive(c.residuals[i], c.x[i]), moved(env, c.x[i], v)) == self.at(
                g.derive(c.residuals[i], c.x[i]),
                env,
            ),
            self.at(c.solved(g, i), moved(env, c.x[i], v)) == self.at(c.solved(g, i), env),
            !g.free(g.derive(c.residuals[i], c.x[i])).contains(c.x[i]),
    {
        reveal(Meaning::sound);
        let s = c.x[i];
        let a = g.derive(c.residuals[i], s);
        let to = moved(env, s, v);
        assert(c.volts()[i] == s);
        if g.free(a).contains(s) {
            let k = choose|k: int| 0 <= k < g.free(a).len() && g.free(a)[k] == s;
            assert(c.volts().contains(g.free(a)[k]));
            assert(touches(g, a, c.volts()));
        }
        assert(self.at(a, to) == self.at(a, env));
        let m = seq![(s, g.zero())];
        let b = g.substitute(c.residuals[i], m);
        assert forall|t: SymbolId| #[trigger] self.under(to, m)(t) == self.under(env, m)(t) by {
            assert(m.drop_last().len() == 0);
            reveal_with_fuel(Meaning::put, 2);
        }
        assert(self.at(c.residuals[i], self.under(to, m)) == self.at(c.residuals[i], self.under(env, m)));
        assert(self.at(b, to) == self.at(b, env));
    }

    /// The current law of node `i` holds exactly where its voltage is what it is
    /// solved for.
    proof fn solved_where_balanced(self, g: Graph, c: Core, keep: Seq<Seq<char>>, i: int, env: Env<V>)
        requires
            c.wf(),
            self.sound(g),
            self.smooth_in(g, c.residuals[i], c.x[i]),
            c.eliminable(g, keep, i),
            self.lives(c.solved(g, i)),
            self.at(g.derive(c.residuals[i], c.x[i]), env) != self.field.zero,
        ensures
            self.at(c.residuals[i], env) == self.field.zero <==> env(c.x[i]) == self.at(c.solved(g, i), env),
    {
        reveal(Meaning::sound);
        let s = c.x[i];
        let f = self.field;
        let r = c.residuals[i];
        let a = g.derive(r, s);
        self.solution_is_free(g, c, keep, i, env, f.zero);
        let m = seq![(s, g.zero())];
        let b = g.substitute(r, m);
        assert forall|t: SymbolId| #[trigger] self.under(env, m)(t) == moved(env, s, f.zero)(t) by {
            assert(m.drop_last().len() == 0);
            reveal_with_fuel(Meaning::put, 2);
        }
        assert(self.at(b, env) == self.at(r, self.under(env, m)));
        assert(self.at(r, self.under(env, m)) == self.at(r, moved(env, s, f.zero)));
        f.solves_line(self.at(a, env), self.at(b, env), env(s));
    }

    /// Where node `i` has the voltage it is solved for, inlining changes no value.
    proof fn inlining_keeps(self, g: Graph, c: Core, i: int, env: Env<V>, e: ExprId)
        requires
            self.sound(g),
            self.lives(g.substitute(e, seq![(c.x[i], c.solved(g, i))])),
            env(c.x[i]) == self.at(c.solved(g, i), env),
        ensures
            self.at(g.substitute(e, seq![(c.x[i], c.solved(g, i))]), env) == self.at(e, env),
    {
        reveal(Meaning::sound);
        let m = seq![(c.x[i], c.solved(g, i))];
        assert forall|t: SymbolId| #[trigger] self.under(env, m)(t) == env(t) by {
            assert(m.drop_last().len() == 0);
            reveal_with_fuel(Meaning::put, 2);
        }
        assert(self.at(e, self.under(env, m)) == self.at(e, env));
    }

    /// What is left after inlining does not depend on the voltage of node `i`.
    proof fn inlined_is_free(
        self,
        g: Graph,
        c: Core,
        keep: Seq<Seq<char>>,
        i: int,
        env: Env<V>,
        v: V,
        e: ExprId,
    )
        requires
            c.wf(),
            self.sound(g),
            c.eliminable(g, keep, i),
            self.lives(c.solved(g, i)),
            self.at(g.derive(c.residuals[i], c.x[i]), env) != self.field.zero,
        ensures
            self.lives(g.substitute(e, seq![(c.x[i], c.solved(g, i))])) ==> self.at(
                g.substitute(e, seq![(c.x[i], c.solved(g, i))]),
                moved(env, c.x[i], v),
            ) == self.at(
                g.substitute(e, seq![(c.x[i], c.solved(g, i))]),
                env,
            ),
    {
        self.solution_is_free(g, c, keep, i, env, v);
        reveal(Meaning::sound);
        let m = seq![(c.x[i], c.solved(g, i))];
        let to = moved(env, c.x[i], v);
        assert forall|t: SymbolId| #[trigger] self.under(to, m)(t) == self.under(env, m)(t) by {
            assert(m.drop_last().len() == 0);
            reveal_with_fuel(Meaning::put, 2);
        }
        if self.lives(g.substitute(e, m)) {
            self.agreement(g, e, self.under(to, m), self.under(env, m));
        }
    }

    proof fn step_is_exact(self, g: Graph, c: Core, keep: Seq<Seq<char>>, i: int, env: Env<V>)
        requires
            c.wf(),
            self.sound(g),
            self.smooth_in(g, c.residuals[i], c.x[i]),
            c.eliminable(g, keep, i),
            self.lives(c.solved(g, i)),
            self.all_live(c.without(g, i).residuals),
            self.at(g.derive(c.residuals[i], c.x[i]), env) != self.field.zero,
        ensures
            self.solves(c.residuals, env) <==> self.solves(c.without(g, i).residuals, env) && env(c.x[i])
                == self.at(c.solved(g, i), env),
    {
        self.solved_where_balanced(g, c, keep, i, env);
        let m = seq![(c.x[i], c.solved(g, i))];
        let all = replaced(g, c.residuals, m);
        let rest = c.without(g, i).residuals;
        if env(c.x[i]) == self.at(c.solved(g, i), env) {
            assert forall|k: int| 0 <= k < all.len() && k != i implies self.at(#[trigger] all[k], env) == self.at(
                c.residuals[k],
                env,
            ) by {
                let l = if k < i {
                    k
                } else {
                    k - 1
                };
                assert(rest[l] == all[k]);
                self.inlining_keeps(g, c, i, env, c.residuals[k]);
            }
            if self.solves(c.residuals, env) {
                assert forall|k: int| 0 <= k < rest.len() implies self.at(#[trigger] rest[k], env)
                    == self.field.zero by {
                    let l = if k < i {
                        k
                    } else {
                        k + 1
                    };
                    assert(rest[k] == all[l]);
                    assert(self.at(c.residuals[l], env) == self.field.zero);
                }
            }
            if self.solves(rest, env) {
                assert forall|k: int| 0 <= k < c.residuals.len() implies self.at(
                    #[trigger] c.residuals[k],
                    env,
                ) == self.field.zero by {
                    if k < i {
                        assert(rest[k] == all[k]);
                    } else if k > i {
                        assert(rest[k - 1] == all[k]);
                    }
                }
            }
        } else {
            if self.solves(c.residuals, env) {
                assert(self.at(c.residuals[i], env) == self.field.zero);
            }
        }
    }

    /// Elimination is exact. A solution of the system solves what elimination
    /// leaves; and every solution of what is left extends, by values for the
    /// eliminated voltages alone, to a solution of the system.
    pub proof fn elimination_is_exact(self, g: Graph, d: DaeView, keep: Seq<Seq<char>>, env: Env<V>)
        requires
            d.wf(),
            self.sound(g),
            self.smooth_along(g, core_of(d), keep),
            self.eliminates(g, core_of(d), keep),
            self.pivots(g, core_of(d), keep, env),
        ensures
            self.solves(d.residuals, env) ==> self.solves(eliminated(g, d, keep).0.residuals, env),
            self.solves(eliminated(g, d, keep).0.residuals, env) ==> exists|full: Env<V>| #[trigger]
                self.solves(d.residuals, full) && same_but(env, full, core_of(d).dropped(g, keep)),
    {
        self.reduction_is_exact(g, core_of(d), keep, env);
    }

    proof fn reduction_is_exact(self, g: Graph, c: Core, keep: Seq<Seq<char>>, env: Env<V>)
        requires
            c.wf(),
            self.sound(g),
            self.smooth_along(g, c, keep),
            self.eliminates(g, c, keep),
            self.pivots(g, c, keep, env),
        ensures
            self.solves(c.residuals, env) ==> self.solves(c.reduced(g, keep).0.residuals, env),
            self.solves(c.reduced(g, keep).0.residuals, env) ==> exists|full: Env<V>| #[trigger]
                self.solves(c.residuals, full) && same_but(env, full, c.dropped(g, keep)),
            forall|k: int| 0 <= k < c.dropped(g, keep).len() ==> c.volts().contains(#[trigger] c.dropped(g, keep)[k]),
        decreases c.n_nodes,
    {
        c.target_in_range(g, keep, 0);
        match c.target(g, keep, 0) {
            Some(i) if 0 <= i < c.n_nodes => {
                let w = c.without(g, i);
                let s = c.x[i];
                let m = seq![(s, c.solved(g, i))];
                assert(replaced(g, c.residuals, m).len() == c.residuals.len());
                self.reduction_is_exact(g, w, keep, env);
                self.step_is_exact(g, c, keep, i, env);
                let inner = w.dropped(g, keep);
                let outer = c.dropped(g, keep);
                assert(outer =~= seq![s] + inner);
                assert forall|k: int| 0 <= k < outer.len() implies c.volts().contains(#[trigger] outer[k]) by {
                    if k == 0 {
                        assert(c.volts()[i] == s);
                    } else {
                        assert(outer[k] == inner[k - 1]);
                        let l = choose|l: int| 0 <= l < w.volts().len() && w.volts()[l] == outer[k];
                        if l < i {
                            assert(c.volts()[l] == outer[k]);
                        } else {
                            assert(c.volts()[l + 1] == outer[k]);
                        }
                    }
                }
                if self.solves(c.reduced(g, keep).0.residuals, env) {
                    let part = choose|full: Env<V>| #[trigger]
                        self.solves(w.residuals, full) && same_but(env, full, inner);
                    let a = g.derive(c.residuals[i], s);
                    assert forall|t: SymbolId| g.free(a).contains(t) implies #[trigger] part(t) == env(t) by {
                        if inner.contains(t) {
                            let k = choose|k: int| 0 <= k < inner.len() && inner[k] == t;
                            assert(outer[k + 1] == t);
                            assert(c.volts().contains(t));
                            let l = choose|l: int| 0 <= l < g.free(a).len() && g.free(a)[l] == t;
                            assert(c.volts().contains(g.free(a)[l]));
                            assert(touches(g, a, c.volts()));
                        }
                    }
                    assert(self.lives(a)) by {
                        reveal(Meaning::sound);
                    }
                    self.agreement(g, a, part, env);
                    let full = moved(part, s, self.at(c.solved(g, i), part));
                    self.solution_is_free(g, c, keep, i, part, self.at(c.solved(g, i), part));
                    let all = replaced(g, c.residuals, m);
                    assert forall|k: int| 0 <= k < w.residuals.len() implies self.at(
                        #[trigger] w.residuals[k],
                        full,
                    ) == self.field.zero by {
                        let l = if k < i {
                            k
                        } else {
                            k + 1
                        };
                        assert(w.residuals[k] == all[l]);
                        self.inlined_is_free(
                            g,
                            c,
                            keep,
                            i,
                            part,
                            self.at(c.solved(g, i), part),
                            c.residuals[l],
                        );
                        assert(self.at(all[l], full) == self.at(all[l], part));
                    }
                    self.step_is_exact(g, c, keep, i, full);
                    assert(self.solves(c.residuals, full));
                    assert forall|t: SymbolId| !outer.contains(t) implies #[trigger] env(t) == full(t) by {
                        assert(outer[0] == s);
                        if inner.contains(t) {
                            let k = choose|k: int| 0 <= k < inner.len() && inner[k] == t;
                            assert(outer[k + 1] == t);
                        }
                    }
                }
            },
            _ => {
                if self.solves(c.residuals, env) {
                    assert(same_but(env, env, c.dropped(g, keep)));
                }
            },
        }
    }
}

// ---------------------------------------------------------------------------
// Linearisation.
// ---------------------------------------------------------------------------
impl<V> Meaning<V> {
    /// The slopes of a list are expressions of the graph.
    pub open spec fn slopes_live(self, g: Graph, v: Seq<ExprId>, s: SymbolId) -> bool {
        forall|k: int| 0 <= k < v.len() ==> self.lives(g.derive(#[trigger] v[k], s))
    }

    /// The graph differentiates by the rules, part by part, and names the symbols
    /// that an expression depends on.
    #[verifier::opaque]
    pub open spec fn differentiates(self, g: Graph) -> bool {
        let f = self.field;
        &&& forall|a: ExprId, b: ExprId, s: SymbolId| #[trigger]
            self.lives(g.derive(g.plus(a, b), s)) ==> self.lives(g.derive(a, s)) && self.lives(g.derive(b, s))
        &&& forall|a: ExprId, b: ExprId, s: SymbolId, env: Env<V>|
            self.lives(g.derive(g.plus(a, b), s)) ==> #[trigger] self.at(g.derive(g.plus(a, b), s), env) == (f.plus)(
                self.at(g.derive(a, s), env),
                self.at(g.derive(b, s), env),
            )
        &&& forall|a: ExprId, b: ExprId, s: SymbolId| #[trigger]
            self.lives(g.derive(g.times(a, b), s)) ==> self.lives(g.derive(a, s)) && self.lives(g.derive(b, s))
        &&& forall|a: ExprId, b: ExprId, s: SymbolId, env: Env<V>|
            self.lives(g.derive(g.times(a, b), s)) ==> #[trigger] self.at(g.derive(g.times(a, b), s), env) == (
            f.plus)(
                (f.times)(self.at(g.derive(a, s), env), self.at(b, env)),
                (f.times)(self.at(a, env), self.at(g.derive(b, s), env)),
            )
        &&& forall|t: SymbolId, s: SymbolId, env: Env<V>|
            self.lives(g.derive(g.symbol_expr(t), s)) ==> #[trigger] self.at(g.derive(g.symbol_expr(t), s), env) == (
            if s == t {
                f.one
            } else {
                f.zero
            })
        &&& forall|e: ExprId, s: SymbolId, env: Env<V>| #![trigger self.at(g.derive(e, s), env)]
            self.lives(g.derive(e, s)) && !g.free(e).contains(s) ==> self.at(g.derive(e, s), env) == f.zero
        &&& forall|e: ExprId, s: SymbolId| #![trigger g.terms(e), self.lives(g.derive(e, s))]
            self.lives(g.derive(e, s)) && g.terms(e) is Some ==> self.slopes_live(g, g.terms(e)->0, s)
        &&& forall|e: ExprId, s: SymbolId, env: Env<V>| #![trigger g.terms(e), self.at(g.derive(e, s), env)]
            self.lives(g.derive(e, s)) && g.terms(e) is Some ==> self.at(g.derive(e, s), env) == self.slopes(
                g,
                g.terms(e)->0,
                s,
                env,
            )
        &&& g.free(g.zero()).len() == 0
        &&& forall|t: SymbolId, s: SymbolId|
            self.lives(g.symbol_expr(t)) && #[trigger] g.free(g.symbol_expr(t)).contains(s) ==> s == t
        &&& forall|e: ExprId, m: Seq<(SymbolId, ExprId)>, s: SymbolId|
            self.lives(g.substitute(e, m)) && #[trigger] g.free(g.substitute(e, m)).contains(s) ==> (exists|k: int|
                0 <= k < m.len() && g.free((#[trigger] m[k]).1).contains(s)) || !(exists|k: int|
                0 <= k < m.len() && (#[trigger] m[k]).0 == s)
    }

    /// The sum of the derivatives of a list.
    pub open spec fn slopes(self, g: Graph, v: Seq<ExprId>, s: SymbolId, env: Env<V>) -> V
        decreases v.len(),
    {
        if v.len() == 0 {
            self.field.zero
        } else {
            (self.field.plus)(self.slopes(g, v.drop_last(), s, env), self.at(g.derive(v.last(), s), env))
        }
    }

    proof fn slopes_concat(self, g: Graph, a: Seq<ExprId>, b: Seq<ExprId>, s: SymbolId, env: Env<V>)
        requires
            self.sound(g),
        ensures
            self.slopes(g, a + b, s, env) == (self.field.plus)(
                self.slopes(g, a, s, env),
                self.slopes(g, b, s, env),
            ),
        decreases b.len(),
    {
        self.arithmetic(g);
        let x = self.slopes(g, a, s, env);
        if b.len() == 0 {
            assert(a + b =~= a);
            self.field.sums(x, x, x);
        } else {
            assert((a + b).drop_last() =~= a + b.drop_last());
            self.slopes_concat(g, a, b.drop_last(), s, env);
            self.field.sums(x, self.slopes(g, b.drop_last(), s, env), self.at(g.derive(b.last(), s), env));
        }
    }

    pub(crate) proof fn slope_of_sum(self, g: Graph, v: Seq<ExprId>, s: SymbolId, env: Env<V>)
        requires
            self.sound(g),
            self.differentiates(g),
            self.lives(g.derive(running_sum(g, g.zero(), v), s)),
        ensures
            self.at(g.derive(running_sum(g, g.zero(), v), s), env) == self.slopes(g, v, s, env),
            self.slopes_live(g, v, s),
        decreases v.len(),
    {
        reveal(Meaning::sound);
        reveal(Meaning::differentiates);
        if v.len() > 0 {
            let less = v.drop_last();
            self.slope_of_sum(g, less, s, env);
            assert forall|k: int| 0 <= k < v.len() implies self.lives(g.derive(#[trigger] v[k], s)) by {
                if k < less.len() {
                    assert(less[k] == v[k]);
                }
            }
        }
    }

    pub(crate) proof fn slope_where_absent(self, g: Graph, e: ExprId, s: SymbolId, env: Env<V>)
        requires
            self.differentiates(g),
            self.lives(g.derive(e, s)),
        ensures
            !g.free(e).contains(s) ==> self.at(g.derive(e, s), env) == self.field.zero,
    {
        reveal(Meaning::differentiates);
    }

    proof fn slope_of_one(self, g: Graph, e: ExprId, s: SymbolId, env: Env<V>)
        requires
            self.sound(g),
        ensures
            self.slopes(g, seq![e], s, env) == self.at(g.derive(e, s), env),
    {
        self.arithmetic(g);
        let one = seq![e];
        assert(one.drop_last().len() == 0);
        reveal_with_fuel(Meaning::slopes, 2);
        let x = self.at(g.derive(e, s), env);
        self.field.sums(x, x, x);
    }

    proof fn slope_of_row(self, g: Graph, e: ExprId, s: SymbolId, env: Env<V>)
        requires
            self.sound(g),
            self.differentiates(g),
            self.lives(g.derive(e, s)),
        ensures
            self.slopes(g, summands(g, e), s, env) == self.at(g.derive(e, s), env),
            self.slopes_live(g, summands(g, e), s),
    {
        reveal(Meaning::sound);
        reveal(Meaning::differentiates);
        if g.terms(e) is None {
            self.slope_of_one(g, e, s, env);
        }
    }
}

/// The unknowns and their derivatives.
pub open spec fn ports(d: DaeView) -> Seq<SymbolId> {
    d.x + rates_from(d.xdot, 0)
}

/// The constant that a port is frozen to.
pub open spec fn bias(g: Graph, s: SymbolId) -> SymbolId {
    g.symbol(g.symbol_name(s) + "#op"@)
}

/// No two ports are the same, and none is an operating-point constant of one.
pub open spec fn ports_apart(g: Graph, d: DaeView) -> bool {
    &&& ports(d).no_duplicates()
    &&& forall|s: SymbolId| #[trigger] ports(d).contains(s) ==> !ports(d).contains(bias(g, s))
}

/// The operating-point constants have the values of the ports they stand for.
pub open spec fn at_bias<V>(g: Graph, d: DaeView, env: Env<V>) -> bool {
    forall|s: SymbolId| #[trigger] ports(d).contains(s) ==> env(bias(g, s)) == env(s)
}

impl<V> Meaning<V> {
    /// The monomials of an expression are expressions of the graph.
    pub open spec fn expands(self, g: Graph, d: DaeView, e: ExprId) -> bool {
        forall|q: SymbolId| #![trigger monomial(g, freeze_map(g, d), e, q)]
            ports(d).contains(q) && g.free(e).contains(q) ==> self.lives(monomial(g, freeze_map(g, d), e, q))
    }

    pub open spec fn expands_all(self, g: Graph, d: DaeView) -> bool {
        forall|k: int| 0 <= k < d.stamps.len() ==> self.expands(g, d, (#[trigger] d.stamps[k]).expr)
    }

    /// At the operating point a frozen expression has the value of the expression.
    proof fn freezing_keeps(self, g: Graph, d: DaeView, e: ExprId, env: Env<V>)
        requires
            self.sound(g),
            at_bias(g, d, env),
            self.lives(g.substitute(e, freeze_map(g, d))),
        ensures
            self.at(g.substitute(e, freeze_map(g, d)), env) == self.at(e, env),
    {
        reveal(Meaning::sound);
        let m = freeze_map(g, d);
        assert forall|k: int| 0 <= k < m.len() implies self.at((#[trigger] m[k]).1, env) == env(m[k].0) by {
            assert(ports(d).contains(ports(d)[k]));
            assert(m[k].1 == g.symbol_expr(bias(g, ports(d)[k])));
        }
        self.idle_substitution(g, m, e, env);
    }

    /// A frozen expression depends on no port.
    proof fn frozen_is_constant(self, g: Graph, d: DaeView, e: ExprId, s: SymbolId)
        requires
            self.sound(g),
            self.differentiates(g),
            ports_apart(g, d),
            ports(d).contains(s),
            self.lives(g.substitute(e, freeze_map(g, d))),
        ensures
            !g.free(g.substitute(e, freeze_map(g, d))).contains(s),
    {
        reveal(Meaning::sound);
        reveal(Meaning::differentiates);
        let m = freeze_map(g, d);
        if g.free(g.substitute(e, m)).contains(s) {
            let j = choose|j: int| 0 <= j < ports(d).len() && ports(d)[j] == s;
            assert(m[j].0 == s);
            let k = choose|k: int| 0 <= k < m.len() && g.free((#[trigger] m[k]).1).contains(s);
            let p = ports(d)[k];
            assert(ports(d).contains(p));
            assert(m[k].1 == g.symbol_expr(bias(g, p)));
            assert(s == bias(g, p));
        }
    }

    /// What one monomial contributes to the slope in a port.
    proof fn slope_of_monomial(self, g: Graph, d: DaeView, e: ExprId, q: SymbolId, s: SymbolId, env: Env<V>)
        requires
            self.sound(g),
            self.differentiates(g),
            ports_apart(g, d),
            at_bias(g, d, env),
            ports(d).contains(q),
            ports(d).contains(s),
            self.lives(monomial(g, freeze_map(g, d), e, q)),
        ensures
            self.lives(g.derive(monomial(g, freeze_map(g, d), e, q), s)) ==> self.at(
                g.derive(monomial(g, freeze_map(g, d), e, q), s),
                env,
            ) == (if q == s {
                self.at(g.derive(e, q), env)
            } else {
                self.field.zero
            }),
            g.is_zero(monomial(g, freeze_map(g, d), e, q)) ==> self.at(g.derive(e, q), env) == self.field.zero,
    {
        reveal(Meaning::sound);
        reveal(Meaning::differentiates);
        let f = self.field;
        let m = freeze_map(g, d);
        let c = g.substitute(g.derive(e, q), m);
        let x = g.symbol_expr(q);
        let v = self.at(c, env);
        self.freezing_keeps(g, d, g.derive(e, q), env);
        self.frozen_is_constant(g, d, g.derive(e, q), s);
        self.frozen_is_constant(g, d, g.derive(e, q), q);
        f.times_zero(self.at(x, env));
        f.times_zero(v);
        f.products(v, v, v);
        f.sums(v, v, v);
        f.sums(f.zero, f.zero, f.zero);
        if g.is_zero(monomial(g, m, e, q)) {
            let to = moved(env, q, f.one);
            assert(self.at(g.times(c, x), to) == f.zero);
            assert(self.at(c, to) == self.at(c, env));
        }
    }

    proof fn slope_of_monomials(
        self,
        g: Graph,
        d: DaeView,
        e: ExprId,
        list: Seq<SymbolId>,
        j: int,
        s: SymbolId,
        env: Env<V>,
    )
        requires
            self.sound(g),
            self.differentiates(g),
            ports_apart(g, d),
            at_bias(g, d, env),
            ports(d).contains(s),
            0 <= j <= list.len(),
            list.no_duplicates(),
            forall|k: int| 0 <= k < list.len() ==> ports(d).contains(#[trigger] list[k]),
            self.expands(g, d, e),
            self.lives(g.derive(e, s)),
            self.slopes_live(g, monomials(g, freeze_map(g, d), e, list, j), s),
        ensures
            self.slopes(g, monomials(g, freeze_map(g, d), e, list, j), s, env) == (if list.skip(j).contains(s) {
                self.at(g.derive(e, s), env)
            } else {
                self.field.zero
            }),
        decreases list.len() - j,
    {
        self.arithmetic(g);
        let f = self.field;
        let m = freeze_map(g, d);
        if j < list.len() {
            let q = list[j];
            let rest = monomials(g, m, e, list, j + 1);
            let all = monomials(g, m, e, list, j);
            let own = monomial(g, m, e, q);
            let kept = g.free(e).contains(q) && !g.is_zero(own);
            assert forall|k: int| 0 <= k < rest.len() implies self.lives(g.derive(#[trigger] rest[k], s)) by {
                if kept {
                    assert(all[k + 1] == rest[k]);
                } else {
                    assert(all[k] == rest[k]);
                }
            }
            self.slope_of_monomials(g, d, e, list, j + 1, s, env);
            assert(ports(d).contains(list[j]));
            if g.free(e).contains(q) {
                self.slope_of_monomial(g, d, e, q, s, env);
                if kept {
                    assert(all[0] == own);
                }
            }
            let after = self.slopes(g, rest, s, env);
            f.sums(self.at(g.derive(own, s), env), after, f.zero);
            f.sums(after, after, after);
            let here = list.skip(j);
            let next = list.skip(j + 1);
            if next.contains(s) {
                let k = choose|k: int| 0 <= k < next.len() && next[k] == s;
                assert(here[k + 1] == s);
                assert(q != s);
            } else if q == s {
                assert(here[0] == s);
            } else if here.contains(s) {
                let k = choose|k: int| 0 <= k < here.len() && here[k] == s;
                assert(next[k - 1] == s);
            }
            if kept {
                self.slopes_concat(g, seq![own], rest, s, env);
                self.slope_of_one(g, own, s, env);
            } else if q == s {
                self.slope_where_absent(g, e, s, env);
            }
        } else {
            assert(list.skip(j).len() == 0);
        }
    }

    /// The linear form of an expression has its slopes.
    proof fn slope_of_form(self, g: Graph, d: DaeView, e: ExprId, s: SymbolId, env: Env<V>)
        requires
            self.sound(g),
            self.differentiates(g),
            ports_apart(g, d),
            at_bias(g, d, env),
            ports(d).contains(s),
            self.expands(g, d, e),
            self.lives(g.derive(e, s)),
            self.slopes_live(g, linear_form(g, d, e), s),
        ensures
            self.slopes(g, linear_form(g, d, e), s, env) == self.at(g.derive(e, s), env),
    {
        self.arithmetic(g);
        let f = self.field;
        let m = freeze_map(g, d);
        let rates = rates_from(d.xdot, 0);
        let all = ports(d);
        assert forall|k: int| 0 <= k < d.x.len() implies all.contains(#[trigger] d.x[k]) by {
            assert(all[k] == d.x[k]);
        }
        assert forall|k: int| 0 <= k < rates.len() implies all.contains(#[trigger] rates[k]) by {
            assert(all[d.x.len() + k] == rates[k]);
        }
        assert(d.x.no_duplicates()) by {
            assert forall|a: int, b: int| 0 <= a < d.x.len() && 0 <= b < d.x.len() && a != b implies d.x[a]
                != d.x[b] by {
                assert(all[a] != all[b]);
            }
        }
        assert(rates.no_duplicates()) by {
            let n = d.x.len() as int;
            assert forall|a: int, b: int| 0 <= a < rates.len() && 0 <= b < rates.len() && a != b implies rates[a]
                != rates[b] by {
                assert(all[n + a] != all[n + b]);
            }
        }
        let form = linear_form(g, d, e);
        let (own, others) = (monomials(g, m, e, d.x, 0), monomials(g, m, e, rates, 0));
        assert forall|k: int| 0 <= k < own.len() implies self.lives(g.derive(#[trigger] own[k], s)) by {
            assert(form[k] == own[k]);
        }
        assert forall|k: int| 0 <= k < others.len() implies self.lives(g.derive(#[trigger] others[k], s)) by {
            assert(form[own.len() + k] == others[k]);
        }
        self.slope_of_monomials(g, d, e, d.x, 0, s, env);
        self.slope_of_monomials(g, d, e, rates, 0, s, env);
        assert(d.x.skip(0) =~= d.x);
        assert(rates.skip(0) =~= rates);
        let i = choose|i: int| 0 <= i < all.len() && all[i] == s;
        if d.x.contains(s) && rates.contains(s) {
            let a = choose|a: int| 0 <= a < d.x.len() && d.x[a] == s;
            let b = choose|b: int| 0 <= b < rates.len() && rates[b] == s;
            assert(all[a] == all[d.x.len() + b]);
        }
        if i < d.x.len() {
            assert(d.x[i] == s);
        } else {
            assert(rates[i - d.x.len()] == s);
        }
        let v = self.at(g.derive(e, s), env);
        f.sums(v, v, v);
        self.slopes_concat(g, monomials(g, m, e, d.x, 0), monomials(g, m, e, rates, 0), s, env);
    }

    proof fn slope_of_parts(self, g: Graph, d: DaeView, e: ExprId, gran: Granularity, s: SymbolId, env: Env<V>)
        requires
            self.sound(g),
            self.differentiates(g),
            ports_apart(g, d),
            at_bias(g, d, env),
            ports(d).contains(s),
            self.expands(g, d, e),
            self.lives(g.derive(e, s)),
            self.slopes_live(g, linear_parts(g, d, e, gran), s),
        ensures
            self.slopes(g, linear_parts(g, d, e, gran), s, env) == self.at(g.derive(e, s), env),
    {
        if gran == Granularity::PerElement {
            let whole = running_sum(g, g.zero(), linear_form(g, d, e));
            assert(linear_parts(g, d, e, gran)[0] == whole);
            self.slope_of_one(g, whole, s, env);
            self.slope_of_sum(g, linear_form(g, d, e), s, env);
        }
        self.slope_of_form(g, d, e, s, env);
    }

    /// The stamps of a row keep their slopes.
    proof fn slope_of_stamps(
        self,
        g: Graph,
        d: DaeView,
        gran: Granularity,
        n: int,
        row: usize,
        s: SymbolId,
        env: Env<V>,
    )
        requires
            self.sound(g),
            self.differentiates(g),
            ports_apart(g, d),
            at_bias(g, d, env),
            ports(d).contains(s),
            0 <= n <= d.stamps.len(),
            self.expands_all(g, d),
            self.slopes_live(g, of_row(d.stamps.take(n), row), s),
            self.slopes_live(g, of_row(linear_stamps(g, d, gran, n), row), s),
        ensures
            self.slopes(g, of_row(linear_stamps(g, d, gran, n), row), s, env) == self.slopes(
                g,
                of_row(d.stamps.take(n), row),
                s,
                env,
            ),
        decreases n,
    {
        if n > 0 {
            let st = d.stamps[n - 1];
            let parts = linear_parts(g, d, st.expr, gran);
            let before = linear_stamps(g, d, gran, n - 1);
            crate::dae::system::of_row_concat(before, row_stamps(st.row, parts), row);
            crate::dae::system::of_row_same(st.row, parts, row);
            assert(d.stamps.take(n).drop_last() =~= d.stamps.take(n - 1));
            assert(d.stamps.take(n).last() == st);
            let own = of_row(d.stamps.take(n - 1), row);
            let old_row = of_row(d.stamps.take(n), row);
            let new_row = of_row(linear_stamps(g, d, gran, n), row);
            let earlier = of_row(before, row);
            assert forall|k: int| 0 <= k < own.len() implies self.lives(g.derive(#[trigger] own[k], s)) by {
                assert(old_row[k] == own[k]);
            }
            assert forall|k: int| 0 <= k < earlier.len() implies self.lives(g.derive(#[trigger] earlier[k], s)) by {
                assert(new_row[k] == earlier[k]);
            }
            self.slope_of_stamps(g, d, gran, n - 1, row, s, env);
            if st.row == row {
                assert(old_row[own.len() as int] == st.expr);
                assert forall|k: int| 0 <= k < parts.len() implies self.lives(g.derive(#[trigger] parts[k], s)) by {
                    assert(new_row[earlier.len() + k] == parts[k]);
                }
                assert(self.expands(g, d, d.stamps[n - 1].expr));
                self.slopes_concat(g, of_row(before, row), parts, s, env);
                self.slope_of_parts(g, d, st.expr, gran, s, env);
                assert(own.push(st.expr).drop_last() =~= own);
            } else {
                assert(of_row(before, row) + seq![] =~= of_row(before, row));
            }
        } else {
            assert(linear_stamps(g, d, gran, n).len() == 0);
            assert(d.stamps.take(n).len() == 0);
        }
    }

    /// A linearised row has the slopes of the row.
    proof fn slope_of_linear_row(
        self,
        g: Graph,
        d: DaeView,
        gran: Granularity,
        i: int,
        s: SymbolId,
        env: Env<V>,
    )
        requires
            d.wf(),
            d.x.len() <= usize::MAX,
            d.stamps == stamps_of(g, d.residuals, 0),
            self.sound(g),
            self.differentiates(g),
            ports_apart(g, d),
            at_bias(g, d, env),
            ports(d).contains(s),
            0 <= i < d.residuals.len(),
            self.expands_all(g, d),
            self.lives(g.derive(d.residuals[i], s)),
            self.lives(g.derive(linearized(g, d, gran).residuals[i], s)),
        ensures
            self.at(g.derive(linearized(g, d, gran).residuals[i], s), env) == self.at(
                g.derive(d.residuals[i], s),
                env,
            ),
    {
        let n = d.stamps.len() as int;
        let row = i as usize;
        assert(d.stamps.take(n) =~= d.stamps);
        stamps_reproduce_rows(g, d.residuals, row);
        self.slope_of_row(g, d.residuals[i], s, env);
        self.slope_of_sum(g, of_row(linear_stamps(g, d, gran, n), row), s, env);
        self.slope_of_stamps(g, d, gran, n, row, s, env);
    }

    /// The slopes of row `i` in unknown `j` and its rate, before and after, and the
    /// entries made of them have room in the graph.
    pub open spec fn linearises(self, g: Graph, d: DaeView, gran: Granularity, i: int, j: int) -> bool {
        let l = linearized(g, d, gran);
        &&& self.expands_all(g, d)
        &&& self.lives(g.derive(d.residuals[i], d.x[j])) && self.lives(g.derive(l.residuals[i], d.x[j]))
        &&& d.xdot[j] is Some ==> self.lives(g.derive(d.residuals[i], d.xdot[j]->0)) && self.lives(
            g.derive(l.residuals[i], d.xdot[j]->0),
        )
        &&& self.lives(small_signal(g, d)[i][j]) && self.lives(small_signal(g, l)[i][j])
    }

    /// The small-signal matrix of the linearised system is, at the operating
    /// point, that of the system itself, entry by entry and at either granularity.
    pub proof fn linearisation_keeps_the_matrix(
        self,
        g: Graph,
        d: DaeView,
        gran: Granularity,
        env: Env<V>,
        i: int,
        j: int,
    )
        requires
            d.wf(),
            d.x.len() <= usize::MAX,
            d.stamps == stamps_of(g, d.residuals, 0),
            self.sound(g),
            self.differentiates(g),
            ports_apart(g, d),
            at_bias(g, d, env),
            0 <= i < d.residuals.len(),
            0 <= j < d.residuals.len(),
            self.linearises(g, d, gran, i, j),
        ensures
            self.at(small_signal(g, linearized(g, d, gran))[i][j], env) == self.at(small_signal(g, d)[i][j], env),
    {
        reveal(Meaning::sound);
        reveal(Meaning::differentiates);
        let l = linearized(g, d, gran);
        let s = d.x[j];
        let a = d.residuals[i];
        let b = l.residuals[i];
        assert(ports(d)[j] == s);
        assert(ports(d).contains(s));
        self.slope_of_linear_row(g, d, gran, i, s, env);
        assert(self.at(g.derive(a, s), env) == self.at(g.derive(b, s), env));
        if d.xdot[j] is Some {
            let r = d.xdot[j]->0;
            rate_is_port(d, 0, j);
            self.slope_of_linear_row(g, d, gran, i, r, env);
            assert(self.at(g.derive(a, r), env) == self.at(g.derive(b, r), env));
        }
    }
}

pub(crate) proof fn rate_is_port(d: DaeView, i: int, j: int)
    requires
        0 <= i <= j < d.xdot.len(),
        d.xdot[j] is Some,
    ensures
        rates_from(d.xdot, i).contains(d.xdot[j]->0),
        i == 0 ==> ports(d).contains(d.xdot[j]->0),
    decreases j - i,
{
    let all = rates_from(d.xdot, i);
    let rest = rates_from(d.xdot, i + 1);
    if i == j {
        assert(all[0] == d.xdot[j]->0);
    } else {
        rate_is_port(d, i + 1, j);
        let k = choose|k: int| 0 <= k < rest.len() && rest[k] == d.xdot[j]->0;
        if d.xdot[i] is Some {
            assert(all[k + 1] == rest[k]);
        } else {
            assert(all == rest);
        }
    }
    if i == 0 {
        let k = choose|k: int| 0 <= k < all.len() && all[k] == d.xdot[j]->0;
        assert(ports(d)[d.x.len() + k] == all[k]);
    }
}

// ---------------------------------------------------------------------------
// Folding.
// ---------------------------------------------------------------------------
impl<V> Meaning<V> {
    /// The values once the folded parameters have theirs (the last one that names
    /// a parameter counts).
    pub open spec fn bound(self, env: Env<V>, fold: Seq<(SymbolId, u64)>, s: SymbolId) -> V
        decreases fold.len(),
    {
        if fold.len() == 0 {
            env(s)
        } else if fold.last().0 == s {
            (self.literal)(fold.last().1)
        } else {
            self.bound(env, fold.drop_last(), s)
        }
    }

    proof fn bound_is_put(self, g: Graph, env: Env<V>, fold: Seq<(SymbolId, u64)>, s: SymbolId)
        requires
            self.sound(g),
            forall|k: int| 0 <= k < fold.len() ==> self.lives(g.number((#[trigger] fold[k]).1)),
        ensures
            self.put(env, fold_map(g, fold), s) == self.bound(env, fold, s),
        decreases fold.len(),
    {
        reveal(Meaning::sound);
        if fold.len() > 0 {
            let m = fold_map(g, fold);
            assert(m.last() == (fold.last().0, g.number(fold.last().1)));
            let less = fold.drop_last();
            assert(m.drop_last() =~= fold_map(g, less));
            assert(fold[fold.len() - 1] == fold.last());
            assert forall|k: int| 0 <= k < less.len() implies self.lives(g.number((#[trigger] less[k]).1)) by {
                assert(less[k] == fold[k]);
            }
            self.bound_is_put(g, env, fold.drop_last(), s);
        }
    }

    /// A folded system has everywhere the residuals of the system with the folded
    /// parameters at their values.
    pub proof fn folding_binds_the_values(
        self,
        g: Graph,
        d: DaeView,
        fold: Seq<(SymbolId, u64)>,
        env: Env<V>,
        full: Env<V>,
        k: int,
    )
        requires
            self.sound(g),
            0 <= k < d.residuals.len(),
            self.lives(folded(g, d, fold).residuals[k]),
            forall|s: SymbolId| #[trigger] full(s) == self.bound(env, fold, s),
        ensures
            self.at(folded(g, d, fold).residuals[k], env) == self.at(d.residuals[k], full),
    {
        reveal(Meaning::sound);
        let m = fold_map(g, fold);
        assert(self.lives(g.substitute(d.residuals[k], m)));
        assert forall|l: int| 0 <= l < fold.len() implies self.lives(g.number((#[trigger] fold[l]).1)) by {
            assert(self.lives(m[l].1));
        }
        assert forall|s: SymbolId| #[trigger] self.under(env, m)(s) == full(s) by {
            self.bound_is_put(g, env, fold, s);
        }
        assert(self.at(d.residuals[k], self.under(env, m)) == self.at(d.residuals[k], full));
    }
}

// ---------------------------------------------------------------------------
// Merging.
// ---------------------------------------------------------------------------
/// The value of a rate, where there is one.
pub open spec fn rate_value<V>(d: DaeView, env: Env<V>, i: int) -> Option<V> {
    match d.xdot[i] {
        Some(s) => Some(env(s)),
        None => None,
    }
}

/// Two nodes have the same voltage, and it changes at the same rate.
pub open spec fn level<V>(d: DaeView, env: Env<V>, i: int, j: int) -> bool {
    env(d.x[i]) == env(d.x[j]) && rate_value(d, env, i) == rate_value(d, env, j)
}

proof fn level_with_survivor<V>(d: DaeView, pairs: Seq<(usize, usize)>, env: Env<V>, k: int, x: int)
    requires
        0 <= k <= pairs.len(),
        0 <= x < d.n_nodes,
        forall|l: int|
            0 <= l < pairs.len() && (#[trigger] pairs[l]).0 < d.n_nodes && pairs[l].1 < d.n_nodes ==> level(
                d,
                env,
                pairs[l].0 as int,
                pairs[l].1 as int,
            ),
    ensures
        0 <= survivor(pairs, d.n_nodes as int, k, x) < d.n_nodes,
        level(d, env, survivor(pairs, d.n_nodes as int, k, x), x),
    decreases k,
{
    if k > 0 {
        let (a, b) = pairs[k - 1];
        level_with_survivor(d, pairs, env, k - 1, x);
        if a < d.n_nodes && b < d.n_nodes {
            level_with_survivor(d, pairs, env, k - 1, a as int);
            level_with_survivor(d, pairs, env, k - 1, b as int);
        }
    }
}

proof fn merge_map_is_idle<V>(m: Meaning<V>, g: Graph, d: DaeView, rep: Seq<usize>, env: Env<V>, i: int)
    requires
        d.wf(),
        m.sound(g),
        0 <= i,
        rep.len() == d.x.len(),
        forall|j: int| 0 <= j < d.n_nodes ==> (#[trigger] rep[j]) < d.n_nodes && level(d, env, rep[j] as int, j),
        forall|k: int| 0 <= k < merge_map(g, d, rep, i).len() ==> m.lives((#[trigger] merge_map(g, d, rep, i)[k]).1),
    ensures
        forall|k: int|
            0 <= k < merge_map(g, d, rep, i).len() ==> m.at((#[trigger] merge_map(g, d, rep, i)[k]).1, env) == env(
                merge_map(g, d, rep, i)[k].0,
            ),
    decreases d.n_nodes - i,
{
    let all = merge_map(g, d, rep, i);
    if i < d.n_nodes {
        let r = rep[i] as int;
        let rest = merge_map(g, d, rep, i + 1);
        assert forall|k: int| 0 <= k < rest.len() implies m.lives((#[trigger] rest[k]).1) by {
            assert(all[all.len() - rest.len() + k] == rest[k]);
        }
        merge_map_is_idle(m, g, d, rep, env, i + 1);
        reveal(Meaning::sound);
        let own = seq![(d.x[i], g.symbol_expr(d.x[r]))];
        assert(level(d, env, rep[i] as int, i));
        assert forall|k: int| 0 <= k < all.len() implies m.at((#[trigger] all[k]).1, env) == env(all[k].0) by {
            let n = all.len() - rest.len();
            assert(m.lives(all[k].1));
            if k >= n {
                assert(all[k] == rest[k - n]);
            }
        }
    }
}

impl<V> Meaning<V> {
    proof fn fused_balance(
        self,
        g: Graph,
        rows: Seq<ExprId>,
        rep: Seq<usize>,
        nn: int,
        i: int,
        j: int,
        env: Env<V>,
    )
        requires
            self.sound(g),
            0 <= j,
            nn <= rows.len(),
            self.all_live(rows),
            self.solves(rows, env),
        ensures
            self.total(fused(g, rows, rep, nn, i, j), env) == self.field.zero,
        decreases nn - j,
    {
        if j < nn {
            self.fused_balance(g, rows, rep, nn, i, j + 1, env);
            if rep[j] == i {
                self.arithmetic(g);
                self.total_of_row(g, rows[j], env);
                self.total_concat(g, summands(g, rows[j]), fused(g, rows, rep, nn, i, j + 1), env);
                self.field.sums(self.field.zero, self.field.zero, self.field.zero);
            }
        }
    }

    /// A solution in which shorted nodes are level already solves the merged
    /// system.
    pub proof fn level_solutions_survive_merging(
        self,
        g: Graph,
        d: DaeView,
        pairs: Seq<(usize, usize)>,
        env: Env<V>,
    )
        requires
            d.wf(),
            d.x.len() <= usize::MAX,
            self.sound(g),
            self.all_live(replaced(g, d.residuals, merge_map(g, d, reps(pairs, d.n_nodes as int, d.x.len()), 0))),
            self.all_live(merged(g, d, pairs).0.residuals),
            self.solves(d.residuals, env),
            forall|l: int|
                0 <= l < pairs.len() && (#[trigger] pairs[l]).0 < d.n_nodes && pairs[l].1 < d.n_nodes ==> level(
                    d,
                    env,
                    pairs[l].0 as int,
                    pairs[l].1 as int,
                ),
        ensures
            self.solves(merged(g, d, pairs).0.residuals, env),
    {
        let nn = d.n_nodes as int;
        let rep = reps(pairs, nn, d.x.len());
        assert forall|j: int| 0 <= j < nn implies (#[trigger] rep[j]) < nn && level(d, env, rep[j] as int, j) by {
            level_with_survivor(d, pairs, env, pairs.len() as int, j);
        }
        let m = merge_map(g, d, rep, 0);
        let rows = replaced(g, d.residuals, m);
        assert forall|k: int| 0 <= k < rows.len() implies self.at(#[trigger] rows[k], env) == self.field.zero by {
            assert(self.lives(rows[k]));
            assert(rows[k] == g.substitute(d.residuals[k], m));
            assert forall|l: int| 0 <= l < m.len() implies self.lives((#[trigger] m[l]).1) by {
                reveal(Meaning::sound);
            }
            merge_map_is_idle(self, g, d, rep, env, 0);
            self.idle_substitution(g, m, d.residuals[k], env);
        }
        merging_shrinks(g, d, pairs);
        let stay = merged(g, d, pairs).1;
        let out = merged(g, d, pairs).0.residuals;
        assert forall|k: int| 0 <= k < out.len() implies self.at(#[trigger] out[k], env) == self.field.zero by {
            let i = stay[k] as int;
            assert(i < d.x.len());
            assert(out[k] == merged_row(g, rows, rep, nn, i));
            if i < nn {
                self.fused_balance(g, rows, rep, nn, i, 0, env);
                reveal(Meaning::sound);
            } else {
                assert(self.at(rows[i], env) == self.field.zero);
            }
        }
    }
}

} // verus!

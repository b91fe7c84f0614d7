//! What the derivatives mean: the laws that Jacobians and sensitivities keep under
//! every interpretation that fits the expressions of the graph.
use crate::dae::jacobian::{column_of, coo_entries, filled, row_entries, Entry};
use crate::dae::meaning::{Env, Meaning};
use crate::dae::sens::{along, directed, extension, rate_name, row_sum, state_name};
use crate::dae::system::DaeView;
use crate::device::limited_exp;
use crate::numerics::{compares, Answers, Rel, ZERO};
use crate::symbolic::{ExprId, Fun1, Graph, SymbolId};
use vstd::prelude::*;

verus! {

/// What each symbol moves by, as the values of the columns that the symbols are;
/// a symbol that is no column does not move.
pub open spec fn moves<V>(
    m: Meaning<V>,
    slots: Seq<Option<SymbolId>>,
    s: Seq<ExprId>,
    env: Env<V>,
) -> spec_fn(SymbolId) -> V {
    |x: SymbolId|
        match column_of(slots, x) {
            Some(c) => m.at(s[c as int], env),
            None => m.field.zero,
        }
}

impl<V> Meaning<V> {
    /// The chain rule over the symbols of an expression from `k` on: the sum of
    /// its derivatives times what each symbol moves by.
    pub open spec fn chain(self, g: Graph, e: ExprId, w: spec_fn(SymbolId) -> V, env: Env<V>, k: int) -> V
        decreases g.free(e).len() - k,
    {
        if k < 0 || k >= g.free(e).len() {
            self.field.zero
        } else {
            let x = g.free(e)[k];
            (self.field.plus)(
                (self.field.times)(self.at(g.derive(e, x), env), w(x)),
                self.chain(g, e, w, env, k + 1),
            )
        }
    }

    /// The slopes of an expression in the symbols that it depends on are expressions
    /// of the graph.
    pub open spec fn slopes_within(self, g: Graph, e: ExprId) -> bool {
        forall|k: int| 0 <= k < g.free(e).len() ==> self.lives(g.derive(e, #[trigger] g.free(e)[k]))
    }

    /// What the entries from `k` on add to row `i`.
    spec fn entry_total(self, e: Seq<Entry>, s: Seq<ExprId>, i: int, env: Env<V>, k: int) -> V
        decreases e.len() - k,
    {
        if k < 0 || k >= e.len() {
            self.field.zero
        } else {
            let rest = self.entry_total(e, s, i, env, k + 1);
            if e[k].0 == i {
                (self.field.plus)(
                    (self.field.times)(self.at(e[k].2, env), self.at(s[e[k].1 as int], env)),
                    rest,
                )
            } else {
                rest
            }
        }
    }

    proof fn row_sum_adds(
        self,
        g: Graph,
        e: Seq<Entry>,
        s: Seq<ExprId>,
        i: int,
        from: ExprId,
        env: Env<V>,
        k: int,
    )
        requires
            self.sound(g),
            0 <= k <= e.len(),
            self.lives(row_sum(g, e, s, i, from, k)),
        ensures
            self.lives(from),
            (self.field.plus)(self.at(row_sum(g, e, s, i, from, k), env), self.entry_total(e, s, i, env, k)) == (
            self.field.plus)(self.at(from, env), self.entry_total(e, s, i, env, 0)),
        decreases k,
    {
        self.arithmetic(g);
        if k > 0 {
            assert(self.lives(row_sum(g, e, s, i, from, k - 1))) by {
                reveal(Meaning::sound);
            }
            self.row_sum_adds(g, e, s, i, from, env, k - 1);
            let before = self.at(row_sum(g, e, s, i, from, k - 1), env);
            let own = (self.field.times)(self.at(e[k - 1].2, env), self.at(s[e[k - 1].1 as int], env));
            self.field.sums(before, own, self.entry_total(e, s, i, env, k));
            assert(self.at(row_sum(g, e, s, i, from, k), env) == (if e[k - 1].0 == i {
                (self.field.plus)(before, own)
            } else {
                before
            })) by {
                reveal(Meaning::sound);
            }
        }
    }

    /// A list of entries behind another adds what it adds alone.
    proof fn totals_add(self, g: Graph, a: Seq<Entry>, b: Seq<Entry>, s: Seq<ExprId>, i: int, env: Env<V>, k: int)
        requires
            self.sound(g),
            0 <= k <= a.len(),
        ensures
            self.entry_total(a + b, s, i, env, k) == (self.field.plus)(
                self.entry_total(a, s, i, env, k),
                self.entry_total(b, s, i, env, 0),
            ),
        decreases a.len() - k,
    {
        self.arithmetic(g);
        let t = self.entry_total(b, s, i, env, 0);
        if k == a.len() {
            self.shifted(a, b, s, i, env, 0);
            self.field.sums(t, t, t);
        } else {
            self.totals_add(g, a, b, s, i, env, k + 1);
            assert((a + b)[k] == a[k]);
            let own = (self.field.times)(self.at(a[k].2, env), self.at(s[a[k].1 as int], env));
            self.field.sums(own, self.entry_total(a, s, i, env, k + 1), t);
        }
    }

    proof fn shifted(self, a: Seq<Entry>, b: Seq<Entry>, s: Seq<ExprId>, i: int, env: Env<V>, k: int)
        requires
            0 <= k <= b.len(),
        ensures
            self.entry_total(a + b, s, i, env, a.len() + k) == self.entry_total(b, s, i, env, k),
        decreases b.len() - k,
    {
        if k < b.len() {
            self.shifted(a, b, s, i, env, k + 1);
            assert((a + b)[a.len() + k] == b[k]);
        }
    }

    /// The entries of one row add up to the chain rule.
    proof fn row_total(
        self,
        g: Graph,
        slots: Seq<Option<SymbolId>>,
        s: Seq<ExprId>,
        i: usize,
        r: ExprId,
        env: Env<V>,
        k: int,
    )
        requires
            self.sound(g),
            self.slopes_within(g, r),
            0 <= k,
        ensures
            self.entry_total(row_entries(g, slots, i, r, g.free(r), k), s, i as int, env, 0) == self.chain(
                g,
                r,
                moves(self, slots, s, env),
                env,
                k,
            ),
        decreases g.free(r).len() - k,
    {
        self.arithmetic(g);
        let free = g.free(r);
        let w = moves(self, slots, s, env);
        if k < free.len() {
            self.row_total(g, slots, s, i, r, env, k + 1);
            let rest = row_entries(g, slots, i, r, free, k + 1);
            let d = g.derive(r, free[k]);
            let after = self.chain(g, r, w, env, k + 1);
            self.field.sums(after, after, after);
            match column_of(slots, free[k]) {
                Some(c) => {
                    if g.is_zero(d) {
                        assert(self.lives(g.derive(r, g.free(r)[k])));
                        assert(self.at(d, env) == self.field.zero) by {
                            reveal(Meaning::sound);
                        }
                        self.field.times_zero(w(free[k]));
                    } else {
                        let one = seq![(i, c, d)];
                        self.totals_add(g, one, rest, s, i as int, env, 0);
                        assert(one[0] == (i, c, d));
                        let own = (self.field.times)(self.at(d, env), self.at(s[c as int], env));
                        self.field.sums(own, own, own);
                        assert(self.entry_total(one, s, i as int, env, 1) == self.field.zero);
                        assert(self.entry_total(one, s, i as int, env, 0) == own);
                    }
                },
                None => {
                    self.field.times_zero(self.at(d, env));
                },
            }
        }
    }

    /// Entries of other rows add nothing.
    proof fn other_total(
        self,
        g: Graph,
        slots: Seq<Option<SymbolId>>,
        s: Seq<ExprId>,
        j: usize,
        r: ExprId,
        i: int,
        env: Env<V>,
        k: int,
    )
        requires
            self.sound(g),
            0 <= k,
            i != j,
        ensures
            self.entry_total(row_entries(g, slots, j, r, g.free(r), k), s, i, env, 0) == self.field.zero,
        decreases g.free(r).len() - k,
    {
        self.arithmetic(g);
        let z = self.field.zero;
        if k < g.free(r).len() {
            self.other_total(g, slots, s, j, r, i, env, k + 1);
            let rest = row_entries(g, slots, j, r, g.free(r), k + 1);
            if let Some(c) = column_of(slots, g.free(r)[k]) {
                let d = g.derive(r, g.free(r)[k]);
                if !g.is_zero(d) {
                    let one = seq![(j, c, d)];
                    self.totals_add(g, one, rest, s, i, env, 0);
                    assert(one[0].0 == j);
                    assert(self.entry_total(one, s, i, env, 1) == z);
                    assert(self.entry_total(one, s, i, env, 0) == z);
                    self.field.sums(z, z, z);
                }
            }
        }
    }

    proof fn block_total(
        self,
        g: Graph,
        rows: Seq<ExprId>,
        slots: Seq<Option<SymbolId>>,
        s: Seq<ExprId>,
        i: int,
        env: Env<V>,
        j: int,
    )
        requires
            self.sound(g),
            rows.len() <= usize::MAX,
            0 <= i < rows.len(),
            0 <= j <= rows.len(),
            self.slopes_within(g, rows[i]),
        ensures
            self.entry_total(coo_entries(g, rows, slots, j), s, i, env, 0) == (if j <= i {
                self.chain(g, rows[i], moves(self, slots, s, env), env, 0)
            } else {
                self.field.zero
            }),
        decreases rows.len() - j,
    {
        self.arithmetic(g);
        if j < rows.len() {
            self.block_total(g, rows, slots, s, i, env, j + 1);
            let own = row_entries(g, slots, j as usize, rows[j], g.free(rows[j]), 0);
            let rest = coo_entries(g, rows, slots, j + 1);
            self.totals_add(g, own, rest, s, i, env, 0);
            let t = self.chain(g, rows[i], moves(self, slots, s, env), env, 0);
            self.field.sums(t, t, t);
            self.field.sums(self.field.zero, t, t);
            if j == i {
                self.row_total(g, slots, s, j as usize, rows[j], env, 0);
            } else {
                self.other_total(g, slots, s, j as usize, rows[j], i, env, 0);
            }
        }
    }

    /// A sparse Jacobian times a vector is the chain rule, row by row: what is left
    /// out of it adds nothing.
    pub proof fn sparse_product_is_the_chain_rule(
        self,
        g: Graph,
        rows: Seq<ExprId>,
        slots: Seq<Option<SymbolId>>,
        s: Seq<ExprId>,
        i: int,
        from: ExprId,
        env: Env<V>,
    )
        requires
            self.sound(g),
            rows.len() <= usize::MAX,
            0 <= i < rows.len(),
            self.slopes_within(g, rows[i]),
            ({
                let e = coo_entries(g, rows, slots, 0);
                self.lives(row_sum(g, e, s, i, from, e.len() as int))
            }),
        ensures
            self.lives(from),
            ({
                let e = coo_entries(g, rows, slots, 0);
                self.at(row_sum(g, e, s, i, from, e.len() as int), env) == (self.field.plus)(
                    self.at(from, env),
                    self.chain(g, rows[i], moves(self, slots, s, env), env, 0),
                )
            }),
    {
        self.arithmetic(g);
        let e = coo_entries(g, rows, slots, 0);
        let n = e.len() as int;
        self.row_sum_adds(g, e, s, i, from, env, n);
        self.block_total(g, rows, slots, s, i, env, 0);
        let a = self.at(row_sum(g, e, s, i, from, n), env);
        self.field.sums(a, a, a);
    }

    /// Every appended row is the total derivative of the row it comes from: the
    /// unknowns move by their sensitivities, their rates by the rates of the
    /// sensitivities, and the parameter by its scale.
    pub proof fn sensitivity_rows_are_total_derivatives(
        self,
        g: Graph,
        d: DaeView,
        p: SymbolId,
        scale: u64,
        i: int,
        env: Env<V>,
    )
        requires
            d.wf(),
            d.x.len() <= usize::MAX,
            self.sound(g),
            0 <= i < d.x.len(),
            self.slopes_within(g, d.residuals[i]),
            self.lives(extension(g, d, p, scale).residuals[i]),
        ensures
            ({
                let n = d.x.len();
                let name = g.symbol_name(p);
                let s = Seq::new(n, |j: int| g.sym(state_name(name, j)));
                let sd = Seq::new(
                    n,
                    |j: int|
                        if d.xdot[j] is Some {
                            g.sym(rate_name(name, j))
                        } else {
                            g.zero()
                        },
                );
                let f = self.field;
                let row = d.residuals[i];
                self.at(extension(g, d, p, scale).residuals[i], env) == (f.plus)(
                    (f.plus)(
                        self.chain(g, row, moves(self, filled(d.x), s, env), env, 0),
                        self.chain(g, row, moves(self, d.xdot, sd, env), env, 0),
                    ),
                    (f.times)((self.literal)(scale), self.at(g.derive(row, p), env)),
                )
            }),
    {
        self.arithmetic(g);
        let n = d.x.len();
        let name = g.symbol_name(p);
        let s = Seq::new(n, |j: int| g.sym(state_name(name, j)));
        let sd = Seq::new(
            n,
            |j: int|
                if d.xdot[j] is Some {
                    g.sym(rate_name(name, j))
                } else {
                    g.zero()
                },
        );
        let jx = coo_entries(g, d.residuals, filled(d.x), 0);
        let first = row_sum(g, jx, s, i, g.zero(), jx.len() as int);
        let jd = coo_entries(g, d.residuals, d.xdot, 0);
        assert(self.lives(row_sum(g, jd, sd, i, first, jd.len() as int))) by {
            reveal(Meaning::sound);
        }
        self.sparse_product_is_the_chain_rule(g, d.residuals, d.xdot, sd, i, first, env);
        self.sparse_product_is_the_chain_rule(g, d.residuals, filled(d.x), s, i, g.zero(), env);
        let a = self.chain(g, d.residuals[i], moves(self, filled(d.x), s, env), env, 0);
        self.field.sums(a, a, a);
        reveal(Meaning::sound);
    }

    /// The derivative along the first `k` unknowns.
    pub open spec fn steps(
        self,
        g: Graph,
        e: ExprId,
        dx: Seq<u64>,
        x: Seq<SymbolId>,
        env: Env<V>,
        k: int,
    ) -> V
        decreases k,
    {
        if k <= 0 {
            self.field.zero
        } else {
            (self.field.plus)(
                self.steps(g, e, dx, x, env, k - 1),
                (self.field.times)((self.literal)(dx[k - 1]), self.at(g.derive(e, x[k - 1]), env)),
            )
        }
    }

    proof fn steps_along(
        self,
        g: Graph,
        h: Answers,
        e: ExprId,
        dx: Seq<u64>,
        x: Seq<SymbolId>,
        env: Env<V>,
        k: int,
    )
        requires
            self.sound(g),
            self.differentiates(g),
            k <= x.len(),
            forall|j: int| 0 <= j < x.len() ==> self.lives(g.derive(e, #[trigger] x[j])),
            self.lives(along(g, h, e, dx, x, k)),
            forall|b: u64| !#[trigger] compares(h, Rel::Ne, b, ZERO) ==> (self.literal)(b) == self.field.zero,
        ensures
            self.at(along(g, h, e, dx, x, k), env) == self.steps(g, e, dx, x, env, k),
        decreases k,
    {
        self.arithmetic(g);
        reveal(Meaning::sound);
        if k > 0 {
            self.steps_along(g, h, e, dx, x, env, k - 1);
            let before = self.steps(g, e, dx, x, env, k - 1);
            let d = g.derive(e, x[k - 1]);
            assert(self.lives(d));
            self.field.sums(before, before, before);
            if !compares(h, Rel::Ne, dx[k - 1], ZERO) {
                self.field.times_zero(self.at(d, env));
            } else {
                assert(!g.free(e).contains(x[k - 1]) ==> self.at(d, env) == self.field.zero) by {
                    reveal(Meaning::differentiates);
                }
                self.field.times_zero((self.literal)(dx[k - 1]));
            }
        }
    }

    /// A directional derivative is the derivative along its direction: what is
    /// left out of the sum adds nothing, as long as the host takes only zero for
    /// zero.
    pub proof fn directional_derivative_is_exact(
        self,
        g: Graph,
        h: Answers,
        e: ExprId,
        dx: Seq<u64>,
        x: Seq<SymbolId>,
        p: SymbolId,
        env: Env<V>,
    )
        requires
            self.sound(g),
            self.differentiates(g),
            forall|j: int| 0 <= j < x.len() ==> self.lives(g.derive(e, #[trigger] x[j])),
            self.lives(g.derive(e, p)),
            self.lives(directed(g, h, e, dx, x, p)),
            forall|b: u64| !#[trigger] compares(h, Rel::Ne, b, ZERO) ==> (self.literal)(b) == self.field.zero,
        ensures
            self.at(directed(g, h, e, dx, x, p), env) == (self.field.plus)(
                self.steps(g, e, dx, x, env, x.len() as int),
                self.at(g.derive(e, p), env),
            ),
    {
        self.arithmetic(g);
        assert(self.lives(along(g, h, e, dx, x, x.len() as int))) by {
            reveal(Meaning::sound);
        }
        self.steps_along(g, h, e, dx, x, env, x.len() as int);
        let a = self.steps(g, e, dx, x, env, x.len() as int);
        self.field.sums(a, a, a);
        reveal(Meaning::sound);
        reveal(Meaning::differentiates);
    }

    /// Differences, exponentials and choices mean what they say.
    pub open spec fn elementary(
        self,
        g: Graph,
        exp: spec_fn(V) -> V,
        above: spec_fn(V, V) -> bool,
    ) -> bool {
        let f = self.field;
        &&& forall|env: Env<V>| self.lives(g.one()) ==> #[trigger] self.at(g.one(), env) == f.one
        &&& forall|a: ExprId, b: ExprId| #[trigger] self.lives(g.minus(a, b)) ==> self.lives(a) && self.lives(b)
        &&& forall|a: ExprId, b: ExprId, env: Env<V>|
            self.lives(g.minus(a, b)) ==> #[trigger] self.at(g.minus(a, b), env) == (f.plus)(
                self.at(a, env),
                (f.neg)(self.at(b, env)),
            )
        &&& forall|a: ExprId| #[trigger] self.lives(g.fun1(Fun1::Exp, a)) ==> self.lives(a)
        &&& forall|a: ExprId, env: Env<V>|
            self.lives(g.fun1(Fun1::Exp, a)) ==> #[trigger] self.at(g.fun1(Fun1::Exp, a), env) == exp(
                self.at(a, env),
            )
        &&& forall|a: ExprId, b: ExprId, c: ExprId, d: ExprId| #[trigger]
            self.lives(g.select(g.compare(Rel::Gt, a, b), c, d)) ==> self.lives(a) && self.lives(b) && self.lives(c)
                && self.lives(d)
        &&& forall|a: ExprId, b: ExprId, c: ExprId, d: ExprId, env: Env<V>|
            self.lives(g.select(g.compare(Rel::Gt, a, b), c, d)) ==> #[trigger] self.at(
                g.select(g.compare(Rel::Gt, a, b), c, d),
                env,
            ) == (if above(self.at(a, env), self.at(b, env)) {
                self.at(c, env)
            } else {
                self.at(d, env)
            })
    }

    /// The tangent of the exponential at a knot.
    pub open spec fn tangent(self, exp: spec_fn(V) -> V, knot: V, x: V) -> V {
        let f = self.field;
        (f.times)(exp(knot), (f.plus)(f.one, (f.plus)(x, (f.neg)(knot))))
    }

    /// The limited exponential is the exponential up to the knot and its tangent
    /// beyond. The two pieces meet at the knot, and the tangent grows by what the
    /// exponential is there.
    pub proof fn limited_exponential_is_smooth(
        self,
        g: Graph,
        arg: ExprId,
        vcrit: u64,
        exp: spec_fn(V) -> V,
        above: spec_fn(V, V) -> bool,
        env: Env<V>,
        y: V,
    )
        requires
            self.sound(g),
            self.elementary(g, exp, above),
            self.lives(limited_exp(g, arg, vcrit)),
        ensures
            ({
                let f = self.field;
                let knot = (self.literal)(vcrit);
                let x = self.at(arg, env);
                &&& self.at(limited_exp(g, arg, vcrit), env) == (if above(x, knot) {
                    self.tangent(exp, knot, x)
                } else {
                    exp(x)
                })
                &&& self.tangent(exp, knot, knot) == exp(knot)
                &&& self.tangent(exp, knot, (f.plus)(x, y)) == (f.plus)(
                    self.tangent(exp, knot, x),
                    (f.times)(exp(knot), y),
                )
            }),
    {
        let f = self.field;
        let knot = (self.literal)(vcrit);
        let x = self.at(arg, env);
        let n = (f.neg)(knot);
        self.arithmetic(g);
        f.sums(knot, n, n);
        f.sums(f.one, f.one, f.one);
        f.products(exp(knot), f.one, f.one);
        let u = (f.plus)(x, n);
        assert((f.plus)((f.plus)(x, y), n) == (f.plus)(u, y)) by {
            f.sums(x, y, n);
            f.sums(y, n, n);
            f.sums(x, n, y);
        }
        f.sums(f.one, u, y);
        f.spreads(exp(knot), (f.plus)(f.one, u), y);
        let vc = g.number(vcrit);
        let line = g.times(g.fun1(Fun1::Exp, vc), g.plus(g.one(), g.minus(arg, vc)));
        assert(self.at(vc, env) == knot && self.at(line, env) == self.tangent(exp, knot, x)) by {
            reveal(Meaning::sound);
        }
    }
}

} // verus!

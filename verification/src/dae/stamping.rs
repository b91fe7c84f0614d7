//! What the matrices say on values: companion conductances, small-signal matrices and
//! their excitation, and the sum of the weighted residuals.
use crate::corners::Reading;
use crate::dae::assemble::conductance_entries;
use crate::dae::jacobian::{dense_x, dense_xdot, excited, small_signal};
use crate::dae::meaning::{Env, Meaning};
use crate::dae::reading::Functions;
use crate::dae::sens::{lagrangian, multiplier};
use crate::dae::system::DaeView;
use crate::numerics::{apply1, Answers, Op1};
use crate::osdi::lower::{short_current_is_balanced, Placed};
use crate::osdi::topology::{slot_sum, NodeRepr, Report, GROUND};
use crate::symbolic::{ExprId, Graph};
use crate::text::decimal;
use vstd::prelude::*;

verus! {

// ---------------------------------------------------------------------------
// Companions.
// ---------------------------------------------------------------------------
impl Reading {
    /// What the entries of a row draw at given potentials.
    pub open spec fn drawn(self, e: Seq<(usize, usize, u64)>, v: spec_fn(int) -> real, row: int) -> real
        decreases e.len(),
    {
        if e.len() == 0 {
            0real
        } else {
            self.drawn(e.drop_last(), v, row) + (if e.last().0 == row {
                (self.value)(e.last().2) * v(e.last().1 as int)
            } else {
                0real
            })
        }
    }

    proof fn drawn_adds(
        self,
        a: Seq<(usize, usize, u64)>,
        b: Seq<(usize, usize, u64)>,
        v: spec_fn(int) -> real,
        row: int,
    )
        ensures
            self.drawn(a + b, v, row) == self.drawn(a, v, row) + self.drawn(b, v, row),
        decreases b.len(),
    {
        if b.len() == 0 {
            assert(a + b =~= a);
        } else {
            assert((a + b).drop_last() =~= a + b.drop_last());
            self.drawn_adds(a, b.drop_last(), v, row);
        }
    }

    /// A companion conductance between two nodes draws, at each of them, the
    /// conductance times the voltage to the other one; ground has no row and no
    /// potential.
    pub proof fn companions_draw_by_voltage(
        self,
        h: Answers,
        a: usize,
        b: usize,
        g: u64,
        v: spec_fn(int) -> real,
        row: int,
    )
        requires
            self.exact(h),
            (self.number)(g),
            row >= 0,
        ensures
            ({
                let (x, y) = (potential_of(v, a), potential_of(v, b));
                self.drawn(conductance_entries(h, a, b, g), v, row) == (if a == row + 1 {
                    (self.value)(g) * (x - y)
                } else {
                    0real
                }) + (if b == row + 1 {
                    (self.value)(g) * (y - x)
                } else {
                    0real
                })
            }),
    {
        let none: Seq<(usize, usize, u64)> = seq![];
        let n = apply1(h, Op1::Neg, g);
        self.turns(h, g);
        let own = if a != 0 {
            seq![((a - 1) as usize, (a - 1) as usize, g)]
        } else {
            none
        };
        let other = if b != 0 {
            seq![((b - 1) as usize, (b - 1) as usize, g)]
        } else {
            none
        };
        let one = ((a - 1) as usize, (b - 1) as usize, n);
        let two = ((b - 1) as usize, (a - 1) as usize, n);
        let cross = if a != 0 && b != 0 {
            seq![one, two]
        } else {
            none
        };
        assert(conductance_entries(h, a, b, g) =~= own + other + cross);
        self.drawn_adds(own + other, cross, v, row);
        self.drawn_adds(own, other, v, row);
        reveal_with_fuel(Reading::drawn, 3);
        if a != 0 {
            assert(own.drop_last() =~= none);
        }
        if b != 0 {
            assert(other.drop_last() =~= none);
        }
        if a != 0 && b != 0 {
            assert(cross.drop_last() =~= seq![one]);
            assert(seq![one].drop_last() =~= none);
        }
        let (k, x, y) = ((self.value)(g), potential_of(v, a), potential_of(v, b));
        assert(k * (x - y) == k * x - k * y) by (nonlinear_arith);
        assert(k * (y - x) == k * y - k * x) by (nonlinear_arith);
        assert((0real - k) * x == 0real - k * x) by (nonlinear_arith);
        assert((0real - k) * y == 0real - k * y) by (nonlinear_arith);
        assert(k * 0real == 0real) by (nonlinear_arith);
    }

    /// The sum of the values of the first `k` slots of a cell.
    pub open spec fn slots_total(self, buf: Seq<u64>, slots: Seq<usize>, k: int) -> real
        decreases k,
    {
        if k <= 0 {
            0real
        } else {
            self.slots_total(buf, slots, k - 1) + (self.value)(buf[slots[k - 1] as int])
        }
    }

    /// A cell that a model writes in several entries has the sum of them.
    pub proof fn cells_add_their_slots(self, h: Answers, buf: Seq<u64>, slots: Seq<usize>, k: int)
        requires
            self.exact(h),
            0 <= k <= slots.len(),
            forall|i: int| 0 <= i < slots.len() ==> (self.number)(buf[#[trigger] slots[i] as int]),
            forall|i: int| 0 <= i <= k ==> (self.number)(#[trigger] slot_sum(h, buf, slots, i)),
        ensures
            (self.value)(slot_sum(h, buf, slots, k)) == self.slots_total(buf, slots, k),
        decreases k,
    {
        self.constants(h);
        if k > 0 {
            self.cells_add_their_slots(h, buf, slots, k - 1);
            assert((self.number)(slot_sum(h, buf, slots, k - 1)) && (self.number)(slot_sum(h, buf, slots, k)));
            assert((self.number)(buf[slots[k - 1] as int]));
            self.adds(h, slot_sum(h, buf, slots, k - 1), buf[slots[k - 1] as int]);
        }
    }
}

/// The potential of a node; ground has none.
pub open spec fn potential_of(v: spec_fn(int) -> real, k: usize) -> real {
    if k == 0 {
        0real
    } else {
        v(k - 1)
    }
}

// ---------------------------------------------------------------------------
// Small signals.
// ---------------------------------------------------------------------------
impl<V> Meaning<V> {
    /// The small-signal matrix is the slope of each residual in each unknown, and `s`
    /// times its slope in the rate of the unknown, where it has one; an unknown that a
    /// residual does not mention has no slope there.
    pub proof fn small_signals_are_slopes(self, g: Graph, d: DaeView, i: int, j: int, env: Env<V>)
        requires
            self.sound(g),
            d.wf(),
            0 <= i < d.residuals.len(),
            0 <= j < d.residuals.len(),
            self.lives(small_signal(g, d)[i][j]),
        ensures
            ({
                let f = self.field;
                let (r, x, xd) = (d.residuals[i], d.x[j], d.xdot[j]);
                let own = if g.free(r).contains(x) {
                    self.at(g.derive(r, x), env)
                } else {
                    f.zero
                };
                let rate = if xd is Some {
                    self.at(g.derive(r, xd->0), env)
                } else {
                    f.zero
                };
                self.at(small_signal(g, d)[i][j], env) == (f.plus)(own, (f.times)(env(g.symbol("s"@)), rate))
            }),
    {
        let (p, q) = (dense_x(g, d)[i][j], dense_xdot(g, d)[i][j]);
        let s = g.sym("s"@);
        self.zero_is(g, env);
        self.plus_is(g, p, g.times(s, q), env);
        self.times_is(g, s, q, env);
        self.symbol_is(g, "s"@, env);
    }

    /// An excitation drives a row with minus its slope in the input, in the column of
    /// the output; the other columns stay.
    pub proof fn excitations_are_negative_slopes(
        self,
        g: Graph,
        d: DaeView,
        a: Seq<Seq<ExprId>>,
        input: Seq<char>,
        col: int,
        i: int,
        j: int,
        env: Env<V>,
    )
        requires
            self.sound(g),
            0 <= i < a.len(),
            0 <= col < a[i].len(),
            0 <= j < a[i].len(),
            self.lives(excited(g, d, a, input, col)[i][col]),
        ensures
            (self.field.plus)(
                self.at(excited(g, d, a, input, col)[i][col], env),
                self.at(g.derive(d.residuals[i], g.symbol(input)), env),
            ) == self.field.zero,
            j != col ==> excited(g, d, a, input, col)[i][j] == a[i][j],
    {
        let e = g.derive(d.residuals[i], g.symbol(input));
        self.neg_is(g, e, env);
        self.zero_is(g, env);
        let x = self.at(e, env);
        self.field.sums(x, (self.field.neg)(x), x);
    }

    /// The residuals from `k` on, each times the value of its multiplier, summed.
    pub open spec fn weighted(self, g: Graph, rows: Seq<ExprId>, k: int, env: Env<V>) -> V
        decreases k,
    {
        if k <= 0 {
            self.field.zero
        } else {
            (self.field.plus)(
                self.weighted(g, rows, k - 1, env),
                (self.field.times)(
                    env(g.symbol("__lam"@ + decimal((k - 1) as nat))),
                    self.at(rows[k - 1], env),
                ),
            )
        }
    }

    proof fn weighted_is(self, g: Graph, d: DaeView, v: Seq<ExprId>, k: int, env: Env<V>)
        requires
            self.sound(g),
            0 <= k <= v.len(),
            self.all_live(v),
            v == Seq::new(
                d.residuals.len(),
                |r: int| g.times(g.symbol_expr(multiplier(g, r)), d.residuals[r]),
            ),
        ensures
            self.total(v.take(k), env) == self.weighted(g, d.residuals, k, env),
        decreases k,
    {
        if k > 0 {
            self.weighted_is(g, d, v, k - 1, env);
            assert(v.take(k).drop_last() =~= v.take(k - 1));
            assert(self.lives(v[k - 1]));
            let lam = g.sym("__lam"@ + decimal((k - 1) as nat));
            self.times_is(g, lam, d.residuals[k - 1], env);
            self.symbol_is(g, "__lam"@ + decimal((k - 1) as nat), env);
        }
    }

    /// The Lagrangian is the sum over all residuals of the multiplier times the
    /// residual.
    pub proof fn lagrangian_weighs_every_residual(self, g: Graph, d: DaeView, env: Env<V>)
        requires
            self.sound(g),
            self.lives(lagrangian(g, d)),
        ensures
            self.at(lagrangian(g, d), env) == self.weighted(g, d.residuals, d.residuals.len() as int, env),
    {
        let v = Seq::new(
            d.residuals.len(),
            |r: int| g.times(g.symbol_expr(multiplier(g, r)), d.residuals[r]),
        );
        assert(self.all_live(v) && self.at(g.sum(v), env) == self.total(v, env)) by {
            reveal(Meaning::sound);
        }
        self.weighted_is(g, d, v, v.len() as int, env);
        assert(v.take(v.len() as int) =~= v);
    }
}

// ---------------------------------------------------------------------------
// Compiled models.
// ---------------------------------------------------------------------------
impl<V> Meaning<V> {
    /// The current law of a compiled model's node is its resistive current and the
    /// rate of its charge.
    pub proof fn model_rows_add_current_and_charging(self, p: Placed, i: int, env: Env<V>)
        requires
            self.sound(p.g),
            self.lives(p.row(i)),
        ensures
            self.at(p.row(i), env) == (self.field.plus)(
                self.at(p.output(i), env),
                self.at(p.g.rate(p.output(p.active.len() + i), p.rates(0)), env),
            ),
    {
        self.plus_is(p.g, p.output(i), p.g.rate(p.output(p.active.len() + i), p.rates(0)), env);
    }

    /// A shorting branch holds its terminal at the voltage of its target: its row
    /// vanishes exactly there, and for ground where the terminal has no voltage.
    pub proof fn shorts_hold_their_terminals(self, p: Placed, c: Functions<V>, k: int, env: Env<V>)
        requires
            self.sound(p.g),
            self.reads(p.g, c),
            0 <= k < p.shorts.len(),
            self.lives(p.constraint(k)),
        ensures
            p.shorts[k].1 is Some ==> (self.at(p.constraint(k), env) == self.field.zero <==> self.at(
                p.v[p.shorts[k].0 as int],
                env,
            ) == self.at(p.v[p.shorts[k].1->0 as int], env)),
            p.shorts[k].1 is None ==> (self.at(p.constraint(k), env) == self.field.zero <==> self.at(
                p.v[p.shorts[k].0 as int],
                env,
            ) == self.field.zero),
    {
        let (t, target) = p.shorts[k];
        self.zero_is(p.g, env);
        if target is Some {
            let (a, b) = (p.v[t as int], p.v[target->0 as int]);
            self.minus_is(p.g, c, a, b, env);
            self.field.differs_by_nothing(self.at(a, env), self.at(b, env));
        }
    }
}

impl<V> Meaning<V> {
    /// A shorting branch takes its current out of its terminal and hands it to its
    /// target, so that what leaves the one enters the other.
    pub proof fn shorts_hand_their_current_over(self, p: Placed, k: int, env: Env<V>)
        requires
            self.sound(p.g),
            0 <= k < p.shorts.len(),
            p.currents(k).len() == p.nt,
            p.shorts[k].0 < p.nt,
            p.shorts[k].1 matches Some(r) ==> r < p.nt && r != p.shorts[k].0,
            self.lives(p.currents(k + 1)[p.shorts[k].0 as int]),
            p.shorts[k].1 matches Some(r) ==> self.lives(p.currents(k + 1)[r as int]),
        ensures
            ({
                let f = self.field;
                let (t, target) = p.shorts[k];
                let i = env(p.g.symbol(p.name + ".short_"@ + p.node_names[t as int]));
                let (was, now) = (p.currents(k), p.currents(k + 1));
                &&& self.at(now[t as int], env) == (f.plus)(self.at(was[t as int], env), i)
                &&& target is Some ==> (f.plus)(self.at(now[target->0 as int], env), i) == self.at(
                    was[target->0 as int],
                    env,
                )
            }),
    {
        short_current_is_balanced(p, k);
        let f = self.field;
        let (t, target) = p.shorts[k];
        let i = p.short_current(t as int);
        let was = p.currents(k);
        self.zero_is(p.g, env);
        self.plus_is(p.g, was[t as int], i, env);
        self.symbol_is(p.g, p.name + ".short_"@ + p.node_names[t as int], env);
        if target is Some {
            let r = target->0 as int;
            self.plus_is(p.g, was[r], p.g.neg(i), env);
            self.neg_is(p.g, i, env);
            f.completes(self.at(was[r], env), self.at(i, env));
        }
    }
}

impl Report {
    /// Nodes that a model collapses land together: where the pair is collapsed, both of
    /// its nodes are represented by the same one, or are ground together.
    pub proof fn collapsed_nodes_land_together(self, k: int)
        requires
            0 <= k < self.pairs@.len(),
            k < self.collapsed@.len(),
            self.collapsed@[k],
        ensures
            self.pairs@[k].node_2 != GROUND ==> self.rep(k + 1, self.pairs@[k].node_1 as int) == self.rep(
                k + 1,
                self.pairs@[k].node_2 as int,
            ),
            self.pairs@[k].node_2 == GROUND ==> self.rep(k + 1, self.pairs@[k].node_1 as int) == NodeRepr::Ground,
    {
    }

    /// Nodes that have landed together stay together.
    pub proof fn landed_nodes_stay_together(self, k: int, i: int, j: int)
        requires
            0 <= k,
            self.rep(k, i) == self.rep(k, j),
        ensures
            self.rep(k + 1, i) == self.rep(k + 1, j),
    {
    }
}

} // verus!

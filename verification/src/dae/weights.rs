//! What a branch is weighed by: the operating point, the slopes of its term, and the
//! least relevance of the elements that are opened.
use crate::corners::Reading;
use crate::dae::linearize::rates_from;
use crate::dae::reduce::{noted, op_env, slopes, value_at, weight};
use crate::dae::system::DaeView;
use crate::numerics::{Answers, ZERO};
use crate::reals::{greater, magnitude};
use crate::symbolic::{ExprId, Graph, SymbolId};
use vstd::prelude::*;

verus! {

/// At the operating point each unknown has its value, or zero where none is given;
/// the rates and the time are zero; and the parameters have theirs.
pub proof fn operating_points_bind_every_symbol(
    d: DaeView,
    x_op: Seq<u64>,
    p: Seq<(SymbolId, u64)>,
    i: int,
)
    ensures
        0 <= i < d.x.len() && i < x_op.len() ==> op_env(d, x_op, p).contains((d.x[i], x_op[i])),
        0 <= i < d.x.len() && i >= x_op.len() ==> op_env(d, x_op, p).contains((d.x[i], ZERO)),
        0 <= i < rates_from(d.xdot, 0).len() ==> op_env(d, x_op, p).contains((rates_from(d.xdot, 0)[i], ZERO)),
        0 <= i < p.len() ==> op_env(d, x_op, p).contains(p[i]),
        op_env(d, x_op, p).contains((d.t, ZERO)),
{
    let all = op_env(d, x_op, p);
    let (a, b) = (d.x.len() as int, rates_from(d.xdot, 0).len() as int);
    if 0 <= i < a {
        assert(all[i] == (d.x[i], value_at(x_op, i)));
    }
    if 0 <= i < b {
        assert(all[a + i] == (rates_from(d.xdot, 0)[i], ZERO));
    }
    if 0 <= i < p.len() {
        assert(all[a + b + i] == p[i]);
    }
    assert(all[a + b + p.len()] == (d.t, ZERO));
}

/// A term has a conductance for each voltage that it mentions and a capacitance for
/// each rate, and for nothing else.
pub proof fn slopes_go_by_voltages_and_rates(
    v: Seq<SymbolId>,
    rates: Seq<SymbolId>,
    free: Seq<SymbolId>,
    k: int,
    s: SymbolId,
)
    requires
        0 <= k <= free.len(),
    ensures
        slopes(v, rates, free, k).contains((s, true)) <==> free.skip(k).contains(s) && v.contains(s),
        slopes(v, rates, free, k).contains((s, false)) <==> free.skip(k).contains(s) && rates.contains(s)
            && !v.contains(s),
    decreases free.len() - k,
{
    let all = slopes(v, rates, free, k);
    if k < free.len() {
        slopes_go_by_voltages_and_rates(v, rates, free, k + 1, s);
        let rest = slopes(v, rates, free, k + 1);
        let first = free[k];
        tail_holds(free, k, s);
        if v.contains(first) {
            front_holds((first, true), rest, (s, true));
            front_holds((first, true), rest, (s, false));
        } else if rates.contains(first) {
            front_holds((first, false), rest, (s, true));
            front_holds((first, false), rest, (s, false));
        }
    }
}

proof fn tail_holds(free: Seq<SymbolId>, k: int, s: SymbolId)
    requires
        0 <= k < free.len(),
    ensures
        free.skip(k).contains(s) <==> free[k] == s || free.skip(k + 1).contains(s),
{
    let (a, b) = (free.skip(k), free.skip(k + 1));
    if a.contains(s) {
        let i = choose|i: int| 0 <= i < a.len() && a[i] == s;
        if i > 0 {
            assert(b[i - 1] == s);
        }
    }
    if b.contains(s) {
        let i = choose|i: int| 0 <= i < b.len() && b[i] == s;
        assert(a[i + 1] == s);
    }
    assert(a[0] == free[k]);
}

proof fn front_holds(a: (SymbolId, bool), rest: Seq<(SymbolId, bool)>, e: (SymbolId, bool))
    ensures
        (seq![a] + rest).contains(e) <==> a == e || rest.contains(e),
{
    let all = seq![a] + rest;
    if all.contains(e) {
        let i = choose|i: int| 0 <= i < all.len() && all[i] == e;
        if i > 0 {
            assert(rest[i - 1] == e);
        }
    }
    if rest.contains(e) {
        let i = choose|i: int| 0 <= i < rest.len() && rest[i] == e;
        assert(all[i + 1] == e);
    }
    assert(all[0] == a);
}

impl Reading {
    /// The current of a branch is the magnitude of its term at the operating point.
    pub proof fn currents_are_magnitudes(
        self,
        g: Graph,
        h: Answers,
        t: ExprId,
        v: Seq<SymbolId>,
        rates: Seq<SymbolId>,
        env: Seq<(SymbolId, u64)>,
        now: u64,
    )
        requires
            self.exact(h),
            ({
                let parts = slopes(v, rates, g.free(t), 0);
                let roots = seq![t] + parts.map_values(|p: (SymbolId, bool)| g.derive(t, p.0));
                now == g.eval(roots, env)[0]
            }),
            (self.number)(now),
        ensures
            (self.value)(weight(g, h, t, v, rates, env).i) == magnitude((self.value)(now)),
    {
        self.turns(h, now);
    }

    /// The smaller of two values.
    pub open spec fn lesser(self, a: u64, b: u64) -> real {
        (self.value)(a) + (self.value)(b) - greater((self.value)(a), (self.value)(b))
    }

    /// A name that is noted again keeps the smallest of its values; a new name is added
    /// behind the others, with the value that it came with.
    pub proof fn noting_keeps_the_smallest(
        self,
        h: Answers,
        v: Seq<(Seq<char>, u64)>,
        name: Seq<char>,
        val: u64,
        i: int,
        k: int,
    )
        requires
            self.exact(h),
            0 <= i <= v.len(),
            forall|j: int| 0 <= j < v.len() ==> (self.number)((#[trigger] v[j]).1),
            (self.number)(val),
        ensures
            ({
                let after = noted(h, v, name, val, i);
                &&& i <= k < v.len() && v[k].0 == name && (forall|j: int| i <= j < k ==> (#[trigger] v[j]).0 != name)
                    ==> after.len() == v.len() && after[k].0 == name && (self.value)(after[k].1) == self.lesser(
                    v[k].1,
                    val,
                ) && (forall|j: int| 0 <= j < v.len() && j != k ==> (#[trigger] after[j]) == v[j])
                &&& (forall|j: int| i <= j < v.len() ==> (#[trigger] v[j]).0 != name) ==> after == v.push((name, val))
            }),
        decreases v.len() - i,
    {
        if i < v.len() {
            assert((self.number)(v[i].1));
            self.picks(h, v[i].1, val);
            if v[i].0 != name {
                self.noting_keeps_the_smallest(h, v, name, val, i + 1, k);
            }
        }
    }
}

} // verus!

//! Where things stand in an assembled system: its unknowns, their rates, the delays
//! and the limits.
use crate::circuit::Kind;
use crate::dae::assemble::{
    delays_from, extras_from, limits_of, shifted_delays, unknown_at, Assembly, LoweredDevice,
};
use crate::dae::jacobian::Entry;
use crate::dae::sens::cell;
use crate::dae::system::DelaySpec;
use crate::device::LoweredUnknown;
use crate::numerics::ZERO;
use crate::symbolic::SymbolId;
use crate::text::decimal;
use vstd::prelude::*;

verus! {

impl Assembly {
    /// An unknown is the symbol of its name, for node voltages and branch currents
    /// alike: the voltages of the nodes in order, then the currents of the branches.
    pub proof fn unknowns_are_the_symbols_of_their_names(self, j: int)
        requires
            0 <= j < self.n() + self.names().len(),
        ensures
            self.x()[j] == self.g.symbol(self.unknowns()[j]),
            j < self.n() ==> self.unknowns()[j] == "v"@ + decimal((j + 1) as nat),
            j >= self.n() ==> self.unknowns()[j] == "i_"@ + self.names()[j - self.n()],
    {
    }

    /// A node voltage has a rate, a branch current has one where the branch is an
    /// inductor.
    pub proof fn rates_belong_to_their_unknowns(self, j: int)
        requires
            0 <= j < self.n() + self.branches().len(),
        ensures
            j < self.n() ==> self.xdot()[j] == Some(self.g.symbol("vdot"@ + decimal((j + 1) as nat))),
            j >= self.n() && self.branches()[j - self.n()].kind == Kind::Inductor ==> self.xdot()[j] == Some(
                self.g.symbol("idot_"@ + self.branches()[j - self.n()].name),
            ),
            j >= self.n() && self.branches()[j - self.n()].kind != Kind::Inductor ==> self.xdot()[j] is None,
    {
    }

    /// A delay of a device reads and drives the unknowns of that device: those that
    /// its indices name among the device's own.
    pub proof fn delays_join_the_unknowns_of_their_device(self, d: int, k: int)
        requires
            self.wf(),
            0 <= d < self.devs.len(),
            0 <= k < self.devs[d].delays@.len(),
            self.x().len() <= usize::MAX,
        ensures
            exists|i: int|
                0 <= i < self.dae().delays.len() && {
                    let (l, r) = (self.devs[d].delays@[k], #[trigger] self.dae().delays[i]);
                    &&& r.src < self.x().len() && r.out < self.x().len()
                    &&& self.x()[r.src as int] == self.devs[d].extras@[l.src_extra as int].value_sym
                    &&& self.x()[r.out as int] == self.devs[d].extras@[l.out_extra as int].value_sym
                    &&& r.hist == l.hist && r.tau == l.tau
                },
    {
        assert(self.devs[d].wf());
        let base = self.extra_base();
        let off = offset(self.devs, 0, d);
        let l = self.devs[d].delays@[k];
        extras_stand(self.devs, 0, d, l.src_extra as int);
        extras_stand(self.devs, 0, d, l.out_extra as int);
        delays_stand(self.devs, 0, base, d, k);
        let list = delays_from(self.devs, 0, base);
        let i = choose|i: int| 0 <= i < list.len() && list[i] == shifted(self.devs[d], base + off, k);
        assert(self.dae().delays[i] == list[i]);
        let front = self.n() + self.names().len();
        let tail = self.extras().map_values(|u: LoweredUnknown| u.value_sym);
        assert(self.x().len() == front + tail.len());
        assert(base == front);
        let (a, b) = (base + off + l.src_extra, base + off + l.out_extra);
        assert(self.x()[a] == tail[off + l.src_extra]);
        assert(self.x()[b] == tail[off + l.out_extra]);
    }
}

/// How many extra unknowns the devices from `i` to `d` bring.
pub open spec fn offset(devs: Seq<LoweredDevice>, i: int, d: int) -> int
    decreases d - i,
{
    if i >= d {
        0
    } else {
        devs[i].extras@.len() + offset(devs, i + 1, d)
    }
}

proof fn extras_stand(devs: Seq<LoweredDevice>, i: int, d: int, e: int)
    requires
        0 <= i <= d < devs.len(),
        0 <= e < devs[d].extras@.len(),
    ensures
        offset(devs, i, d) >= 0,
        offset(devs, i, d) + e < extras_from(devs, i).len(),
        extras_from(devs, i)[offset(devs, i, d) + e] == devs[d].extras@[e],
    decreases d - i,
{
    if i < d {
        extras_stand(devs, i + 1, d, e);
    }
}

/// A delay of a device, where the device's own unknowns start at `base`.
spec fn shifted(d: LoweredDevice, base: int, k: int) -> DelaySpec {
    shifted_delays(d, base)[k]
}

proof fn delays_stand(devs: Seq<LoweredDevice>, i: int, base: int, d: int, k: int)
    requires
        0 <= i <= d < devs.len(),
        0 <= k < devs[d].delays@.len(),
    ensures
        delays_from(devs, i, base).contains(shifted(devs[d], base + offset(devs, i, d), k)),
    decreases d - i,
{
    let own = shifted_delays(devs[i], base);
    let rest = delays_from(devs, i + 1, base + devs[i].extras@.len());
    let all = delays_from(devs, i, base);
    assert(all == own + rest);
    if i == d {
        assert(all[k] == own[k]);
    } else {
        delays_stand(devs, i + 1, base + devs[i].extras@.len(), d, k);
        let want = shifted(devs[d], base + offset(devs, i, d), k);
        let j = choose|j: int| 0 <= j < rest.len() && rest[j] == want;
        assert(all[own.len() + j] == want);
    }
}

/// A place that is found for a symbol holds it; one that is found for none does not
/// exist.
proof fn place_holds(x: Seq<SymbolId>, s: SymbolId, i: int)
    requires
        0 <= i <= x.len() <= usize::MAX,
    ensures
        unknown_at(x, s, i) is Some ==> unknown_at(x, s, i)->0 < i && x[unknown_at(x, s, i)->0 as int] == s,
        unknown_at(x, s, i) is None ==> forall|j: int| 0 <= j < i ==> #[trigger] x[j] != s,
    decreases i,
{
    if i > 0 && x[i - 1] != s {
        place_holds(x, s, i - 1);
    }
}

/// The two ends of a limit are the unknowns that its device names, the upper one
/// first; an end that is no unknown is left out.
pub proof fn limits_name_their_ends(x: Seq<SymbolId>, d: LoweredDevice, k: int)
    requires
        0 <= k < d.frag.limits@.len(),
        x.len() <= usize::MAX,
    ensures
        ({
            let (l, r) = (d.frag.limits@[k], limits_of(x, d)[k]);
            &&& r.hi is Some ==> l.hi is Some && r.hi->0 < x.len() && x[r.hi->0 as int] == l.hi->0
            &&& r.lo is Some ==> l.lo is Some && r.lo->0 < x.len() && x[r.lo->0 as int] == l.lo->0
            &&& l.hi is Some && x.contains(l.hi->0) ==> r.hi is Some
            &&& l.lo is Some && x.contains(l.lo->0) ==> r.lo is Some
        }),
{
    let l = d.frag.limits@[k];
    if l.hi is Some {
        place_holds(x, l.hi->0, x.len() as int);
    }
    if l.lo is Some {
        place_holds(x, l.lo->0, x.len() as int);
    }
}

/// A cell of a dense matrix has the value of the last entry there; a cell without an
/// entry is zero.
pub proof fn cells_read_their_entries(e: Seq<Entry>, vals: Seq<u64>, row: int, col: int, k: int, n: int)
    requires
        0 <= n <= e.len(),
        vals.len() == e.len(),
    ensures
        0 <= k < n && e[k].0 == row && e[k].1 == col && (forall|j: int|
            k < j < n ==> !((#[trigger] e[j]).0 == row && e[j].1 == col)) ==> cell(e, vals, row, col, n) == vals[k],
        (forall|j: int| 0 <= j < n ==> !((#[trigger] e[j]).0 == row && e[j].1 == col)) ==> cell(e, vals, row, col, n)
            == ZERO,
    decreases n,
{
    if n > 0 {
        cells_read_their_entries(e, vals, row, col, k, n - 1);
        assert(e[n - 1] == e[n - 1]);
    }
}

} // verus!

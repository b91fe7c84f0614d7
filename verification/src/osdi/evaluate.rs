//! Evaluating a set-up instance: what the model is handed, and where each number
//! that it loads ends up among the slots of the device's outside function.
use crate::numerics::{Answers, Ask, Host, Reply, ZERO};
use crate::osdi::lower::{cell_slot, countable, output_slots};
use crate::osdi::topology::{cell_values, cell_views, slot_sum, slots_below, Cell, CellView, Topology};
use vstd::prelude::*;

verus! {

/// What an evaluated model has loaded, as the bits of its numbers: the residuals
/// of the active nodes with the ground slot behind them, the Jacobian entries in
/// the order in which the model writes them, and the noise parameters.
#[derive(Debug)]
pub struct Loaded {
    pub resist: Vec<u64>,
    pub react: Vec<u64>,
    pub jr: Vec<u64>,
    pub jq: Vec<u64>,
    pub power: Vec<u64>,
    pub exponent: Vec<u64>,
}

impl Loaded {
    /// The buffers have the lengths that the topology calls for.
    pub open spec fn fits(self, t: Topology) -> bool {
        &&& self.resist@.len() == t.active@.len() + 1
        &&& self.react@.len() == t.active@.len() + 1
        &&& self.jr@.len() == t.jr_slots
        &&& self.jq@.len() == t.jq_slots
        &&& self.power@.len() == t.noise@.len()
        &&& self.exponent@.len() == t.noise@.len()
    }

    /// Whether the buffers have the lengths that the topology calls for.
    pub fn is_sized(&self, t: &Topology) -> (r: bool)
        ensures
            r == self.fits(*t),
    {
        let n: usize = t.active.len();
        let m: usize = t.noise.len();
        self.resist.len() > n && self.resist.len() - 1 == n && self.react.len() > n && self.react.len() - 1 == n
            && self.jr.len() == t.jr_slots && self.jq.len() == t.jq_slots && self.power.len() == m
            && self.exponent.len() == m
    }
}

/// The voltages that the model reads: those of the active nodes, and zero in the
/// ground slot behind them.
pub fn solve_vector(t: &Topology, v: &Vec<u64>) -> (r: Vec<u64>)
    requires
        t.active@.len() <= v@.len(),
    ensures
        r@ == v@.take(t.active@.len() as int).push(ZERO),
{
    let mut out: Vec<u64> = Vec::new();
    for i in 0..t.active.len()
        invariant
            t.active@.len() <= v@.len(),
            out@ =~= v@.take(i as int),
    {
        out.push(v[i]);
    }
    out.push(ZERO);
    out
}

/// The values of cells, from the entries that the model wrote.
pub open spec fn cell_sums(h: Answers, cells: Seq<Cell>, buf: Seq<u64>) -> Seq<u64> {
    cells.map_values(|c: Cell| slot_sum(h, buf, c.slots@, c.slots@.len() as int))
}

/// The slots of the device's outside function: the resistive residuals, the
/// reactive residuals, the resistive cells, the reactive cells, the noise powers,
/// the noise exponents, and a shared zero.
pub open spec fn slots_of(h: Answers, t: Topology, l: Loaded) -> Seq<u64> {
    let n = t.active@.len() as int;
    (l.resist@.take(n) + l.react@.take(n) + cell_sums(h, t.jr_cells@, l.jr@) + cell_sums(h, t.jq_cells@, l.jq@)
        + l.power@ + l.exponent@).push(ZERO)
}

fn append_first(out: &mut Vec<u64>, v: &Vec<u64>, n: usize)
    requires
        n <= v@.len(),
    ensures
        final(out)@ == old(out)@ + v@.take(n as int),
{
    let ghost start = out@;
    for i in 0..n
        invariant
            n <= v@.len(),
            out@ =~= start + v@.take(i as int),
    {
        out.push(v[i]);
    }
}

/// The slots that an evaluation fills. Nodes that were collapsed have already
/// added up in their representative's slot; the ground slot is dropped.
pub fn slot_values<F: Fn(Ask) -> Reply>(host: &Host<F>, t: &Topology, l: &Loaded) -> (r: Vec<u64>)
    requires
        l.fits(*t),
        slots_below(cell_views(t.jr_cells@), t.jr_slots as int),
        slots_below(cell_views(t.jq_cells@), t.jq_slots as int),
    ensures
        r@ == slots_of(host.answers(), *t, *l),
{
    let n: usize = t.active.len();
    let jr = cell_values(host, &t.jr_cells, &l.jr);
    let jq = cell_values(host, &t.jq_cells, &l.jq);
    let mut out: Vec<u64> = Vec::new();
    append_first(&mut out, &l.resist, n);
    append_first(&mut out, &l.react, n);
    append_first(&mut out, &jr, jr.len());
    append_first(&mut out, &jq, jq.len());
    append_first(&mut out, &l.power, l.power.len());
    append_first(&mut out, &l.exponent, l.exponent.len());
    out.push(ZERO);
    proof {
        assert(jr@.take(jr@.len() as int) =~= jr@);
        assert(jq@.take(jq@.len() as int) =~= jq@);
        assert(l.power@.take(l.power@.len() as int) =~= l.power@);
        assert(l.exponent@.take(l.exponent@.len() as int) =~= l.exponent@);
        assert(out@ =~= slots_of(host.answers(), *t, *l));
    }
    out
}

/// An evaluation fills as many slots as are registered, and each registered
/// output reads its own number: the residuals of the active nodes, then their
/// charges, then the noise powers and exponents.
pub proof fn outputs_read_their_numbers(h: Answers, t: Topology, l: Loaded, k: int)
    requires
        countable(t),
        l.fits(t),
        0 <= k < 2 * t.active@.len() + 2 * t.noise@.len(),
    ensures
        ({
            let n = t.active@.len() as int;
            let m = t.noise@.len() as int;
            let cells = (t.jr_cells@.len() + t.jq_cells@.len()) as int;
            let slots = slots_of(h, t, l);
            let read = slots[output_slots(n, cells, m)[k] as int];
            &&& slots.len() == 2 * n + cells + 2 * m + 1
            &&& slots.last() == ZERO
            &&& k < n ==> read == l.resist@[k]
            &&& n <= k < 2 * n ==> read == l.react@[k - n]
            &&& 2 * n <= k < 2 * n + m ==> read == l.power@[k - 2 * n]
            &&& 2 * n + m <= k ==> read == l.exponent@[k - 2 * n - m]
        }),
{
}

/// None of the first `n` cells stands at a position.
pub open spec fn no_cell(v: Seq<CellView>, row: int, col: int, n: int) -> bool {
    forall|c: int| 0 <= c < n ==> (#[trigger] v[c]).row != row || v[c].col != col
}

/// The slot registered for the derivative of a residual by an argument holds the
/// cell of that row and column, whether resistive or reactive; where none is
/// registered there is no such cell.
pub proof fn derivatives_read_their_cells(h: Answers, t: Topology, l: Loaded, i: int, k: int)
    requires
        countable(t),
        l.fits(t),
    ensures
        ({
            let n = t.active@.len() as int;
            let jr = cell_views(t.jr_cells@);
            let jq = cell_views(t.jq_cells@);
            let slots = slots_of(h, t, l);
            &&& cell_slot(jr, i, k, 2 * n, jr.len() as int) is None ==> no_cell(jr, i, k, jr.len() as int)
            &&& cell_slot(jr, i, k, 2 * n, jr.len() as int) matches Some(s) ==> exists|c: int|
                0 <= c < jr.len() && (#[trigger] jr[c]).row == i && jr[c].col == k && slots[s as int] == slot_sum(
                    h,
                    l.jr@,
                    jr[c].slots,
                    jr[c].slots.len() as int,
                )
            &&& cell_slot(jq, i, k, 2 * n + jr.len(), jq.len() as int) is None ==> no_cell(jq, i, k, jq.len() as int)
            &&& cell_slot(jq, i, k, 2 * n + jr.len(), jq.len() as int) matches Some(s) ==> exists|c: int|
                0 <= c < jq.len() && (#[trigger] jq[c]).row == i && jq[c].col == k && slots[s as int] == slot_sum(
                    h,
                    l.jq@,
                    jq[c].slots,
                    jq[c].slots.len() as int,
                )
        }),
{
    let n = t.active@.len() as int;
    let jr = cell_views(t.jr_cells@);
    let jq = cell_views(t.jq_cells@);
    let slots = slots_of(h, t, l);
    if let Some(s) = cell_slot(jr, i, k, 2 * n, jr.len() as int) {
        let c = cell_slot_is_a_cell(jr, i, k, 2 * n, jr.len() as int);
        assert(slots[s as int] == cell_sums(h, t.jr_cells@, l.jr@)[c]);
        assert(jr[c].row == i);
    } else {
        no_slot_no_cell(jr, i, k, 2 * n, jr.len() as int);
    }
    if let Some(s) = cell_slot(jq, i, k, 2 * n + jr.len(), jq.len() as int) {
        let c = cell_slot_is_a_cell(jq, i, k, 2 * n + jr.len(), jq.len() as int);
        assert(slots[s as int] == cell_sums(h, t.jq_cells@, l.jq@)[c]);
        assert(jq[c].row == i);
    } else {
        no_slot_no_cell(jq, i, k, 2 * n + jr.len(), jq.len() as int);
    }
}

proof fn no_slot_no_cell(v: Seq<CellView>, row: int, col: int, base: int, k: int)
    requires
        0 <= k <= v.len(),
        cell_slot(v, row, col, base, k) is None,
    ensures
        no_cell(v, row, col, k),
    decreases k,
{
    if k > 0 {
        no_slot_no_cell(v, row, col, base, k - 1);
    }
}

proof fn cell_slot_is_a_cell(
    v: Seq<CellView>,
    row: int,
    col: int,
    base: int,
    k: int,
) -> (c: int)
    requires
        0 <= base,
        0 <= k <= v.len(),
        base + v.len() <= u32::MAX,
        cell_slot(v, row, col, base, k) is Some,
    ensures
        0 <= c < k,
        cell_slot(v, row, col, base, k) == Some((base + c) as u32),
        v[c].row == row,
        v[c].col == col,
    decreases k,
{
    if v[k - 1].row == row && v[k - 1].col == col {
        k - 1
    } else {
        cell_slot_is_a_cell(v, row, col, base, k - 1)
    }
}

} // verus!

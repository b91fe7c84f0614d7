//! Lowering a set-up instance onto the expression graph.
use crate::device::{BehavioralFragment, LoweredUnknown, Lowerer, NoiseSource, UnknownKind};
use crate::osdi::module::OsdiModule;
use crate::osdi::topology::{cell_views, Cell, CellView, Topology, NOISE_TYPE_FLICKER, NOISE_TYPE_TABLE};
use crate::symbolic::{Algebra, Answer, ExprId, Graph, Query, SymbolId};
use crate::text::{concat2, concat3, texts};
use vstd::prelude::*;

verus! {

/// How the outside function of a device is registered: its name, the slot that
/// each output reads, and for each output and argument the slot of the derivative
/// (`None` where it is structurally zero).
///
/// The slots are, in order, the resistive residuals, the reactive residuals, the
/// resistive cells, the reactive cells, the noise powers and the noise exponents.
/// Second derivatives are not to be had from a compiled model.
#[derive(Debug)]
pub struct Registration {
    pub name: String,
    pub arguments: usize,
    pub outputs: Vec<u32>,
    pub derivatives: Vec<(u32, u32, Option<u32>)>,
}

/// The counts of a topology add up to slot numbers that there are.
pub open spec fn countable(t: Topology) -> bool {
    2 * t.active@.len() + t.jr_cells@.len() + t.jq_cells@.len() + 2 * t.noise@.len() + 1 <= u32::MAX
}

/// How many slots an evaluation fills: the last one is a shared zero.
pub fn slot_count(t: &Topology) -> (r: usize)
    requires
        countable(*t),
    ensures
        r == 2 * t.active@.len() + t.jr_cells@.len() + t.jq_cells@.len() + 2 * t.noise@.len() + 1,
{
    2 * t.active.len() + t.jr_cells.len() + t.jq_cells.len() + 2 * t.noise.len() + 1
}

/// The slot of the last of the first `k` cells at a position, counted from
/// `base`.
pub open spec fn cell_slot(v: Seq<CellView>, row: int, col: int, base: int, k: int) -> Option<u32>
    decreases k,
{
    if k <= 0 {
        None
    } else if v[k - 1].row == row && v[k - 1].col == col {
        Some((base + k - 1) as u32)
    } else {
        cell_slot(v, row, col, base, k - 1)
    }
}

/// The slots of the outputs.
pub open spec fn output_slots(n: int, cells: int, m: int) -> Seq<u32> {
    Seq::new(
        (2 * n + 2 * m) as nat,
        |i: int|
            if i < 2 * n {
                i as u32
            } else {
                (i + cells) as u32
            },
    )
}

/// The derivative pair of residual `i` with respect to argument `k`.
pub open spec fn derivative_pair(t: Topology, i: int, k: int) -> Seq<(u32, u32, Option<u32>)> {
    let n = t.active@.len() as int;
    let jr = cell_views(t.jr_cells@);
    let jq = cell_views(t.jq_cells@);
    seq![
        (i as u32, k as u32, cell_slot(jr, i, k, 2 * n, jr.len() as int)),
        ((n + i) as u32, k as u32, cell_slot(jq, i, k, 2 * n + jr.len(), jq.len() as int)),
    ]
}

/// The derivatives of residual `i` with respect to the arguments from `k` on.
pub open spec fn row_derivatives(t: Topology, i: int, k: int) -> Seq<(u32, u32, Option<u32>)>
    decreases t.active@.len() - k,
{
    if k < 0 || k >= t.active@.len() {
        seq![]
    } else {
        derivative_pair(t, i, k) + row_derivatives(t, i, k + 1)
    }
}

/// The derivatives of the residuals from `i` on.
pub open spec fn all_derivatives(t: Topology, i: int) -> Seq<(u32, u32, Option<u32>)>
    decreases t.active@.len() - i,
{
    if i < 0 || i >= t.active@.len() {
        seq![]
    } else {
        row_derivatives(t, i, 0) + all_derivatives(t, i + 1)
    }
}

fn find_cell(v: &Vec<Cell>, row: usize, col: usize, base: usize) -> (r: Option<u32>)
    requires
        base + v@.len() <= u32::MAX,
    ensures
        r == cell_slot(cell_views(v@), row as int, col as int, base as int, v@.len() as int),
{
    let ghost all = cell_views(v@);
    let ghost goal = cell_slot(all, row as int, col as int, base as int, v@.len() as int);
    let mut k: usize = v.len();
    while k > 0
        invariant
            k <= v@.len(),
            base + v@.len() <= u32::MAX,
            all == cell_views(v@),
            goal == cell_slot(all, row as int, col as int, base as int, v@.len() as int),
            cell_slot(all, row as int, col as int, base as int, k as int) == goal,
        decreases k,
    {
        k = k - 1;
        assert(all[k as int] == v@[k as int]@);
        if v[k].row == row && v[k].col == col {
            return Some((base + k) as u32);
        }
    }
    None
}

/// The registration of a device's outside function.
pub fn registration(name: &str, t: &Topology) -> (r: Registration)
    requires
        countable(*t),
    ensures
        r.name@ == "osdi."@ + name@,
        r.arguments == t.active@.len(),
        r.outputs@ == output_slots(
            t.active@.len() as int,
            (t.jr_cells@.len() + t.jq_cells@.len()) as int,
            t.noise@.len() as int,
        ),
        r.derivatives@ == all_derivatives(*t, 0),
{
    let n: usize = t.active.len();
    let njr: usize = t.jr_cells.len();
    let cells: usize = njr + t.jq_cells.len();
    let m: usize = t.noise.len();
    let ghost slots = output_slots(n as int, cells as int, m as int);
    let mut outputs: Vec<u32> = Vec::new();
    for i in 0..2 * n + 2 * m
        invariant
            2 * n + cells + 2 * m + 1 <= u32::MAX,
            slots == output_slots(n as int, cells as int, m as int),
            outputs@ =~= slots.take(i as int),
    {
        let s: usize = if i < 2 * n {
            i
        } else {
            i + cells
        };
        outputs.push(s as u32);
    }
    assert(slots.take(slots.len() as int) =~= slots);
    let ghost goal = all_derivatives(*t, 0);
    let mut derivatives: Vec<(u32, u32, Option<u32>)> = Vec::new();
    assert(derivatives@ + goal =~= goal);
    for i in 0..n
        invariant
            countable(*t),
            n == t.active@.len(),
            njr == t.jr_cells@.len(),
            derivatives@ + all_derivatives(*t, i as int) == goal,
    {
        let ghost before = derivatives@;
        let ghost row = row_derivatives(*t, i as int, 0);
        assert(derivatives@ + row =~= before + row);
        for k in 0..n
            invariant
                countable(*t),
                i < n,
                n == t.active@.len(),
                njr == t.jr_cells@.len(),
                derivatives@ + row_derivatives(*t, i as int, k as int) == before + row,
        {
            let ghost was = derivatives@;
            let df = find_cell(&t.jr_cells, i, k, 2 * n);
            let dq = find_cell(&t.jq_cells, i, k, 2 * n + njr);
            derivatives.push((i as u32, k as u32, df));
            derivatives.push(((n + i) as u32, k as u32, dq));
            proof {
                let pair = derivative_pair(*t, i as int, k as int);
                let rest = row_derivatives(*t, i as int, k + 1);
                assert(derivatives@ =~= was + pair);
                assert(was + (pair + rest) =~= (was + pair) + rest);
            }
        }
        proof {
            assert(derivatives@ + seq![] =~= derivatives@);
            let rest = all_derivatives(*t, i + 1);
            assert(before + (row + rest) =~= (before + row) + rest);
        }
    }
    assert(derivatives@ + seq![] =~= derivatives@);
    Registration { name: concat2("osdi.", name), arguments: n, outputs, derivatives }
}

// ---------------------------------------------------------------------------
// The fragment.
// ---------------------------------------------------------------------------
/// A placed device: what it is lowered from.
pub struct Placed {
    pub g: Graph,
    pub name: Seq<char>,
    pub node_names: Seq<Seq<char>>,
    pub nt: int,
    pub v: Seq<ExprId>,
    pub vdot: Seq<ExprId>,
    pub active: Seq<usize>,
    pub shorts: Seq<(usize, Option<usize>)>,
    pub noise: Seq<(Option<usize>, Option<usize>, u32)>,
}

impl Placed {
    /// The name of an internal node's unknown.
    pub open spec fn node_label(self, node: int) -> Seq<char> {
        self.name + "."@ + self.node_names[node]
    }

    /// The name of the branch that shorts a terminal.
    pub open spec fn short_label(self, t: int) -> Seq<char> {
        self.name + ".short_"@ + self.node_names[t]
    }

    /// The voltage of an active node: the terminal's, or the unknown minted for
    /// it.
    pub open spec fn arg(self, node: int) -> ExprId {
        if node < self.nt {
            self.v[node]
        } else {
            self.g.sym(self.node_label(node))
        }
    }

    pub open spec fn arg_dot(self, node: int) -> ExprId {
        if node < self.nt {
            self.vdot[node]
        } else {
            self.g.sym("vdot_"@ + self.node_label(node))
        }
    }

    pub open spec fn args(self) -> Seq<ExprId> {
        self.active.map_values(|i: usize| self.arg(i as int))
    }

    /// The derivatives of the arguments from `k` on that are symbols.
    pub open spec fn rates(self, k: int) -> Seq<(SymbolId, ExprId)>
        decreases self.active.len() - k,
    {
        if k < 0 || k >= self.active.len() {
            seq![]
        } else {
            let rest = self.rates(k + 1);
            match self.g.as_symbol(self.arg(self.active[k] as int)) {
                Some(s) => seq![(s, self.arg_dot(self.active[k] as int))] + rest,
                None => rest,
            }
        }
    }

    pub open spec fn output(self, k: int) -> ExprId {
        self.g.outside("osdi."@ + self.name, k as u32, self.args())
    }

    /// The current law of active node `i`: `f + dq/dt`.
    pub open spec fn row(self, i: int) -> ExprId {
        self.g.plus(self.output(i), self.g.rate(self.output(self.active.len() + i), self.rates(0)))
    }

    /// The terminal currents from the first `k` active nodes.
    pub open spec fn own_currents(self, k: int) -> Seq<ExprId>
        decreases k,
    {
        if k <= 0 {
            Seq::new(self.nt as nat, |i: int| self.g.zero())
        } else {
            let before = self.own_currents(k - 1);
            let node = self.active[k - 1];
            if node < self.nt {
                before.update(node as int, self.row(k - 1))
            } else {
                before
            }
        }
    }

    /// The residuals of the internal ones of the first `k` active nodes.
    pub open spec fn own_residuals(self, k: int) -> Seq<ExprId>
        decreases k,
    {
        if k <= 0 {
            seq![]
        } else if self.active[k - 1] < self.nt {
            self.own_residuals(k - 1)
        } else {
            self.own_residuals(k - 1).push(self.row(k - 1))
        }
    }

    pub open spec fn short_current(self, t: int) -> ExprId {
        self.g.sym(self.short_label(t))
    }

    /// The terminal currents with the first `k` shorting branches.
    pub open spec fn currents(self, k: int) -> Seq<ExprId>
        decreases k,
    {
        if k <= 0 {
            self.own_currents(self.active.len() as int)
        } else {
            let before = self.currents(k - 1);
            let (t, target) = self.shorts[k - 1];
            let i = self.short_current(t as int);
            let left = before.update(t as int, self.g.plus(before[t as int], i));
            match target {
                Some(rep) => left.update(rep as int, self.g.plus(left[rep as int], self.g.neg(i))),
                None => left,
            }
        }
    }

    /// What a shorting branch enforces: the terminal is at its target's voltage.
    pub open spec fn constraint(self, k: int) -> ExprId {
        let (t, target) = self.shorts[k];
        match target {
            Some(rep) => self.g.minus(self.v[t as int], self.v[rep as int]),
            None => self.v[t as int],
        }
    }

    pub open spec fn residuals(self) -> Seq<ExprId> {
        self.own_residuals(self.active.len() as int) + Seq::new(
            self.shorts.len(),
            |k: int| self.constraint(k),
        )
    }

    /// The unknowns of the internal ones of the first `k` active nodes.
    pub open spec fn node_mints(self, k: int) -> Seq<(Seq<char>, UnknownKind)>
        decreases k,
    {
        if k <= 0 {
            seq![]
        } else if self.active[k - 1] < self.nt {
            self.node_mints(k - 1)
        } else {
            self.node_mints(k - 1).push(
                (self.node_label(self.active[k - 1] as int), UnknownKind::NodeVoltage),
            )
        }
    }

    /// The unknowns that the device mints: its internal nodes, then a branch
    /// current per shorted terminal.
    pub open spec fn mints(self) -> Seq<(Seq<char>, UnknownKind)> {
        self.node_mints(self.active.len() as int) + Seq::new(
            self.shorts.len(),
            |k: int| (self.short_label(self.shorts[k].0 as int), UnknownKind::BranchCurrent),
        )
    }

    pub open spec fn node_symbol(self, i: Option<usize>) -> Option<SymbolId> {
        match i {
            Some(k) => self.g.as_symbol(self.args()[k as int]),
            None => None,
        }
    }

    /// The noise sources from `k` on: tabular ones, and those whose nodes have
    /// merged, inject nothing.
    pub open spec fn noise_from(self, k: int) -> Seq<crate::dae::system::NoiseView>
        decreases self.noise.len() - k,
    {
        if k < 0 || k >= self.noise.len() {
            seq![]
        } else {
            let rest = self.noise_from(k + 1);
            let (hi, lo, ty) = self.noise[k];
            if ty == NOISE_TYPE_TABLE || hi == lo {
                rest
            } else {
                let n = 2 * self.active.len();
                seq![
                    crate::dae::system::NoiseView {
                        hi: self.node_symbol(hi),
                        lo: self.node_symbol(lo),
                        psd: self.output(n + k),
                        flicker_exp: if ty == NOISE_TYPE_FLICKER {
                            self.output(n + self.noise.len() + k)
                        } else {
                            self.g.zero()
                        },
                        table: seq![],
                    },
                ] + rest
            }
        }
    }
}

/// A placed device as a mathematical value.
pub open spec fn placed(g: Graph, name: Seq<char>, m: OsdiModule, t: Topology, v: Seq<ExprId>, vdot: Seq<ExprId>) -> Placed {
    Placed {
        g,
        name,
        node_names: texts(m.node_names@),
        nt: m.num_terminals as int,
        v,
        vdot,
        active: t.active@,
        shorts: t.terminal_shorts@,
        noise: t.noise@,
    }
}

/// The extras of a lowerer grew by exactly the given unknowns.
pub open spec fn minted_all(
    before: Seq<LoweredUnknown>,
    after: Seq<LoweredUnknown>,
    g: Graph,
    v: Seq<(Seq<char>, UnknownKind)>,
) -> bool {
    &&& after.len() == before.len() + v.len()
    &&& after.take(before.len() as int) == before
    &&& forall|k: int|
        0 <= k < v.len() ==> (#[trigger] after[before.len() + k]).minted(g, v[k].0, v[k].0, v[k].1, false)
}

proof fn minted_more(
    start: Seq<LoweredUnknown>,
    before: Seq<LoweredUnknown>,
    after: Seq<LoweredUnknown>,
    g: Graph,
    v: Seq<(Seq<char>, UnknownKind)>,
    one: (Seq<char>, UnknownKind),
)
    requires
        minted_all(start, before, g, v),
        after.len() == before.len() + 1,
        after.drop_last() == before,
        after.last().minted(g, one.0, one.0, one.1, false),
    ensures
        minted_all(start, after, g, v.push(one)),
{
    let w = v.push(one);
    assert(after.take(start.len() as int) =~= before.take(start.len() as int));
    assert forall|k: int| 0 <= k < w.len() implies (#[trigger] after[start.len() + k]).minted(
        g,
        w[k].0,
        w[k].0,
        w[k].1,
        false,
    ) by {
        if k < v.len() {
            assert(after[start.len() + k] == before[start.len() + k]);
        }
    }
}

/// The arguments of a device's outside function.
struct Arguments {
    args: Vec<ExprId>,
    rates: Vec<(SymbolId, ExprId)>,
}

fn arguments<G: Fn(Query) -> Answer>(
    al: &Algebra<G>,
    lo: &mut Lowerer,
    name: &str,
    module: &OsdiModule,
    t: &Topology,
    v: &Vec<ExprId>,
    vdot: &Vec<ExprId>,
    Ghost(p): Ghost<Placed>,
) -> (r: Arguments)
    requires
        p == placed(al.graph(), name@, *module, *t, v@, vdot@),
        t.wf(module.node_names@.len() as int, module.num_terminals as int),
        v@.len() == module.num_terminals,
        vdot@.len() == module.num_terminals,
    ensures
        r.args@ == p.args(),
        r.rates@ == p.rates(0),
        final(lo).delays == old(lo).delays,
        minted_all(old(lo).extras@, final(lo).extras@, p.g, p.node_mints(t.active@.len() as int)),
{
    let ghost start = lo.extras@;
    let ghost delays = lo.delays;
    let nt = module.num_terminals;
    let ghost all = p.args();
    let mut args: Vec<ExprId> = Vec::new();
    let mut dots: Vec<ExprId> = Vec::new();
    assert(start.take(start.len() as int) =~= start);
    for k in 0..t.active.len()
        invariant
            p == placed(al.graph(), name@, *module, *t, v@, vdot@),
            t.wf(module.node_names@.len() as int, module.num_terminals as int),
            nt == module.num_terminals,
            v@.len() == nt,
            vdot@.len() == nt,
            all == p.args(),
            args@ =~= all.take(k as int),
            dots@.len() == k,
            forall|j: int| 0 <= j < k ==> #[trigger] dots@[j] == p.arg_dot(p.active[j] as int),
            lo.delays == delays,
            minted_all(start, lo.extras@, p.g, p.node_mints(k as int)),
    {
        let node = t.active[k];
        if node < nt {
            args.push(v[node]);
            dots.push(vdot[node]);
        } else {
            let label = concat3(name, ".", &module.node_names[node]);
            let ghost before = lo.extras@;
            let (e, d) = lo.unknown_kind(al, &label, UnknownKind::NodeVoltage, false);
            proof {
                minted_more(
                    start,
                    before,
                    lo.extras@,
                    p.g,
                    p.node_mints(k as int),
                    (p.node_label(node as int), UnknownKind::NodeVoltage),
                );
            }
            args.push(e);
            dots.push(d);
        }
    }
    assert(all.take(all.len() as int) =~= all);
    let ghost goal = p.rates(0);
    let mut rates: Vec<(SymbolId, ExprId)> = Vec::new();
    assert(rates@ + goal =~= goal);
    for k in 0..args.len()
        invariant
            p.g == al.graph(),
            args@ == p.args(),
            dots@.len() == args@.len(),
            forall|j: int| 0 <= j < dots@.len() ==> #[trigger] dots@[j] == p.arg_dot(p.active[j] as int),
            rates@ + p.rates(k as int) == goal,
    {
        let (symbol, _) = al.parts(args[k]);
        if let Some(s) = symbol {
            let ghost before = rates@;
            rates.push((s, dots[k]));
            proof {
                let rest = p.rates(k + 1);
                assert(rates@ + rest =~= before + (seq![(s, dots@[k as int])] + rest));
            }
        }
    }
    assert(rates@ + seq![] =~= rates@);
    Arguments { args, rates }
}

/// Lower a set-up instance: the current leaving each terminal, one residual per
/// minted unknown, and the noise sources. A terminal that the model collapsed
/// becomes a zero-volt branch to its target. The outside function must have been
/// registered (see [`registration`]).
pub fn lower_behavioral<G: Fn(Query) -> Answer>(
    al: &Algebra<G>,
    lo: &mut Lowerer,
    name: &str,
    module: &OsdiModule,
    t: &Topology,
    terminal_v: &Vec<ExprId>,
    terminal_vdot: &Vec<ExprId>,
) -> (r: BehavioralFragment)
    requires
        countable(*t),
        t.wf(module.node_names@.len() as int, module.num_terminals as int),
        module.num_terminals <= module.node_names@.len(),
        terminal_v@.len() == module.num_terminals,
        terminal_vdot@.len() == module.num_terminals,
    ensures
        ({
            let p = placed(al.graph(), name@, *module, *t, terminal_v@, terminal_vdot@);
            &&& r.terminal_currents@ == p.currents(p.shorts.len() as int)
            &&& r.residuals@ == p.residuals()
            &&& crate::dae::system::noise_views(r.noise@) == p.noise_from(0)
            &&& minted_all(old(lo).extras@, final(lo).extras@, p.g, p.mints())
        }),
        final(lo).delays == old(lo).delays,
        r.events@.len() == 0,
        r.param_syms@.len() == 0,
        r.op_vars@.len() == 0,
        r.limits@.len() == 0,
{
    let ghost p = placed(al.graph(), name@, *module, *t, terminal_v@, terminal_vdot@);
    let ghost start = lo.extras@;
    let ghost delays = lo.delays;
    let nt = module.num_terminals;
    let n: usize = t.active.len();
    let m: usize = t.noise.len();
    let label = concat2("osdi.", name);
    let a = arguments(al, lo, name, module, t, terminal_v, terminal_vdot, Ghost(p));
    let mut currents: Vec<ExprId> = Vec::new();
    let mut residuals: Vec<ExprId> = Vec::new();
    let zero = al.zero();
    for i in 0..nt
        invariant
            zero == p.g.zero(),
            currents@ =~= Seq::new(i as nat, |k: int| zero),
    {
        currents.push(zero);
    }
    assert(currents@ =~= p.own_currents(0));
    assert(residuals@ =~= p.own_residuals(0));
    for i in 0..n
        invariant
            p == placed(al.graph(), name@, *module, *t, terminal_v@, terminal_vdot@),
            countable(*t),
            n == t.active@.len(),
            nt == p.nt,
            a.args@ == p.args(),
            a.rates@ == p.rates(0),
            label@ == "osdi."@ + p.name,
            currents@.len() == nt,
            currents@ == p.own_currents(i as int),
            residuals@ == p.own_residuals(i as int),
    {
        let f = al.outside(&label, i as u32, &a.args);
        let q = al.outside(&label, (n + i) as u32, &a.args);
        let row = al.plus(f, al.rate(q, &a.rates));
        assert(row == p.row(i as int));
        let node = t.active[i];
        if node < nt {
            currents.set(node, row);
        } else {
            residuals.push(row);
        }
    }
    let ghost own = residuals@;
    let ghost ties = Seq::new(p.shorts.len(), |k: int| p.constraint(k));
    let ghost node_mints = p.node_mints(n as int);
    let ghost short_mints = Seq::new(
        p.shorts.len(),
        |k: int| (p.short_label(p.shorts[k].0 as int), UnknownKind::BranchCurrent),
    );
    assert(node_mints + short_mints.take(0) =~= node_mints);
    for k in 0..t.terminal_shorts.len()
        invariant
            p == placed(al.graph(), name@, *module, *t, terminal_v@, terminal_vdot@),
            t.wf(module.node_names@.len() as int, nt as int),
            nt == p.nt,
            nt == module.num_terminals,
            nt <= module.node_names@.len(),
            terminal_v@.len() == nt,
            currents@.len() == nt,
            currents@ == p.currents(k as int),
            ties == Seq::new(p.shorts.len(), |k: int| p.constraint(k)),
            short_mints == Seq::new(
                p.shorts.len(),
                |k: int| (p.short_label(p.shorts[k].0 as int), UnknownKind::BranchCurrent),
            ),
            residuals@ =~= own + ties.take(k as int),
            lo.delays == delays,
            minted_all(start, lo.extras@, p.g, node_mints + short_mints.take(k as int)),
    {
        let (s, target) = t.terminal_shorts[k];
        assert(t.terminal_shorts@[k as int].0 < nt);
        let tag = concat3(name, ".short_", &module.node_names[s]);
        let ghost before = lo.extras@;
        let (i, _) = lo.unknown_kind(al, &tag, UnknownKind::BranchCurrent, false);
        proof {
            minted_more(
                start,
                before,
                lo.extras@,
                p.g,
                node_mints + short_mints.take(k as int),
                (p.short_label(s as int), UnknownKind::BranchCurrent),
            );
            assert((node_mints + short_mints.take(k as int)).push(
                (p.short_label(s as int), UnknownKind::BranchCurrent),
            ) =~= node_mints + short_mints.take(k + 1));
        }
        let sum = al.plus(currents[s], i);
        currents.set(s, sum);
        let tie = match target {
            Some(rep) => {
                let sum = al.plus(currents[rep], al.neg(i));
                currents.set(rep, sum);
                al.minus(terminal_v[s], terminal_v[rep])
            },
            None => terminal_v[s],
        };
        assert(tie == ties[k as int]);
        residuals.push(tie);
    }
    proof {
        assert(ties.take(ties.len() as int) =~= ties);
        assert(short_mints.take(short_mints.len() as int) =~= short_mints);
    }
    let noise = lower_noise(al, &label, t, &a.args, Ghost(p));
    BehavioralFragment {
        terminal_currents: currents,
        residuals,
        noise,
        events: Vec::new(),
        param_syms: Vec::new(),
        op_vars: Vec::new(),
        limits: Vec::new(),
    }
}

fn symbol_at<G: Fn(Query) -> Answer>(al: &Algebra<G>, args: &Vec<ExprId>, i: Option<usize>, Ghost(p): Ghost<Placed>) -> (r:
    Option<SymbolId>)
    requires
        p.g == al.graph(),
        args@ == p.args(),
        i matches Some(k) ==> k < args@.len(),
    ensures
        r == p.node_symbol(i),
{
    match i {
        Some(k) => al.parts(args[k]).0,
        None => None,
    }
}

fn lower_noise<G: Fn(Query) -> Answer>(al: &Algebra<G>, label: &str, t: &Topology, args: &Vec<ExprId>, Ghost(p): Ghost<
    Placed,
>) -> (r: Vec<NoiseSource>)
    requires
        countable(*t),
        p.g == al.graph(),
        p.active == t.active@,
        p.noise == t.noise@,
        args@ == p.args(),
        label@ == "osdi."@ + p.name,
        forall|k: int|
            0 <= k < t.noise@.len() ==> ((#[trigger] t.noise@[k]).0 matches Some(i) ==> i < t.active@.len()),
        forall|k: int|
            0 <= k < t.noise@.len() ==> ((#[trigger] t.noise@[k]).1 matches Some(i) ==> i < t.active@.len()),
    ensures
        crate::dae::system::noise_views(r@) == p.noise_from(0),
{
    let n: usize = t.active.len();
    let m: usize = t.noise.len();
    let ghost goal = p.noise_from(0);
    let mut out: Vec<NoiseSource> = Vec::new();
    assert(crate::dae::system::noise_views(out@) + goal =~= goal);
    for k in 0..m
        invariant
            countable(*t),
            n == t.active@.len(),
            m == t.noise@.len(),
            p.g == al.graph(),
            p.active == t.active@,
            p.noise == t.noise@,
            args@ == p.args(),
            label@ == "osdi."@ + p.name,
            forall|k: int|
                0 <= k < t.noise@.len() ==> ((#[trigger] t.noise@[k]).0 matches Some(i) ==> i < t.active@.len()),
            forall|k: int|
                0 <= k < t.noise@.len() ==> ((#[trigger] t.noise@[k]).1 matches Some(i) ==> i < t.active@.len()),
            crate::dae::system::noise_views(out@) + p.noise_from(k as int) == goal,
    {
        let (hi, lo, ty) = t.noise[k];
        assert(t.noise@[k as int] == (hi, lo, ty));
        if ty != NOISE_TYPE_TABLE && hi != lo {
            let psd = al.outside(label, (2 * n + k) as u32, args);
            let flicker_exp = if ty == NOISE_TYPE_FLICKER {
                al.outside(label, (2 * n + m + k) as u32, args)
            } else {
                al.zero()
            };
            let src = NoiseSource {
                hi: symbol_at(al, args, hi, Ghost(p)),
                lo: symbol_at(al, args, lo, Ghost(p)),
                psd,
                flicker_exp,
                table: Vec::new(),
            };
            let ghost before = crate::dae::system::noise_views(out@);
            let ghost one = src@;
            assert(one.table =~= seq![]);
            out.push(src);
            proof {
                let rest = p.noise_from(k + 1);
                assert(crate::dae::system::noise_views(out@) =~= before.push(one));
                assert(before.push(one) + rest =~= before + (seq![one] + rest));
            }
        }
    }
    assert(crate::dae::system::noise_views(out@) + seq![] =~= crate::dae::system::noise_views(out@));
    out
}

/// A shorting branch carries its current out of one terminal and into the other.
pub proof fn short_current_is_balanced(p: Placed, k: int)
    requires
        0 <= k < p.shorts.len(),
        p.currents(k).len() == p.nt,
        p.shorts[k].0 < p.nt,
        p.shorts[k].1 matches Some(r) ==> r < p.nt && r != p.shorts[k].0,
    ensures
        ({
            let (t, target) = p.shorts[k];
            let i = p.short_current(t as int);
            &&& p.currents(k + 1)[t as int] == p.g.plus(p.currents(k)[t as int], i)
            &&& (target matches Some(r) ==> p.currents(k + 1)[r as int] == p.g.plus(
                p.currents(k)[r as int],
                p.g.neg(i),
            ))
            &&& forall|j: int|
                0 <= j < p.nt && j != t && target != Some(j as usize) ==> #[trigger] p.currents(k + 1)[j]
                    == p.currents(k)[j]
        }),
{
}

} // verus!

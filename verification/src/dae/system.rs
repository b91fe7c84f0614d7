//! The extracted system and its stamps.
use crate::device::{LimitKind, NoiseSource, OpVar, UnknownKind};
use crate::source_fn::SourceFn;
use crate::symbolic::{Algebra, Answer, ExprId, Graph, Query, SymbolId};
use crate::table::{symbol_entries, SymbolTable};
use crate::text::texts;
use vstd::prelude::*;

verus! {

/// A device controlling-voltage limit mapped to the unknown vector:
/// `v(hi) - v(lo)`, where `None` denotes ground.
#[derive(Clone, Copy, Debug, PartialEq, Eq, Structural)]
pub struct Limit {
    pub hi: Option<usize>,
    pub lo: Option<usize>,
    pub kind: LimitKind,
}

/// One transport delay: the output unknown `out` is pinned to the history
/// `src(t - tau)` of the source unknown through the input symbol `hist`.
#[derive(Clone, Copy, Debug, PartialEq, Eq, Structural)]
pub struct DelaySpec {
    pub src: usize,
    pub out: usize,
    pub hist: SymbolId,
    pub tau: ExprId,
}

/// A switching surface `g(x, t) = 0`; `name` is `instance#k`.
#[derive(Debug)]
pub struct EventSpec {
    pub g: ExprId,
    pub dir: i8,
    pub name: String,
}

/// One element contribution: `expr` is summed into residual `row`.
#[derive(Clone, Copy, Debug, PartialEq, Eq, Structural)]
pub struct Stamp {
    pub row: usize,
    pub expr: ExprId,
}

impl Stamp {
    pub fn new(row: usize, expr: ExprId) -> (r: Stamp)
        ensures
            r == (Stamp { row, expr }),
    {
        Stamp { row, expr }
    }
}

/// An extracted differential-algebraic system `F(x, x', t) = 0`.
#[derive(Debug)]
pub struct Dae {
    /// Residual expressions, one per unknown.
    pub residuals: Vec<ExprId>,
    /// Names of the unknowns `x`.
    pub unknowns: Vec<String>,
    /// What each unknown physically is.
    pub kinds: Vec<UnknownKind>,
    /// Unknown symbols `x`.
    pub x: Vec<SymbolId>,
    /// Derivative symbol per unknown (`None` for purely algebraic unknowns).
    pub xdot: Vec<Option<SymbolId>>,
    /// The time symbol.
    pub t: SymbolId,
    /// Number of leading node-voltage unknowns.
    pub n_nodes: usize,
    /// Module defaults of device parameter symbols, by the symbols' numbers.
    pub param_defaults: SymbolTable,
    /// Switching surfaces.
    pub events: Vec<EventSpec>,
    /// Transport delays.
    pub delays: Vec<DelaySpec>,
    /// Per-element contributions to the residual rows.
    pub stamps: Vec<Stamp>,
    /// Companion conductance network: node row, node column, value.
    pub companion: Vec<(usize, usize, u64)>,
    /// Small-signal noise sources.
    pub noise_sources: Vec<NoiseSource>,
    /// Operating-point variables.
    pub op_vars: Vec<OpVar>,
    /// Starting values by unknown name.
    pub dc_seeds: Vec<(String, u64)>,
    /// Controlling-voltage limits.
    pub limits: Vec<Limit>,
    /// Independent-source stimulus shapes, by element name.
    pub sources: Vec<(String, SourceFn)>,
    /// The value symbols of every independent source.
    pub source_names: Vec<String>,
}

pub struct EventView {
    pub g: ExprId,
    pub dir: i8,
    pub name: Seq<char>,
}

pub struct NoiseView {
    pub hi: Option<SymbolId>,
    pub lo: Option<SymbolId>,
    pub psd: ExprId,
    pub flicker_exp: ExprId,
    pub table: Seq<(u64, u64)>,
}

pub struct OpVarView {
    pub name: Seq<char>,
    pub short: Seq<char>,
    pub desc: Seq<char>,
    pub units: Option<Seq<char>>,
    pub value: ExprId,
}

impl View for EventSpec {
    type V = EventView;

    open spec fn view(&self) -> EventView {
        EventView { g: self.g, dir: self.dir, name: self.name@ }
    }
}

impl View for NoiseSource {
    type V = NoiseView;

    open spec fn view(&self) -> NoiseView {
        NoiseView {
            hi: self.hi,
            lo: self.lo,
            psd: self.psd,
            flicker_exp: self.flicker_exp,
            table: self.table@,
        }
    }
}

impl View for OpVar {
    type V = OpVarView;

    open spec fn view(&self) -> OpVarView {
        OpVarView {
            name: self.name@,
            short: self.short@,
            desc: self.desc@,
            units: crate::circuit::text_opt(self.units),
            value: self.value,
        }
    }
}

/// A system as a mathematical value.
pub struct DaeView {
    pub residuals: Seq<ExprId>,
    pub unknowns: Seq<Seq<char>>,
    pub kinds: Seq<UnknownKind>,
    pub x: Seq<SymbolId>,
    pub xdot: Seq<Option<SymbolId>>,
    pub t: SymbolId,
    pub n_nodes: usize,
    pub param_defaults: Map<u64, u64>,
    pub events: Seq<EventView>,
    pub delays: Seq<DelaySpec>,
    pub stamps: Seq<Stamp>,
    pub companion: Seq<(usize, usize, u64)>,
    pub noise_sources: Seq<NoiseView>,
    pub op_vars: Seq<OpVarView>,
    pub dc_seeds: Seq<(Seq<char>, u64)>,
    pub limits: Seq<Limit>,
    pub sources: Seq<(Seq<char>, SourceFn)>,
    pub source_names: Seq<Seq<char>>,
}

pub open spec fn event_views(v: Seq<EventSpec>) -> Seq<EventView> {
    v.map_values(|e: EventSpec| e@)
}

pub open spec fn noise_views(v: Seq<NoiseSource>) -> Seq<NoiseView> {
    v.map_values(|e: NoiseSource| e@)
}

pub open spec fn op_views(v: Seq<OpVar>) -> Seq<OpVarView> {
    v.map_values(|e: OpVar| e@)
}

pub open spec fn seed_views(v: Seq<(String, u64)>) -> Seq<(Seq<char>, u64)> {
    v.map_values(|p: (String, u64)| (p.0@, p.1))
}

pub open spec fn shape_views(v: Seq<(String, SourceFn)>) -> Seq<(Seq<char>, SourceFn)> {
    v.map_values(|p: (String, SourceFn)| (p.0@, p.1))
}

impl View for Dae {
    type V = DaeView;

    open spec fn view(&self) -> DaeView {
        DaeView {
            residuals: self.residuals@,
            unknowns: texts(self.unknowns@),
            kinds: self.kinds@,
            x: self.x@,
            xdot: self.xdot@,
            t: self.t,
            n_nodes: self.n_nodes,
            param_defaults: symbol_entries(self.param_defaults),
            events: event_views(self.events@),
            delays: self.delays@,
            stamps: self.stamps@,
            companion: self.companion@,
            noise_sources: noise_views(self.noise_sources@),
            op_vars: op_views(self.op_vars@),
            dc_seeds: seed_views(self.dc_seeds@),
            limits: self.limits@,
            sources: shape_views(self.sources@),
            source_names: texts(self.source_names@),
        }
    }
}

impl DaeView {
    /// One residual, name, kind, symbol and derivative slot per unknown; the
    /// nodes lead.
    pub open spec fn wf(self) -> bool {
        &&& self.residuals.len() == self.x.len()
        &&& self.unknowns.len() == self.x.len()
        &&& self.kinds.len() == self.x.len()
        &&& self.xdot.len() == self.x.len()
        &&& self.n_nodes <= self.x.len()
        &&& forall|i: int| 0 <= i < self.stamps.len() ==> (#[trigger] self.stamps[i]).row < self.x.len()
    }
}

// ---------------------------------------------------------------------------
// Stamps.
// ---------------------------------------------------------------------------
/// The summands of a row: those of a fused sum, or the row itself.
pub open spec fn summands(g: Graph, e: ExprId) -> Seq<ExprId> {
    match g.terms(e) {
        Some(v) => v,
        None => seq![e],
    }
}

/// A list of contributions to one row.
pub open spec fn row_stamps(row: usize, v: Seq<ExprId>) -> Seq<Stamp> {
    v.map_values(|e: ExprId| Stamp { row, expr: e })
}

/// The stamps of the rows from `i` on.
pub open spec fn stamps_of(g: Graph, residuals: Seq<ExprId>, i: int) -> Seq<Stamp>
    decreases residuals.len() - i,
{
    if i < 0 || i >= residuals.len() {
        seq![]
    } else {
        row_stamps(i as usize, summands(g, residuals[i])) + stamps_of(g, residuals, i + 1)
    }
}

pub fn summands_of<G: Fn(Query) -> Answer>(al: &Algebra<G>, e: ExprId) -> (r: Vec<ExprId>)
    ensures
        r@ == summands(al.graph(), e),
{
    match al.terms(e) {
        Some(v) => v,
        None => {
            let mut v: Vec<ExprId> = Vec::new();
            v.push(e);
            assert(v@ =~= seq![e]);
            v
        },
    }
}

/// Derive the per-element stamps of a residual system: each summand of a fused
/// sum is one stamp; any other row is a single stamp.
pub fn stamps_from_residuals<G: Fn(Query) -> Answer>(al: &Algebra<G>, residuals: &Vec<ExprId>) -> (r: Vec<Stamp>)
    ensures
        r@ == stamps_of(al.graph(), residuals@, 0),
{
    let ghost g = al.graph();
    let mut out: Vec<Stamp> = Vec::new();
    assert(out@ + stamps_of(g, residuals@, 0) =~= stamps_of(g, residuals@, 0));
    for row in 0..residuals.len()
        invariant
            g == al.graph(),
            out@ + stamps_of(g, residuals@, row as int) == stamps_of(g, residuals@, 0),
    {
        let v = summands_of(al, residuals[row]);
        let ghost before = out@;
        let ghost all = row_stamps(row, v@);
        for k in 0..v.len()
            invariant
                all == row_stamps(row, v@),
                out@ =~= before + all.take(k as int),
        {
            out.push(Stamp::new(row, v[k]));
        }
        proof {
            assert(all.take(all.len() as int) =~= all);
            let rest = stamps_of(g, residuals@, row + 1);
            assert(before + (all + rest) =~= (before + all) + rest);
        }
    }
    assert(out@ + seq![] =~= out@);
    out
}

/// The expressions of a row's stamps, in order.
pub open spec fn of_row(stamps: Seq<Stamp>, row: usize) -> Seq<ExprId>
    decreases stamps.len(),
{
    if stamps.len() == 0 {
        seq![]
    } else {
        let rest = of_row(stamps.drop_last(), row);
        if stamps.last().row == row {
            rest.push(stamps.last().expr)
        } else {
            rest
        }
    }
}

pub(crate) proof fn of_row_concat(a: Seq<Stamp>, b: Seq<Stamp>, row: usize)
    ensures
        of_row(a + b, row) == of_row(a, row) + of_row(b, row),
    decreases b.len(),
{
    if b.len() == 0 {
        assert(a + b =~= a);
        assert(of_row(a, row) + seq![] =~= of_row(a, row));
    } else {
        assert((a + b).drop_last() =~= a + b.drop_last());
        of_row_concat(a, b.drop_last(), row);
        assert(of_row(a + b, row) =~= of_row(a, row) + of_row(b, row));
    }
}

pub(crate) proof fn of_row_same(row: usize, v: Seq<ExprId>, other: usize)
    ensures
        of_row(row_stamps(row, v), other) == (if row == other {
            v
        } else {
            seq![]
        }),
    decreases v.len(),
{
    if v.len() > 0 {
        of_row_same(row, v.drop_last(), other);
        assert(row_stamps(row, v).drop_last() =~= row_stamps(row, v.drop_last()));
        assert(v.drop_last().push(v.last()) =~= v);
        assert(of_row(row_stamps(row, v), other) =~= (if row == other {
            v
        } else {
            seq![]
        }));
    } else {
        assert(of_row(row_stamps(row, v), other) =~= seq![]);
        assert(v =~= seq![]);
    }
}

proof fn stamps_before(g: Graph, residuals: Seq<ExprId>, i: int, row: usize)
    requires
        0 <= i <= residuals.len(),
        residuals.len() <= usize::MAX,
    ensures
        of_row(stamps_of(g, residuals, i), row) == (if i <= row < residuals.len() {
            summands(g, residuals[row as int])
        } else {
            seq![]
        }),
    decreases residuals.len() - i,
{
    if i < residuals.len() {
        stamps_before(g, residuals, i + 1, row);
        let here = row_stamps(i as usize, summands(g, residuals[i]));
        let rest = stamps_of(g, residuals, i + 1);
        of_row_concat(here, rest, row);
        of_row_same(i as usize, summands(g, residuals[i]), row);
        assert(of_row(stamps_of(g, residuals, i), row) =~= (if i <= row < residuals.len() {
            summands(g, residuals[row as int])
        } else {
            seq![]
        }));
    } else {
        assert(of_row(stamps_of(g, residuals, i), row) =~= seq![]);
    }
}

/// The stamps of a row are exactly the summands of its residual, in order: a
/// row that is a fused sum is the sum of its stamps, and any other row is its
/// one stamp.
pub proof fn stamps_reproduce_rows(g: Graph, residuals: Seq<ExprId>, row: usize)
    requires
        row < residuals.len() <= usize::MAX,
    ensures
        of_row(stamps_of(g, residuals, 0), row) == summands(g, residuals[row as int]),
{
    stamps_before(g, residuals, 0, row);
}

/// Every stamp belongs to a row.
pub proof fn stamps_have_rows(g: Graph, residuals: Seq<ExprId>, i: int)
    requires
        0 <= i,
        residuals.len() <= usize::MAX,
    ensures
        forall|k: int|
            0 <= k < stamps_of(g, residuals, i).len() ==> (#[trigger] stamps_of(g, residuals, i)[k]).row
                < residuals.len(),
    decreases residuals.len() - i,
{
    if i < residuals.len() {
        stamps_have_rows(g, residuals, i + 1);
        let here = row_stamps(i as usize, summands(g, residuals[i]));
        let rest = stamps_of(g, residuals, i + 1);
        assert forall|k: int| 0 <= k < (here + rest).len() implies (#[trigger] (here + rest)[k]).row
            < residuals.len() by {
            if k < here.len() {
                assert(here[k].row == i);
            } else {
                assert((here + rest)[k] == rest[k - here.len()]);
            }
        }
    }
}

// ---------------------------------------------------------------------------
// Copies.
// ---------------------------------------------------------------------------
pub fn copy_symbols(v: &Vec<SymbolId>) -> (r: Vec<SymbolId>)
    ensures
        r@ == v@,
{
    let mut out: Vec<SymbolId> = Vec::new();
    for i in 0..v.len()
        invariant
            out@ =~= v@.take(i as int),
    {
        out.push(v[i]);
    }
    assert(v@.take(v@.len() as int) =~= v@);
    out
}

pub fn copy_slots(v: &Vec<Option<SymbolId>>) -> (r: Vec<Option<SymbolId>>)
    ensures
        r@ == v@,
{
    let mut out: Vec<Option<SymbolId>> = Vec::new();
    for i in 0..v.len()
        invariant
            out@ =~= v@.take(i as int),
    {
        out.push(v[i]);
    }
    assert(v@.take(v@.len() as int) =~= v@);
    out
}

pub fn copy_kinds(v: &Vec<UnknownKind>) -> (r: Vec<UnknownKind>)
    ensures
        r@ == v@,
{
    let mut out: Vec<UnknownKind> = Vec::new();
    for i in 0..v.len()
        invariant
            out@ =~= v@.take(i as int),
    {
        out.push(v[i]);
    }
    assert(v@.take(v@.len() as int) =~= v@);
    out
}

pub fn copy_seeds(v: &Vec<(String, u64)>) -> (r: Vec<(String, u64)>)
    ensures
        seed_views(r@) == seed_views(v@),
{
    let mut out: Vec<(String, u64)> = Vec::new();
    let ghost all = seed_views(v@);
    for i in 0..v.len()
        invariant
            all == seed_views(v@),
            seed_views(out@) =~= all.take(i as int),
    {
        let ghost before = seed_views(out@);
        let s = v[i].0.clone();
        out.push((s, v[i].1));
        assert(seed_views(out@) =~= before.push(all[i as int]));
    }
    assert(all.take(all.len() as int) =~= all);
    out
}

pub fn copy_delays(v: &Vec<DelaySpec>) -> (r: Vec<DelaySpec>)
    ensures
        r@ == v@,
{
    let mut out: Vec<DelaySpec> = Vec::new();
    for i in 0..v.len()
        invariant
            out@ =~= v@.take(i as int),
    {
        out.push(v[i]);
    }
    assert(v@.take(v@.len() as int) =~= v@);
    out
}

pub fn copy_table(v: &Vec<(u64, u64)>) -> (r: Vec<(u64, u64)>)
    ensures
        r@ == v@,
{
    let mut out: Vec<(u64, u64)> = Vec::new();
    for i in 0..v.len()
        invariant
            out@ =~= v@.take(i as int),
    {
        out.push(v[i]);
    }
    assert(v@.take(v@.len() as int) =~= v@);
    out
}

pub fn copy_noise(v: &NoiseSource) -> (r: NoiseSource)
    ensures
        r@ == v@,
{
    NoiseSource {
        hi: v.hi,
        lo: v.lo,
        psd: v.psd,
        flicker_exp: v.flicker_exp,
        table: copy_table(&v.table),
    }
}

/// A copy of an operating-point variable with another expression.
pub fn op_var_with(v: &OpVar, value: ExprId) -> (r: OpVar)
    ensures
        r@ == (OpVarView { value, ..v@ }),
{
    let units: Option<String> = match &v.units {
        Some(u) => Some(u.clone()),
        None => None,
    };
    OpVar { name: v.name.clone(), short: v.short.clone(), desc: v.desc.clone(), units, value }
}

} // verus!

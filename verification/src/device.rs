//! The device contract: every device lowers onto the expression graph as a
//! fragment (terminal currents, extra-unknown residuals, noise generators,
//! Newton limits, operating-point variables).
//!
//! The constitutive equations of the standard devices live as Verilog-A source
//! outside this library. Here are the types that describe what a device
//! contributes, the minting of its extra unknowns, and the one device that is
//! topological rather than physical: the current-controlled switch, which
//! references another element's branch current.
//!
//! Model parameters are instance-scoped free symbols named
//! `"{instance}.{param}"` (e.g. `D1.Is`), so numeric values are bound later.
use crate::numerics::Rel;
use crate::symbolic::{Algebra, Answer, ExprId, Fun1, Graph, Query, SymbolId};
use crate::text::{concat2, concat3, texts};
use vstd::prelude::*;

verus! {

/// Kind of curve-aware Newton-step limiting for a device's controlling voltage.
/// The device declares only *which* voltage to limit and its kind; the numeric
/// thresholds are the solver's.
#[derive(Clone, Copy, Debug, PartialEq, Eq, Structural)]
pub enum LimitKind {
    /// Forward PN-junction voltage: logarithmic limiting above the critical
    /// voltage (`pnjlim`).
    PnJunction,
    /// FET channel control voltage `vgs`: bounded step around threshold
    /// (`fetlim`).
    Fet,
}

/// What an unknown physically is. Volts, amperes and device states share no
/// scale, so a bound on an unknown is taken per kind.
#[derive(Clone, Copy, Debug, PartialEq, Eq, Structural)]
pub enum UnknownKind {
    /// A node potential.
    NodeVoltage,
    /// A branch current minted for an element.
    BranchCurrent,
    /// A device-internal state (Verilog-A state, transmission-line wave).
    DeviceState,
}

/// A small-signal noise source: a current noise generator across nodes `hi`/`lo`
/// (by voltage symbol; `None` = ground) with power spectral density `psd` and
/// flicker exponent `flicker_exp` (a constant-zero exponent is white noise).
#[derive(Debug)]
pub struct NoiseSource {
    pub hi: Option<SymbolId>,
    pub lo: Option<SymbolId>,
    pub psd: ExprId,
    pub flicker_exp: ExprId,
    /// Tabular noise: `(frequency, psd)` points. Empty for the other sources.
    pub table: Vec<(u64, u64)>,
}

/// An operating-point variable a device exports: a named, documented internal
/// quantity whose expression analyses evaluate at a solved point.
#[derive(Debug)]
pub struct OpVar {
    /// Instance-qualified name (`M1.gm`).
    pub name: String,
    /// The variable's own name (`gm`).
    pub short: String,
    pub desc: String,
    pub units: Option<String>,
    pub value: ExprId,
}

/// A controlling-voltage limit: `v(hi) - v(lo)` (by node-voltage symbol; `None`
/// = ground), oriented forward-positive.
#[derive(Clone, Copy, Debug, PartialEq, Eq, Structural)]
pub struct FragmentLimit {
    pub hi: Option<SymbolId>,
    pub lo: Option<SymbolId>,
    pub kind: LimitKind,
}

/// A switching surface a device declares: an integrator lands a step on every
/// zero crossing of `g` in direction `dir` (`0` either way, `1` rising, `-1`
/// falling).
#[derive(Clone, Copy, Debug, PartialEq, Eq, Structural)]
pub struct FragmentEvent {
    pub g: ExprId,
    pub dir: i8,
}

/// What a device contributes: a current leaving each external terminal plus one
/// residual equation per extra unknown, in mint order.
#[derive(Debug)]
pub struct BehavioralFragment {
    pub terminal_currents: Vec<ExprId>,
    pub residuals: Vec<ExprId>,
    pub noise: Vec<NoiseSource>,
    pub events: Vec<FragmentEvent>,
    /// The instance's parameter symbols, with the model's default where it has
    /// one.
    pub param_syms: Vec<(SymbolId, Option<u64>)>,
    pub op_vars: Vec<OpVar>,
    pub limits: Vec<FragmentLimit>,
}

/// An extra unknown that a device mints beyond its terminals, with its value and
/// derivative symbols.
#[derive(Debug)]
pub struct LoweredUnknown {
    pub name: String,
    pub kind: UnknownKind,
    /// The name relative to the minting instance (`br0` of `U1.br0`).
    pub suffix: String,
    pub value: ExprId,
    pub xdot: ExprId,
    pub value_sym: SymbolId,
    pub xdot_sym: SymbolId,
    /// The time derivative appears in a residual.
    pub differential: bool,
    /// A starting value for the operating point.
    pub dc_seed: Option<u64>,
}

/// A transport delay: the delayed source lives in the extra unknown
/// `src_extra`, its delayed copy in `out_extra`; `hist` is the history input
/// symbol, `tau` the delay.
#[derive(Clone, Copy, Debug, PartialEq, Eq, Structural)]
pub struct LoweredDelay {
    pub src_extra: usize,
    pub out_extra: usize,
    pub hist: SymbolId,
    pub tau: ExprId,
}

// ---------------------------------------------------------------------------
// Minting unknowns.
// ---------------------------------------------------------------------------
/// The extra unknowns and delays that a device has minted so far.
#[derive(Debug)]
pub struct Lowerer {
    pub extras: Vec<LoweredUnknown>,
    pub delays: Vec<LoweredDelay>,
}

impl LoweredUnknown {
    /// An unknown as it is minted under a name.
    pub open spec fn minted(
        self,
        g: Graph,
        name: Seq<char>,
        suffix: Seq<char>,
        kind: UnknownKind,
        differential: bool,
    ) -> bool {
        &&& self.name@ == name
        &&& self.suffix@ == suffix
        &&& self.kind == kind
        &&& self.value_sym == g.symbol(name)
        &&& self.xdot_sym == g.symbol("vdot_"@ + name)
        &&& self.value == g.symbol_expr(self.value_sym)
        &&& self.xdot == g.symbol_expr(self.xdot_sym)
        &&& self.differential == differential
        &&& self.dc_seed is None
    }
}

/// One more unknown was minted, and its value and derivative handed out.
pub open spec fn grown(
    before: Lowerer,
    after: Lowerer,
    r: (ExprId, ExprId),
    g: Graph,
    name: Seq<char>,
    suffix: Seq<char>,
    kind: UnknownKind,
    differential: bool,
) -> bool {
    &&& after.delays == before.delays
    &&& after.extras@.len() == before.extras@.len() + 1
    &&& after.extras@.drop_last() == before.extras@
    &&& after.extras@.last().minted(g, name, suffix, kind, differential)
    &&& r == (after.extras@.last().value, after.extras@.last().xdot)
}

impl Lowerer {
    pub fn new() -> (r: Lowerer)
        ensures
            r.extras@.len() == 0,
            r.delays@.len() == 0,
    {
        Lowerer { extras: Vec::new(), delays: Vec::new() }
    }

    /// Mint an extra unknown by its fully-qualified `name` and its derivative.
    pub fn unknown<G: Fn(Query) -> Answer>(&mut self, al: &Algebra<G>, name: &str, differential: bool) -> (r: (
        ExprId,
        ExprId,
    ))
        ensures
            grown(
                *old(self),
                *final(self),
                r,
                al.graph(),
                name@,
                name@,
                UnknownKind::DeviceState,
                differential,
            ),
    {
        self.unknown_with_suffix(al, name, name, UnknownKind::DeviceState, differential)
    }

    /// Mint a device state scoped by `inst`: named `{inst}.{suffix}`.
    pub fn unknown_of<G: Fn(Query) -> Answer>(
        &mut self,
        al: &Algebra<G>,
        inst: &str,
        suffix: &str,
        differential: bool,
    ) -> (r: (ExprId, ExprId))
        ensures
            grown(
                *old(self),
                *final(self),
                r,
                al.graph(),
                inst@ + "."@ + suffix@,
                suffix@,
                UnknownKind::DeviceState,
                differential,
            ),
    {
        self.unknown_kind_of(al, inst, suffix, UnknownKind::DeviceState, differential)
    }

    /// Mint a device-internal node potential `{inst}.{suffix}`.
    pub fn internal_node_of<G: Fn(Query) -> Answer>(&mut self, al: &Algebra<G>, inst: &str, suffix: &str) -> (r: (
        ExprId,
        ExprId,
    ))
        ensures
            grown(
                *old(self),
                *final(self),
                r,
                al.graph(),
                inst@ + "."@ + suffix@,
                suffix@,
                UnknownKind::NodeVoltage,
                false,
            ),
    {
        self.unknown_kind_of(al, inst, suffix, UnknownKind::NodeVoltage, false)
    }

    /// Mint a branch current `{inst}.{suffix}`.
    pub fn branch_current_of<G: Fn(Query) -> Answer>(&mut self, al: &Algebra<G>, inst: &str, suffix: &str) -> (r: (
        ExprId,
        ExprId,
    ))
        ensures
            grown(
                *old(self),
                *final(self),
                r,
                al.graph(),
                inst@ + "."@ + suffix@,
                suffix@,
                UnknownKind::BranchCurrent,
                false,
            ),
    {
        self.unknown_kind_of(al, inst, suffix, UnknownKind::BranchCurrent, false)
    }

    /// Mint an extra unknown `{inst}.{suffix}` of an explicit kind.
    pub fn unknown_kind_of<G: Fn(Query) -> Answer>(
        &mut self,
        al: &Algebra<G>,
        inst: &str,
        suffix: &str,
        kind: UnknownKind,
        differential: bool,
    ) -> (r: (ExprId, ExprId))
        ensures
            grown(
                *old(self),
                *final(self),
                r,
                al.graph(),
                inst@ + "."@ + suffix@,
                suffix@,
                kind,
                differential,
            ),
    {
        let name = concat3(inst, ".", suffix);
        self.unknown_with_suffix(al, &name, suffix, kind, differential)
    }

    /// Mint an extra unknown by full name and explicit kind.
    pub fn unknown_kind<G: Fn(Query) -> Answer>(
        &mut self,
        al: &Algebra<G>,
        name: &str,
        kind: UnknownKind,
        differential: bool,
    ) -> (r: (ExprId, ExprId))
        ensures
            grown(*old(self), *final(self), r, al.graph(), name@, name@, kind, differential),
    {
        self.unknown_with_suffix(al, name, name, kind, differential)
    }

    fn unknown_with_suffix<G: Fn(Query) -> Answer>(
        &mut self,
        al: &Algebra<G>,
        name: &str,
        suffix: &str,
        kind: UnknownKind,
        differential: bool,
    ) -> (r: (ExprId, ExprId))
        ensures
            grown(*old(self), *final(self), r, al.graph(), name@, suffix@, kind, differential),
    {
        let value_sym = al.symbol(name);
        let value = al.symbol_expr(value_sym);
        let xdot_sym = al.symbol(&concat2("vdot_", name));
        let xdot = al.symbol_expr(xdot_sym);
        let ghost before = self.extras@;
        self.extras.push(
            LoweredUnknown {
                name: name.to_owned(),
                kind,
                suffix: suffix.to_owned(),
                value,
                xdot,
                value_sym,
                xdot_sym,
                differential,
                dc_seed: None,
            },
        );
        assert(self.extras@.drop_last() =~= before);
        (value, xdot)
    }
}

// ---------------------------------------------------------------------------
// Building blocks.
// ---------------------------------------------------------------------------
/// `x` bounded to the interval from zero to one.
pub open spec fn clamped(g: Graph, x: ExprId) -> ExprId {
    let lo = g.select(g.compare(Rel::Gt, x, g.zero()), x, g.zero());
    g.select(g.compare(Rel::Lt, lo, g.one()), lo, g.one())
}

pub(crate) fn clamp01<G: Fn(Query) -> Answer>(al: &Algebra<G>, x: ExprId) -> (r: ExprId)
    ensures
        r == clamped(al.graph(), x),
{
    let zero = al.zero();
    let one = al.one();
    let lo = al.select(al.compare(Rel::Gt, x, zero), x, zero);
    al.select(al.compare(Rel::Lt, lo, one), lo, one)
}

/// The conductance of a soft switch: interpolated in log-conductance across the
/// control window `[center - vh, center + vh]` by the smoothstep `u^2 (3 - 2u)`.
pub open spec fn smooth_conductance(
    g: Graph,
    ctrl: ExprId,
    center: ExprId,
    vh: ExprId,
    g_on: ExprId,
    g_off: ExprId,
) -> ExprId {
    let two = g.whole(2);
    let u = clamped(g, g.over(g.minus(ctrl, g.minus(center, vh)), g.times(two, vh)));
    let s = g.times(g.power(u, 2), g.minus(g.whole(3), g.times(two, u)));
    let ln_off = g.fun1(Fun1::Ln, g_off);
    let d = g.minus(g.fun1(Fun1::Ln, g_on), ln_off);
    g.fun1(Fun1::Exp, g.plus(ln_off, g.times(s, d)))
}

/// The conductance of a switch: soft for a positive half-width, else a hard
/// threshold at the center.
pub open spec fn conductance(
    g: Graph,
    ctrl: ExprId,
    center: ExprId,
    vh: ExprId,
    g_on: ExprId,
    g_off: ExprId,
) -> ExprId {
    g.select(
        g.compare(Rel::Gt, vh, g.zero()),
        smooth_conductance(g, ctrl, center, vh, g_on, g_off),
        g.select(g.compare(Rel::Gt, ctrl, center), g_on, g_off),
    )
}

/// Smooth switch conductance: from `g_off` (control below the window) to `g_on`
/// (above), with zero slope at both ends.
pub fn smooth_switch_g<G: Fn(Query) -> Answer>(
    al: &Algebra<G>,
    ctrl: ExprId,
    center: ExprId,
    vh: ExprId,
    g_on: ExprId,
    g_off: ExprId,
) -> (r: ExprId)
    ensures
        r == smooth_conductance(al.graph(), ctrl, center, vh, g_on, g_off),
{
    let two = al.whole(2);
    let lo = al.minus(center, vh);
    let q = al.over(al.minus(ctrl, lo), al.times(two, vh));
    let u = clamp01(al, q);
    let inner = al.minus(al.whole(3), al.times(two, u));
    let s = al.times(al.power(u, 2), inner);
    let ln_off = al.fun1(Fun1::Ln, g_off);
    let d = al.minus(al.fun1(Fun1::Ln, g_on), ln_off);
    al.fun1(Fun1::Exp, al.plus(ln_off, al.times(s, d)))
}

/// Switch conductance: the smooth transition for a positive half-width `vh`, a
/// hard threshold at `center` for `vh = 0`.
pub fn switch_g<G: Fn(Query) -> Answer>(
    al: &Algebra<G>,
    ctrl: ExprId,
    center: ExprId,
    vh: ExprId,
    g_on: ExprId,
    g_off: ExprId,
) -> (r: ExprId)
    ensures
        r == conductance(al.graph(), ctrl, center, vh, g_on, g_off),
{
    let soft = al.compare(Rel::Gt, vh, al.zero());
    let smooth = smooth_switch_g(al, ctrl, center, vh, g_on, g_off);
    let hard = al.select(al.compare(Rel::Gt, ctrl, center), g_on, g_off);
    al.select(soft, smooth, hard)
}

/// The exponential up to a knot, and its tangent line `exp(vc) (1 + (x - vc))`
/// beyond.
pub open spec fn limited_exp(g: Graph, arg: ExprId, vcrit: u64) -> ExprId {
    let vc = g.number(vcrit);
    let line = g.times(g.fun1(Fun1::Exp, vc), g.plus(g.one(), g.minus(arg, vc)));
    g.select(g.compare(Rel::Gt, arg, vc), line, g.fun1(Fun1::Exp, arg))
}

/// Overflow-safe junction exponential: exact up to the knot `vcrit`, then along
/// the tangent, so that trial steps cannot overflow it. `limexp` of Verilog-A
/// is this construction.
pub fn safe_exp<G: Fn(Query) -> Answer>(al: &Algebra<G>, arg: ExprId, vcrit: u64) -> (r: ExprId)
    ensures
        r == limited_exp(al.graph(), arg, vcrit),
{
    let vc = al.number(vcrit);
    let e_vc = al.fun1(Fun1::Exp, vc);
    let d = al.minus(arg, vc);
    let line = al.times(e_vc, al.plus(al.one(), d));
    let e = al.fun1(Fun1::Exp, arg);
    al.select(al.compare(Rel::Gt, arg, vc), line, e)
}

/// A conductance from every terminal to the first: `(terminal, 0, conductance)`.
pub open spec fn star(n: int, g: u64) -> Seq<(usize, usize, u64)> {
    Seq::new(
        (if n > 1 {
            n - 1
        } else {
            0
        }) as nat,
        |i: int| ((i + 1) as usize, 0usize, g),
    )
}

/// The companion network of a device that names none of its own: a conductance
/// star to terminal 0, so that all terminals are connected.
pub fn companion(n_terminals: usize, g: u64) -> (r: Vec<(usize, usize, u64)>)
    ensures
        r@ == star(n_terminals as int, g),
{
    let mut out: Vec<(usize, usize, u64)> = Vec::new();
    let mut k: usize = 1;
    while k < n_terminals
        invariant
            1 <= k,
            n_terminals >= 1 ==> k <= n_terminals,
            n_terminals == 0 ==> k == 1,
            out@ =~= star(k as int, g),
        decreases n_terminals - k,
    {
        out.push((k, 0, g));
        k += 1;
    }
    assert(out@ =~= star(n_terminals as int, g));
    out
}

// ---------------------------------------------------------------------------
// The current-controlled switch.
// ---------------------------------------------------------------------------
/// Current-controlled switch (`W`). Terminals: `[a, b]`, controlled by the
/// branch current of element `ctrl`. Conductance goes from `1/Roff` to `1/Ron`
/// as `I(ctrl)` crosses the window `[It - Ih, It + Ih]`; the window edges are
/// switching surfaces; current `G*(Va - Vb)` flows from a to b.
#[derive(Debug)]
pub struct CSwitch {
    pub name: String,
    pub ctrl: String,
}

/// The current through a switch named `name`.
pub open spec fn switch_current(g: Graph, name: Seq<char>, va: ExprId, vb: ExprId, ictrl: ExprId) -> ExprId {
    let ron = g.sym(name + ".Ron"@);
    let roff = g.sym(name + ".Roff"@);
    let it = g.sym(name + ".It"@);
    let ih = g.sym(name + ".Ih"@);
    g.times(conductance(g, ictrl, it, ih, g.recip(ron), g.recip(roff)), g.minus(va, vb))
}

/// How far the control is past an edge of the window.
pub open spec fn switch_edge(g: Graph, name: Seq<char>, ictrl: ExprId, upper: bool) -> ExprId {
    let it = g.sym(name + ".It"@);
    let ih = g.sym(name + ".Ih"@);
    if upper {
        g.minus(ictrl, g.plus(it, ih))
    } else {
        g.minus(ictrl, g.minus(it, ih))
    }
}

/// The switching surfaces: both edges, or one where they are the same.
pub open spec fn switch_events(g: Graph, name: Seq<char>, ictrl: ExprId) -> Seq<FragmentEvent> {
    let lo = switch_edge(g, name, ictrl, false);
    let hi = switch_edge(g, name, ictrl, true);
    if lo == hi {
        seq![FragmentEvent { g: lo, dir: 0 }]
    } else {
        seq![FragmentEvent { g: lo, dir: 0 }, FragmentEvent { g: hi, dir: 0 }]
    }
}

impl CSwitch {
    /// The element whose current controls the switch.
    pub fn control_currents(&self) -> (r: Vec<String>)
        ensures
            texts(r@) == seq![self.ctrl@],
    {
        let mut out: Vec<String> = Vec::new();
        out.push(self.ctrl.clone());
        assert(texts(out@) =~= seq![self.ctrl@]);
        out
    }

    pub fn new(name: &str, ctrl: &str) -> (r: CSwitch)
        ensures
            r.name@ == name@,
            r.ctrl@ == ctrl@,
    {
        CSwitch { name: name.to_owned(), ctrl: ctrl.to_owned() }
    }

    /// Lower the switch: the current out of each terminal and the switching
    /// surfaces; it mints no unknowns.
    pub fn lower_behavioral<G: Fn(Query) -> Answer>(&self, al: &Algebra<G>, va: ExprId, vb: ExprId, ictrl: ExprId) -> (r:
        BehavioralFragment)
        ensures
            r.terminal_currents@ == seq![
                switch_current(al.graph(), self.name@, va, vb, ictrl),
                al.graph().neg(switch_current(al.graph(), self.name@, va, vb, ictrl)),
            ],
            r.events@ == switch_events(al.graph(), self.name@, ictrl),
            r.residuals@.len() == 0,
            r.noise@.len() == 0,
            r.param_syms@.len() == 0,
            r.op_vars@.len() == 0,
            r.limits@.len() == 0,
    {
        let ron = al.sym(&concat2(&self.name, ".Ron"));
        let roff = al.sym(&concat2(&self.name, ".Roff"));
        let it = al.sym(&concat2(&self.name, ".It"));
        let ih = al.sym(&concat2(&self.name, ".Ih"));
        let g = switch_g(al, ictrl, it, ih, al.recip(ron), al.recip(roff));
        let i = al.times(g, al.minus(va, vb));
        let lo = al.minus(ictrl, al.minus(it, ih));
        let hi = al.minus(ictrl, al.plus(it, ih));
        let mut terminal_currents: Vec<ExprId> = Vec::new();
        terminal_currents.push(i);
        terminal_currents.push(al.neg(i));
        let mut events: Vec<FragmentEvent> = Vec::new();
        events.push(FragmentEvent { g: lo, dir: 0 });
        if hi != lo {
            events.push(FragmentEvent { g: hi, dir: 0 });
        }
        assert(events@ =~= switch_events(al.graph(), self.name@, ictrl));
        assert(terminal_currents@ =~= seq![i, al.graph().neg(i)]);
        BehavioralFragment {
            terminal_currents,
            residuals: Vec::new(),
            noise: Vec::new(),
            events,
            param_syms: Vec::new(),
            op_vars: Vec::new(),
            limits: Vec::new(),
        }
    }
}

} // verus!

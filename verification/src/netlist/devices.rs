//! Device-instance placement: parameter binding from model cards and inline
//! overrides, geometry scaling, multiplicity.
use crate::circuit::{value_symbol, value_symbol_name, Circuit, CircuitView, ElementView};
use crate::netlist::compat::{CompatReport, ReportView};
use crate::netlist::expr::{resolve_value, resolved};
use crate::netlist::model_cards::{
    bound_params, bound_params_of, values_text, CardView, ModelCard,
};
use crate::netlist::nodes::{NodeMap, NodesView};
use crate::netlist::options::ZERO_CELSIUS_K;
use crate::netlist::source::{alias, alias_param};
use crate::netlist::world::{
    fail_at, failed_at, ModelRef, ModelRefView, ModuleInfo, NamesView, OsdiInfo, ParamNames,
    Placement, PlacementView, RefTable, Request, RequestView, Stop, StopView,
};
use crate::numerics::{apply2, compares, Answers, Ask, Host, Op2, Rel, Reply, ONE};
use crate::table::{entries, table_get, table_insert, table_new, Table};
use crate::text::{
    chars_of, concat3, contains_text, copy_range, halves, lower, same, split_once, texts, to_lower,
};
use vstd::prelude::*;

verus! {

// ---------------------------------------------------------------------------
// The state of placement.
// ---------------------------------------------------------------------------
/// A power port (`P<name> n+ n- [Z0=..]`): an ideal source (named like the port)
/// behind a `Z0` series resistor onto `node`.
#[derive(Debug)]
pub struct PortDef {
    /// Element name (`P1`, ...), also the drive-source name.
    pub name: String,
    /// Network-side terminal (the deck's `n+` token, original spelling).
    pub node: String,
    /// Reference impedance in ohms.
    pub z0: u64,
}

pub struct PortView {
    pub name: Seq<char>,
    pub node: Seq<char>,
    pub z0: u64,
}

impl View for PortDef {
    type V = PortView;

    open spec fn view(&self) -> PortView {
        PortView { name: self.name@, node: self.node@, z0: self.z0 }
    }
}

pub open spec fn port_views(v: Seq<PortDef>) -> Seq<PortView> {
    v.map_values(|p: PortDef| p@)
}

pub open spec fn placement_views(v: Seq<Placement>) -> Seq<PlacementView> {
    v.map_values(|p: Placement| p@)
}

/// What has been placed so far: the nodes met, the circuit under construction,
/// the placed devices, the bound values, diagnostics, ports, the modules of the
/// compiled libraries, and the number of set-ups done.
#[derive(Debug)]
pub struct Placed {
    pub nodes: NodeMap,
    pub circuit: Circuit,
    pub devices: Vec<Placement>,
    pub values: Table,
    pub report: CompatReport,
    pub ports: Vec<PortDef>,
    pub osdi: RefTable,
    pub setups: usize,
}

pub struct PlacedView {
    pub nodes: NodesView,
    pub circuit: CircuitView,
    pub devices: Seq<PlacementView>,
    pub values: Map<Seq<char>, u64>,
    pub report: ReportView,
    pub ports: Seq<PortView>,
    pub osdi: Map<Seq<char>, (usize, usize)>,
    pub setups: usize,
}

impl View for Placed {
    type V = PlacedView;

    open spec fn view(&self) -> PlacedView {
        PlacedView {
            nodes: self.nodes@,
            circuit: self.circuit@,
            devices: placement_views(self.devices@),
            values: entries(self.values),
            report: self.report@,
            ports: port_views(self.ports@),
            osdi: self.osdi@,
            setups: self.setups,
        }
    }
}

/// What comes of a placement.
pub type Placing = Result<PlacedView, StopView>;

impl PlacedView {
    pub open spec fn empty() -> PlacedView {
        PlacedView {
            nodes: NodesView::ground(),
            circuit: CircuitView::empty(),
            devices: seq![],
            values: Map::empty(),
            report: ReportView::empty(),
            ports: seq![],
            osdi: Map::empty(),
            setups: 0,
        }
    }

    /// The number of a node, and the state in which it is known.
    pub open spec fn node(self, name: Seq<char>) -> (usize, PlacedView) {
        let (n, nodes) = self.nodes.resolve(name);
        (n as usize, PlacedView { nodes, ..self })
    }

    pub open spec fn with_element(self, e: ElementView) -> PlacedView {
        PlacedView { circuit: self.circuit.with(e), ..self }
    }

    /// With a value for an element.
    pub open spec fn valued(self, name: Seq<char>, v: u64) -> PlacedView {
        PlacedView { values: self.values.insert(value_symbol(name), v), ..self }
    }

    /// With a value for an element, if there is one.
    pub open spec fn maybe_valued(self, name: Seq<char>, v: Option<u64>) -> PlacedView {
        match v {
            Some(x) => self.valued(name, x),
            None => self,
        }
    }

    pub open spec fn with_device(self, d: PlacementView) -> PlacedView {
        PlacedView { devices: self.devices.push(d), ..self }
    }

    pub open spec fn with_port(self, p: PortView) -> PlacedView {
        PlacedView { ports: self.ports.push(p), ..self }
    }
}

/// A result of placement is as stated.
pub open spec fn agrees(r: Result<(), Stop>, after: PlacedView, p: Placing) -> bool {
    match (r, p) {
        (Ok(()), Ok(v)) => after == v,
        (Err(e), Err(v)) => e@ == v,
        _ => false,
    }
}

impl Placed {
    pub open spec fn wf(&self) -> bool {
        self.nodes@.wf() && self.report@.wf() && self.osdi.wf()
    }

    pub fn new() -> (r: Placed)
        ensures
            r.wf(),
            r@ == PlacedView::empty(),
    {
        let devices: Vec<Placement> = Vec::new();
        let ports: Vec<PortDef> = Vec::new();
        assert(placement_views(devices@) =~= seq![]);
        assert(port_views(ports@) =~= seq![]);
        Placed {
            nodes: NodeMap::new(),
            circuit: Circuit::new(),
            devices,
            values: table_new(),
            report: CompatReport::new(),
            ports,
            osdi: RefTable::new(),
            setups: 0,
        }
    }

    pub(crate) fn node(&mut self, name: &str) -> (r: usize)
        requires
            old(self).wf(),
        ensures
            final(self).wf(),
            (r, final(self)@) == old(self)@.node(name@),
    {
        self.nodes.resolve(name)
    }

    pub(crate) fn set_value(&mut self, name: &str, v: u64)
        requires
            old(self).wf(),
        ensures
            final(self).wf(),
            final(self)@ == old(self)@.valued(name@, v),
    {
        table_insert(&mut self.values, value_symbol_name(name), v);
    }

    pub(crate) fn set_maybe(&mut self, name: &str, v: Option<u64>)
        requires
            old(self).wf(),
        ensures
            final(self).wf(),
            final(self)@ == old(self)@.maybe_valued(name@, v),
    {
        if let Some(x) = v {
            self.set_value(name, x);
        }
    }

    pub(crate) fn add_device(&mut self, d: Placement)
        requires
            old(self).wf(),
        ensures
            final(self).wf(),
            final(self)@ == old(self)@.with_device(d@),
    {
        let ghost before = placement_views(self.devices@);
        self.devices.push(d);
        assert(placement_views(self.devices@) =~= before.push(d@));
    }

    pub(crate) fn add_port(&mut self, p: PortDef)
        requires
            old(self).wf(),
        ensures
            final(self).wf(),
            final(self)@ == old(self)@.with_port(p@),
    {
        let ghost before = port_views(self.ports@);
        self.ports.push(p);
        assert(port_views(self.ports@) =~= before.push(p@));
    }
}

// ---------------------------------------------------------------------------
// Values on element lines.
// ---------------------------------------------------------------------------
/// The first token `key=value` from `i` on whose value can be resolved.
pub open spec fn keyed(
    h: Answers,
    env: Map<Seq<char>, u64>,
    toks: Seq<Seq<char>>,
    i: int,
    key: Seq<char>,
) -> Option<u64>
    decreases toks.len() - i,
{
    if i < 0 || i >= toks.len() {
        None
    } else {
        match halves(toks[i], '=') {
            Some((k, v)) => if lower(k) == lower(key) && resolved(h, env, v) is Some {
                resolved(h, env, v)
            } else {
                keyed(h, env, toks, i + 1, key)
            },
            None => keyed(h, env, toks, i + 1, key),
        }
    }
}

pub(crate) fn keyed_value<F: Fn(Ask) -> Reply>(
    toks: &Vec<String>,
    from: usize,
    key: &str,
    env: &Table,
    host: &Host<F>,
) -> (r: Option<u64>)
    ensures
        r == keyed(host.answers(), entries(*env), texts(toks@), from as int, key@),
{
    let ghost t = texts(toks@);
    let ghost h = host.answers();
    let ghost e = entries(*env);
    let want = to_lower(key);
    let mut i: usize = from;
    while i < toks.len()
        invariant
            from <= i,
            t == texts(toks@),
            h == host.answers(),
            e == entries(*env),
            want@ == lower(key@),
            keyed(h, e, t, i as int, key@) == keyed(h, e, t, from as int, key@),
        decreases toks@.len() - i,
    {
        assert(t[i as int] == toks@[i as int]@);
        if let Some((k, v)) = split_once(&toks[i], '=') {
            if to_lower(&k) == want {
                let x = resolve_value(&v, env, host);
                if x.is_some() {
                    return x;
                }
            }
        }
        i += 1;
    }
    None
}

pub open spec fn or_value(v: Option<u64>, d: u64) -> u64 {
    match v {
        Some(x) => x,
        None => d,
    }
}

pub(crate) fn value_or(v: Option<u64>, d: u64) -> (r: u64)
    ensures
        r == or_value(v, d),
{
    match v {
        Some(x) => x,
        None => d,
    }
}

/// The parallel multiplicity that the tokens state: `m=` or else `mult=`,
/// times `nf=` where fingers count.
pub open spec fn multiplicity(h: Answers, env: Map<Seq<char>, u64>, toks: Seq<Seq<char>>, with_nf: bool) -> u64 {
    let m = match keyed(h, env, toks, 0, "m"@) {
        Some(x) => x,
        None => or_value(keyed(h, env, toks, 0, "mult"@), ONE),
    };
    let nf = if with_nf {
        or_value(keyed(h, env, toks, 0, "nf"@), ONE)
    } else {
        ONE
    };
    apply2(h, Op2::Mul, m, nf)
}

/// Parallel multiplicity of a device instance from its tokens: `m=` / `mult=`
/// times, for MOSFETs, the finger count `nf`. Bare tokens are ignored.
pub fn instance_mfactor<F: Fn(Ask) -> Reply>(toks: &Vec<String>, env: &Table, with_nf: bool, host: &Host<F>) -> (r: u64)
    ensures
        r == multiplicity(host.answers(), entries(*env), texts(toks@), with_nf),
{
    let m: u64 = match keyed_value(toks, 0, "m", env, host) {
        Some(x) => x,
        None => value_or(keyed_value(toks, 0, "mult", env, host), ONE),
    };
    let nf: u64 = if with_nf {
        value_or(keyed_value(toks, 0, "nf", env, host), ONE)
    } else {
        ONE
    };
    host.apply2(Op2::Mul, m, nf)
}

// ---------------------------------------------------------------------------
// Parameter binding.
// ---------------------------------------------------------------------------
/// Instance modifiers that are not device-model parameters.
pub open spec fn is_modifier(k: Seq<char>) -> bool {
    lower(k) == "m"@ || lower(k) == "mult"@ || lower(k) == "nf"@
}

/// The parameter that a deck key binds: through the SPICE alias, then the
/// model's own names.
pub open spec fn bound_key(n: NamesView, k: Seq<char>) -> Seq<char> {
    match n.canonical(alias(k)) {
        Some(c) => c,
        None => alias(k),
    }
}

/// A key that the model recognises.
pub open spec fn known_key(n: NamesView, k: Seq<char>) -> bool {
    n.canonical(alias(k)) is Some || n.names_system(k, 0)
}

/// Bound values and the diagnostics of binding them.
pub struct Bound {
    pub values: Map<Seq<char>, u64>,
    pub report: ReportView,
}

/// The keys of the parallel multiplicity: a built-in property of an instance and
/// never a parameter of its module.
pub open spec fn is_multiplicity(k: Seq<char>) -> bool {
    lower(k) == "m"@ || lower(k) == "mult"@
}

/// After the pairs `pairs[i..]` are bound for an instance. Where modifiers may
/// occur they pass without a diagnostic, and a multiplicity binds nothing.
pub open spec fn bind(
    n: NamesView,
    name: Seq<char>,
    pairs: Seq<(Seq<char>, u64)>,
    modifiers: bool,
    i: int,
    s: Bound,
) -> Bound
    decreases pairs.len() - i,
{
    if i < 0 || i >= pairs.len() {
        s
    } else {
        let k = pairs[i].0;
        let report = if known_key(n, k) || (modifiers && is_modifier(k)) {
            s.report
        } else {
            s.report.with_unknown(name, k)
        };
        let values = if modifiers && is_multiplicity(k) {
            s.values
        } else {
            s.values.insert(name + "."@ + bound_key(n, k), pairs[i].1)
        };
        bind(n, name, pairs, modifiers, i + 1, Bound { values, report })
    }
}

/// After the card's parameters and then the inline ones are bound.
pub open spec fn bind_all_params(
    h: Answers,
    env: Map<Seq<char>, u64>,
    n: NamesView,
    name: Seq<char>,
    extras: Seq<Seq<char>>,
    card: Option<CardView>,
    s: Bound,
) -> Bound {
    let t = match card {
        Some(c) => bind(n, name, c.params, false, 0, s),
        None => s,
    };
    bind(n, name, bound_params(h, env, extras, 0), true, 0, t)
}

fn bind_pairs(
    name: &str,
    pairs: &Vec<(String, u64)>,
    modifiers: bool,
    names: &ParamNames,
    values: &mut Table,
    report: &mut CompatReport,
)
    requires
        old(report)@.wf(),
    ensures
        final(report)@.wf(),
        (Bound { values: entries(*final(values)), report: final(report)@ }) == bind(
            names@,
            name@,
            values_text(pairs@),
            modifiers,
            0,
            (Bound { values: entries(*old(values)), report: old(report)@ }),
        ),
{
    let ghost p = values_text(pairs@);
    let ghost goal = bind(names@, name@, p, modifiers, 0, Bound { values: entries(*values), report: report@ });
    for i in 0..pairs.len()
        invariant
            report@.wf(),
            p == values_text(pairs@),
            bind(
                names@,
                name@,
                p,
                modifiers,
                i as int,
                Bound { values: entries(*values), report: report@ },
            ) == goal,
    {
        assert(p[i as int] == (pairs@[i as int].0@, pairs@[i as int].1));
        let k = &pairs[i].0;
        let aliased = alias_param(k);
        let canonical = names.canonical_param(&aliased);
        let known: bool = canonical.is_some() || names.is_sysfn_alias(k);
        let l = to_lower(k);
        if !known && !(modifiers && (same(&l, "m") || same(&l, "mult") || same(&l, "nf"))) {
            report.unknown_param(name, k);
        }
        if !(modifiers && (same(&l, "m") || same(&l, "mult"))) {
            let key: String = match canonical {
                Some(c) => c,
                None => aliased,
            };
            table_insert(values, concat3(name, ".", &key), pairs[i].1);
        }
    }
}

pub open spec fn card_opt(c: Option<&ModelCard>) -> Option<CardView> {
    match c {
        Some(c) => Some(c@),
        None => None,
    }
}

/// Bind a device's parameter values: from its referenced `.model` card, then
/// any inline `key=value` tokens (which override the model). Keys land as
/// `"{name}.{key}"`; an inline `m=` or `mult=` is the multiplicity of the
/// instance and lands nowhere here.
pub fn bind_device_params<F: Fn(Ask) -> Reply>(
    name: &str,
    extras: &Vec<String>,
    card: Option<&ModelCard>,
    env: &Table,
    values: &mut Table,
    names: &ParamNames,
    report: &mut CompatReport,
    host: &Host<F>,
)
    requires
        old(report)@.wf(),
    ensures
        final(report)@.wf(),
        (Bound { values: entries(*final(values)), report: final(report)@ }) == bind_all_params(
            host.answers(),
            entries(*env),
            names@,
            name@,
            texts(extras@),
            card_opt(card),
            (Bound { values: entries(*old(values)), report: old(report)@ }),
        ),
{
    if let Some(c) = card {
        bind_pairs(name, &c.params, false, names, values, report);
    }
    let pairs = bound_params_of(extras, 0, env, host);
    bind_pairs(name, &pairs, true, names, values, report);
}

/// The values with the model's defaults (from parameter `i` on) where the deck
/// states none.
pub open spec fn defaulted(n: NamesView, name: Seq<char>, i: int, values: Map<Seq<char>, u64>) -> Map<
    Seq<char>,
    u64,
>
    decreases n.params.len() - i,
{
    if i < 0 || i >= n.params.len() {
        values
    } else {
        let full = name + "."@ + n.params[i].0;
        let next = match n.params[i].1 {
            Some(d) => if values.contains_key(full) {
                values
            } else {
                values.insert(full, d)
            },
            None => values,
        };
        defaulted(n, name, i + 1, next)
    }
}

/// Fill any parameter the deck left unspecified with the device model's default.
/// Explicit values already in `values` win.
pub fn apply_defaults(name: &str, names: &ParamNames, values: &mut Table)
    ensures
        entries(*final(values)) == defaulted(names@, name@, 0, entries(*old(values))),
{
    let ghost goal = defaulted(names@, name@, 0, entries(*values));
    for i in 0..names.params.len()
        invariant
            defaulted(names@, name@, i as int, entries(*values)) == goal,
    {
        assert(names@.params[i as int] == (names.params@[i as int].0@, names.params@[i as int].1));
        if let Some(d) = names.params[i].1 {
            let full = concat3(name, ".", &names.params[i].0);
            if table_get(values, &full).is_none() {
                table_insert(values, full, d);
            }
        }
    }
}

// ---------------------------------------------------------------------------
// Verilog-A devices.
// ---------------------------------------------------------------------------
/// The values with the polarity under `type`, where the module has it.
pub open spec fn with_polarity(n: NamesView, name: Seq<char>, t: Option<u64>, values: Map<Seq<char>, u64>) -> Map<
    Seq<char>,
    u64,
> {
    match t {
        Some(x) => if n.find("type"@, 0) is Some {
            values.insert(name + ".type"@, x)
        } else {
            values
        },
        None => values,
    }
}

/// The values with one parameter multiplied, if it is bound.
pub open spec fn scaled(
    h: Answers,
    n: NamesView,
    name: Seq<char>,
    key: Seq<char>,
    f: u64,
    values: Map<Seq<char>, u64>,
) -> Map<Seq<char>, u64> {
    match n.find(key, 0) {
        Some(i) => {
            let full = name + "."@ + n.params[i].0;
            if values.contains_key(full) {
                values.insert(full, apply2(h, Op2::Mul, values[full], f))
            } else {
                values
            }
        },
        None => values,
    }
}

/// The values with length and width multiplied by a scale other than one.
pub open spec fn rescaled(
    h: Answers,
    n: NamesView,
    name: Seq<char>,
    scale: Option<u64>,
    values: Map<Seq<char>, u64>,
) -> Map<Seq<char>, u64> {
    match scale {
        Some(f) => if compares(h, Rel::Ne, f, ONE) {
            scaled(h, n, name, "W"@, f, scaled(h, n, name, "L"@, f, values))
        } else {
            values
        },
        None => values,
    }
}

/// The parameters from `i` on that are bound for an instance, with their values.
pub open spec fn given(n: NamesView, name: Seq<char>, values: Map<Seq<char>, u64>, i: int) -> Seq<(Seq<char>, u64)>
    decreases n.params.len() - i,
{
    if i < 0 || i >= n.params.len() {
        seq![]
    } else {
        let full = name + "."@ + n.params[i].0;
        if values.contains_key(full) {
            seq![(n.params[i].0, values[full])] + given(n, name, values, i + 1)
        } else {
            given(n, name, values, i + 1)
        }
    }
}

/// A key that states the multiplicity of an instance.
pub open spec fn is_mfactor_key(n: NamesView, k: Seq<char>) -> bool {
    lower(k) == "m"@ || lower(k) == "mult"@ || n.names_mfactor(k, 0)
}

/// The first resolvable multiplicity from token `i` on.
pub open spec fn first_factor(h: Answers, env: Map<Seq<char>, u64>, n: NamesView, toks: Seq<Seq<char>>, i: int) -> Option<
    u64,
>
    decreases toks.len() - i,
{
    if i < 0 || i >= toks.len() {
        None
    } else {
        match halves(toks[i], '=') {
            Some((k, v)) => if is_mfactor_key(n, k) && resolved(h, env, v) is Some {
                resolved(h, env, v)
            } else {
                first_factor(h, env, n, toks, i + 1)
            },
            None => first_factor(h, env, n, toks, i + 1),
        }
    }
}

/// What is known of an instance of a Verilog-A module before it is placed.
pub struct VaJob {
    pub name: Seq<char>,
    pub modelname: Seq<char>,
    pub names: NamesView,
    pub fault: Option<String>,
    pub model: ModelRefView,
    pub terminals: Seq<usize>,
    /// The tokens after the nodes.
    pub toks: Seq<Seq<char>>,
    pub card: Option<CardView>,
    /// The value of the module's `type` parameter, where the card states it.
    pub polarity: Option<u64>,
    /// The factor from drawn to actual geometry, where it applies.
    pub scale: Option<u64>,
    /// The finger count multiplies the device.
    pub fingers: bool,
    pub line: int,
    pub col: int,
}

impl VaJob {
    /// The bound values and diagnostics once this instance is placed.
    pub open spec fn bound(self, h: Answers, env: Map<Seq<char>, u64>, s: PlacedView) -> Bound {
        let b = bind_all_params(
            h,
            env,
            self.names,
            self.name,
            seq![self.modelname] + self.toks,
            self.card,
            Bound { values: s.values, report: s.report },
        );
        let v = with_polarity(self.names, self.name, self.polarity, b.values);
        Bound { values: rescaled(h, self.names, self.name, self.scale, v), report: b.report }
    }

    pub open spec fn factor(self, h: Answers, env: Map<Seq<char>, u64>) -> u64 {
        let m = or_value(first_factor(h, env, self.names, self.toks, 0), ONE);
        if self.fingers {
            apply2(h, Op2::Mul, m, or_value(keyed(h, env, self.toks, 0, "nf"@), ONE))
        } else {
            m
        }
    }

    /// The state with the device placed; a module that cannot be used is refused.
    pub open spec fn placed(self, h: Answers, env: Map<Seq<char>, u64>, s: PlacedView) -> Placing {
        let b = self.bound(h, env, s);
        match self.fault {
            Some(e) => Err(
                failed_at(self.line, self.col, "veriloga model '"@ + self.modelname + "': "@ + e@),
            ),
            None => Ok(
                PlacedView { values: b.values, report: b.report, ..s }.with_device(
                    PlacementView {
                        name: self.name,
                        model: self.model,
                        terminals: self.terminals,
                        mfactor: self.factor(h, env),
                        params: given(self.names, self.name, b.values, 0),
                        temperature: None,
                    },
                ),
            ),
        }
    }
}

fn scale_param<F: Fn(Ask) -> Reply>(
    name: &str,
    key: &str,
    f: u64,
    names: &ParamNames,
    values: &mut Table,
    host: &Host<F>,
)
    ensures
        entries(*final(values)) == scaled(host.answers(), names@, name@, key@, f, entries(*old(values))),
{
    if let Some(i) = names.find(key) {
        assert(names@.params[i as int] == (names.params@[i as int].0@, names.params@[i as int].1));
        let full = concat3(name, ".", &names.params[i].0);
        if let Some(v) = table_get(values, &full) {
            let x: u64 = host.apply2(Op2::Mul, v, f);
            table_insert(values, full, x);
        }
    }
}

fn given_params(name: &str, names: &ParamNames, values: &Table) -> (r: Vec<(String, u64)>)
    ensures
        values_text(r@) == given(names@, name@, entries(*values), 0),
{
    let mut out: Vec<(String, u64)> = Vec::new();
    let ghost e = entries(*values);
    let ghost goal = given(names@, name@, e, 0);
    assert(values_text(out@) + goal =~= goal);
    for i in 0..names.params.len()
        invariant
            e == entries(*values),
            values_text(out@) + given(names@, name@, e, i as int) == goal,
    {
        assert(names@.params[i as int] == (names.params@[i as int].0@, names.params@[i as int].1));
        let full = concat3(name, ".", &names.params[i].0);
        if let Some(v) = table_get(values, &full) {
            let ghost before = values_text(out@);
            let k = names.params[i].0.clone();
            out.push((k, v));
            proof {
                let rest = given(names@, name@, e, i + 1);
                assert(values_text(out@) =~= before.push((k@, v)));
                assert(before.push((k@, v)) + rest =~= before + (seq![(k@, v)] + rest));
            }
        }
    }
    assert(values_text(out@) + seq![] =~= values_text(out@));
    out
}

fn find_factor<F: Fn(Ask) -> Reply>(toks: &Vec<String>, names: &ParamNames, env: &Table, host: &Host<F>) -> (r: Option<
    u64,
>)
    ensures
        r == first_factor(host.answers(), entries(*env), names@, texts(toks@), 0),
{
    let ghost t = texts(toks@);
    let ghost h = host.answers();
    let ghost e = entries(*env);
    for i in 0..toks.len()
        invariant
            t == texts(toks@),
            h == host.answers(),
            e == entries(*env),
            first_factor(h, e, names@, t, i as int) == first_factor(h, e, names@, t, 0),
    {
        assert(t[i as int] == toks@[i as int]@);
        if let Some((k, v)) = split_once(&toks[i], '=') {
            let l = to_lower(&k);
            if same(&l, "m") || same(&l, "mult") || names.is_mfactor_alias(&k) {
                let x = resolve_value(&v, env, host);
                if x.is_some() {
                    return x;
                }
            }
        }
    }
    None
}

/// How an instance of a Verilog-A module is placed, apart from the module.
pub struct VaSite<'t> {
    pub name: &'t str,
    pub modelname: &'t str,
    pub toks: &'t Vec<String>,
    /// Where the tokens after the nodes begin.
    pub from: usize,
    pub card: Option<&'t ModelCard>,
    pub polarity: Option<u64>,
    pub scale: Option<u64>,
    pub fingers: bool,
    pub line: usize,
    pub col: usize,
}

impl<'t> VaSite<'t> {
    pub open spec fn job(&self, m: ModuleInfo, model: ModelRefView, terminals: Seq<usize>) -> VaJob {
        VaJob {
            name: self.name@,
            modelname: self.modelname@,
            names: m.names@,
            fault: m.fault,
            model,
            terminals,
            toks: texts(self.toks@).skip(self.from as int),
            card: card_opt(self.card),
            polarity: self.polarity,
            scale: self.scale,
            fingers: self.fingers,
            line: self.line as int,
            col: self.col as int,
        }
    }
}

/// Build and register a Verilog-A device instance: bind the `.model` card and
/// then the inline parameters, set the polarity, scale the geometry, and place
/// the device with the parameters that are stated for it.
pub fn place_va_device<F: Fn(Ask) -> Reply>(
    st: &mut Placed,
    site: &VaSite,
    module: &ModuleInfo,
    model: ModelRef,
    terminals: Vec<usize>,
    env: &Table,
    host: &Host<F>,
) -> (r: Result<(), Stop>)
    requires
        old(st).wf(),
        site.from <= site.toks@.len(),
    ensures
        final(st).wf(),
        agrees(
            r,
            final(st)@,
            site.job(*module, model@, terminals@).placed(host.answers(), entries(*env), old(st)@),
        ),
        final(st)@.osdi == old(st)@.osdi,
{
    let ghost job = site.job(*module, model@, terminals@);
    let ghost before = st@;
    let ghost h = host.answers();
    let ghost e = entries(*env);
    let toks = copy_range(site.toks, site.from, site.toks.len());
    assert(texts(toks@) =~= job.toks);
    let mut extras: Vec<String> = Vec::new();
    extras.push(site.modelname.to_owned());
    assert(texts(extras@) =~= seq![site.modelname@]);
    for i in 0..toks.len()
        invariant
            texts(extras@) =~= seq![site.modelname@] + texts(toks@).take(i as int),
    {
        let ghost was = texts(extras@);
        let c = toks[i].clone();
        extras.push(c);
        assert(texts(extras@) =~= was.push(texts(toks@)[i as int]));
    }
    assert(texts(toks@).take(toks@.len() as int) =~= texts(toks@));
    assert(texts(extras@) =~= seq![job.modelname] + job.toks);
    bind_device_params(
        site.name,
        &extras,
        site.card,
        env,
        &mut st.values,
        &module.names,
        &mut st.report,
        host,
    );
    if let Some(t) = site.polarity {
        if module.names.find("type").is_some() {
            table_insert(&mut st.values, crate::text::concat2(site.name, ".type"), t);
        }
    }
    if let Some(f) = site.scale {
        if host.compares(Rel::Ne, f, ONE) {
            scale_param(site.name, "L", f, &module.names, &mut st.values, host);
            scale_param(site.name, "W", f, &module.names, &mut st.values, host);
        }
    }
    assert((Bound { values: st@.values, report: st@.report }) == job.bound(h, e, before));
    let params = given_params(site.name, &module.names, &st.values);
    let mut m: u64 = value_or(find_factor(&toks, &module.names, env, host), ONE);
    if site.fingers {
        m = host.apply2(Op2::Mul, m, value_or(keyed_value(&toks, 0, "nf", env, host), ONE));
    }
    if let Some(e) = &module.fault {
        let mut msg = concat3("veriloga model '", site.modelname, "': ");
        msg.append(e);
        return Err(fail_at(site.line, site.col, &msg));
    }
    let ghost mid = st@;
    assert(mid == PlacedView { values: mid.values, report: mid.report, ..before });
    let name = site.name.to_owned();
    let d = Placement { name, model, terminals, mfactor: m, params, temperature: None };
    st.add_device(d);
    Ok(())
}

// ---------------------------------------------------------------------------
// Compiled models.
// ---------------------------------------------------------------------------
/// A compiled model has a parameter, whatever its case.
pub open spec fn has_param(m: OsdiInfo, key: Seq<char>) -> bool {
    texts(m.params@).contains(lower(key))
}

/// The parameters bound for a compiled model, and the diagnostics.
pub struct OsdiBound {
    pub params: Seq<(Seq<char>, u64)>,
    pub report: ReportView,
}

/// The name under which a compiled model has an inline key.
pub open spec fn osdi_key(k: Seq<char>) -> Seq<char> {
    if lower(k) == "m"@ || lower(k) == "mult"@ {
        "$mfactor"@
    } else {
        k
    }
}

/// After the card's parameters from `i` on.
pub open spec fn osdi_card(m: OsdiInfo, name: Seq<char>, pairs: Seq<(Seq<char>, u64)>, i: int, s: OsdiBound) -> OsdiBound
    decreases pairs.len() - i,
{
    if i < 0 || i >= pairs.len() {
        s
    } else if has_param(m, pairs[i].0) {
        osdi_card(m, name, pairs, i + 1, OsdiBound { params: s.params.push(pairs[i]), ..s })
    } else {
        osdi_card(m, name, pairs, i + 1, OsdiBound { report: s.report.with_unknown(name, pairs[i].0), ..s })
    }
}

/// After the inline parameters from `i` on.
pub open spec fn osdi_inline(
    m: OsdiInfo,
    name: Seq<char>,
    pairs: Seq<(Seq<char>, u64)>,
    i: int,
    s: OsdiBound,
) -> OsdiBound
    decreases pairs.len() - i,
{
    if i < 0 || i >= pairs.len() {
        s
    } else {
        let key = osdi_key(pairs[i].0);
        let next = if has_param(m, key) {
            OsdiBound { params: s.params.push((key, pairs[i].1)), ..s }
        } else if key.len() > 0 && key[0] == '$' {
            s
        } else {
            OsdiBound { report: s.report.with_unknown(name, pairs[i].0), ..s }
        };
        osdi_inline(m, name, pairs, i + 1, next)
    }
}

/// What is known of an instance of a compiled model before it is placed.
pub struct OsdiJob {
    pub name: Seq<char>,
    pub module: OsdiInfo,
    pub place: (usize, usize),
    pub terminals: Seq<usize>,
    pub toks: Seq<Seq<char>>,
    pub card: Option<CardView>,
    pub temp_c: u64,
    pub line: int,
    pub col: int,
}

impl OsdiJob {
    pub open spec fn bound(self, h: Answers, env: Map<Seq<char>, u64>, report: ReportView) -> OsdiBound {
        let s = OsdiBound { params: seq![], report };
        let t = match self.card {
            Some(c) => osdi_card(self.module, self.name, c.params, 0, s),
            None => s,
        };
        osdi_inline(self.module, self.name, bound_params(h, env, self.toks, 0), 0, t)
    }

    pub open spec fn placement(self, h: Answers, env: Map<Seq<char>, u64>, report: ReportView) -> PlacementView {
        PlacementView {
            name: self.name,
            model: ModelRefView::Osdi(self.place.0, self.place.1),
            terminals: self.terminals,
            mfactor: ONE,
            params: self.bound(h, env, report).params,
            temperature: Some(apply2(h, Op2::Add, self.temp_c, ZERO_CELSIUS_K)),
        }
    }

    /// The state with the device placed, once its set-up is known to be done.
    pub open spec fn placed(
        self,
        h: Answers,
        env: Map<Seq<char>, u64>,
        setups: Seq<Option<String>>,
        s: PlacedView,
    ) -> Placing {
        let p = self.placement(h, env, s.report);
        if s.setups >= setups.len() {
            Err(StopView::Need(RequestView::Setup(p)))
        } else {
            match setups[s.setups as int] {
                Some(e) => Err(failed_at(self.line, self.col, e@)),
                None => Ok(
                    PlacedView {
                        report: self.bound(h, env, s.report).report,
                        setups: (s.setups + 1) as usize,
                        ..s
                    }.with_device(p),
                ),
            }
        }
    }
}

fn compiled_has(m: &OsdiInfo, key: &str) -> (r: bool)
    ensures
        r == has_param(*m, key@),
{
    contains_text(&m.params, &to_lower(key))
}

fn osdi_bind_card(
    m: &OsdiInfo,
    name: &str,
    pairs: &Vec<(String, u64)>,
    params: &mut Vec<(String, u64)>,
    report: &mut CompatReport,
)
    requires
        old(report)@.wf(),
    ensures
        final(report)@.wf(),
        (OsdiBound { params: values_text(final(params)@), report: final(report)@ }) == osdi_card(
            *m,
            name@,
            values_text(pairs@),
            0,
            (OsdiBound { params: values_text(old(params)@), report: old(report)@ }),
        ),
{
    let ghost p = values_text(pairs@);
    let ghost goal = osdi_card(*m, name@, p, 0, OsdiBound { params: values_text(params@), report: report@ });
    for i in 0..pairs.len()
        invariant
            report@.wf(),
            p == values_text(pairs@),
            osdi_card(*m, name@, p, i as int, OsdiBound { params: values_text(params@), report: report@ }) == goal,
    {
        assert(p[i as int] == (pairs@[i as int].0@, pairs@[i as int].1));
        if compiled_has(m, &pairs[i].0) {
            let ghost was = values_text(params@);
            let k = pairs[i].0.clone();
            params.push((k, pairs[i].1));
            assert(values_text(params@) =~= was.push(p[i as int]));
        } else {
            report.unknown_param(name, &pairs[i].0);
        }
    }
}

fn osdi_bind_inline(
    m: &OsdiInfo,
    name: &str,
    pairs: &Vec<(String, u64)>,
    params: &mut Vec<(String, u64)>,
    report: &mut CompatReport,
)
    requires
        old(report)@.wf(),
    ensures
        final(report)@.wf(),
        (OsdiBound { params: values_text(final(params)@), report: final(report)@ }) == osdi_inline(
            *m,
            name@,
            values_text(pairs@),
            0,
            (OsdiBound { params: values_text(old(params)@), report: old(report)@ }),
        ),
{
    let ghost p = values_text(pairs@);
    let ghost goal = osdi_inline(*m, name@, p, 0, OsdiBound { params: values_text(params@), report: report@ });
    for i in 0..pairs.len()
        invariant
            report@.wf(),
            p == values_text(pairs@),
            osdi_inline(*m, name@, p, i as int, OsdiBound { params: values_text(params@), report: report@ }) == goal,
    {
        assert(p[i as int] == (pairs@[i as int].0@, pairs@[i as int].1));
        let l = to_lower(&pairs[i].0);
        let key: String = if same(&l, "m") || same(&l, "mult") {
            "$mfactor".to_owned()
        } else {
            pairs[i].0.clone()
        };
        if compiled_has(m, &key) {
            let ghost was = values_text(params@);
            let ghost kv = key@;
            params.push((key, pairs[i].1));
            assert(values_text(params@) =~= was.push((kv, p[i as int].1)));
        } else {
            let c = chars_of(&key);
            if !(c.len() > 0 && c[0] == '$') {
                report.unknown_param(name, &pairs[i].0);
            }
        }
    }
}

/// How an instance of a compiled model is placed, apart from the model.
pub struct OsdiSite<'t> {
    pub name: &'t str,
    pub place: (usize, usize),
    pub toks: &'t Vec<String>,
    pub from: usize,
    pub card: Option<&'t ModelCard>,
    pub temp_c: u64,
    pub line: usize,
    pub col: usize,
}

impl<'t> OsdiSite<'t> {
    pub open spec fn job(&self, m: OsdiInfo, terminals: Seq<usize>) -> OsdiJob {
        OsdiJob {
            name: self.name@,
            module: m,
            place: self.place,
            terminals,
            toks: texts(self.toks@).skip(self.from as int),
            card: card_opt(self.card),
            temp_c: self.temp_c,
            line: self.line as int,
            col: self.col as int,
        }
    }
}

/// Build and register a compiled-model instance. Parameters come from the
/// `.model` card (if any) and inline `key=value` tokens, bound numerically;
/// `m=`/`mult=` maps to the `$mfactor` builtin when the model exposes it. The
/// set-up is asked for at once, so that its errors surface here.
pub fn place_osdi_device<F: Fn(Ask) -> Reply>(
    st: &mut Placed,
    site: &OsdiSite,
    module: &OsdiInfo,
    terminals: Vec<usize>,
    env: &Table,
    setups: &Vec<Option<String>>,
    host: &Host<F>,
) -> (r: Result<(), Stop>)
    requires
        old(st).wf(),
        site.from <= site.toks@.len(),
    ensures
        final(st).wf(),
        agrees(
            r,
            final(st)@,
            site.job(*module, terminals@).placed(host.answers(), entries(*env), setups@, old(st)@),
        ),
        final(st)@.osdi == old(st)@.osdi,
{
    let ghost job = site.job(*module, terminals@);
    let ghost before = st@;
    let toks = copy_range(site.toks, site.from, site.toks.len());
    assert(texts(toks@) =~= job.toks);
    let mut params: Vec<(String, u64)> = Vec::new();
    assert(values_text(params@) =~= seq![]);
    if let Some(c) = site.card {
        osdi_bind_card(module, site.name, &c.params, &mut params, &mut st.report);
    }
    let pairs = bound_params_of(&toks, 0, env, host);
    osdi_bind_inline(module, site.name, &pairs, &mut params, &mut st.report);
    let d = Placement {
        name: site.name.to_owned(),
        model: ModelRef::Osdi(site.place.0, site.place.1),
        terminals,
        mfactor: ONE,
        params,
        temperature: Some(host.apply2(Op2::Add, site.temp_c, ZERO_CELSIUS_K)),
    };
    if st.setups >= setups.len() {
        return Err(Stop::Need(Request::Setup(d)));
    }
    if let Some(e) = &setups[st.setups] {
        return Err(fail_at(site.line, site.col, e));
    }
    st.setups = st.setups + 1;
    st.add_device(d);
    Ok(())
}

} // verus!

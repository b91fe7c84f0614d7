//! From the text of a deck to a circuit.
//!
//! Lines are `Name node+ node- [more nodes] [value]`. The leading letter of the
//! name selects the element type. Node names are mapped to integers with ground
//! (`0`, `gnd`, `ground`) fixed at index 0. The element name is its symbolic
//! parameter; an optional trailing value (with the usual engineering suffixes)
//! is captured for later numeric evaluation.
//!
//! ```text
//! * RC lowpass
//! V1 in 0 1
//! R1 in out 1k
//! C1 out 0 1u
//! .end
//! ```
use crate::circuit::{Circuit, CircuitView};
use crate::netlist::compat::{CompatReport, ReportView};
use crate::netlist::devices::{
    agrees, placement_views, port_views, Placed, PlacedView, Placing, PortDef, PortView,
};
use crate::netlist::elements::{
    leads_osdi, make_switch_names, switch_names, Elem, ElemView, Placer, Tables,
};
use crate::netlist::model_cards::{last_index, library, parse_model_cards};
use crate::netlist::nodes::NodesView;
use crate::netlist::options::{
    aliases_of, collect_model_aliases, collect_options, collect_unknown_options, handled,
    is_handled_directive, options_of, params_of, resolve_params, unknown_options, NetlistOptions,
    ZERO_CELSIUS_K,
};
use crate::netlist::preprocess::{
    line_views, logical_lines, logical_lines_have_tokens, none_empty, preprocess, Line, LineView,
};
use crate::netlist::resolve::{resolve_includes, spliced};
use crate::netlist::subckt::{
    all_flat, flat_line, flatten, flattened, flattened_holds_no_definitions, lines_ok,
};
use crate::netlist::va::{extract_veriloga, extracted, leads, module_at, places_ok};
use crate::netlist::world::{
    fail_at, failed_at, LoadedOsdi, ModelRef, ModelRefView, NamesView, OsdiInfo, Placement, PlacementView,
    RefTable, Request, RequestView, Stop, StopView, World,
};
use crate::numerics::{apply2, shown, Answers, Ask, Host, Op2, Reply, Style, ZERO};
use crate::table::{entries, table_get, table_insert, Table};
use crate::text::{
    chars_of, concat3, halves, lower, same, slice_text, split_once, texts, to_lower, to_upper_char,
    upper_char,
};
use vstd::prelude::*;

verus! {

// ---------------------------------------------------------------------------
// Compiled libraries.
// ---------------------------------------------------------------------------
/// A text without its leading double quotes.
pub open spec fn unquoted_start(s: Seq<char>) -> Seq<char>
    decreases s.len(),
{
    if s.len() > 0 && s[0] == '"' {
        unquoted_start(s.skip(1))
    } else {
        s
    }
}

/// A text without its trailing double quotes.
pub open spec fn unquoted_end(s: Seq<char>) -> Seq<char>
    decreases s.len(),
{
    if s.len() > 0 && s.last() == '"' {
        unquoted_end(s.drop_last())
    } else {
        s
    }
}

pub open spec fn unquoted(s: Seq<char>) -> Seq<char> {
    unquoted_end(unquoted_start(s))
}

fn unquote(s: &str) -> (r: String)
    ensures
        r@ == unquoted(s@),
{
    let v = chars_of(s);
    let mut lo: usize = 0;
    assert(v@.skip(0) =~= v@);
    while lo < v.len() && v[lo] == '"'
        invariant
            v@ == s@,
            lo <= v@.len(),
            unquoted_start(v@.skip(lo as int)) == unquoted_start(s@),
        decreases v@.len() - lo,
    {
        assert(v@.skip(lo as int).skip(1) =~= v@.skip(lo + 1));
        lo += 1;
    }
    let mut hi: usize = v.len();
    assert(v@.subrange(lo as int, hi as int) =~= v@.skip(lo as int));
    while lo < hi && v[hi - 1] == '"'
        invariant
            v@ == s@,
            lo <= hi <= v@.len(),
            unquoted_end(v@.subrange(lo as int, hi as int)) == unquoted(s@),
        decreases hi,
    {
        assert(v@.subrange(lo as int, hi as int).drop_last() =~= v@.subrange(lo as int, hi - 1));
        hi -= 1;
    }
    slice_text(&v, lo, hi)
}

/// The first library from `i` on with the given path.
pub open spec fn osdi_index(osdi: Seq<LoadedOsdi>, path: Seq<char>, i: int) -> Option<int>
    decreases osdi.len() - i,
{
    if i < 0 || i >= osdi.len() {
        None
    } else if osdi[i].path@ == path {
        Some(i)
    } else {
        osdi_index(osdi, path, i + 1)
    }
}

fn find_library(osdi: &Vec<LoadedOsdi>, path: &str) -> (r: Option<usize>)
    ensures
        match r {
            Some(k) => k < osdi@.len() && osdi_index(osdi@, path@, 0) == Some(k as int),
            None => osdi_index(osdi@, path@, 0) is None,
        },
{
    for i in 0..osdi.len()
        invariant
            osdi_index(osdi@, path@, i as int) == osdi_index(osdi@, path@, 0),
    {
        if same(&osdi[i].path, path) {
            return Some(i);
        }
    }
    None
}

/// The registry with the modules `ms[j..]` of library `k`, by lower-cased name.
pub open spec fn with_compiled(
    places: Map<Seq<char>, (usize, usize)>,
    ms: Seq<OsdiInfo>,
    k: usize,
    j: int,
) -> Map<Seq<char>, (usize, usize)>
    decreases ms.len() - j,
{
    if j < 0 || j >= ms.len() {
        places
    } else {
        with_compiled(places.insert(lower(ms[j].name@), (k, j as usize)), ms, k, j + 1)
    }
}

/// Some token `key=...` from `i` on.
pub open spec fn has_key(toks: Seq<Seq<char>>, i: int, key: Seq<char>) -> bool
    decreases toks.len() - i,
{
    if i < 0 || i >= toks.len() {
        false
    } else {
        (halves(toks[i], '=') is Some && lower((halves(toks[i], '=')->0).0) == key) || has_key(toks, i + 1, key)
    }
}

fn names_key(toks: &Vec<String>, from: usize, key: &str) -> (r: bool)
    ensures
        r == has_key(texts(toks@), from as int, key@),
{
    let ghost t = texts(toks@);
    let mut i: usize = from;
    while i < toks.len()
        invariant
            from <= i,
            t == texts(toks@),
            has_key(t, i as int, key@) == has_key(t, from as int, key@),
        decreases toks@.len() - i,
    {
        assert(t[i as int] == toks@[i as int]@);
        if let Some((k, _)) = split_once(&toks[i], '=') {
            if same(&to_lower(&k), key) {
                return true;
            }
        }
        i += 1;
    }
    false
}

// ---------------------------------------------------------------------------
// Lines.
// ---------------------------------------------------------------------------
/// The name past its last dot.
pub open spec fn past_path(name: Seq<char>) -> Seq<char> {
    name.skip(last_index(name, '.', name.len() as int) + 1)
}

fn strip_path(name: &str) -> (r: String)
    ensures
        r@ == past_path(name@),
{
    let v = chars_of(name);
    let mut i: usize = v.len();
    while i > 0 && v[i - 1] != '.'
        invariant
            v@ == name@,
            i <= v@.len(),
            last_index(name@, '.', i as int) == last_index(name@, '.', v@.len() as int),
        decreases i,
    {
        i -= 1;
    }
    let r = slice_text(&v, i, v.len());
    assert(r@ =~= name@.skip(i as int));
    r
}

impl Tables {
    /// A directive line.
    pub open spec fn directive(self, s: PlacedView, l: LineView) -> Placing {
        let head = lower(l.tokens[0]);
        if head == ".osdi"@ {
            let raw = if l.tokens.len() > 1 {
                unquoted(l.tokens[1])
            } else {
                seq![]
            };
            if raw.len() == 0 {
                Err(failed_at(l.no, l.col, ".osdi needs a library path"@))
            } else {
                match osdi_index(self.world.osdi@, raw, 0) {
                    None => Err(StopView::Need(RequestView::Osdi(raw))),
                    Some(k) => match self.world.osdi@[k].modules {
                        Err(e) => Err(failed_at(l.no, l.col, e@)),
                        Ok(ms) => Ok(PlacedView { osdi: with_compiled(s.osdi, ms@, k as usize, 0), ..s }),
                    },
                }
            }
        } else if handled(head) {
            Ok(s)
        } else {
            Ok(PlacedView { report: s.report.with_ignored(head), ..s })
        }
    }

    /// An element by its letter.
    pub open spec fn element(self, s: PlacedView, el: ElemView) -> Placing {
        let k = el.kind;
        if k == 'R' || k == 'C' || k == 'L' || k == 'V' || k == 'I' {
            self.passive(s, el)
        } else if k == 'E' || k == 'G' {
            self.controlled_voltage(s, el)
        } else if k == 'T' && !has_key(el.tok, 5, "n"@) {
            self.ideal_line(s, el)
        } else if k == 'S' {
            self.vswitch(s, el)
        } else if k == 'W' {
            self.cswitch(s, el)
        } else if k == 'P' {
            self.port(s, el)
        } else if k == 'K' {
            self.coupling(s, el)
        } else if k == 'F' || k == 'H' {
            self.controlled_current(s, el)
        } else if k == 'D' {
            self.diode(s, el)
        } else if k == 'M' {
            self.mosfet(s, el)
        } else if k == 'Q' {
            self.bjt(s, el)
        } else if k == 'J' {
            self.junction_fet(s, el, self.world.stock.jfet, ModelRefView::Jfet, "pjf"@)
        } else if k == 'B' {
            self.behavioral(s, el)
        } else if k == 'Z' {
            self.junction_fet(s, el, self.world.stock.mesfet, ModelRefView::Mesfet, "pmf"@)
        } else if k == 'N' {
            self.module_instance(s, el)
        } else if k == 'T' || k == 'O' || k == 'U' {
            self.lossy_line(s, el)
        } else {
            Err(el.refused("unsupported element type '"@ + seq![k] + "'"@))
        }
    }

    pub open spec fn line(self, s: PlacedView, l: LineView) -> Placing {
        let name = l.tokens[0];
        let base = past_path(name);
        if name.len() > 0 && name[0] == '.' {
            self.directive(s, l)
        } else if base.len() == 0 {
            Err(failed_at(l.no, l.col, "empty element name"@))
        } else {
            self.element(
                s,
                ElemView { name, base, kind: upper_char(base[0]), tok: l.tokens, line: l.no, col: l.col },
            )
        }
    }

    /// The lines from `i` on, up to an `.end`.
    pub open spec fn run(self, lines: Seq<LineView>, i: int, s: PlacedView) -> Placing
        decreases lines.len() - i,
    {
        if i < 0 || i >= lines.len() || lower(lines[i].tokens[0]) == ".end"@ {
            Ok(s)
        } else {
            match self.line(s, lines[i]) {
                Err(e) => Err(e),
                Ok(t) => self.run(lines, i + 1, t),
            }
        }
    }
}

impl<'a, F: Fn(Ask) -> Reply> Placer<'a, F> {
    fn place_directive(&self, st: &mut Placed, l: &Line) -> (r: Result<(), Stop>)
        requires
            self.ready(*old(st)),
            l.tokens@.len() > 0,
        ensures
            self.done(r, *final(st), self.tables().directive(old(st)@, l@)),
    {
        let ghost t = l@.tokens;
        assert(t[0] == l.tokens@[0]@);
        let head = to_lower(&l.tokens[0]);
        if same(&head, ".osdi") {
            let raw: String = if l.tokens.len() > 1 {
                assert(t[1] == l.tokens@[1]@);
                unquote(&l.tokens[1])
            } else {
                String::new()
            };
            if raw.as_str().unicode_len() == 0 {
                return Err(fail_at(l.no, l.col, ".osdi needs a library path"));
            }
            let k: usize = match find_library(&self.world.osdi, &raw) {
                None => {
                    return Err(Stop::Need(Request::Osdi(raw)));
                },
                Some(k) => k,
            };
            match &self.world.osdi[k].modules {
                Err(e) => {
                    return Err(fail_at(l.no, l.col, e));
                },
                Ok(ms) => {
                    let ghost goal = PlacedView { osdi: with_compiled(st@.osdi, ms@, k, 0), ..st@ };
                    let ghost start = st@;
                    for j in 0..ms.len()
                        invariant
                            self.ready(*st),
                            k < self.world.osdi@.len(),
                            self.world.osdi@[k as int].modules matches Ok(x) && x == *ms,
                            st@ == (PlacedView { osdi: st@.osdi, ..start }),
                            goal == (PlacedView { osdi: with_compiled(start.osdi, ms@, k, 0), ..start }),
                            with_compiled(st@.osdi, ms@, k, j as int) == goal.osdi,
                    {
                        let ghost before = st@.osdi;
                        st.osdi.insert(to_lower(&ms[j].name), (k, j));
                        proof {
                            assert(leads_osdi(self.world.osdi@, (k, j)));
                            assert forall|n: Seq<char>| #[trigger] st@.osdi.contains_key(n) implies leads_osdi(
                                self.world.osdi@,
                                st@.osdi[n],
                            ) by {
                                if n != lower(ms@[j as int].name@) {
                                    assert(before.contains_key(n));
                                }
                            }
                        }
                    }
                    return Ok(());
                },
            }
        }
        if !is_handled_directive(&l.tokens[0]) {
            st.report.ignore(head);
        }
        Ok(())
    }

    fn place_element(&self, st: &mut Placed, el: &Elem) -> (r: Result<(), Stop>)
        requires
            self.wf(),
            self.ready(*old(st)),
            el.tok@.len() > 0,
        ensures
            self.done(r, *final(st), self.tables().element(old(st)@, el@)),
    {
        match el.kind {
            'R' | 'C' | 'L' | 'V' | 'I' => self.place_passive(st, el),
            'E' | 'G' => self.place_controlled_voltage(st, el),
            'T' => if names_key(el.tok, 5, "n") {
                self.place_lossy_line(st, el)
            } else {
                self.place_ideal_line(st, el)
            },
            'S' => self.place_vswitch(st, el),
            'W' => self.place_cswitch(st, el),
            'P' => self.place_port(st, el),
            'K' => self.place_coupling(st, el),
            'F' | 'H' => self.place_controlled_current(st, el),
            'D' => self.place_diode(st, el),
            'M' => self.place_mosfet(st, el),
            'Q' => self.place_bjt(st, el),
            'J' => self.place_jfet(st, el),
            'B' => self.place_behavioral(st, el),
            'Z' => self.place_zener(st, el),
            'N' => self.place_osdi(st, el),
            'O' | 'U' => self.place_lossy_line(st, el),
            other => {
                let mut msg = "unsupported element type '".to_owned();
                msg.push(other);
                msg.append("'");
                assert(msg@ =~= "unsupported element type '"@ + seq![other] + "'"@);
                Err(el.refuse(&msg))
            },
        }
    }

    fn place_line(&self, st: &mut Placed, l: &Line) -> (r: Result<(), Stop>)
        requires
            self.wf(),
            self.ready(*old(st)),
            l.tokens@.len() > 0,
        ensures
            self.done(r, *final(st), self.tables().line(old(st)@, l@)),
    {
        let ghost t = l@.tokens;
        assert(t[0] == l.tokens@[0]@);
        let name: &String = &l.tokens[0];
        let c = chars_of(name);
        if c.len() > 0 && c[0] == '.' {
            return self.place_directive(st, l);
        }
        let base = strip_path(name);
        let b = chars_of(&base);
        if b.len() == 0 {
            return Err(fail_at(l.no, l.col, "empty element name"));
        }
        let el = Elem {
            name,
            base: &base,
            kind: to_upper_char(b[0]),
            tok: &l.tokens,
            line_no: l.no,
            line_col: l.col,
        };
        self.place_element(st, &el)
    }

    fn place_lines(&self, st: &mut Placed, lines: &Vec<Line>) -> (r: Result<(), Stop>)
        requires
            self.wf(),
            self.ready(*old(st)),
            all_flat(line_views(lines@)),
        ensures
            agrees(r, final(st)@, self.tables().run(line_views(lines@), 0, old(st)@)),
            r is Ok ==> final(st).wf(),
    {
        let ghost v = line_views(lines@);
        let ghost goal = self.tables().run(v, 0, st@);
        for i in 0..lines.len()
            invariant
                self.wf(),
                self.ready(*st),
                v == line_views(lines@),
                all_flat(v),
                goal == self.tables().run(v, 0, old(st)@),
                self.tables().run(v, i as int, st@) == goal,
        {
            assert(v[i as int] == lines@[i as int]@);
            assert(flat_line(v[i as int]));
            assert(v[i as int].tokens[0] == lines@[i as int].tokens@[0]@);
            if same(&to_lower(&lines[i].tokens[0]), ".end") {
                return Ok(());
            }
            match self.place_line(st, &lines[i]) {
                Err(e) => {
                    return Err(e);
                },
                Ok(()) => {},
            }
        }
        Ok(())
    }
}

// ---------------------------------------------------------------------------
// Decks.
// ---------------------------------------------------------------------------
/// Result of parsing a netlist.
#[derive(Debug)]
pub struct ParsedCircuit {
    /// The topological circuit (linear elements).
    pub circuit: Circuit,
    /// Nonlinear device placements (diodes, transistors).
    pub devices: Vec<Placement>,
    /// Node name to integer index (ground is 0).
    pub node_index: Table,
    /// Integer index to node name (index 0 is ground, `"0"`).
    pub node_names: Vec<String>,
    /// Element name to numeric value, when a value was given.
    pub values: Table,
    /// Power ports (`P` elements) in deck order.
    pub ports: Vec<PortDef>,
    /// Diagnostics: directives ignored and parameters dropped.
    pub report: CompatReport,
}

pub struct ParsedView {
    pub circuit: CircuitView,
    pub devices: Seq<PlacementView>,
    pub nodes: NodesView,
    pub values: Map<Seq<char>, u64>,
    pub ports: Seq<PortView>,
    pub report: ReportView,
}

impl View for ParsedCircuit {
    type V = ParsedView;

    open spec fn view(&self) -> ParsedView {
        ParsedView {
            circuit: self.circuit@,
            devices: placement_views(self.devices@),
            nodes: NodesView { index: entries(self.node_index), names: texts(self.node_names@) },
            values: entries(self.values),
            ports: port_views(self.ports@),
            report: self.report@,
        }
    }
}

/// The name of the global temperature.
pub open spec fn temp_symbol() -> Seq<char> {
    "$temp"@
}

/// What is handed out once every line is placed: the temperature is bound, and
/// a recorded `gmin` and the options that are not recognised are noted.
pub open spec fn finished(
    h: Answers,
    o: NetlistOptions,
    unknown: Seq<Seq<char>>,
    s: PlacedView,
) -> ParsedView {
    ParsedView {
        circuit: s.circuit,
        devices: s.devices,
        nodes: s.nodes,
        values: s.values.insert(
            temp_symbol(),
            apply2(h, Op2::Add, o.spec_temp_c(), ZERO_CELSIUS_K),
        ),
        ports: s.ports,
        report: (match o.gmin {
            Some(g) => s.report.with_note(
                ".option gmin="@ + shown(h, Style::Plain, g)
                    + " recorded (applied by the solver, not the netlist)"@,
            ),
            None => s.report,
        }).with_unknown_options(unknown),
    }
}

/// What logical lines denote, given the modules of the deck.
pub open spec fn parsed_lines(
    h: Answers,
    world: World,
    lines: Seq<LineView>,
    va: crate::netlist::va::Places,
) -> Result<ParsedView, StopView> {
    let options = options_of(h, lines, lines.len() as int);
    let env = params_of(h, lines, options.spec_temp_c());
    match flattened(h, lines, env) {
        Err(e) => Err(StopView::Failed(e)),
        Ok(flat) => {
            let tables = Tables {
                h,
                env,
                models: library(h, env, flat, flat.len() as int),
                aliases: aliases_of(h, lines, lines.len() as int),
                options,
                va,
                world,
            };
            match tables.run(flat, 0, PlacedView::empty()) {
                Err(e) => Err(e),
                Ok(s) => Ok(finished(h, options, unknown_options(lines, 0), s)),
            }
        },
    }
}

/// What a deck denotes, with its references resolved.
pub open spec fn parsed_text(h: Answers, world: World, text: Seq<char>) -> Result<ParsedView, StopView> {
    match extracted(world.va@, text) {
        Err(e) => Err(e),
        Ok((bare, va)) => parsed_lines(h, world, logical_lines(bare), va),
    }
}

/// What a deck denotes, or what is wrong with it or missing.
pub open spec fn parsed_deck(h: Answers, world: World, text: Seq<char>) -> Result<ParsedView, StopView> {
    match spliced(world.files@, text, 0, seq![], 0) {
        Err(e) => Err(e),
        Ok((whole, _)) => parsed_text(h, world, whole),
    }
}

fn finish<F: Fn(Ask) -> Reply>(
    st: Placed,
    options: &NetlistOptions,
    unknown: &Vec<String>,
    host: &Host<F>,
) -> (r: ParsedCircuit)
    requires
        st.wf(),
    ensures
        r@ == finished(host.answers(), *options, texts(unknown@), st@),
{
    let Placed { nodes, circuit, devices, values, report, ports, osdi: _, setups: _ } = st;
    let mut values = values;
    let mut report = report;
    table_insert(&mut values, "$temp".to_owned(), options.temp_kelvin(host));
    if let Some(g) = options.gmin {
        report.note(
            concat3(
                ".option gmin=",
                &host.shown(Style::Plain, g),
                " recorded (applied by the solver, not the netlist)",
            ),
        );
    }
    let ghost start = report@;
    let ghost names = texts(unknown@);
    assert(names.take(0) =~= seq![]);
    for i in 0..unknown.len()
        invariant
            names == texts(unknown@),
            report@.wf(),
            report@ == start.with_unknown_options(names.take(i as int)),
    {
        proof {
            assert(names.take(i + 1).drop_last() =~= names.take(i as int));
            assert(names[i as int] == unknown@[i as int]@);
        }
        report.note(concat3("unknown option '", &unknown[i], "' ignored"));
    }
    assert(names.take(names.len() as int) =~= names);
    ParsedCircuit {
        circuit,
        devices,
        node_index: nodes.index,
        node_names: nodes.names,
        values,
        ports,
        report,
    }
}

fn parse_lines<F: Fn(Ask) -> Reply>(lines: &Vec<Line>, va_models: &RefTable, world: &World, host: &Host<F>) -> (r: Result<
    ParsedCircuit,
    Stop,
>)
    requires
        lines_ok(line_views(lines@)),
        va_models.wf(),
        places_ok(world.va@, va_models@),
    ensures
        match (r, parsed_lines(host.answers(), *world, line_views(lines@), va_models@)) {
            (Ok(c), Ok(v)) => c@ == v,
            (Err(e), Err(v)) => e@ == v,
            _ => false,
        },
{
    let ghost lv = line_views(lines@);
    let options = collect_options(lines, host);
    let model_aliases = collect_model_aliases(lines, host);
    let params = resolve_params(lines, options.temp_c(), host);
    let flat = match flatten(lines, &params, host) {
        Err(e) => {
            return Err(Stop::Failed(e));
        },
        Ok(x) => x,
    };
    let ghost fv = line_views(flat@);
    proof {
        flattened_holds_no_definitions(host.answers(), lv, entries(params));
        assert forall|i: int| 0 <= i < flat@.len() implies (#[trigger] flat@[i]).tokens@.len() > 0 by {
            assert(flat_line(fv[i]));
        }
    }
    let models = parse_model_cards(&flat, &params, host);
    let placer = Placer {
        params: &params,
        models: &models,
        model_aliases: &model_aliases,
        options,
        va_models,
        world,
        host,
    };
    let mut st = Placed::new();
    match placer.place_lines(&mut st, &flat) {
        Err(e) => {
            return Err(e);
        },
        Ok(()) => {},
    }
    Ok(finish(st, &options, &collect_unknown_options(lines), host))
}

fn parse_text<F: Fn(Ask) -> Reply>(text: &str, world: &World, host: &Host<F>) -> (r: Result<ParsedCircuit, Stop>)
    ensures
        match (r, parsed_text(host.answers(), *world, text@)) {
            (Ok(c), Ok(v)) => c@ == v,
            (Err(e), Err(v)) => e@ == v,
            _ => false,
        },
{
    let (bare, va_models) = match extract_veriloga(text, &world.va) {
        Err(e) => {
            return Err(e);
        },
        Ok(x) => x,
    };
    let lines = preprocess(&bare);
    let ghost lv = line_views(lines@);
    proof {
        logical_lines_have_tokens(bare@);
        assert forall|i: int| 0 <= i < lv.len() implies (#[trigger] lv[i]).tokens.len() > 0
            && lv[i].tokens[0].len() > 0 by {
            assert(none_empty(lv[i].tokens));
        }
        assert(lines_ok(lv));
    }
    parse_lines(&lines, &va_models, world, host)
}

/// Parse a netlist. Where a file, a piece of Verilog-A or a compiled library is
/// needed that is not at hand, the result says which; parsing starts over once
/// it has been handed in.
pub fn parse<F: Fn(Ask) -> Reply>(text: &str, world: &World, host: &Host<F>) -> (r: Result<ParsedCircuit, Stop>)
    ensures
        match (r, parsed_deck(host.answers(), *world, text@)) {
            (Ok(c), Ok(v)) => c@ == v,
            (Err(e), Err(v)) => e@ == v,
            _ => false,
        },
{
    match resolve_includes(text, &world.files) {
        Err(e) => Err(e),
        Ok(whole) => parse_text(&whole, world, host),
    }
}

// ---------------------------------------------------------------------------
// Looking things up.
// ---------------------------------------------------------------------------
/// The parameters of a placed device that can be looked up by name.
pub open spec fn names_of(world: World, m: ModelRefView) -> Option<NamesView> {
    match m {
        ModelRefView::Tline => Some(world.stock.tline.names@),
        ModelRefView::Vswitch => Some(world.stock.vswitch.names@),
        ModelRefView::Diode => Some(world.stock.diode.names@),
        ModelRefView::Mos => Some(world.stock.mos.names@),
        ModelRefView::Bjt => Some(world.stock.bjt.names@),
        ModelRefView::Jfet => Some(world.stock.jfet.names@),
        ModelRefView::Mesfet => Some(world.stock.mesfet.names@),
        ModelRefView::Switch(_) => Some(switch_names()),
        ModelRefView::Va(k, j) => if leads(world.va@, (k, j)) {
            Some(module_at(world.va@, (k, j)).names@)
        } else {
            None
        },
        ModelRefView::Osdi(_, _) => None,
    }
}

/// The default of a parameter of the last of the first `i` devices that was
/// placed under a name and scopes its parameters by it.
pub open spec fn device_default(
    world: World,
    devices: Seq<PlacementView>,
    inst: Seq<char>,
    p: Seq<char>,
    i: int,
) -> Option<u64>
    decreases i,
{
    if i <= 0 || i > devices.len() {
        None
    } else if devices[i - 1].name == inst && names_of(world, devices[i - 1].model) is Some {
        names_of(world, devices[i - 1].model)->0.default_of(p, 0)
    } else {
        device_default(world, devices, inst, p, i - 1)
    }
}

impl ParsedView {
    /// The device default of a parameter symbol (`M1.W`).
    pub open spec fn default_value(self, world: World, name: Seq<char>) -> Option<u64> {
        let dot = last_index(name, '.', name.len() as int);
        if dot < 0 {
            None
        } else {
            device_default(world, self.devices, name.take(dot), name.skip(dot + 1), self.devices.len() as int)
        }
    }

    /// The value of a parameter symbol: the deck's, else the device's default.
    pub open spec fn param(self, world: World, name: Seq<char>) -> Option<u64> {
        if self.values.contains_key(name) {
            Some(self.values[name])
        } else {
            self.default_value(world, name)
        }
    }
}

fn default_in(world: &World, d: &Placement, p: &str) -> (r: Option<Option<u64>>)
    ensures
        match r {
            Some(x) => names_of(*world, d@.model) is Some && x == names_of(*world, d@.model)->0.default_of(p@, 0),
            None => names_of(*world, d@.model) is None,
        },
{
    match &d.model {
        ModelRef::Tline => Some(world.stock.tline.names.param_default(p)),
        ModelRef::Vswitch => Some(world.stock.vswitch.names.param_default(p)),
        ModelRef::Diode => Some(world.stock.diode.names.param_default(p)),
        ModelRef::Mos => Some(world.stock.mos.names.param_default(p)),
        ModelRef::Bjt => Some(world.stock.bjt.names.param_default(p)),
        ModelRef::Jfet => Some(world.stock.jfet.names.param_default(p)),
        ModelRef::Mesfet => Some(world.stock.mesfet.names.param_default(p)),
        ModelRef::Switch(_) => Some(make_switch_names().param_default(p)),
        ModelRef::Va(k, j) => {
            if *k < world.va.len() {
                if let crate::netlist::world::VaResult::Modules(ms) = &world.va[*k].result {
                    if *j < ms.len() {
                        return Some(ms[*j].names.param_default(p));
                    }
                }
            }
            None
        },
        ModelRef::Osdi(_, _) => None,
    }
}

impl ParsedCircuit {
    fn default_value(&self, world: &World, name: &str) -> (r: Option<u64>)
        ensures
            r == self@.default_value(*world, name@),
    {
        let v = chars_of(name);
        let mut i: usize = v.len();
        while i > 0 && v[i - 1] != '.'
            invariant
                v@ == name@,
                i <= v@.len(),
                last_index(name@, '.', i as int) == last_index(name@, '.', v@.len() as int),
            decreases i,
        {
            i -= 1;
        }
        if i == 0 {
            return None;
        }
        let inst = slice_text(&v, 0, i - 1);
        let p = slice_text(&v, i, v.len());
        assert(inst@ =~= name@.take(i - 1));
        assert(p@ =~= name@.skip(i as int));
        let ghost d = placement_views(self.devices@);
        let n: usize = self.devices.len();
        let mut k: usize = n;
        while k > 0
            invariant
                k <= n,
                n == self.devices@.len(),
                d == placement_views(self.devices@),
                d == self@.devices,
                last_index(name@, '.', name@.len() as int) == i - 1,
                inst@ == name@.take(i - 1),
                p@ == name@.skip(i as int),
                i > 0,
                device_default(*world, d, inst@, p@, k as int) == device_default(*world, d, inst@, p@, n as int),
            decreases k,
        {
            k -= 1;
            assert(d[k as int] == self.devices@[k as int]@);
            if same(&self.devices[k].name, &inst) {
                if let Some(x) = default_in(world, &self.devices[k], &p) {
                    return x;
                }
            }
        }
        None
    }

    /// Parameter value by symbol name (`R1`, `M1.W`): the deck's bound value,
    /// else the placed device's module default. `None` for a symbol neither the
    /// deck nor a device gives a value.
    pub fn param_value(&self, name: &str, world: &World) -> (r: Option<u64>)
        ensures
            r == self@.param(*world, name@),
    {
        match table_get(&self.values, name) {
            Some(v) => Some(v),
            None => self.default_value(world, name),
        }
    }

    /// The parameter vector for `names`: bound values, device defaults for
    /// unstated parameters, zero for anything still unbound.
    pub fn pvec(&self, names: &Vec<String>, world: &World) -> (r: Vec<u64>)
        ensures
            r@ == texts(names@).map_values(
                |n: Seq<char>|
                    match self@.param(*world, n) {
                        Some(x) => x,
                        None => ZERO,
                    },
            ),
    {
        let mut out: Vec<u64> = Vec::new();
        let ghost goal = texts(names@).map_values(
            |n: Seq<char>|
                match self@.param(*world, n) {
                    Some(x) => x,
                    None => ZERO,
                },
        );
        for i in 0..names.len()
            invariant
                goal == texts(names@).map_values(
                    |n: Seq<char>|
                        match self@.param(*world, n) {
                            Some(x) => x,
                            None => ZERO,
                        },
                ),
                out@ =~= goal.take(i as int),
        {
            assert(texts(names@)[i as int] == names@[i as int]@);
            let x: u64 = match self.param_value(&names[i], world) {
                Some(x) => x,
                None => ZERO,
            };
            out.push(x);
        }
        assert(goal.take(goal.len() as int) =~= goal);
        out
    }

    /// Look up the integer index of a node by name (case-insensitive).
    pub fn node(&self, name: &str) -> (r: Option<u64>)
        ensures
            r == self@.nodes.index.get(lower(name@)),
    {
        table_get(&self.node_index, &to_lower(name))
    }
}

} // verus!

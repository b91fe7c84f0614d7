//! Element placement: one method per SPICE element letter.
use crate::circuit::{
    current_controlled, plain, text_opt, voltage_controlled, BKind, BehavioralView, CouplingView, Kind,
};
use crate::netlist::behavioral::{behavioral_of, parse_bexpr};
use crate::netlist::devices::{
    agrees, card_opt, keyed, keyed_value, or_value, value_or, Placed, PlacedView, Placing, PortDef, PortView,
};
use crate::netlist::error::{err_at, ErrorView, ParseError};
use crate::netlist::expr::{resolve_value, resolved, value_body, value_expr};
use crate::netlist::model_cards::{chosen, CardView, ModelCard, ModelLib};
use crate::netlist::options::{Aliases, NetlistOptions};
use crate::netlist::source::{
    bare_source, dc_from, dc_value, is_bare_source_kw, is_source_fn, parse_source_fn, source_of,
    starts_source,
};
use crate::netlist::subckt::{find_assignment, first_assignment, is_behavioral_value, refers};
use crate::netlist::va::{places_ok, Places};
use crate::netlist::world::{
    fail_at, failed_at, LoadedOsdi, NamesView, OsdiInfo, ParamNames, RefTable, Stop, StopView, World,
};
use crate::numerics::{apply2, compares, Answers, Ask, Host, Op2, Rel, Reply, ONE, ZERO};
use crate::table::{entries, Table};
use crate::text::{
    chars_of, concat2, concat3, copy_range, decimal, decimal_text, has_char, holds_char, join, join_texts,
    lower, skip_chars, texts,
};
use vstd::prelude::*;

verus! {

/// 50.
pub const FIFTY: u64 = 0x4049_0000_0000_0000;

/// 1e-9.
pub const NANO: u64 = 0x3e11_2e0b_e826_d695;

/// 1e-12.
pub const PICO: u64 = 0x3d71_9799_812d_ea11;

/// 3.5: models of a level up to 3 are the square law.
pub const LAST_SQUARE_LAW: u64 = 0x400c_0000_0000_0000;

/// 1e6.
pub const MEGA: u64 = 0x412e_8480_0000_0000;

/// 1e-6.
pub const MICRO: u64 = 0x3eb0_c6f7_a0b5_ed8d;

/// The most sections that a lumped line is cut into.
pub const MAX_SECTIONS: usize = 4096;

// ---------------------------------------------------------------------------
// Element lines.
// ---------------------------------------------------------------------------
/// One element line: the name, its type letter, the tokens and the source
/// position for diagnostics.
pub struct Elem<'t> {
    pub name: &'t str,
    /// The name past the last `.` (subcircuit flattening prefixes the path).
    pub base: &'t str,
    pub kind: char,
    pub tok: &'t Vec<String>,
    pub line_no: usize,
    pub line_col: usize,
}

pub struct ElemView {
    pub name: Seq<char>,
    pub base: Seq<char>,
    pub kind: char,
    pub tok: Seq<Seq<char>>,
    pub line: int,
    pub col: int,
}

impl<'t> View for Elem<'t> {
    type V = ElemView;

    open spec fn view(&self) -> ElemView {
        ElemView {
            name: self.name@,
            base: self.base@,
            kind: self.kind,
            tok: texts(self.tok@),
            line: self.line_no as int,
            col: self.line_col as int,
        }
    }
}

impl ElemView {
    pub open spec fn too_short(self, n: nat) -> ErrorView {
        ErrorView {
            line: self.line,
            col: self.col,
            msg: "expected at least "@ + decimal(n) + " tokens"@,
        }
    }

    pub open spec fn short(self, n: nat) -> StopView {
        StopView::Failed(self.too_short(n))
    }

    pub open spec fn refused(self, msg: Seq<char>) -> StopView {
        failed_at(self.line, self.col, msg)
    }
}

impl<'t> Elem<'t> {
    /// At least `n` tokens on the line.
    pub fn need(&self, n: usize) -> (r: Result<(), ParseError>)
        ensures
            match r {
                Ok(()) => self@.tok.len() >= n,
                Err(e) => self@.tok.len() < n && e@ == self@.too_short(n as nat),
            },
    {
        if self.tok.len() < n {
            Err(
                err_at(
                    self.line_no,
                    self.line_col,
                    &concat3("expected at least ", &decimal_text(n as u64), " tokens"),
                ),
            )
        } else {
            Ok(())
        }
    }

    pub(crate) fn refuse(&self, msg: &str) -> (r: Stop)
        ensures
            r@ == self@.refused(msg@),
    {
        fail_at(self.line_no, self.line_col, msg)
    }
}

// ---------------------------------------------------------------------------
// Searching the tokens.
// ---------------------------------------------------------------------------
/// Some token from `i` on refers to a voltage or a current.
pub open spec fn any_refers(toks: Seq<Seq<char>>, i: int) -> bool
    decreases toks.len() - i,
{
    if i < 0 || i >= toks.len() {
        false
    } else {
        refers(toks[i]) || any_refers(toks, i + 1)
    }
}

fn some_behavioral(toks: &Vec<String>, from: usize) -> (r: bool)
    ensures
        r == any_refers(texts(toks@), from as int),
{
    let ghost t = texts(toks@);
    let mut i: usize = from;
    while i < toks.len()
        invariant
            from <= i,
            t == texts(toks@),
            any_refers(t, i as int) == any_refers(t, from as int),
        decreases toks@.len() - i,
    {
        assert(t[i as int] == toks@[i as int]@);
        if is_behavioral_value(&toks[i]) {
            return true;
        }
        i += 1;
    }
    false
}

/// The first value from token `i` on; with `keywords`, also in `key=value` form.
pub open spec fn first_value(
    h: Answers,
    env: Map<Seq<char>, u64>,
    toks: Seq<Seq<char>>,
    i: int,
    keywords: bool,
) -> Option<u64>
    decreases toks.len() - i,
{
    if i < 0 || i >= toks.len() {
        None
    } else if resolved(h, env, toks[i]) is Some {
        resolved(h, env, toks[i])
    } else if keywords && resolved(h, env, value_body(toks[i])) is Some {
        resolved(h, env, value_body(toks[i]))
    } else {
        first_value(h, env, toks, i + 1, keywords)
    }
}

fn find_value<F: Fn(Ask) -> Reply>(toks: &Vec<String>, from: usize, keywords: bool, env: &Table, host: &Host<F>) -> (r:
    Option<u64>)
    ensures
        r == first_value(host.answers(), entries(*env), texts(toks@), from as int, keywords),
{
    let ghost t = texts(toks@);
    let ghost h = host.answers();
    let ghost e = entries(*env);
    let mut i: usize = from;
    while i < toks.len()
        invariant
            from <= i,
            t == texts(toks@),
            h == host.answers(),
            e == entries(*env),
            first_value(h, e, t, i as int, keywords) == first_value(h, e, t, from as int, keywords),
        decreases toks@.len() - i,
    {
        assert(t[i as int] == toks@[i as int]@);
        let x = resolve_value(&toks[i], env, host);
        if x.is_some() {
            return x;
        }
        if keywords {
            let y = resolve_value(&value_expr(&toks[i]), env, host);
            if y.is_some() {
                return y;
            }
        }
        i += 1;
    }
    None
}

/// The first token from `i` on that is neither `key=value` nor a number.
pub open spec fn first_name(h: Answers, env: Map<Seq<char>, u64>, toks: Seq<Seq<char>>, i: int) -> Option<Seq<char>>
    decreases toks.len() - i,
{
    if i < 0 || i >= toks.len() {
        None
    } else if !has_char(toks[i], '=') && resolved(h, env, toks[i]) is None {
        Some(toks[i])
    } else {
        first_name(h, env, toks, i + 1)
    }
}

/// The first bare number from token `i` on.
pub open spec fn first_bare(h: Answers, env: Map<Seq<char>, u64>, toks: Seq<Seq<char>>, i: int) -> Option<u64>
    decreases toks.len() - i,
{
    if i < 0 || i >= toks.len() {
        None
    } else if !has_char(toks[i], '=') && resolved(h, env, toks[i]) is Some {
        resolved(h, env, toks[i])
    } else {
        first_bare(h, env, toks, i + 1)
    }
}

pub(crate) fn find_name<F: Fn(Ask) -> Reply>(toks: &Vec<String>, from: usize, env: &Table, host: &Host<F>) -> (r: Option<String>)
    ensures
        text_opt(r) == first_name(host.answers(), entries(*env), texts(toks@), from as int),
{
    let ghost t = texts(toks@);
    let ghost h = host.answers();
    let ghost e = entries(*env);
    let mut i: usize = from;
    while i < toks.len()
        invariant
            from <= i,
            t == texts(toks@),
            h == host.answers(),
            e == entries(*env),
            first_name(h, e, t, i as int) == first_name(h, e, t, from as int),
        decreases toks@.len() - i,
    {
        assert(t[i as int] == toks@[i as int]@);
        if !holds_char(&toks[i], '=') && resolve_value(&toks[i], env, host).is_none() {
            return Some(toks[i].clone());
        }
        i += 1;
    }
    None
}

pub(crate) fn find_bare<F: Fn(Ask) -> Reply>(toks: &Vec<String>, from: usize, env: &Table, host: &Host<F>) -> (r: Option<u64>)
    ensures
        r == first_bare(host.answers(), entries(*env), texts(toks@), from as int),
{
    let ghost t = texts(toks@);
    let ghost h = host.answers();
    let ghost e = entries(*env);
    let mut i: usize = from;
    while i < toks.len()
        invariant
            from <= i,
            t == texts(toks@),
            h == host.answers(),
            e == entries(*env),
            first_bare(h, e, t, i as int) == first_bare(h, e, t, from as int),
        decreases toks@.len() - i,
    {
        assert(t[i as int] == toks@[i as int]@);
        if !holds_char(&toks[i], '=') {
            let x = resolve_value(&toks[i], env, host);
            if x.is_some() {
                return x;
            }
        }
        i += 1;
    }
    None
}

/// The first token from `i` on that begins a source function.
pub open spec fn function_at(toks: Seq<Seq<char>>, i: int) -> Option<Seq<char>>
    decreases toks.len() - i,
{
    if i < 0 || i >= toks.len() {
        None
    } else if starts_source(lower(toks[i])) {
        Some(toks[i])
    } else {
        function_at(toks, i + 1)
    }
}

/// The place of the first bare source-function name from `i` on.
pub open spec fn bare_at(toks: Seq<Seq<char>>, i: int) -> Option<int>
    decreases toks.len() - i,
{
    if i < 0 || i >= toks.len() {
        None
    } else if bare_source(lower(toks[i])) {
        Some(i)
    } else {
        bare_at(toks, i + 1)
    }
}

/// The source function on an element line, in parenthesised form.
pub open spec fn stimulus(toks: Seq<Seq<char>>) -> Option<Seq<char>> {
    match function_at(toks, 3) {
        Some(s) => Some(s),
        None => match bare_at(toks, 3) {
            Some(i) => Some(
                toks[i] + "("@ + join(toks.subrange(i + 1, first_assignment(toks, i + 1)), " "@) + ")"@,
            ),
            None => None,
        },
    }
}

fn find_stimulus(toks: &Vec<String>) -> (r: Option<String>)
    ensures
        text_opt(r) == stimulus(texts(toks@)),
{
    let ghost t = texts(toks@);
    let mut i: usize = 3;
    while i < toks.len()
        invariant
            3 <= i,
            t == texts(toks@),
            function_at(t, i as int) == function_at(t, 3),
        decreases toks@.len() - i,
    {
        assert(t[i as int] == toks@[i as int]@);
        if is_source_fn(&toks[i]) {
            return Some(toks[i].clone());
        }
        i += 1;
    }
    i = 3;
    while i < toks.len()
        invariant
            3 <= i,
            t == texts(toks@),
            function_at(t, 3) is None,
            bare_at(t, i as int) == bare_at(t, 3),
        decreases toks@.len() - i,
    {
        assert(t[i as int] == toks@[i as int]@);
        if is_bare_source_kw(&toks[i]) {
            let end: usize = find_assignment(toks, i + 1);
            let args = copy_range(toks, i + 1, end);
            let mut out = concat3(&toks[i], "(", &join_texts(&args, " "));
            out.append(")");
            return Some(out);
        }
        i += 1;
    }
    None
}

// ---------------------------------------------------------------------------
// The tables that placement consults.
// ---------------------------------------------------------------------------
/// The read-only tables (parameters, model cards, options, Verilog-A modules)
/// that placement consults, and what has been handed in.
pub struct Placer<'a, F: Fn(Ask) -> Reply> {
    pub params: &'a Table,
    pub models: &'a ModelLib,
    pub model_aliases: &'a Aliases,
    pub options: NetlistOptions,
    pub va_models: &'a RefTable,
    pub world: &'a World,
    pub host: &'a Host<F>,
}

pub struct Tables {
    pub h: Answers,
    pub env: Map<Seq<char>, u64>,
    pub models: Map<Seq<char>, Seq<CardView>>,
    pub aliases: Map<u32, Seq<char>>,
    pub options: NetlistOptions,
    pub va: Places,
    pub world: World,
}

/// A place in the registry of compiled modules leads to one.
pub open spec fn leads_osdi(osdi: Seq<LoadedOsdi>, p: (usize, usize)) -> bool {
    &&& p.0 < osdi.len()
    &&& osdi[p.0 as int].modules matches Ok(ms)
    &&& p.1 < ms@.len()
}

pub open spec fn osdi_ok(osdi: Seq<LoadedOsdi>, places: Map<Seq<char>, (usize, usize)>) -> bool {
    forall|k: Seq<char>| #[trigger] places.contains_key(k) ==> leads_osdi(osdi, places[k])
}

pub open spec fn osdi_at(osdi: Seq<LoadedOsdi>, p: (usize, usize)) -> OsdiInfo {
    osdi[p.0 as int].modules->Ok_0@[p.1 as int]
}

pub(crate) fn find_osdi(osdi: &Vec<LoadedOsdi>, p: (usize, usize)) -> (r: &OsdiInfo)
    requires
        leads_osdi(osdi@, p),
    ensures
        *r == osdi_at(osdi@, p),
{
    match &osdi[p.0].modules {
        Ok(ms) => &ms[p.1],
        Err(_) => vstd::pervasive::unreached(),
    }
}

/// A number times another, where there is one.
pub open spec fn times(h: Answers, v: Option<u64>, f: u64) -> Option<u64> {
    match v {
        Some(x) => Some(apply2(h, Op2::Mul, x, f)),
        None => None,
    }
}

/// The passive elements and independent sources by their letter.
pub open spec fn passive_kind(c: char) -> Kind {
    if c == 'R' {
        Kind::Resistor
    } else if c == 'C' {
        Kind::Capacitor
    } else if c == 'L' {
        Kind::Inductor
    } else if c == 'V' {
        Kind::VoltageSource
    } else {
        Kind::CurrentSource
    }
}

/// The parameters of a current-controlled switch with their defaults.
pub open spec fn switch_names() -> NamesView {
    NamesView {
        params: seq![
            ("Ron"@, Some(ONE)),
            ("Roff"@, Some(MEGA)),
            ("It"@, Some(ZERO)),
            ("Ih"@, Some(MICRO)),
        ],
        aliases: seq![],
    }
}

pub(crate) fn make_switch_names() -> (r: ParamNames)
    ensures
        r@ == switch_names(),
{
    let mut params: Vec<(String, Option<u64>)> = Vec::new();
    params.push(("Ron".to_owned(), Some(ONE)));
    params.push(("Roff".to_owned(), Some(MEGA)));
    params.push(("It".to_owned(), Some(ZERO)));
    params.push(("Ih".to_owned(), Some(MICRO)));
    let r = ParamNames { params, aliases: Vec::new() };
    assert(r@.params =~= switch_names().params);
    assert(r@.aliases =~= switch_names().aliases);
    r
}

pub(crate) fn two(a: usize, b: usize) -> (r: Vec<usize>)
    ensures
        r@ == seq![a, b],
{
    let mut v: Vec<usize> = Vec::new();
    v.push(a);
    v.push(b);
    assert(v@ =~= seq![a, b]);
    v
}

pub(crate) fn three(a: usize, b: usize, c: usize) -> (r: Vec<usize>)
    ensures
        r@ == seq![a, b, c],
{
    let mut v = two(a, b);
    v.push(c);
    assert(v@ =~= seq![a, b, c]);
    v
}

pub(crate) fn four(a: usize, b: usize, c: usize, d: usize) -> (r: Vec<usize>)
    ensures
        r@ == seq![a, b, c, d],
{
    let mut v = three(a, b, c);
    v.push(d);
    assert(v@ =~= seq![a, b, c, d]);
    v
}

/// The nodes of the tokens `toks[i..end]`, in order.
pub open spec fn node_run(s: PlacedView, toks: Seq<Seq<char>>, i: int, end: int) -> (Seq<usize>, PlacedView)
    decreases end - i,
{
    if i >= end || i < 0 || end > toks.len() {
        (seq![], s)
    } else {
        let (n, s1) = s.node(toks[i]);
        let (rest, s2) = node_run(s1, toks, i + 1, end);
        (seq![n] + rest, s2)
    }
}

pub(crate) fn place_nodes(st: &mut Placed, toks: &Vec<String>, from: usize, end: usize) -> (r: Vec<usize>)
    requires
        old(st).wf(),
        from <= end <= toks@.len(),
    ensures
        final(st).wf(),
        (r@, final(st)@) == node_run(old(st)@, texts(toks@), from as int, end as int),
        final(st)@.osdi == old(st)@.osdi,
{
    let ghost t = texts(toks@);
    let ghost (all, last) = node_run(st@, t, from as int, end as int);
    let ghost known = st@.osdi;
    let mut out: Vec<usize> = Vec::new();
    let mut i: usize = from;
    assert(out@ + all =~= all);
    while i < end
        invariant
            st.wf(),
            from <= i <= end <= toks@.len(),
            t == texts(toks@),
            st@.osdi == known,
            out@ + node_run(st@, t, i as int, end as int).0 == all,
            node_run(st@, t, i as int, end as int).1 == last,
        decreases end - i,
    {
        assert(t[i as int] == toks@[i as int]@);
        let ghost before = st@;
        let ghost was = out@;
        let n: usize = st.node(&toks[i]);
        out.push(n);
        proof {
            let rest = node_run(st@, t, i + 1, end as int).0;
            assert(was.push(n) + rest =~= was + (seq![n] + rest));
        }
        i += 1;
    }
    assert(out@ + seq![] =~= out@);
    out
}

// ---------------------------------------------------------------------------
// What each element does.
// ---------------------------------------------------------------------------
impl Tables {
    /// The card that a model name and geometry select.
    pub open spec fn select(self, name: Option<Seq<char>>, l: Option<u64>, w: Option<u64>) -> Option<CardView> {
        match name {
            Some(n) => if self.models.contains_key(lower(n)) {
                let cards = self.models[lower(n)];
                Some(cards[chosen(self.h, cards, l, w)])
            } else {
                None
            },
            None => None,
        }
    }

    /// `R`, `C`, `L`, `V`, `I`.
    pub open spec fn passive(self, s: PlacedView, el: ElemView) -> Placing {
        let tok = el.tok;
        if tok.len() < 3 {
            Err(el.short(3))
        } else {
            let (a, s1) = s.node(tok[1]);
            let (b, s2) = s1.node(tok[2]);
            if el.kind == 'R' && any_refers(tok, 3) {
                let text = "(V("@ + tok[1] + ","@ + tok[2] + "))/("@ + value_body(join(tok.skip(3), " "@)) + ")"@;
                match behavioral_of(self.h, s2.nodes, text) {
                    Err(m) => Err(el.refused(m)),
                    Ok((expr, nodes)) => {
                        let src = BehavioralView { name: el.name, a, b, kind: BKind::I, expr };
                        Ok(PlacedView { nodes, circuit: s2.circuit.with_behavioral(src), ..s2 })
                    },
                }
            } else {
                let s3 = s2.with_element(plain(passive_kind(el.kind), el.name, a, b));
                if el.kind == 'V' || el.kind == 'I' {
                    let s4 = s3.maybe_valued(el.name, dc_from(self.h, self.env, tok, 3, None));
                    match stimulus(tok) {
                        None => Ok(s4),
                        Some(f) => {
                            let (shape, values) = source_of(self.h, self.env, s4.values, el.name, f);
                            let s5 = PlacedView { values, ..s4 };
                            match shape {
                                None => Ok(s5),
                                Some(src) => Ok(PlacedView { circuit: s5.circuit.with_source(src), ..s5 }),
                            }
                        },
                    }
                } else {
                    Ok(s3.maybe_valued(el.name, first_value(self.h, self.env, tok, 3, true)))
                }
            }
        }
    }

    /// `E`, `G`.
    pub open spec fn controlled_voltage(self, s: PlacedView, el: ElemView) -> Placing {
        if el.tok.len() < 5 {
            Err(el.short(5))
        } else {
            let (a, s1) = s.node(el.tok[1]);
            let (b, s2) = s1.node(el.tok[2]);
            let (p, s3) = s2.node(el.tok[3]);
            let (q, s4) = s3.node(el.tok[4]);
            let kind = if el.kind == 'E' {
                Kind::Vcvs
            } else {
                Kind::Vccs
            };
            let s5 = s4.with_element(voltage_controlled(kind, el.name, a, b, p, q));
            Ok(s5.maybe_valued(el.name, first_value(self.h, self.env, el.tok, 5, false)))
        }
    }

    /// `F`, `H`.
    pub open spec fn controlled_current(self, s: PlacedView, el: ElemView) -> Placing {
        if el.tok.len() < 4 {
            Err(el.short(4))
        } else {
            let (a, s1) = s.node(el.tok[1]);
            let (b, s2) = s1.node(el.tok[2]);
            let kind = if el.kind == 'F' {
                Kind::Cccs
            } else {
                Kind::Ccvs
            };
            let s3 = s2.with_element(current_controlled(kind, el.name, a, b, el.tok[3]));
            Ok(s3.maybe_valued(el.name, first_value(self.h, self.env, el.tok, 4, false)))
        }
    }

    /// `P`: an ideal source behind its reference impedance.
    pub open spec fn port(self, s: PlacedView, el: ElemView) -> Placing {
        if el.tok.len() < 3 {
            Err(el.short(3))
        } else {
            let (a, s1) = s.node(el.tok[1]);
            let (b, s2) = s1.node(el.tok[2]);
            let z0 = or_value(keyed(self.h, self.env, el.tok, 3, "z0"@), FIFTY);
            if !compares(self.h, Rel::Gt, z0, ZERO) {
                Err(el.refused("port Z0 must be positive"@))
            } else {
                let (t, s3) = s2.node(el.name + ".t"@);
                let rn = el.name + ".z0"@;
                Ok(
                    s3.with_element(plain(Kind::VoltageSource, el.name, t, b)).valued(el.name, ZERO).with_element(
                        plain(Kind::Resistor, rn, t, a),
                    ).valued(rn, z0).with_port(PortView { name: el.name, node: el.tok[1], z0 }),
                )
            }
        }
    }

    /// `K`.
    pub open spec fn coupling(self, s: PlacedView, el: ElemView) -> Placing {
        if el.tok.len() < 4 {
            Err(el.short(4))
        } else {
            let c = CouplingView { name: el.name, l1: el.tok[1], l2: el.tok[2] };
            let s1 = PlacedView { circuit: s.circuit.with_coupling(c), ..s };
            Ok(s1.maybe_valued(el.name, first_value(self.h, self.env, el.tok, 3, false)))
        }
    }

    /// `B`: the expression spans the rest of the line.
    pub open spec fn behavioral(self, s: PlacedView, el: ElemView) -> Placing {
        if el.tok.len() < 4 {
            Err(el.short(4))
        } else {
            let (a, s1) = s.node(el.tok[1]);
            let (b, s2) = s1.node(el.tok[2]);
            let rest = join(el.tok.skip(3), " "@);
            let voltage = rest.len() >= 2 && (rest[0] == 'V' || rest[0] == 'v') && rest[1] == '=';
            let current = rest.len() >= 2 && (rest[0] == 'I' || rest[0] == 'i') && rest[1] == '=';
            if !voltage && !current {
                Err(el.refused("B source needs V=<expr> or I=<expr>"@))
            } else {
                let kind = if voltage {
                    BKind::V
                } else {
                    BKind::I
                };
                match behavioral_of(self.h, s2.nodes, rest.skip(2)) {
                    Err(m) => Err(el.refused(m)),
                    Ok((expr, nodes)) => {
                        let src = BehavioralView { name: el.name, a, b, kind, expr };
                        Ok(PlacedView { nodes, circuit: s2.circuit.with_behavioral(src), ..s2 })
                    },
                }
            }
        }
    }
}

impl<'a, F: Fn(Ask) -> Reply> Placer<'a, F> {
    pub open spec fn tables(&self) -> Tables {
        Tables {
            h: self.host.answers(),
            env: entries(*self.params),
            models: self.models@,
            aliases: self.model_aliases@,
            options: self.options,
            va: self.va_models@,
            world: *self.world,
        }
    }

    pub open spec fn wf(&self) -> bool {
        self.models.wf() && self.va_models.wf() && places_ok(self.world.va@, self.va_models@)
    }

    /// A state that this placer can go on from.
    pub open spec fn ready(&self, st: Placed) -> bool {
        st.wf() && osdi_ok(self.world.osdi@, st@.osdi)
    }

    /// A placement as stated, from which placing can go on.
    pub open spec fn done(&self, r: Result<(), Stop>, st: Placed, p: Placing) -> bool {
        agrees(r, st@, p) && (r is Ok ==> self.ready(st))
    }

    pub(crate) fn select(&self, name: &Option<String>, l: Option<u64>, w: Option<u64>) -> (r: Option<&ModelCard>)
        requires
            self.wf(),
        ensures
            card_opt(r) == self.tables().select(text_opt(*name), l, w),
    {
        match name {
            Some(n) => self.models.select(n, l, w, self.host),
            None => None,
        }
    }

    pub fn place_passive(&self, st: &mut Placed, el: &Elem) -> (r: Result<(), Stop>)
        requires
            self.ready(*old(st)),
            el.kind == 'R' || el.kind == 'C' || el.kind == 'L' || el.kind == 'V' || el.kind == 'I',
        ensures
            self.done(r, *final(st), self.tables().passive(old(st)@, el@)),
    {
        match el.need(3) {
            Err(e) => {
                return Err(Stop::Failed(e));
            },
            Ok(()) => {},
        }
        let ghost t = el@.tok;
        let tok = el.tok;
        assert(t[1] == tok@[1]@ && t[2] == tok@[2]@);
        let a: usize = st.node(&tok[1]);
        let b: usize = st.node(&tok[2]);
        if el.kind == 'R' && some_behavioral(tok, 3) {
            let rest = copy_range(tok, 3, tok.len());
            assert(texts(rest@) =~= t.skip(3));
            let mut text = concat3("(V(", &tok[1], ",");
            text.append(&tok[2]);
            text.append("))/(");
            text.append(&value_expr(&join_texts(&rest, " ")));
            text.append(")");
            match parse_bexpr(&text, &mut st.nodes, self.host) {
                Err(m) => {
                    return Err(el.refuse(&m));
                },
                Ok(e) => {
                    st.circuit.behavioral_source(el.name, a, b, BKind::I, e);
                    return Ok(());
                },
            }
        }
        match el.kind {
            'R' => {
                st.circuit.resistor(el.name, a, b);
            },
            'C' => {
                st.circuit.capacitor(el.name, a, b);
            },
            'L' => {
                st.circuit.inductor(el.name, a, b);
            },
            'V' => {
                st.circuit.voltage_source(el.name, a, b);
            },
            _ => {
                st.circuit.current_source(el.name, a, b);
            },
        }
        if el.kind == 'V' || el.kind == 'I' {
            st.set_maybe(el.name, dc_value(tok, 3, self.params, self.host));
            if let Some(f) = find_stimulus(tok) {
                if let Some(src) = parse_source_fn(el.name, &f, self.params, &mut st.values, self.host) {
                    st.circuit.set_source(src);
                }
            }
        } else {
            st.set_maybe(el.name, find_value(tok, 3, true, self.params, self.host));
        }
        Ok(())
    }

    pub fn place_controlled_voltage(&self, st: &mut Placed, el: &Elem) -> (r: Result<(), Stop>)
        requires
            self.ready(*old(st)),
            el.kind == 'E' || el.kind == 'G',
        ensures
            self.done(r, *final(st), self.tables().controlled_voltage(old(st)@, el@)),
    {
        match el.need(5) {
            Err(e) => {
                return Err(Stop::Failed(e));
            },
            Ok(()) => {},
        }
        let tok = el.tok;
        let ghost t = el@.tok;
        assert(t[1] == tok@[1]@ && t[2] == tok@[2]@ && t[3] == tok@[3]@ && t[4] == tok@[4]@);
        let a: usize = st.node(&tok[1]);
        let b: usize = st.node(&tok[2]);
        let p: usize = st.node(&tok[3]);
        let q: usize = st.node(&tok[4]);
        if el.kind == 'E' {
            st.circuit.vcvs(el.name, a, b, p, q);
        } else {
            st.circuit.vccs(el.name, a, b, p, q);
        }
        st.set_maybe(el.name, find_value(tok, 5, false, self.params, self.host));
        Ok(())
    }

    /// Current-controlled sources: `F`/`H n+ n- Vctrl gain`.
    pub fn place_controlled_current(&self, st: &mut Placed, el: &Elem) -> (r: Result<(), Stop>)
        requires
            self.ready(*old(st)),
            el.kind == 'F' || el.kind == 'H',
        ensures
            self.done(r, *final(st), self.tables().controlled_current(old(st)@, el@)),
    {
        match el.need(4) {
            Err(e) => {
                return Err(Stop::Failed(e));
            },
            Ok(()) => {},
        }
        let tok = el.tok;
        let ghost t = el@.tok;
        assert(t[1] == tok@[1]@ && t[2] == tok@[2]@ && t[3] == tok@[3]@);
        let a: usize = st.node(&tok[1]);
        let b: usize = st.node(&tok[2]);
        if el.kind == 'F' {
            st.circuit.cccs(el.name, a, b, &tok[3]);
        } else {
            st.circuit.ccvs(el.name, a, b, &tok[3]);
        }
        st.set_maybe(el.name, find_value(tok, 4, false, self.params, self.host));
        Ok(())
    }

    /// Power port: `P<name> n+ n- [Z0=<ohms>]`.
    pub fn place_port(&self, st: &mut Placed, el: &Elem) -> (r: Result<(), Stop>)
        requires
            self.ready(*old(st)),
        ensures
            self.done(r, *final(st), self.tables().port(old(st)@, el@)),
    {
        match el.need(3) {
            Err(e) => {
                return Err(Stop::Failed(e));
            },
            Ok(()) => {},
        }
        let tok = el.tok;
        let ghost t = el@.tok;
        assert(t[1] == tok@[1]@ && t[2] == tok@[2]@);
        let a: usize = st.node(&tok[1]);
        let b: usize = st.node(&tok[2]);
        let z0: u64 = value_or(keyed_value(tok, 3, "z0", self.params, self.host), FIFTY);
        if !self.host.compares(Rel::Gt, z0, ZERO) {
            return Err(el.refuse("port Z0 must be positive"));
        }
        let n: usize = st.node(&concat2(el.name, ".t"));
        st.circuit.voltage_source(el.name, n, b);
        st.set_value(el.name, ZERO);
        let rn = concat2(el.name, ".z0");
        st.circuit.resistor(&rn, n, a);
        st.set_value(&rn, z0);
        st.add_port(PortDef { name: el.name.to_owned(), node: tok[1].clone(), z0 });
        Ok(())
    }

    /// Mutual inductance: `K name Lx Ly coupling`.
    pub fn place_coupling(&self, st: &mut Placed, el: &Elem) -> (r: Result<(), Stop>)
        requires
            self.ready(*old(st)),
        ensures
            self.done(r, *final(st), self.tables().coupling(old(st)@, el@)),
    {
        match el.need(4) {
            Err(e) => {
                return Err(Stop::Failed(e));
            },
            Ok(()) => {},
        }
        let tok = el.tok;
        let ghost t = el@.tok;
        assert(t[1] == tok@[1]@ && t[2] == tok@[2]@);
        st.circuit.mutual(el.name, &tok[1], &tok[2]);
        st.set_maybe(el.name, find_value(tok, 3, false, self.params, self.host));
        Ok(())
    }

    /// Behavioral source: `B name n+ n- V=<expr> | I=<expr>`.
    pub fn place_behavioral(&self, st: &mut Placed, el: &Elem) -> (r: Result<(), Stop>)
        requires
            self.ready(*old(st)),
        ensures
            self.done(r, *final(st), self.tables().behavioral(old(st)@, el@)),
    {
        match el.need(4) {
            Err(e) => {
                return Err(Stop::Failed(e));
            },
            Ok(()) => {},
        }
        let tok = el.tok;
        let ghost t = el@.tok;
        assert(t[1] == tok@[1]@ && t[2] == tok@[2]@);
        let a: usize = st.node(&tok[1]);
        let b: usize = st.node(&tok[2]);
        let part = copy_range(tok, 3, tok.len());
        assert(texts(part@) =~= t.skip(3));
        let rest = join_texts(&part, " ");
        let c = chars_of(&rest);
        let voltage: bool = c.len() >= 2 && (c[0] == 'V' || c[0] == 'v') && c[1] == '=';
        let current: bool = c.len() >= 2 && (c[0] == 'I' || c[0] == 'i') && c[1] == '=';
        if !voltage && !current {
            return Err(el.refuse("B source needs V=<expr> or I=<expr>"));
        }
        let kind = if voltage {
            BKind::V
        } else {
            BKind::I
        };
        let text = skip_chars(&rest, 2);
        match parse_bexpr(&text, &mut st.nodes, self.host) {
            Err(m) => Err(el.refuse(&m)),
            Ok(e) => {
                st.circuit.behavioral_source(el.name, a, b, kind, e);
                Ok(())
            },
        }
    }
}

} // verus!

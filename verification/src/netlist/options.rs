//! Global deck options and parameters: `.temp` / `.option` collection, model
//! aliases, and iterative `.param` resolution.
use crate::netlist::expr::{resolve_value, resolved};
use crate::netlist::preprocess::{line_views, Line, LineView};
use crate::netlist::subckt::{assignments, assignments_of, lines_ok, pairs_text};
use crate::numerics::{
    apply2, nearest, parsed, Answers, Ask, Host, Op2, Reply, ONE, PI,
};
use crate::table::{entries, table_get, table_insert, table_new, Table};
use crate::text::{halves, lower, same, split_once, texts, to_lower};
use vstd::prelude::*;

verus! {

/// Nominal temperature in Celsius (27).
pub const TEMP_NOMINAL_C: u64 = 0x403b_0000_0000_0000;

/// Zero Celsius in Kelvin (273.15).
pub const ZERO_CELSIUS_K: u64 = 0x4071_1266_6666_6666;

/// Global simulation options gathered from `.temp` / `.option` directives.
#[derive(Clone, Copy, Debug, PartialEq, Eq, Structural)]
pub struct NetlistOptions {
    /// Operating temperature in Celsius (`.temp` or `.option temp=`).
    pub temp_c: Option<u64>,
    /// Geometric scale factor (`.option scale=`); multiplies device L/W.
    pub scale: Option<u64>,
    /// Minimum conductance hint (`.option gmin=`); surfaced in diagnostics.
    pub gmin: Option<u64>,
}

impl NetlistOptions {
    pub open spec fn spec_temp_c(self) -> u64 {
        match self.temp_c {
            Some(t) => t,
            None => TEMP_NOMINAL_C,
        }
    }

    pub open spec fn spec_scale(self) -> u64 {
        match self.scale {
            Some(t) => t,
            None => ONE,
        }
    }

    /// Operating temperature in Celsius (nominal 27 if no directive set it).
    pub fn temp_c(&self) -> (r: u64)
        ensures
            r == self.spec_temp_c(),
    {
        match self.temp_c {
            Some(t) => t,
            None => TEMP_NOMINAL_C,
        }
    }

    /// Operating temperature in Kelvin for the global `$temp` symbol.
    pub fn temp_kelvin<F: Fn(Ask) -> Reply>(&self, host: &Host<F>) -> (r: u64)
        ensures
            r == apply2(host.answers(), Op2::Add, self.spec_temp_c(), ZERO_CELSIUS_K),
    {
        host.apply2(Op2::Add, self.temp_c(), ZERO_CELSIUS_K)
    }

    /// Geometric scale factor (default 1).
    pub fn scale(&self) -> (r: u64)
        ensures
            r == self.spec_scale(),
    {
        match self.scale {
            Some(t) => t,
            None => ONE,
        }
    }
}

// ---------------------------------------------------------------------------
// Directives.
// ---------------------------------------------------------------------------
/// The directives that are acted on somewhere, in lower case.
pub open spec fn handled(head: Seq<char>) -> bool {
    ||| head == ".model"@
    ||| head == ".model_alias"@
    ||| head == ".param"@
    ||| head == ".subckt"@
    ||| head == ".ends"@
    ||| head == ".end"@
    ||| head == ".temp"@
    ||| head == ".option"@
    ||| head == ".options"@
    ||| head == ".veriloga"@
    ||| head == ".endveriloga"@
    ||| head == ".include"@
    ||| head == ".inc"@
    ||| head == ".lib"@
    ||| head == ".endl"@
}

/// Whether a directive is acted on somewhere in the pipeline (a pre-pass, or
/// stripped before tokenisation). Anything else is skipped by the parser and
/// reported as ignored; `.global` is one of those where it survives flattening.
pub fn is_handled_directive(head: &str) -> (r: bool)
    ensures
        r == handled(lower(head@)),
{
    let h = to_lower(head);
    same(&h, ".model") || same(&h, ".model_alias") || same(&h, ".param") || same(&h, ".subckt") || same(
        &h,
        ".ends",
    ) || same(&h, ".end") || same(&h, ".temp") || same(&h, ".option") || same(&h, ".options") || same(
        &h,
        ".veriloga",
    ) || same(&h, ".endveriloga") || same(&h, ".include") || same(&h, ".inc") || same(&h, ".lib") || same(
        &h,
        ".endl",
    )
}

/// The parameters that option values may refer to.
pub open spec fn constants() -> Map<Seq<char>, u64> {
    Map::<Seq<char>, u64>::empty().insert("pi"@, PI)
}

/// The options after one `key=value` token of an `.option` line.
pub open spec fn with_option(h: Answers, o: NetlistOptions, t: Seq<char>) -> NetlistOptions {
    match halves(t, '=') {
        None => o,
        Some((k, v)) => match resolved(h, constants(), v) {
            None => o,
            Some(x) => if lower(k) == "scale"@ {
                NetlistOptions { scale: Some(x), ..o }
            } else if lower(k) == "gmin"@ {
                NetlistOptions { gmin: Some(x), ..o }
            } else if lower(k) == "temp"@ || lower(k) == "temper"@ {
                NetlistOptions { temp_c: Some(x), ..o }
            } else {
                o
            },
        },
    }
}

pub open spec fn with_options(h: Answers, o: NetlistOptions, toks: Seq<Seq<char>>, i: int) -> NetlistOptions
    decreases toks.len() - i,
{
    if i < 0 || i >= toks.len() {
        o
    } else {
        with_options(h, with_option(h, o, toks[i]), toks, i + 1)
    }
}

pub open spec fn with_directive(h: Answers, o: NetlistOptions, l: LineView) -> NetlistOptions {
    let head = lower(l.tokens[0]);
    if head == ".temp"@ {
        if l.tokens.len() > 1 {
            match resolved(h, constants(), l.tokens[1]) {
                Some(x) => NetlistOptions { temp_c: Some(x), ..o },
                None => o,
            }
        } else {
            o
        }
    } else if head == ".option"@ || head == ".options"@ {
        with_options(h, o, l.tokens, 1)
    } else {
        o
    }
}

/// The options after the first `i` lines; a later directive wins.
pub open spec fn options_of(h: Answers, lines: Seq<LineView>, i: int) -> NetlistOptions
    decreases i,
{
    if i <= 0 {
        NetlistOptions { temp_c: None, scale: None, gmin: None }
    } else {
        with_directive(h, options_of(h, lines, i - 1), lines[i - 1])
    }
}

fn constant_table() -> (r: Table)
    ensures
        entries(r) == constants(),
{
    let mut env = table_new();
    table_insert(&mut env, "pi".to_owned(), PI);
    env
}

fn apply_option<F: Fn(Ask) -> Reply>(o: NetlistOptions, t: &str, env: &Table, host: &Host<F>) -> (r: NetlistOptions)
    requires
        entries(*env) == constants(),
    ensures
        r == with_option(host.answers(), o, t@),
{
    match split_once(t, '=') {
        None => o,
        Some((k, v)) => match resolve_value(&v, env, host) {
            None => o,
            Some(x) => {
                let key = to_lower(&k);
                if same(&key, "scale") {
                    NetlistOptions { temp_c: o.temp_c, scale: Some(x), gmin: o.gmin }
                } else if same(&key, "gmin") {
                    NetlistOptions { temp_c: o.temp_c, scale: o.scale, gmin: Some(x) }
                } else if same(&key, "temp") || same(&key, "temper") {
                    NetlistOptions { temp_c: Some(x), scale: o.scale, gmin: o.gmin }
                } else {
                    o
                }
            },
        },
    }
}

/// Scan for global `.temp` / `.option` directives (the last occurrence wins).
/// `.option scale/gmin/temp` and a bare `.temp <value>` are recognised; unknown
/// options are left for the compatibility report, see
/// [`collect_unknown_options`].
pub fn collect_options<F: Fn(Ask) -> Reply>(lines: &Vec<Line>, host: &Host<F>) -> (r: NetlistOptions)
    requires
        lines_ok(line_views(lines@)),
    ensures
        r == options_of(host.answers(), line_views(lines@), lines@.len() as int),
{
    let env = constant_table();
    let ghost h = host.answers();
    let ghost all = line_views(lines@);
    let mut o = NetlistOptions { temp_c: None, scale: None, gmin: None };
    for i in 0..lines.len()
        invariant
            all == line_views(lines@),
            lines_ok(all),
            h == host.answers(),
            entries(env) == constants(),
            o == options_of(h, all, i as int),
    {
        let toks = &lines[i].tokens;
        let ghost t = texts(toks@);
        proof {
            assert(all[i as int] == lines@[i as int]@);
            assert(all[i as int].tokens.len() > 0);
            assert(t[0] == toks@[0]@);
        }
        let head = to_lower(&toks[0]);
        if same(&head, ".temp") {
            if toks.len() > 1 {
                assert(t[1] == toks@[1]@);
                if let Some(x) = resolve_value(&toks[1], &env, host) {
                    o = NetlistOptions { temp_c: Some(x), scale: o.scale, gmin: o.gmin };
                }
            }
        } else if same(&head, ".option") || same(&head, ".options") {
            let ghost start = o;
            let mut j: usize = 1;
            while j < toks.len()
                invariant
                    1 <= j <= toks@.len(),
                    t == texts(toks@),
                    h == host.answers(),
                    entries(env) == constants(),
                    with_options(h, o, t, j as int) == with_options(h, start, t, 1),
                decreases toks@.len() - j,
            {
                assert(t[j as int] == toks@[j as int]@);
                o = apply_option(o, &toks[j], &env, host);
                j += 1;
            }
        }
    }
    o
}

/// The option that a token of an `.option` line names.
pub open spec fn option_name(t: Seq<char>) -> Seq<char> {
    match halves(t, '=') {
        Some((k, _)) => k,
        None => t,
    }
}

/// An option that is recognised, by its lower-case name.
pub open spec fn known_option(k: Seq<char>) -> bool {
    k == "scale"@ || k == "gmin"@ || k == "temp"@ || k == "temper"@
}

/// The unknown options among the tokens from `i` on, as they are spelled.
pub open spec fn unknown_names(toks: Seq<Seq<char>>, i: int) -> Seq<Seq<char>>
    decreases toks.len() - i,
{
    if i < 0 || i >= toks.len() {
        seq![]
    } else if known_option(lower(option_name(toks[i]))) {
        unknown_names(toks, i + 1)
    } else {
        seq![option_name(toks[i])] + unknown_names(toks, i + 1)
    }
}

/// The unknown options of the lines from `i` on.
pub open spec fn unknown_options(lines: Seq<LineView>, i: int) -> Seq<Seq<char>>
    decreases lines.len() - i,
{
    if i < 0 || i >= lines.len() {
        seq![]
    } else {
        let head = lower(lines[i].tokens[0]);
        if head == ".option"@ || head == ".options"@ {
            unknown_names(lines[i].tokens, 1) + unknown_options(lines, i + 1)
        } else {
            unknown_options(lines, i + 1)
        }
    }
}

/// The options of a deck that are not recognised, in order.
pub fn collect_unknown_options(lines: &Vec<Line>) -> (r: Vec<String>)
    requires
        lines_ok(line_views(lines@)),
    ensures
        texts(r@) == unknown_options(line_views(lines@), 0),
{
    let ghost all = line_views(lines@);
    let ghost goal = unknown_options(all, 0);
    let mut out: Vec<String> = Vec::new();
    assert(texts(out@) + goal =~= goal);
    for i in 0..lines.len()
        invariant
            all == line_views(lines@),
            lines_ok(all),
            texts(out@) + unknown_options(all, i as int) == goal,
    {
        let toks = &lines[i].tokens;
        let ghost t = texts(toks@);
        proof {
            assert(all[i as int] == lines@[i as int]@);
            assert(all[i as int].tokens.len() > 0);
            assert(t[0] == toks@[0]@);
        }
        let head = to_lower(&toks[0]);
        if same(&head, ".option") || same(&head, ".options") {
            let ghost rest = unknown_options(all, i + 1);
            let ghost start = texts(out@);
            let ghost own = unknown_names(t, 1);
            let mut j: usize = 1;
            assert(start + own =~= texts(out@) + own);
            while j < toks.len()
                invariant
                    1 <= j <= toks@.len(),
                    t == texts(toks@),
                    texts(out@) + unknown_names(t, j as int) == start + own,
                decreases toks@.len() - j,
            {
                assert(t[j as int] == toks@[j as int]@);
                let name = match split_once(&toks[j], '=') {
                    Some((k, _)) => k,
                    None => toks[j].clone(),
                };
                let key = to_lower(&name);
                if !(same(&key, "scale") || same(&key, "gmin") || same(&key, "temp") || same(&key, "temper")) {
                    let ghost before = texts(out@);
                    let ghost more = unknown_names(t, j + 1);
                    out.push(name);
                    assert(texts(out@) =~= before.push(name@));
                    assert(before.push(name@) + more =~= before + (seq![name@] + more));
                }
                j += 1;
            }
            assert(texts(out@) + seq![] =~= texts(out@));
            assert(start + (own + rest) =~= (start + own) + rest);
        }
    }
    assert(texts(out@) + seq![] =~= texts(out@));
    out
}

// ---------------------------------------------------------------------------
// Model aliases.
// ---------------------------------------------------------------------------
/// What a `.model_alias` line has said so far.
pub struct AliasView {
    pub level: Option<u32>,
    pub module: Option<Seq<char>>,
}

pub open spec fn alias_token(h: Answers, a: AliasView, t: Seq<char>) -> AliasView {
    match halves(t, '=') {
        Some((k, v)) => if lower(k) == "level"@ {
            AliasView {
                level: match parsed(h, v) {
                    Some(x) => Some(nearest(h, x)),
                    None => None,
                },
                ..a
            }
        } else {
            a
        },
        None => match parsed(h, t) {
            Some(x) => AliasView { level: Some(nearest(h, x)), ..a },
            None => AliasView { module: Some(lower(t)), ..a },
        },
    }
}

pub open spec fn alias_line(h: Answers, a: AliasView, toks: Seq<Seq<char>>, i: int) -> AliasView
    decreases toks.len() - i,
{
    if i < 0 || i >= toks.len() {
        a
    } else {
        alias_line(h, alias_token(h, a, toks[i]), toks, i + 1)
    }
}

/// The module bound to each level by the first `i` lines.
pub open spec fn aliases_of(h: Answers, lines: Seq<LineView>, i: int) -> Map<u32, Seq<char>>
    decreases i,
{
    if i <= 0 {
        Map::empty()
    } else {
        let before = aliases_of(h, lines, i - 1);
        let l = lines[i - 1];
        if lower(l.tokens[0]) == ".model_alias"@ {
            let a = alias_line(h, AliasView { level: None, module: None }, l.tokens, 1);
            match (a.level, a.module) {
                (Some(n), Some(m)) => before.insert(n, m),
                _ => before,
            }
        } else {
            before
        }
    }
}

/// Compact-model levels and the modules bound to them.
pub struct Aliases {
    items: Vec<(u32, String)>,
}

impl Aliases {
    pub closed spec fn bindings(v: Seq<(u32, String)>) -> Map<u32, Seq<char>>
        decreases v.len(),
    {
        if v.len() == 0 {
            Map::empty()
        } else {
            Self::bindings(v.drop_last()).insert(v.last().0, v.last().1@)
        }
    }
}

impl View for Aliases {
    type V = Map<u32, Seq<char>>;

    closed spec fn view(&self) -> Map<u32, Seq<char>> {
        Self::bindings(self.items@)
    }
}

impl Aliases {
    pub fn new() -> (r: Aliases)
        ensures
            r@ == Map::<u32, Seq<char>>::empty(),
    {
        Aliases { items: Vec::new() }
    }

    pub fn insert(&mut self, level: u32, module: String)
        ensures
            final(self)@ == old(self)@.insert(level, module@),
    {
        let ghost before = self.items@;
        self.items.push((level, module));
        assert(self.items@.drop_last() =~= before);
    }

    pub fn get(&self, level: u32) -> (r: Option<String>)
        ensures
            match r {
                Some(s) => self@.contains_key(level) && s@ == self@[level],
                None => !self@.contains_key(level),
            },
    {
        let mut i: usize = self.items.len();
        assert(self.items@.take(i as int) =~= self.items@);
        while i > 0
            invariant
                i <= self.items@.len(),
                self@.contains_key(level) == Self::bindings(self.items@.take(i as int)).contains_key(level),
                self@.contains_key(level) ==> self@[level] == Self::bindings(
                    self.items@.take(i as int),
                )[level],
            decreases i,
        {
            let ghost t = self.items@.take(i as int);
            assert(t.drop_last() =~= self.items@.take(i - 1));
            assert(t.last() == self.items@[i - 1]);
            i -= 1;
            if self.items[i].0 == level {
                return Some(self.items[i].1.clone());
            }
        }
        None
    }
}

/// Collect `.model_alias level=<n> <module>` bindings: map a compact-model
/// `level` to a loaded Verilog-A module name.
pub fn collect_model_aliases<F: Fn(Ask) -> Reply>(lines: &Vec<Line>, host: &Host<F>) -> (r: Aliases)
    requires
        lines_ok(line_views(lines@)),
    ensures
        r@ == aliases_of(host.answers(), line_views(lines@), lines@.len() as int),
{
    let mut out = Aliases::new();
    let ghost h = host.answers();
    let ghost all = line_views(lines@);
    for i in 0..lines.len()
        invariant
            all == line_views(lines@),
            lines_ok(all),
            h == host.answers(),
            out@ == aliases_of(h, all, i as int),
    {
        let toks = &lines[i].tokens;
        let ghost t = texts(toks@);
        proof {
            assert(all[i as int] == lines@[i as int]@);
            assert(all[i as int].tokens.len() > 0);
            assert(t[0] == toks@[0]@);
        }
        if same(&to_lower(&toks[0]), ".model_alias") {
            let mut level: Option<u32> = None;
            let mut module: Option<String> = None;
            let ghost goal = alias_line(h, AliasView { level: None, module: None }, t, 1);
            let mut j: usize = 1;
            while j < toks.len()
                invariant
                    1 <= j <= toks@.len(),
                    t == texts(toks@),
                    h == host.answers(),
                    alias_line(
                        h,
                        AliasView { level, module: crate::circuit::text_opt(module) },
                        t,
                        j as int,
                    ) == goal,
                decreases toks@.len() - j,
            {
                assert(t[j as int] == toks@[j as int]@);
                match split_once(&toks[j], '=') {
                    Some((k, v)) => {
                        if same(&to_lower(&k), "level") {
                            level = match host.parse(&v) {
                                Some(x) => Some(host.nearest(x)),
                                None => None,
                            };
                        }
                    },
                    None => match host.parse(&toks[j]) {
                        Some(x) => {
                            level = Some(host.nearest(x));
                        },
                        None => {
                            module = Some(to_lower(&toks[j]));
                        },
                    },
                }
                j += 1;
            }
            if let Some(n) = level {
                if let Some(m) = module {
                    out.insert(n, m);
                }
            }
        }
    }
    out
}

// ---------------------------------------------------------------------------
// Parameters.
// ---------------------------------------------------------------------------
/// The open subcircuits after the first `i` lines, and the top-level `.param`
/// definitions among them.
pub open spec fn raw_params(lines: Seq<LineView>, i: int) -> (int, Seq<(Seq<char>, Seq<char>)>)
    decreases i,
{
    if i <= 0 {
        (0, seq![])
    } else {
        let (depth, raw) = raw_params(lines, i - 1);
        let l = lines[i - 1];
        let head = lower(l.tokens[0]);
        if head == ".subckt"@ {
            (depth + 1, raw)
        } else if head == ".ends"@ {
            (depth - 1, raw)
        } else if depth > 0 || head != ".param"@ {
            (depth, raw)
        } else {
            (depth, raw + assignments(l.tokens, 1))
        }
    }
}

/// One pass over the definitions `raw[i..]`: each that has no value yet and can
/// be resolved gets one.
pub open spec fn pass(
    h: Answers,
    env: Map<Seq<char>, u64>,
    raw: Seq<(Seq<char>, Seq<char>)>,
    i: int,
) -> Map<Seq<char>, u64>
    decreases raw.len() - i,
{
    if i < 0 || i >= raw.len() {
        env
    } else if env.contains_key(raw[i].0) {
        pass(h, env, raw, i + 1)
    } else {
        match resolved(h, env, raw[i].1) {
            Some(x) => pass(h, env.insert(raw[i].0, x), raw, i + 1),
            None => pass(h, env, raw, i + 1),
        }
    }
}

pub open spec fn passes(
    h: Answers,
    env: Map<Seq<char>, u64>,
    raw: Seq<(Seq<char>, Seq<char>)>,
    n: nat,
) -> Map<Seq<char>, u64>
    decreases n,
{
    if n == 0 {
        env
    } else {
        passes(h, pass(h, env, raw, 0), raw, (n - 1) as nat)
    }
}

/// The global parameters of a deck at a temperature.
pub open spec fn params_of(h: Answers, lines: Seq<LineView>, temp_c: u64) -> Map<Seq<char>, u64> {
    let raw = raw_params(lines, lines.len() as int).1;
    passes(h, constants().insert("temp"@, temp_c), raw, raw.len() + 1)
}

proof fn pass_grows(h: Answers, env: Map<Seq<char>, u64>, raw: Seq<(Seq<char>, Seq<char>)>, i: int)
    ensures
        forall|k: Seq<char>| #[trigger]
            env.contains_key(k) ==> pass(h, env, raw, i).contains_key(k) && pass(h, env, raw, i)[k] == env[k],
    decreases raw.len() - i,
{
    if 0 <= i < raw.len() {
        if env.contains_key(raw[i].0) {
            pass_grows(h, env, raw, i + 1);
        } else {
            match resolved(h, env, raw[i].1) {
                Some(x) => {
                    let e = env.insert(raw[i].0, x);
                    pass_grows(h, e, raw, i + 1);
                    assert forall|k: Seq<char>| #[trigger] env.contains_key(k) implies pass(h, env, raw, i).contains_key(k) && pass(h, env, raw, i)[k] == env[k] by {
                        assert(e.contains_key(k));
                    }
                },
                None => {
                    pass_grows(h, env, raw, i + 1);
                },
            }
        }
    }
}

proof fn settled_passes(h: Answers, env: Map<Seq<char>, u64>, raw: Seq<(Seq<char>, Seq<char>)>, n: nat)
    requires
        pass(h, env, raw, 0) == env,
    ensures
        passes(h, env, raw, n) == env,
    decreases n,
{
    if n > 0 {
        settled_passes(h, env, raw, (n - 1) as nat);
    }
}

/// How many of the definitions `raw[i..]` have no value yet.
spec fn missing(env: Map<Seq<char>, u64>, raw: Seq<(Seq<char>, Seq<char>)>, i: int) -> nat
    decreases raw.len() - i,
{
    if i < 0 || i >= raw.len() {
        0
    } else {
        missing(env, raw, i + 1) + if env.contains_key(raw[i].0) {
            0nat
        } else {
            1
        }
    }
}

proof fn missing_shrinks(
    a: Map<Seq<char>, u64>,
    b: Map<Seq<char>, u64>,
    raw: Seq<(Seq<char>, Seq<char>)>,
    i: int,
)
    requires
        0 <= i <= raw.len(),
        forall|k: Seq<char>| #[trigger] a.contains_key(k) ==> b.contains_key(k),
    ensures
        missing(b, raw, i) <= missing(a, raw, i),
        missing(a, raw, i) <= raw.len() - i,
        forall|j: int|
            i <= j < raw.len() && b.contains_key((#[trigger] raw[j]).0) && !a.contains_key(raw[j].0)
                ==> missing(b, raw, i) < missing(a, raw, i),
    decreases raw.len() - i,
{
    if i < raw.len() {
        missing_shrinks(a, b, raw, i + 1);
    }
}

/// A pass that changes anything defines one of the definitions.
proof fn pass_changes(h: Answers, env: Map<Seq<char>, u64>, raw: Seq<(Seq<char>, Seq<char>)>, i: int)
    requires
        0 <= i <= raw.len(),
    ensures
        pass(h, env, raw, i) == env || exists|j: int|
            i <= j < raw.len() && pass(h, env, raw, i).contains_key((#[trigger] raw[j]).0) && !env.contains_key(raw[j].0),
    decreases raw.len() - i,
{
    if i < raw.len() {
        if env.contains_key(raw[i].0) {
            pass_changes(h, env, raw, i + 1);
        } else {
            match resolved(h, env, raw[i].1) {
                Some(x) => {
                    let e = env.insert(raw[i].0, x);
                    pass_grows(h, e, raw, i + 1);
                    assert(e.contains_key(raw[i].0));
                    assert(pass(h, env, raw, i).contains_key(raw[i].0));
                },
                None => {
                    pass_changes(h, env, raw, i + 1);
                },
            }
        }
    }
}

proof fn enough_passes(h: Answers, env: Map<Seq<char>, u64>, raw: Seq<(Seq<char>, Seq<char>)>, n: nat)
    requires
        missing(env, raw, 0) < n,
    ensures
        pass(h, passes(h, env, raw, n), raw, 0) == passes(h, env, raw, n),
    decreases n,
{
    let e = pass(h, env, raw, 0);
    pass_changes(h, env, raw, 0);
    if e == env {
        settled_passes(h, env, raw, n);
    } else {
        pass_grows(h, env, raw, 0);
        missing_shrinks(env, e, raw, 0);
        let j = choose|j: int| 0 <= j < raw.len() && e.contains_key((#[trigger] raw[j]).0) && !env.contains_key(raw[j].0);
        assert(e.contains_key(raw[j].0) && !env.contains_key(raw[j].0));
        enough_passes(h, e, raw, (n - 1) as nat);
    }
}

/// Parameter resolution reaches a fixpoint: no definition that is left without
/// a value can be resolved among the resulting parameters.
pub proof fn params_are_settled(h: Answers, lines: Seq<LineView>, temp_c: u64)
    ensures
        ({
            let raw = raw_params(lines, lines.len() as int).1;
            let env = params_of(h, lines, temp_c);
            pass(h, env, raw, 0) == env && forall|i: int|
                0 <= i < raw.len() ==> env.contains_key((#[trigger] raw[i]).0) || resolved(h, env, raw[i].1) is None
        }),
{
    let raw = raw_params(lines, lines.len() as int).1;
    let start = constants().insert("temp"@, temp_c);
    missing_shrinks(start, start, raw, 0);
    enough_passes(h, start, raw, raw.len() + 1);
    let env = params_of(h, lines, temp_c);
    settled_everywhere(h, env, raw, 0);
}

proof fn settled_everywhere(h: Answers, env: Map<Seq<char>, u64>, raw: Seq<(Seq<char>, Seq<char>)>, i: int)
    requires
        0 <= i <= raw.len(),
        pass(h, env, raw, i) == env,
    ensures
        forall|j: int|
            i <= j < raw.len() ==> env.contains_key((#[trigger] raw[j]).0) || resolved(h, env, raw[j].1) is None,
    decreases raw.len() - i,
{
    if i < raw.len() {
        if env.contains_key(raw[i].0) {
            settled_everywhere(h, env, raw, i + 1);
        } else {
            match resolved(h, env, raw[i].1) {
                Some(x) => {
                    let e = env.insert(raw[i].0, x);
                    pass_grows(h, e, raw, i + 1);
                    assert(e.contains_key(raw[i].0));
                    assert(env.contains_key(raw[i].0));
                },
                None => {
                    settled_everywhere(h, env, raw, i + 1);
                },
            }
        }
    }
}

/// Resolve `.param NAME=expr` definitions into a table of numbers. Parameters
/// may refer to each other and to the constants `pi` and `temp`; they are
/// resolved to a fixpoint.
pub fn resolve_params<F: Fn(Ask) -> Reply>(lines: &Vec<Line>, temp_c: u64, host: &Host<F>) -> (r: Table)
    requires
        lines_ok(line_views(lines@)),
    ensures
        entries(r) == params_of(host.answers(), line_views(lines@), temp_c),
{
    let mut env = constant_table();
    table_insert(&mut env, "temp".to_owned(), temp_c);
    let ghost h = host.answers();
    let ghost all = line_views(lines@);
    let mut raw: Vec<(String, String)> = Vec::new();
    let mut depth: i128 = 0;
    assert(pairs_text(raw@) =~= seq![]);
    for i in 0..lines.len()
        invariant
            all == line_views(lines@),
            lines_ok(all),
            -(i as int) <= depth <= i,
            (depth as int, pairs_text(raw@)) == raw_params(all, i as int),
    {
        let toks = &lines[i].tokens;
        let ghost t = texts(toks@);
        proof {
            assert(all[i as int] == lines@[i as int]@);
            assert(all[i as int].tokens.len() > 0);
            assert(t[0] == toks@[0]@);
        }
        let head = to_lower(&toks[0]);
        if same(&head, ".subckt") {
            depth = depth + 1;
        } else if same(&head, ".ends") {
            depth = depth - 1;
        } else if depth <= 0 && same(&head, ".param") {
            let mut more = assignments_of(toks, 1);
            let ghost before = pairs_text(raw@);
            let ghost mv = pairs_text(more@);
            raw.append(&mut more);
            assert(pairs_text(raw@) =~= before + mv);
        }
    }
    let ghost rv = pairs_text(raw@);
    let ghost goal = params_of(h, all, temp_c);
    let mut left: u128 = raw.len() as u128 + 1;
    let mut progress: bool = true;
    while progress && left > 0
        invariant
            rv == pairs_text(raw@),
            h == host.answers(),
            progress ==> passes(h, entries(env), rv, left as nat) == goal,
            !progress ==> entries(env) == goal,
        decreases left,
    {
        progress = false;
        let ghost start = entries(env);
        for i in 0..raw.len()
            invariant
                rv == pairs_text(raw@),
                h == host.answers(),
                pass(h, entries(env), rv, i as int) == pass(h, start, rv, 0),
                !progress ==> entries(env) == start,
        {
            assert(rv[i as int] == (raw@[i as int].0@, raw@[i as int].1@));
            if table_get(&env, &raw[i].0).is_none() {
                if let Some(x) = resolve_value(&raw[i].1, &env, host) {
                    table_insert(&mut env, raw[i].0.clone(), x);
                    progress = true;
                }
            }
        }
        proof {
            if !progress {
                settled_passes(h, start, rv, left as nat);
            }
        }
        left = left - 1;
    }
    env
}

} // verus!

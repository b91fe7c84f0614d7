//! Subcircuit flattening: expand the `.subckt`/`X` hierarchy into a flat list of
//! primitive element lines before parsing.
//!
//! Each `X` instance is expanded recursively: port nodes map to the caller's
//! nodes, internal nodes and element names are prefixed with the instance path
//! (`X1.`, `X1.X2.`, ...), and subcircuit/instance parameters are folded into a
//! local table used to evaluate `{...}` value expressions. Subcircuit names are
//! a global namespace; `.model` cards inside a subcircuit stay unprefixed.
use crate::netlist::error::{err, ErrorView, ParseError};
use crate::netlist::expr::{
    lex, lexed, logic_text, rel_name, rel_text, resolve_value, resolved, tok_views, value_body,
    value_expr, Tok, TokView,
};
use crate::netlist::preprocess::{line_views, Line, LineView};
use crate::numerics::{
    apply1, compares, shown, whole, Answers, Ask, Host, Op1, Rel, Reply, Style,
};
use crate::table::{entries, table_clone, table_get, table_insert, table_new, Table};
use crate::text::{
    chars_of, concat2, concat3, contains_text, copy_texts, decimal, decimal_text, halves, has_char,
    holds_char, holds_text, join, join_texts, lower, occurs, same, signed_decimal, signed_text, split_once,
    texts, to_lower, to_upper_char, trim, trimmed, upper_char,
};
use vstd::prelude::*;

verus! {

// ---------------------------------------------------------------------------
// Names in a subcircuit.
// ---------------------------------------------------------------------------
/// The spellings of the ground node.
pub open spec fn names_ground(key: Seq<char>) -> bool {
    key == "0"@ || key == "gnd"@ || key == "ground"@
}

fn is_ground(key: &str) -> (r: bool)
    ensures
        r == names_ground(key@),
{
    same(key, "0") || same(key, "gnd") || same(key, "ground")
}

/// The outer names of a subcircuit's nodes, by lower-case inner name.
pub struct Renames {
    index: Table,
    names: Vec<String>,
}

impl View for Renames {
    type V = Map<Seq<char>, Seq<char>>;

    closed spec fn view(&self) -> Map<Seq<char>, Seq<char>> {
        Map::new(
            |k: Seq<char>| entries(self.index).contains_key(k),
            |k: Seq<char>| self.names@[entries(self.index)[k] as int]@,
        )
    }
}

impl Renames {
    pub closed spec fn wf(&self) -> bool {
        forall|k: Seq<char>| #[trigger]
            entries(self.index).contains_key(k) ==> entries(self.index)[k] < self.names@.len()
    }

    pub fn new() -> (r: Renames)
        ensures
            r.wf(),
            r@ == Map::<Seq<char>, Seq<char>>::empty(),
    {
        let r = Renames { index: table_new(), names: Vec::new() };
        assert(r@ =~= Map::<Seq<char>, Seq<char>>::empty());
        r
    }

    pub fn get(&self, key: &str) -> (r: Option<String>)
        requires
            self.wf(),
        ensures
            match r {
                Some(s) => self@.contains_key(key@) && s@ == self@[key@],
                None => !self@.contains_key(key@),
            },
    {
        let n: usize = self.names.len();
        match table_get(&self.index, key) {
            Some(i) => {
                assert(entries(self.index).contains_key(key@));
                assert(i < n);
                Some(self.names[i as usize].clone())
            },
            None => None,
        }
    }

    pub fn insert(&mut self, key: String, name: String)
        requires
            old(self).wf(),
        ensures
            final(self).wf(),
            final(self)@ == old(self)@.insert(key@, name@),
    {
        let i: usize = self.names.len();
        let ghost before = *self;
        table_insert(&mut self.index, key, i as u64);
        self.names.push(name);
        proof {
            assert forall|k: Seq<char>| #[trigger] entries(self.index).contains_key(k) implies entries(
                self.index,
            )[k] < self.names@.len() by {
                if k != key@ {
                    assert(entries(before.index).contains_key(k));
                }
            }
            assert forall|k: Seq<char>| self@.contains_key(k) implies self@[k] == before@.insert(
                key@,
                name@,
            )[k] by {
                if k != key@ {
                    assert(entries(before.index).contains_key(k));
                }
            }
            assert(self@ =~= before@.insert(key@, name@));
        }
    }
}

/// The outer name of a node, and the names known from then on. Ground and
/// global nodes keep their identity; a node met for the first time gets the
/// instance's prefix.
pub open spec fn outer_node(
    globals: Seq<Seq<char>>,
    known: Map<Seq<char>, Seq<char>>,
    prefix: Seq<char>,
    tok: Seq<char>,
) -> (Seq<char>, Map<Seq<char>, Seq<char>>) {
    let key = lower(tok);
    if names_ground(key) {
        ("0"@, known)
    } else if globals.contains(key) {
        (tok, known)
    } else if known.contains_key(key) {
        (known[key], known)
    } else {
        (prefix + tok, known.insert(key, prefix + tok))
    }
}

/// Map a subcircuit-internal node token to a concrete node name.
fn resolve_node(tok: &str, prefix: &str, nmap: &mut Renames, globals: &Vec<String>) -> (r: String)
    requires
        old(nmap).wf(),
    ensures
        final(nmap).wf(),
        (r@, final(nmap)@) == outer_node(texts(globals@), old(nmap)@, prefix@, tok@),
{
    let key = to_lower(tok);
    if is_ground(&key) {
        return "0".to_owned();
    }
    if contains_text(globals, &key) {
        return tok.to_owned();
    }
    if let Some(v) = nmap.get(&key) {
        return v;
    }
    let v = concat2(prefix, tok);
    nmap.insert(key, v.clone());
    v
}

/// The outer names of the tokens `toks[i..end]`.
pub open spec fn outer_nodes(
    globals: Seq<Seq<char>>,
    known: Map<Seq<char>, Seq<char>>,
    prefix: Seq<char>,
    toks: Seq<Seq<char>>,
    i: int,
    end: int,
) -> (Seq<Seq<char>>, Map<Seq<char>, Seq<char>>)
    decreases end - i,
{
    if i >= end {
        (seq![], known)
    } else {
        let (name, next) = outer_node(globals, known, prefix, toks[i]);
        let (rest, last) = outer_nodes(globals, next, prefix, toks, i + 1, end);
        (seq![name] + rest, last)
    }
}

fn resolve_nodes(
    toks: &Vec<String>,
    from: usize,
    end: usize,
    prefix: &str,
    nmap: &mut Renames,
    globals: &Vec<String>,
) -> (r: Vec<String>)
    requires
        old(nmap).wf(),
        from <= end <= toks@.len(),
    ensures
        final(nmap).wf(),
        (texts(r@), final(nmap)@) == outer_nodes(
            texts(globals@),
            old(nmap)@,
            prefix@,
            texts(toks@),
            from as int,
            end as int,
        ),
{
    let mut out: Vec<String> = Vec::new();
    let mut i: usize = from;
    let ghost g = texts(globals@);
    let ghost t = texts(toks@);
    let ghost goal = outer_nodes(g, nmap@, prefix@, t, from as int, end as int);
    assert(texts(out@) + goal.0 =~= goal.0);
    while i < end
        invariant
            from <= i <= end <= toks@.len(),
            g == texts(globals@),
            t == texts(toks@),
            nmap.wf(),
            texts(out@) + outer_nodes(g, nmap@, prefix@, t, i as int, end as int).0 == goal.0,
            outer_nodes(g, nmap@, prefix@, t, i as int, end as int).1 == goal.1,
        decreases end - i,
    {
        let ghost before = texts(out@);
        let ghost known = nmap@;
        assert(t[i as int] == toks@[i as int]@);
        let name = resolve_node(&toks[i], prefix, nmap, globals);
        out.push(name);
        proof {
            let rest = outer_nodes(g, nmap@, prefix@, t, i + 1, end as int).0;
            assert(texts(out@) =~= before.push(name@));
            assert(before.push(name@) + rest =~= before + (seq![name@] + rest));
        }
        i += 1;
    }
    assert(texts(out@) + seq![] =~= texts(out@));
    out
}

// ---------------------------------------------------------------------------
// Assignments.
// ---------------------------------------------------------------------------
/// The `key=value` tokens of `toks[i..]`, keys in lower case.
pub open spec fn assignments(toks: Seq<Seq<char>>, i: int) -> Seq<(Seq<char>, Seq<char>)>
    decreases toks.len() - i,
{
    if i < 0 || i >= toks.len() {
        seq![]
    } else {
        let rest = assignments(toks, i + 1);
        match halves(toks[i], '=') {
            Some((k, v)) => seq![(lower(k), v)] + rest,
            None => rest,
        }
    }
}

pub open spec fn pairs_text(v: Seq<(String, String)>) -> Seq<(Seq<char>, Seq<char>)> {
    v.map_values(|p: (String, String)| (p.0@, p.1@))
}

pub(crate) fn assignments_of(toks: &Vec<String>, from: usize) -> (r: Vec<(String, String)>)
    requires
        from <= toks@.len(),
    ensures
        pairs_text(r@) == assignments(texts(toks@), from as int),
{
    let mut out: Vec<(String, String)> = Vec::new();
    let mut i: usize = from;
    let ghost t = texts(toks@);
    assert(pairs_text(out@) + assignments(t, from as int) =~= assignments(t, from as int));
    while i < toks.len()
        invariant
            from <= i <= toks@.len(),
            t == texts(toks@),
            pairs_text(out@) + assignments(t, i as int) == assignments(t, from as int),
        decreases toks@.len() - i,
    {
        let ghost before = pairs_text(out@);
        assert(t[i as int] == toks@[i as int]@);
        if let Some((k, v)) = split_once(&toks[i], '=') {
            let key = to_lower(&k);
            let ghost item = (key@, v@);
            out.push((key, v));
            proof {
                assert(pairs_text(out@) =~= before.push(item));
                assert(before.push(item) + assignments(t, i + 1) =~= before + (seq![item] + assignments(t, i + 1)));
            }
        }
        i += 1;
    }
    assert(pairs_text(out@) + seq![] =~= pairs_text(out@));
    out
}

/// The parameters after the assignments `defs[i..]`, each value resolved among
/// `scope`, or among the parameters themselves where `scope` is absent.
pub open spec fn bound(
    h: Answers,
    env: Map<Seq<char>, u64>,
    scope: Option<Map<Seq<char>, u64>>,
    defs: Seq<(Seq<char>, Seq<char>)>,
    i: int,
) -> Map<Seq<char>, u64>
    decreases defs.len() - i,
{
    if i < 0 || i >= defs.len() {
        env
    } else {
        let among = match scope {
            Some(s) => s,
            None => env,
        };
        let next = match resolved(h, among, defs[i].1) {
            Some(x) => env.insert(defs[i].0, x),
            None => env,
        };
        bound(h, next, scope, defs, i + 1)
    }
}

/// Bind assignments in order, each seeing those before it.
pub(crate) fn bind_all<F: Fn(Ask) -> Reply>(env: &mut Table, defs: &Vec<(String, String)>, host: &Host<F>)
    ensures
        entries(*final(env)) == bound(host.answers(), entries(*old(env)), None, pairs_text(defs@), 0),
{
    let ghost d = pairs_text(defs@);
    let ghost goal = bound(host.answers(), entries(*env), None, d, 0);
    for i in 0..defs.len()
        invariant
            d == pairs_text(defs@),
            bound(host.answers(), entries(*env), None, d, i as int) == goal,
    {
        assert(d[i as int] == (defs@[i as int].0@, defs@[i as int].1@));
        if let Some(x) = resolve_value(&defs[i].1, env, host) {
            table_insert(env, defs[i].0.clone(), x);
        }
    }
}

/// Bind assignments whose values are resolved in the caller's scope.
fn bind_from<F: Fn(Ask) -> Reply>(env: &mut Table, scope: &Table, defs: &Vec<(String, String)>, host: &Host<F>)
    ensures
        entries(*final(env)) == bound(
            host.answers(),
            entries(*old(env)),
            Some(entries(*scope)),
            pairs_text(defs@),
            0,
        ),
{
    let ghost d = pairs_text(defs@);
    let ghost goal = bound(host.answers(), entries(*env), Some(entries(*scope)), d, 0);
    for i in 0..defs.len()
        invariant
            d == pairs_text(defs@),
            bound(host.answers(), entries(*env), Some(entries(*scope)), d, i as int) == goal,
    {
        assert(d[i as int] == (defs@[i as int].0@, defs@[i as int].1@));
        if let Some(x) = resolve_value(&defs[i].1, scope, host) {
            table_insert(env, defs[i].0.clone(), x);
        }
    }
}

// ---------------------------------------------------------------------------
// Definitions.
// ---------------------------------------------------------------------------
/// A subcircuit definition: its ports, default parameters and body lines.
pub struct Subckt {
    pub ports: Vec<String>,
    pub defaults: Vec<(String, String)>,
    pub body: Vec<Line>,
}

pub struct SubcktView {
    pub ports: Seq<Seq<char>>,
    pub defaults: Seq<(Seq<char>, Seq<char>)>,
    pub body: Seq<LineView>,
}

impl View for Subckt {
    type V = SubcktView;

    open spec fn view(&self) -> SubcktView {
        SubcktView {
            ports: texts(self.ports@),
            defaults: pairs_text(self.defaults@),
            body: line_views(self.body@),
        }
    }
}

/// The ports of a `.subckt` line from token `i` on.
pub open spec fn ports_of(toks: Seq<Seq<char>>, i: int) -> Seq<Seq<char>>
    decreases toks.len() - i,
{
    if i < 0 || i >= toks.len() {
        seq![]
    } else if lower(toks[i]) == "params:"@ || has_char(toks[i], '=') {
        ports_of(toks, i + 1)
    } else {
        seq![toks[i]] + ports_of(toks, i + 1)
    }
}

/// The default parameters of a `.subckt` line from token `i` on.
pub open spec fn defaults_of(toks: Seq<Seq<char>>, i: int) -> Seq<(Seq<char>, Seq<char>)>
    decreases toks.len() - i,
{
    if i < 0 || i >= toks.len() {
        seq![]
    } else if lower(toks[i]) == "params:"@ || !has_char(toks[i], '=') {
        defaults_of(toks, i + 1)
    } else {
        let (k, v) = halves(toks[i], '=')->0;
        seq![(lower(k), v)] + defaults_of(toks, i + 1)
    }
}

/// What has been collected so far: the finished definitions by name, the lines
/// outside any, and the definitions still open.
pub struct Collected {
    pub subs: Map<Seq<char>, SubcktView>,
    pub top: Seq<LineView>,
    pub open_subs: Seq<(Seq<char>, SubcktView)>,
}

pub open spec fn with_line(c: Collected, l: LineView) -> Result<Collected, ErrorView> {
    let head = lower(l.tokens[0]);
    if head == ".subckt"@ {
        if l.tokens.len() < 2 {
            Err(ErrorView { line: l.no, col: 0, msg: ".subckt needs a name"@ })
        } else {
            let sub = SubcktView {
                ports: ports_of(l.tokens, 2),
                defaults: defaults_of(l.tokens, 2),
                body: seq![],
            };
            Ok(Collected { open_subs: c.open_subs.push((lower(l.tokens[1]), sub)), ..c })
        }
    } else if head == ".ends"@ {
        if c.open_subs.len() == 0 {
            Err(ErrorView { line: l.no, col: 0, msg: ".ends without .subckt"@ })
        } else {
            let (name, sub) = c.open_subs.last();
            Ok(
                Collected {
                    subs: c.subs.insert(name, sub),
                    open_subs: c.open_subs.drop_last(),
                    ..c
                },
            )
        }
    } else if c.open_subs.len() > 0 {
        let (name, sub) = c.open_subs.last();
        let longer = SubcktView { body: sub.body.push(l), ..sub };
        Ok(Collected { open_subs: c.open_subs.drop_last().push((name, longer)), ..c })
    } else {
        Ok(Collected { top: c.top.push(l), ..c })
    }
}

pub open spec fn collected(lines: Seq<LineView>, i: int) -> Result<Collected, ErrorView>
    decreases i,
{
    if i <= 0 {
        Ok(Collected { subs: Map::empty(), top: seq![], open_subs: seq![] })
    } else {
        match collected(lines, i - 1) {
            Err(e) => Err(e),
            Ok(c) => with_line(c, lines[i - 1]),
        }
    }
}

/// The subcircuit definitions of a deck, by lower-case name.
pub struct Subckts {
    index: Table,
    defs: Vec<Subckt>,
}

impl View for Subckts {
    type V = Map<Seq<char>, SubcktView>;

    closed spec fn view(&self) -> Map<Seq<char>, SubcktView> {
        Map::new(
            |k: Seq<char>| entries(self.index).contains_key(k),
            |k: Seq<char>| self.defs@[entries(self.index)[k] as int]@,
        )
    }
}

impl Subckts {
    pub closed spec fn wf(&self) -> bool {
        forall|k: Seq<char>| #[trigger]
            entries(self.index).contains_key(k) ==> entries(self.index)[k] < self.defs@.len()
    }

    fn new() -> (r: Subckts)
        ensures
            r.wf(),
            r@ == Map::<Seq<char>, SubcktView>::empty(),
    {
        let r = Subckts { index: table_new(), defs: Vec::new() };
        assert(r@ =~= Map::<Seq<char>, SubcktView>::empty());
        r
    }

    fn get(&self, key: &str) -> (r: Option<&Subckt>)
        requires
            self.wf(),
        ensures
            match r {
                Some(s) => self@.contains_key(key@) && s@ == self@[key@],
                None => !self@.contains_key(key@),
            },
    {
        let n: usize = self.defs.len();
        match table_get(&self.index, key) {
            Some(i) => {
                assert(entries(self.index).contains_key(key@));
                assert(i < n);
                Some(&self.defs[i as usize])
            },
            None => None,
        }
    }

    fn insert(&mut self, key: String, def: Subckt)
        requires
            old(self).wf(),
        ensures
            final(self).wf(),
            final(self)@ == old(self)@.insert(key@, def@),
    {
        let i: usize = self.defs.len();
        let ghost before = *self;
        table_insert(&mut self.index, key, i as u64);
        self.defs.push(def);
        proof {
            assert forall|k: Seq<char>| #[trigger] entries(self.index).contains_key(k) implies entries(
                self.index,
            )[k] < self.defs@.len() by {
                if k != key@ {
                    assert(entries(before.index).contains_key(k));
                }
            }
            assert forall|k: Seq<char>| self@.contains_key(k) implies self@[k] == before@.insert(
                key@,
                def@,
            )[k] by {
                if k != key@ {
                    assert(entries(before.index).contains_key(k));
                }
            }
            assert(self@ =~= before@.insert(key@, def@));
        }
    }
}

pub(crate) fn copy_line(l: &Line) -> (r: Line)
    ensures
        r@ == l@,
{
    Line { no: l.no, col: l.col, tokens: copy_texts(&l.tokens) }
}

fn split_ports(toks: &Vec<String>) -> (r: (Vec<String>, Vec<(String, String)>))
    requires
        toks@.len() >= 2,
    ensures
        texts(r.0@) == ports_of(texts(toks@), 2),
        pairs_text(r.1@) == defaults_of(texts(toks@), 2),
{
    let mut ports: Vec<String> = Vec::new();
    let mut defaults: Vec<(String, String)> = Vec::new();
    let ghost t = texts(toks@);
    let mut i: usize = 2;
    assert(texts(ports@) + ports_of(t, 2) =~= ports_of(t, 2));
    assert(pairs_text(defaults@) + defaults_of(t, 2) =~= defaults_of(t, 2));
    while i < toks.len()
        invariant
            2 <= i <= toks@.len(),
            t == texts(toks@),
            texts(ports@) + ports_of(t, i as int) == ports_of(t, 2),
            pairs_text(defaults@) + defaults_of(t, i as int) == defaults_of(t, 2),
        decreases toks@.len() - i,
    {
        let ghost p0 = texts(ports@);
        let ghost d0 = pairs_text(defaults@);
        assert(t[i as int] == toks@[i as int]@);
        if !same(&to_lower(&toks[i]), "params:") {
            match split_once(&toks[i], '=') {
                Some((k, v)) => {
                    let key = to_lower(&k);
                    let ghost item = (key@, v@);
                    defaults.push((key, v));
                    proof {
                        assert(pairs_text(defaults@) =~= d0.push(item));
                        assert(d0.push(item) + defaults_of(t, i + 1) =~= d0 + (seq![item] + defaults_of(t, i + 1)));
                    }
                },
                None => {
                    let c = toks[i].clone();
                    ports.push(c);
                    proof {
                        assert(texts(ports@) =~= p0.push(t[i as int]));
                        assert(p0.push(t[i as int]) + ports_of(t, i + 1) =~= p0 + (seq![t[i as int]] + ports_of(t, i + 1)));
                    }
                },
            }
        }
        i += 1;
    }
    assert(texts(ports@) + seq![] =~= texts(ports@));
    assert(pairs_text(defaults@) + seq![] =~= pairs_text(defaults@));
    (ports, defaults)
}

spec fn open_views(v: Seq<(String, Subckt)>) -> Seq<(Seq<char>, SubcktView)> {
    v.map_values(|p: (String, Subckt)| (p.0@, p.1@))
}

/// Every line has a token, and the first one is not empty.
pub open spec fn lines_ok(lines: Seq<LineView>) -> bool {
    forall|i: int|
        0 <= i < lines.len() ==> (#[trigger] lines[i]).tokens.len() > 0 && lines[i].tokens[0].len() > 0
}

/// Split lines into subcircuit definitions (global) and top-level lines.
fn collect(lines: &Vec<Line>) -> (r: Result<(Subckts, Vec<Line>), ParseError>)
    requires
        lines_ok(line_views(lines@)),
    ensures
        match (r, collected(line_views(lines@), lines@.len() as int)) {
            (Ok((s, t)), Ok(c)) => s.wf() && s@ == c.subs && line_views(t@) == c.top,
            (Err(e), Err(v)) => e@ == v,
            _ => false,
        },
{
    let mut subs = Subckts::new();
    let mut top: Vec<Line> = Vec::new();
    let mut stack: Vec<(String, Subckt)> = Vec::new();
    let ghost all = line_views(lines@);
    assert(line_views(top@) =~= seq![]);
    assert(open_views(stack@) =~= seq![]);
    for i in 0..lines.len()
        invariant
            all == line_views(lines@),
            lines_ok(all),
            subs.wf(),
            collected(all, i as int) == Ok::<Collected, ErrorView>(
                Collected { subs: subs@, top: line_views(top@), open_subs: open_views(stack@) },
            ),
    {
        let line = &lines[i];
        let ghost l = line@;
        let ghost t0 = line_views(top@);
        let ghost s0 = open_views(stack@);
        proof {
            assert(all[i as int] == l);
            assert(all[i as int].tokens.len() > 0);
            assert(l.tokens[0] == line.tokens@[0]@);
            reveal_with_fuel(collected, 2);
            assert(forall|e: ErrorView| with_line(Collected { subs: subs@, top: t0, open_subs: s0 }, l)
                == Err::<Collected, ErrorView>(e) ==> collected(all, all.len() as int) == Err::<
                Collected,
                ErrorView,
            >(e)) by {
                error_stays(all, i + 1, all.len() as int);
            }
        }
        let head = to_lower(&line.tokens[0]);
        if same(&head, ".subckt") {
            if line.tokens.len() < 2 {
                return Err(err(line.no, ".subckt needs a name"));
            }
            let (ports, defaults) = split_ports(&line.tokens);
            assert(l.tokens[1] == line.tokens@[1]@);
            let body: Vec<Line> = Vec::new();
            assert(line_views(body@) =~= seq![]);
            let item = (to_lower(&line.tokens[1]), Subckt { ports, defaults, body });
            let ghost iv = (item.0@, item.1@);
            stack.push(item);
            assert(open_views(stack@) =~= s0.push(iv));
        } else if same(&head, ".ends") {
            match stack.pop() {
                None => {
                    return Err(err(line.no, ".ends without .subckt"));
                },
                Some((name, sub)) => {
                    assert(s0.last() == (name@, sub@));
                    assert(open_views(stack@) =~= s0.drop_last());
                    subs.insert(name, sub);
                },
            }
        } else {
            match stack.pop() {
                Some((name, sub)) => {
                    assert(s0.last() == (name@, sub@));
                    assert(open_views(stack@) =~= s0.drop_last());
                    let ghost sv = sub@;
                    let Subckt { ports, defaults, body } = sub;
                    let mut body = body;
                    body.push(copy_line(line));
                    assert(line_views(body@) =~= sv.body.push(l));
                    let item = (name, Subckt { ports, defaults, body });
                    let ghost iv = (item.0@, item.1@);
                    let ghost kept = open_views(stack@);
                    stack.push(item);
                    assert(open_views(stack@) =~= kept.push(iv));
                },
                None => {
                    assert(open_views(stack@) =~= s0);
                    top.push(copy_line(line));
                    assert(line_views(top@) =~= t0.push(l));
                },
            }
        }
    }
    Ok((subs, top))
}

proof fn error_stays(lines: Seq<LineView>, i: int, n: int)
    requires
        0 <= i <= n,
    ensures
        collected(lines, i) is Err ==> collected(lines, n) == collected(lines, i),
    decreases n,
{
    if i < n {
        error_stays(lines, i, n - 1);
    }
}


// ---------------------------------------------------------------------------
// Values.
// ---------------------------------------------------------------------------
pub const WHOLE_LIMIT: u64 = 0x430c_6bf5_2634_0000;

/// A number as a token that reads back as the number; whole numbers stay
/// integers, so that numeric node names inside `V()` survive.
pub open spec fn number_token(h: Answers, x: u64) -> Seq<char> {
    match whole(h, x) {
        Some(i) => if compares(h, Rel::Lt, apply1(h, Op1::Abs, x), WHOLE_LIMIT) {
            signed_decimal(i as int)
        } else {
            shown(h, Style::Scientific, x)
        },
        None => shown(h, Style::Scientific, x),
    }
}

/// Format a number as a re-lexable token.
fn fmt_num<F: Fn(Ask) -> Reply>(x: u64, host: &Host<F>) -> (r: String)
    ensures
        r@ == number_token(host.answers(), x),
{
    match host.whole(x) {
        Some(i) => {
            let m: u64 = host.apply1(Op1::Abs, x);
            if host.compares(Rel::Lt, m, WHOLE_LIMIT) {
                signed_text(i)
            } else {
                host.shown(Style::Scientific, x)
            }
        },
        None => host.shown(Style::Scientific, x),
    }
}

/// Whether a token is an expression wrapped in `{...}` or `'...'`.
pub open spec fn delimited(s: Seq<char>) -> bool {
    ||| s.len() > 0 && s[0] == '{' && s.last() == '}'
    ||| s.len() >= 2 && s[0] == '\'' && s.last() == '\''
}

fn is_expr(tok: &str) -> (r: bool)
    ensures
        r == delimited(tok@),
{
    let v = chars_of(tok);
    let n: usize = v.len();
    (n > 0 && v[0] == '{' && v[n - 1] == '}') || (n >= 2 && v[0] == '\'' && v[n - 1] == '\'')
}

/// A value token with its expression evaluated, where it is one that can be.
pub open spec fn substituted(h: Answers, env: Map<Seq<char>, u64>, tok: Seq<char>) -> Seq<char> {
    if delimited(tok) {
        match resolved(h, env, tok) {
            Some(x) => shown(h, Style::Plain, x),
            None => tok,
        }
    } else {
        match halves(tok, '=') {
            Some((k, v)) => if delimited(v) {
                match resolved(h, env, v) {
                    Some(x) => k + "="@ + shown(h, Style::Plain, x),
                    None => tok,
                }
            } else {
                tok
            },
            None => tok,
        }
    }
}

/// Substitute a value token: evaluate an expression wrapped in `{...}` or
/// `'...'`, both as a bare value and on the right of `key=expr`. Plain numbers,
/// keywords and model names are left untouched.
fn subst_value<F: Fn(Ask) -> Reply>(tok: &str, env: &Table, host: &Host<F>) -> (r: String)
    ensures
        r@ == substituted(host.answers(), entries(*env), tok@),
{
    if is_expr(tok) {
        return match resolve_value(tok, env, host) {
            Some(x) => host.shown(Style::Plain, x),
            None => tok.to_owned(),
        };
    }
    if let Some((k, v)) = split_once(tok, '=') {
        if is_expr(&v) {
            if let Some(x) = resolve_value(&v, env, host) {
                return concat3(&k, "=", &host.shown(Style::Plain, x));
            }
        }
    }
    tok.to_owned()
}

/// Whether a value refers to a node voltage or a branch current.
pub open spec fn refers(s: Seq<char>) -> bool {
    occurs(lower(s), "v("@) || occurs(lower(s), "i("@)
}

/// Whether a value string carries a node-voltage / branch-current reference, so
/// it must be lowered as a behavioral element rather than a constant.
pub fn is_behavioral_value(s: &str) -> (r: bool)
    ensures
        r == refers(s@),
{
    let l = to_lower(s);
    holds_text(&l, "v(") || holds_text(&l, "i(")
}

// ---------------------------------------------------------------------------
// Behavioral expressions.
// ---------------------------------------------------------------------------
/// Where names of a subcircuit are looked up.
pub struct Site {
    pub h: Answers,
    pub globals: Seq<Seq<char>>,
    pub prefix: Seq<char>,
}

impl Site {
    pub open spec fn node(self, known: Map<Seq<char>, Seq<char>>, tok: Seq<char>) -> (
        Seq<char>,
        Map<Seq<char>, Seq<char>>,
    ) {
        outer_node(self.globals, known, self.prefix, tok)
    }

    /// The text of a reference's arguments from `i` up to the closing
    /// parenthesis: its text, the names known after it, and where it stands.
    pub open spec fn inside(
        self,
        known: Map<Seq<char>, Seq<char>>,
        t: Seq<TokView>,
        i: int,
        voltage: bool,
    ) -> (Seq<char>, Map<Seq<char>, Seq<char>>, int)
        decreases t.len() - i,
    {
        if i < 0 || i >= t.len() || t[i] == TokView::RParen {
            (seq![], known, i)
        } else {
            let (text, next) = match t[i] {
                TokView::Comma => (","@, known),
                TokView::Ident(n) => if voltage {
                    self.node(known, n)
                } else {
                    (self.prefix + n, known)
                },
                TokView::Num(x) => self.node(known, number_token(self.h, x)),
                _ => (seq![], known),
            };
            let (rest, last, end) = self.inside(next, t, i + 1, voltage);
            (text + rest, last, end)
        }
    }

    /// The expression `t[i..]` with its node and element names replaced and its
    /// parameters folded to numbers, and the names known after it.
    pub open spec fn folded(
        self,
        known: Map<Seq<char>, Seq<char>>,
        env: Map<Seq<char>, u64>,
        t: Seq<TokView>,
        i: int,
    ) -> (Seq<char>, Map<Seq<char>, Seq<char>>)
        decreases t.len() + 1 - i,
    {
        if i < 0 || i >= t.len() {
            (seq![], known)
        } else {
            match t[i] {
                TokView::Ident(name) => {
                    let key = lower(name);
                    let call = i + 1 < t.len() && t[i + 1] == TokView::LParen;
                    if call && (key == "v"@ || key == "i"@) {
                        let (args, next, end) = self.inside(known, t, i + 2, key == "v"@);
                        if i + 2 <= end <= t.len() {
                            let (rest, last) = self.folded(next, env, t, end + 1);
                            (key + "("@ + args + ")"@ + rest, last)
                        } else {
                            (seq![], known)
                        }
                    } else {
                        let text = if call {
                            key
                        } else if env.contains_key(key) {
                            number_token(self.h, env[key])
                        } else {
                            name
                        };
                        let (rest, last) = self.folded(known, env, t, i + 1);
                        (text + rest, last)
                    }
                },
                _ => {
                    let (rest, last) = self.folded(known, env, t, i + 1);
                    (self.plain_token(t[i]) + rest, last)
                },
            }
        }
    }

    /// A token that is no identifier, spelled out.
    pub open spec fn plain_token(self, t: TokView) -> Seq<char> {
        match t {
            TokView::Num(x) => number_token(self.h, x),
            TokView::Op(c) => seq![c],
            TokView::LParen => "("@,
            TokView::RParen => ")"@,
            TokView::Comma => ","@,
            TokView::Rel(r) => rel_text(r),
            TokView::Logic(or) => logic_text(or),
            TokView::Not => "!"@,
            TokView::Question => "?"@,
            TokView::Colon => ":"@,
            TokView::Ident(s) => s,
        }
    }

    /// A behavioral value expression as the flat netlist spells it.
    pub open spec fn remapped(
        self,
        known: Map<Seq<char>, Seq<char>>,
        env: Map<Seq<char>, u64>,
        s: Seq<char>,
    ) -> (Seq<char>, Map<Seq<char>, Seq<char>>) {
        match lexed(self.h, trim(s)) {
            Err(_) => (s, known),
            Ok(t) => self.folded(known, env, t, 0),
        }
    }
}

/// The exec counterpart of [`Site`].
struct Place<'a, F: Fn(Ask) -> Reply> {
    pub host: &'a Host<F>,
    pub globals: &'a Vec<String>,
    pub prefix: &'a str,
}

impl<'a, F: Fn(Ask) -> Reply> Place<'a, F> {
    spec fn site(&self) -> Site {
        Site { h: self.host.answers(), globals: texts(self.globals@), prefix: self.prefix@ }
    }

    fn node(&self, nmap: &mut Renames, tok: &str) -> (r: String)
        requires
            old(nmap).wf(),
        ensures
            final(nmap).wf(),
            (r@, final(nmap)@) == self.site().node(old(nmap)@, tok@),
    {
        resolve_node(tok, self.prefix, nmap, self.globals)
    }

    fn inside(&self, nmap: &mut Renames, t: &Vec<Tok>, from: usize, voltage: bool) -> (r: (String, usize))
        requires
            old(nmap).wf(),
            from <= t@.len(),
        ensures
            final(nmap).wf(),
            (r.0@, final(nmap)@, r.1 as int) == self.site().inside(
                old(nmap)@,
                tok_views(t@),
                from as int,
                voltage,
            ),
            from <= r.1 <= t@.len(),
    {
        let mut out = String::new();
        let mut i: usize = from;
        let ghost tv = tok_views(t@);
        let ghost site = self.site();
        let ghost goal = site.inside(nmap@, tv, from as int, voltage);
        assert(out@ + goal.0 =~= goal.0);
        while i < t.len() && !matches!(t[i], Tok::RParen)
            invariant
                from <= i <= t@.len(),
                tv == tok_views(t@),
                site == self.site(),
                nmap.wf(),
                out@ + site.inside(nmap@, tv, i as int, voltage).0 == goal.0,
                site.inside(nmap@, tv, i as int, voltage).1 == goal.1,
                site.inside(nmap@, tv, i as int, voltage).2 == goal.2,
            decreases t@.len() - i,
        {
            assert(tv[i as int] == t@[i as int]@);
            let ghost before = out@;
            let text: String = match &t[i] {
                Tok::Comma => ",".to_owned(),
                Tok::Ident(n) => if voltage {
                    self.node(nmap, n)
                } else {
                    concat2(self.prefix, n)
                },
                Tok::Num(x) => self.node(nmap, &fmt_num(*x, self.host)),
                _ => String::new(),
            };
            out.append(&text);
            proof {
                let rest = site.inside(nmap@, tv, i + 1, voltage).0;
                assert((before + text@) + rest =~= before + (text@ + rest));
            }
            i += 1;
        }
        proof {
            if i < t@.len() {
                assert(tv[i as int] == t@[i as int]@);
            }
            assert(out@ + seq![] =~= out@);
        }
        (out, i)
    }

    fn plain_token(&self, t: &Tok) -> (r: String)
        ensures
            r@ == self.site().plain_token(t@),
    {
        match t {
            Tok::Num(x) => fmt_num(*x, self.host),
            Tok::Op(c) => {
                let mut s = String::new();
                s.push(*c);
                assert(s@ =~= seq![*c]);
                s
            },
            Tok::LParen => "(".to_owned(),
            Tok::RParen => ")".to_owned(),
            Tok::Comma => ",".to_owned(),
            Tok::Rel(r) => rel_name(*r),
            Tok::Logic(or) => if *or {
                "||".to_owned()
            } else {
                "&&".to_owned()
            },
            Tok::Not => "!".to_owned(),
            Tok::Question => "?".to_owned(),
            Tok::Colon => ":".to_owned(),
            Tok::Ident(s) => s.clone(),
        }
    }

    /// Remap a behavioral value expression (a `B`-source right-hand side, or an
    /// `R`/`C`/`L` value that depends on node voltages): node names inside
    /// `V(...)` are port-/prefix-remapped, element names inside `I(...)` are
    /// instance-prefixed, and every other bare identifier (a parameter) is folded
    /// to its value. Function names, numbers and operators pass through.
    fn remap_behavioral(&self, nmap: &mut Renames, env: &Table, s: &str) -> (r: String)
        requires
            old(nmap).wf(),
        ensures
            final(nmap).wf(),
            (r@, final(nmap)@) == self.site().remapped(old(nmap)@, entries(*env), s@),
    {
        let t = match lex(&trimmed(s), self.host) {
            Err(_) => {
                return s.to_owned();
            },
            Ok(t) => t,
        };
        let ghost tv = tok_views(t@);
        let ghost site = self.site();
        let ghost e = entries(*env);
        let ghost goal = site.folded(nmap@, e, tv, 0);
        let mut out = String::new();
        let mut i: usize = 0;
        assert(out@ + goal.0 =~= goal.0);
        while i < t.len()
            invariant
                i <= t@.len(),
                tv == tok_views(t@),
                site == self.site(),
                e == entries(*env),
                nmap.wf(),
                out@ + site.folded(nmap@, e, tv, i as int).0 == goal.0,
                site.folded(nmap@, e, tv, i as int).1 == goal.1,
            decreases t@.len() - i,
        {
            assert(tv[i as int] == t@[i as int]@);
            let ghost before = out@;
            match &t[i] {
                Tok::Ident(name) => {
                    let key = to_lower(name);
                    let call: bool = i + 1 < t.len() && matches!(t[i + 1], Tok::LParen);
                    proof {
                        if i + 1 < t@.len() {
                            assert(tv[i + 1] == t@[i + 1]@);
                        }
                    }
                    let voltage: bool = same(&key, "v");
                    if call && (voltage || same(&key, "i")) {
                        let (args, end) = self.inside(nmap, &t, i + 2, voltage);
                        out.append(&key);
                        out.append("(");
                        out.append(&args);
                        out.append(")");
                        proof {
                            let rest = site.folded(nmap@, e, tv, end + 1).0;
                            assert(out@ + rest =~= before + (key@ + "("@ + args@ + ")"@ + rest));
                        }
                        if end < t.len() {
                            i = end + 1;
                        } else {
                            assert(site.folded(nmap@, e, tv, end + 1) == site.folded(nmap@, e, tv, end as int));
                            i = end;
                        }
                    } else {
                        let text: String = if call {
                            key
                        } else {
                            match table_get(env, &key) {
                                Some(x) => fmt_num(x, self.host),
                                None => name.clone(),
                            }
                        };
                        out.append(&text);
                        proof {
                            let rest = site.folded(nmap@, e, tv, i + 1).0;
                            assert((before + text@) + rest =~= before + (text@ + rest));
                        }
                        i += 1;
                    }
                },
                other => {
                    let text = self.plain_token(other);
                    out.append(&text);
                    proof {
                        let rest = site.folded(nmap@, e, tv, i + 1).0;
                        assert((before + text@) + rest =~= before + (text@ + rest));
                    }
                    i += 1;
                },
            }
        }
        assert(out@ + seq![] =~= out@);
        out
    }
}


// ---------------------------------------------------------------------------
// Element lines.
// ---------------------------------------------------------------------------
/// How many node tokens follow the name of an element of the given type letter.
/// `None` for types without a fixed count.
pub open spec fn layout(kind: char) -> Option<int> {
    if kind == 'R' || kind == 'C' || kind == 'L' || kind == 'V' || kind == 'I' || kind == 'D' || kind
        == 'P' {
        Some(2)
    } else if kind == 'Q' || kind == 'J' || kind == 'Z' {
        Some(3)
    } else if kind == 'E' || kind == 'G' || kind == 'M' || kind == 'S' || kind == 'T' || kind == 'O'
        || kind == 'U' {
        Some(4)
    } else if kind == 'F' || kind == 'H' || kind == 'W' {
        Some(2)
    } else if kind == 'K' {
        Some(0)
    } else {
        None
    }
}

/// Whether the token at `idx` after the name is the name of another element:
/// the controller of `F`/`H`/`W`, the inductors of `K`.
pub open spec fn names_element(kind: char, idx: int) -> bool {
    ||| (kind == 'F' || kind == 'H' || kind == 'W') && idx == 2
    ||| kind == 'K' && (idx == 0 || idx == 1)
}

/// Token layout after the element name: the number of leading node tokens.
fn element_layout(kind: char) -> (r: Option<usize>)
    ensures
        (r is Some) == (layout(kind) is Some),
        r matches Some(n) ==> n as int == layout(kind)->0,
{
    match kind {
        'R' | 'C' | 'L' | 'V' | 'I' | 'D' | 'P' => Some(2),
        'Q' | 'J' | 'Z' => Some(3),
        'E' | 'G' | 'M' | 'S' | 'T' | 'O' | 'U' => Some(4),
        'F' | 'H' | 'W' => Some(2),
        'K' => Some(0),
        _ => None,
    }
}

fn is_name_ref(kind: char, idx: usize) -> (r: bool)
    ensures
        r == names_element(kind, idx as int),
{
    ((kind == 'F' || kind == 'H' || kind == 'W') && idx == 2) || (kind == 'K' && (idx == 0 || idx == 1))
}

/// The value tokens of an element line from token `i` on.
pub open spec fn value_tokens(kind: char, nc: int, toks: Seq<Seq<char>>, i: int) -> Seq<Seq<char>>
    decreases toks.len() - i,
{
    if i < 1 || i >= toks.len() {
        seq![]
    } else if i - 1 >= nc && !names_element(kind, i - 1) {
        seq![toks[i]] + value_tokens(kind, nc, toks, i + 1)
    } else {
        value_tokens(kind, nc, toks, i + 1)
    }
}

fn value_tokens_of(kind: char, nc: usize, toks: &Vec<String>) -> (r: Vec<String>)
    requires
        toks@.len() > 0,
    ensures
        texts(r@) == value_tokens(kind, nc as int, texts(toks@), 1),
{
    let mut out: Vec<String> = Vec::new();
    let ghost t = texts(toks@);
    let mut i: usize = 1;
    assert(texts(out@) + value_tokens(kind, nc as int, t, 1) =~= value_tokens(kind, nc as int, t, 1));
    while i < toks.len()
        invariant
            1 <= i <= toks@.len(),
            t == texts(toks@),
            texts(out@) + value_tokens(kind, nc as int, t, i as int) == value_tokens(kind, nc as int, t, 1),
        decreases toks@.len() - i,
    {
        let ghost before = texts(out@);
        if i - 1 >= nc && !is_name_ref(kind, i - 1) {
            let c = toks[i].clone();
            out.push(c);
            proof {
                let rest = value_tokens(kind, nc as int, t, i + 1);
                assert(texts(out@) =~= before.push(t[i as int]));
                assert(before.push(t[i as int]) + rest =~= before + (seq![t[i as int]] + rest));
            }
        }
        i += 1;
    }
    assert(texts(out@) + seq![] =~= texts(out@));
    out
}

impl Site {
    /// The tokens `toks[i..]` of an element line as the flat netlist has them:
    /// nodes mapped, element names prefixed, values substituted. A behavioral
    /// value is left out.
    pub open spec fn element_tokens(
        self,
        known: Map<Seq<char>, Seq<char>>,
        env: Map<Seq<char>, u64>,
        kind: char,
        nc: int,
        behavioral: bool,
        toks: Seq<Seq<char>>,
        i: int,
    ) -> (Seq<Seq<char>>, Map<Seq<char>, Seq<char>>)
        decreases toks.len() - i,
    {
        if i < 1 || i >= toks.len() {
            (seq![], known)
        } else if i - 1 < nc {
            let (name, next) = self.node(known, toks[i]);
            let (rest, last) = self.element_tokens(next, env, kind, nc, behavioral, toks, i + 1);
            (seq![name] + rest, last)
        } else {
            let (rest, last) = self.element_tokens(known, env, kind, nc, behavioral, toks, i + 1);
            if names_element(kind, i - 1) {
                (seq![self.prefix + toks[i]] + rest, last)
            } else if !behavioral {
                (seq![substituted(self.h, env, toks[i])] + rest, last)
            } else {
                (rest, last)
            }
        }
    }

    /// A parameter token of an `N` instance with its value folded.
    pub open spec fn folded_param(self, env: Map<Seq<char>, u64>, t: Seq<char>) -> Seq<char> {
        match halves(t, '=') {
            Some((k, v)) => match resolved(self.h, env, v) {
                Some(x) => k + "="@ + number_token(self.h, x),
                None => t,
            },
            None => t,
        }
    }

    pub open spec fn folded_params(self, env: Map<Seq<char>, u64>, toks: Seq<Seq<char>>) -> Seq<Seq<char>> {
        toks.map_values(|t: Seq<char>| self.folded_param(env, t))
    }

    /// An element line inside a subcircuit as the flat netlist has it, and the
    /// names known after it.
    pub open spec fn element(
        self,
        known: Map<Seq<char>, Seq<char>>,
        env: Map<Seq<char>, u64>,
        l: LineView,
    ) -> Result<(LineView, Map<Seq<char>, Seq<char>>), ErrorView> {
        let toks = l.tokens;
        let kind = upper_char(toks[0][0]);
        let head = seq![self.prefix + toks[0]];
        match layout(kind) {
            Some(nc) => {
                let value = join(value_tokens(kind, nc, toks, 1), " "@);
                let behavioral = (kind == 'R' || kind == 'C' || kind == 'L') && refers(value);
                let (mid, next) = self.element_tokens(known, env, kind, nc, behavioral, toks, 1);
                if behavioral {
                    let (text, last) = self.remapped(next, env, value_body(value));
                    let tail = seq!["{"@ + text + "}"@];
                    Ok((LineView { tokens: head + mid + tail, ..l }, last))
                } else {
                    Ok((LineView { tokens: head + mid, ..l }, next))
                }
            },
            None => if kind == 'B' {
                if toks.len() < 3 {
                    Err(ErrorView { line: l.no, col: 0, msg: "B source needs two nodes"@ })
                } else {
                    let (a, k1) = self.node(known, toks[1]);
                    let (b, k2) = self.node(k1, toks[2]);
                    let rest = join(toks.skip(3), " "@);
                    let (text, last) = match halves(rest, '=') {
                        Some((lhs, rhs)) => {
                            let (r, k3) = self.remapped(k2, env, rhs);
                            (trim(lhs) + "="@ + r, k3)
                        },
                        None => self.remapped(k2, env, rest),
                    };
                    Ok((LineView { tokens: head + seq![a, b, text], ..l }, last))
                }
            } else if kind == 'N' {
                let end = first_assignment(toks, 1);
                if end < 3 {
                    Err(ErrorView { line: l.no, col: 0, msg: "N instance needs nodes and a model name"@ })
                } else {
                    let (nodes, last) = outer_nodes(self.globals, known, self.prefix, toks, 1, end - 1);
                    let tail = seq![toks[end - 1]] + self.folded_params(env, toks.skip(end));
                    Ok((LineView { tokens: head + nodes + tail, ..l }, last))
                }
            } else {
                Ok((LineView { tokens: head + toks.skip(1), ..l }, known))
            },
        }
    }
}

/// The first token from `i` on that holds a `=`; the number of tokens if none.
pub open spec fn first_assignment(toks: Seq<Seq<char>>, i: int) -> int
    decreases toks.len() - i,
{
    if i < 0 || i >= toks.len() {
        toks.len() as int
    } else if has_char(toks[i], '=') {
        i
    } else {
        first_assignment(toks, i + 1)
    }
}

pub(crate) fn find_assignment(toks: &Vec<String>, from: usize) -> (r: usize)
    requires
        from <= toks@.len(),
    ensures
        r as int == first_assignment(texts(toks@), from as int),
        from <= r <= toks@.len(),
{
    let ghost t = texts(toks@);
    let mut i: usize = from;
    while i < toks.len()
        invariant
            from <= i <= toks@.len(),
            t == texts(toks@),
            first_assignment(t, i as int) == first_assignment(t, from as int),
        decreases toks@.len() - i,
    {
        assert(t[i as int] == toks@[i as int]@);
        if holds_char(&toks[i], '=') {
            return i;
        }
        i += 1;
    }
    i
}

pub(crate) fn texts_from(toks: &Vec<String>, from: usize) -> (r: Vec<String>)
    requires
        from <= toks@.len(),
    ensures
        texts(r@) == texts(toks@).skip(from as int),
{
    let mut out: Vec<String> = Vec::new();
    let ghost t = texts(toks@);
    let mut i: usize = from;
    while i < toks.len()
        invariant
            from <= i <= toks@.len(),
            t == texts(toks@),
            texts(out@) =~= t.subrange(from as int, i as int),
        decreases toks@.len() - i,
    {
        let ghost before = texts(out@);
        let c = toks[i].clone();
        out.push(c);
        assert(texts(out@) =~= before.push(t[i as int]));
        i += 1;
    }
    assert(t.subrange(from as int, t.len() as int) =~= t.skip(from as int));
    out
}

impl<'a, F: Fn(Ask) -> Reply> Place<'a, F> {
    fn element_tokens(
        &self,
        nmap: &mut Renames,
        env: &Table,
        kind: char,
        nc: usize,
        behavioral: bool,
        toks: &Vec<String>,
    ) -> (r: Vec<String>)
        requires
            old(nmap).wf(),
            toks@.len() > 0,
        ensures
            final(nmap).wf(),
            (texts(r@), final(nmap)@) == self.site().element_tokens(
                old(nmap)@,
                entries(*env),
                kind,
                nc as int,
                behavioral,
                texts(toks@),
                1,
            ),
    {
        let mut out: Vec<String> = Vec::new();
        let ghost t = texts(toks@);
        let ghost site = self.site();
        let ghost e = entries(*env);
        let ghost goal = site.element_tokens(nmap@, e, kind, nc as int, behavioral, t, 1);
        let mut i: usize = 1;
        assert(texts(out@) + goal.0 =~= goal.0);
        while i < toks.len()
            invariant
                1 <= i <= toks@.len(),
                t == texts(toks@),
                site == self.site(),
                e == entries(*env),
                nmap.wf(),
                texts(out@) + site.element_tokens(nmap@, e, kind, nc as int, behavioral, t, i as int).0
                    == goal.0,
                site.element_tokens(nmap@, e, kind, nc as int, behavioral, t, i as int).1 == goal.1,
            decreases toks@.len() - i,
        {
            assert(t[i as int] == toks@[i as int]@);
            let ghost before = texts(out@);
            if i - 1 < nc {
                let name = self.node(nmap, &toks[i]);
                out.push(name);
                proof {
                    let rest = site.element_tokens(nmap@, e, kind, nc as int, behavioral, t, i + 1).0;
                    assert(texts(out@) =~= before.push(name@));
                    assert(before.push(name@) + rest =~= before + (seq![name@] + rest));
                }
            } else if is_name_ref(kind, i - 1) {
                let name = concat2(self.prefix, &toks[i]);
                out.push(name);
                proof {
                    let rest = site.element_tokens(nmap@, e, kind, nc as int, behavioral, t, i + 1).0;
                    assert(texts(out@) =~= before.push(name@));
                    assert(before.push(name@) + rest =~= before + (seq![name@] + rest));
                }
            } else if !behavioral {
                let name = subst_value(&toks[i], env, self.host);
                out.push(name);
                proof {
                    let rest = site.element_tokens(nmap@, e, kind, nc as int, behavioral, t, i + 1).0;
                    assert(texts(out@) =~= before.push(name@));
                    assert(before.push(name@) + rest =~= before + (seq![name@] + rest));
                }
            }
            i += 1;
        }
        assert(texts(out@) + seq![] =~= texts(out@));
        out
    }

    fn folded_params(&self, env: &Table, toks: &Vec<String>, from: usize) -> (r: Vec<String>)
        requires
            from <= toks@.len(),
        ensures
            texts(r@) == self.site().folded_params(entries(*env), texts(toks@).skip(from as int)),
    {
        let mut out: Vec<String> = Vec::new();
        let ghost t = texts(toks@);
        let ghost site = self.site();
        let ghost e = entries(*env);
        let ghost goal = site.folded_params(e, t.skip(from as int));
        let mut i: usize = from;
        while i < toks.len()
            invariant
                from <= i <= toks@.len(),
                t == texts(toks@),
                site == self.site(),
                e == entries(*env),
                goal == site.folded_params(e, t.skip(from as int)),
                texts(out@) =~= goal.take(i - from),
            decreases toks@.len() - i,
        {
            assert(t[i as int] == toks@[i as int]@);
            assert(goal[i - from] == site.folded_param(e, t[i as int]));
            let ghost before = texts(out@);
            let item: String = match split_once(&toks[i], '=') {
                Some((k, v)) => match resolve_value(&v, env, self.host) {
                    Some(x) => concat3(&k, "=", &fmt_num(x, self.host)),
                    None => toks[i].clone(),
                },
                None => toks[i].clone(),
            };
            out.push(item);
            assert(texts(out@) =~= before.push(item@));
            i += 1;
        }
        assert(goal.take(goal.len() as int) =~= goal);
        out
    }

    /// An element line inside a subcircuit as the flat netlist has it.
    fn element(&self, nmap: &mut Renames, env: &Table, line: &Line) -> (r: Result<Line, ParseError>)
        requires
            old(nmap).wf(),
            line@.tokens.len() > 0,
            line@.tokens[0].len() > 0,
        ensures
            final(nmap).wf(),
            match (r, self.site().element(old(nmap)@, entries(*env), line@)) {
                (Ok(l), Ok((v, m))) => l@ == v && final(nmap)@ == m,
                (Err(e), Err(v)) => e@ == v,
                _ => false,
            },
    {
        let toks = &line.tokens;
        let ghost t = texts(toks@);
        assert(t[0] == toks@[0]@);
        let first = chars_of(&toks[0]);
        let kind = to_upper_char(first[0]);
        let mut out: Vec<String> = Vec::new();
        out.push(concat2(self.prefix, &toks[0]));
        let ghost head = seq![self.prefix@ + t[0]];
        assert(texts(out@) =~= head);
        match element_layout(kind) {
            Some(nc) => {
                let value = join_texts(&value_tokens_of(kind, nc, toks), " ");
                let behavioral: bool = (kind == 'R' || kind == 'C' || kind == 'L') && is_behavioral_value(
                    &value,
                );
                let mut mid = self.element_tokens(nmap, env, kind, nc, behavioral, toks);
                let ghost mv = texts(mid@);
                out.append(&mut mid);
                assert(texts(out@) =~= head + mv);
                if behavioral {
                    let text = self.remap_behavioral(nmap, env, &value_expr(&value));
                    let last = concat3("{", &text, "}");
                    let ghost before = texts(out@);
                    out.push(last);
                    assert(texts(out@) =~= before + seq!["{"@ + text@ + "}"@]);
                }
            },
            None => {
                if kind == 'B' {
                    if toks.len() < 3 {
                        return Err(err(line.no, "B source needs two nodes"));
                    }
                    assert(t[1] == toks@[1]@ && t[2] == toks@[2]@);
                    let a = self.node(nmap, &toks[1]);
                    let b = self.node(nmap, &toks[2]);
                    let rest = join_texts(&texts_from(toks, 3), " ");
                    let text: String = match split_once(&rest, '=') {
                        Some((lhs, rhs)) => {
                            let r = self.remap_behavioral(nmap, env, &rhs);
                            concat3(&trimmed(&lhs), "=", &r)
                        },
                        None => self.remap_behavioral(nmap, env, &rest),
                    };
                    let ghost tail = seq![a@, b@, text@];
                    out.push(a);
                    out.push(b);
                    out.push(text);
                    assert(texts(out@) =~= head + tail);
                } else if kind == 'N' {
                    let end: usize = find_assignment(toks, 1);
                    if end < 3 {
                        return Err(err(line.no, "N instance needs nodes and a model name"));
                    }
                    let mut nodes = resolve_nodes(toks, 1, end - 1, self.prefix, nmap, self.globals);
                    let ghost nv = texts(nodes@);
                    out.append(&mut nodes);
                    assert(texts(out@) =~= head + nv);
                    assert(t[end - 1] == toks@[end - 1]@);
                    let model = toks[end - 1].clone();
                    out.push(model);
                    let mut tail = self.folded_params(env, toks, end);
                    let ghost tv = texts(tail@);
                    out.append(&mut tail);
                    assert(texts(out@) =~= head + nv + (seq![t[end - 1]] + tv));
                } else {
                    let mut tail = texts_from(toks, 1);
                    let ghost tv = texts(tail@);
                    out.append(&mut tail);
                    assert(texts(out@) =~= head + tv);
                }
            },
        }
        Ok(Line { no: line.no, col: line.col, tokens: out })
    }
}

// ---------------------------------------------------------------------------
// Instances.
// ---------------------------------------------------------------------------
/// A parsed `X` instance with its connection nodes already resolved to the
/// caller's namespace.
struct Instance {
    inst_name: String,
    subname: String,
    conn: Vec<String>,
    params: Vec<(String, String)>,
    line: usize,
}

pub struct InstanceView {
    pub name: Seq<char>,
    pub subname: Seq<char>,
    pub conn: Seq<Seq<char>>,
    pub params: Seq<(Seq<char>, Seq<char>)>,
    pub line: int,
}

impl Instance {
    spec fn model(&self) -> InstanceView {
        InstanceView {
            name: self.inst_name@,
            subname: self.subname@,
            conn: texts(self.conn@),
            params: pairs_text(self.params@),
            line: self.line as int,
        }
    }
}

/// The instance of an `X` line: nodes, then the subcircuit name, then
/// `key=value` parameters.
pub open spec fn instance_of(
    globals: Seq<Seq<char>>,
    known: Map<Seq<char>, Seq<char>>,
    prefix: Seq<char>,
    l: LineView,
) -> Result<(InstanceView, Map<Seq<char>, Seq<char>>), ErrorView> {
    let start = first_assignment(l.tokens, 0);
    if start < 3 {
        Err(ErrorView { line: l.no, col: 0, msg: "X instance needs nodes and a subckt name"@ })
    } else {
        let (conn, next) = outer_nodes(globals, known, prefix, l.tokens, 1, start - 1);
        let inst = InstanceView {
            name: l.tokens[0],
            subname: lower(l.tokens[start - 1]),
            conn,
            params: assignments(l.tokens, start),
            line: l.no,
        };
        Ok((inst, next))
    }
}

/// Parse an `X` line, resolving its connection-node tokens through `nmap`
/// (with the caller's `prefix` for internal nodes).
fn parse_instance(line: &Line, nmap: &mut Renames, prefix: &str, globals: &Vec<String>) -> (r: Result<
    Instance,
    ParseError,
>)
    requires
        old(nmap).wf(),
    ensures
        final(nmap).wf(),
        match (r, instance_of(texts(globals@), old(nmap)@, prefix@, line@)) {
            (Ok(i), Ok((v, m))) => i.model() == v && final(nmap)@ == m,
            (Err(e), Err(v)) => e@ == v,
            _ => false,
        },
{
    let toks = &line.tokens;
    let start: usize = find_assignment(toks, 0);
    if start < 3 {
        return Err(err(line.no, "X instance needs nodes and a subckt name"));
    }
    assert(texts(toks@)[0] == toks@[0]@ && texts(toks@)[start - 1] == toks@[start - 1]@);
    let subname = to_lower(&toks[start - 1]);
    let conn = resolve_nodes(toks, 1, start - 1, prefix, nmap, globals);
    let params = assignments_of(toks, start);
    Ok(Instance { inst_name: toks[0].clone(), subname, conn, params, line: line.no })
}

/// The ports `ports[i..]` bound to the caller's nodes.
pub open spec fn connected(
    known: Map<Seq<char>, Seq<char>>,
    ports: Seq<Seq<char>>,
    conn: Seq<Seq<char>>,
    i: int,
) -> Map<Seq<char>, Seq<char>>
    decreases ports.len() - i,
{
    if i < 0 || i >= ports.len() || i >= conn.len() {
        known
    } else {
        connected(known.insert(lower(ports[i]), conn[i]), ports, conn, i + 1)
    }
}

fn connect(ports: &Vec<String>, conn: &Vec<String>) -> (r: Renames)
    requires
        ports@.len() == conn@.len(),
    ensures
        r.wf(),
        r@ == connected(Map::empty(), texts(ports@), texts(conn@), 0),
{
    let mut nmap = Renames::new();
    let ghost p = texts(ports@);
    let ghost c = texts(conn@);
    for i in 0..ports.len()
        invariant
            ports@.len() == conn@.len(),
            p == texts(ports@),
            c == texts(conn@),
            nmap.wf(),
            connected(nmap@, p, c, i as int) == connected(Map::empty(), p, c, 0),
    {
        assert(p[i as int] == ports@[i as int]@ && c[i as int] == conn@[i as int]@);
        nmap.insert(to_lower(&ports[i]), conn[i].clone());
    }
    nmap
}

// ---------------------------------------------------------------------------
// Expansion.
// ---------------------------------------------------------------------------
/// The nesting at which expansion gives up.
pub const MAX_DEPTH: u32 = 64;

/// What expansion goes by: the host, the definitions and the global nodes.
pub struct Deck {
    pub h: Answers,
    pub subs: Map<Seq<char>, SubcktView>,
    pub globals: Seq<Seq<char>>,
}

pub open spec fn starts_instance(head: Seq<char>) -> bool {
    head.len() > 0 && (head[0] == 'X' || head[0] == 'x')
}

impl Deck {
    /// An instance that is refused before any of it is expanded: nested too deep,
    /// of an unknown subcircuit, or with another number of nodes than it has ports.
    pub open spec fn refuses(self, inst: InstanceView, depth: int) -> bool {
        ||| depth > MAX_DEPTH
        ||| !self.subs.contains_key(inst.subname)
        ||| inst.conn.len() != self.subs[inst.subname].ports.len()
    }

    /// The flat lines of an instance, or why it cannot be expanded.
    pub open spec fn expanded(self, inst: InstanceView, env: Map<Seq<char>, u64>, depth: int) -> Result<
        Seq<LineView>,
        ErrorView,
    >
        decreases MAX_DEPTH + 1 - depth, 1int, 0int,
    {
        if depth > MAX_DEPTH {
            Err(ErrorView { line: inst.line, col: 0, msg: "subcircuit nesting too deep (recursion?)"@ })
        } else if !self.subs.contains_key(inst.subname) {
            Err(ErrorView { line: inst.line, col: 0, msg: "unknown subcircuit '"@ + inst.subname + "'"@ })
        } else {
            let sub = self.subs[inst.subname];
            if inst.conn.len() != sub.ports.len() {
                Err(
                    ErrorView {
                        line: inst.line,
                        col: 0,
                        msg: "instance '"@ + inst.name + "' has "@ + decimal(inst.conn.len())
                            + " nodes, subckt '"@ + inst.subname + "' expects "@ + decimal(
                            sub.ports.len(),
                        ),
                    },
                )
            } else {
                let known = connected(Map::empty(), sub.ports, inst.conn, 0);
                let defaults = bound(self.h, env, None, sub.defaults, 0);
                let local = bound(self.h, defaults, Some(env), inst.params, 0);
                self.body(sub, 0, known, local, inst.name + "."@, depth)
            }
        }
    }

    /// The flat lines of a body from line `k` on.
    pub open spec fn body(
        self,
        sub: SubcktView,
        k: int,
        known: Map<Seq<char>, Seq<char>>,
        env: Map<Seq<char>, u64>,
        prefix: Seq<char>,
        depth: int,
    ) -> Result<Seq<LineView>, ErrorView>
        decreases MAX_DEPTH + 1 - depth, 0int, sub.body.len() - k,
    {
        if k < 0 || k >= sub.body.len() || depth > MAX_DEPTH {
            Ok(seq![])
        } else {
            let l = sub.body[k];
            let head = l.tokens[0];
            if lower(head) == ".param"@ {
                self.body(
                    sub,
                    k + 1,
                    known,
                    bound(self.h, env, None, assignments(l.tokens, 1), 0),
                    prefix,
                    depth,
                )
            } else if lower(head) == ".model"@ {
                prepended(seq![l], self.body(sub, k + 1, known, env, prefix, depth))
            } else if starts_instance(head) {
                match instance_of(self.globals, known, prefix, l) {
                    Err(e) => Err(e),
                    Ok((inst, next)) => {
                        let nested = InstanceView { name: prefix + inst.name, ..inst };
                        match self.expanded(nested, env, depth + 1) {
                            Err(e) => Err(e),
                            Ok(lines) => prepended(
                                lines,
                                self.body(sub, k + 1, next, env, prefix, depth),
                            ),
                        }
                    },
                }
            } else {
                let site = Site { h: self.h, globals: self.globals, prefix };
                match site.element(known, env, l) {
                    Err(e) => Err(e),
                    Ok((flat, next)) => prepended(
                        seq![flat],
                        self.body(sub, k + 1, next, env, prefix, depth),
                    ),
                }
            }
        }
    }

    /// The flat lines of a top-level instance.
    pub open spec fn top_instance(self, l: LineView, env: Map<Seq<char>, u64>) -> Result<
        Seq<LineView>,
        ErrorView,
    > {
        match instance_of(self.globals, Map::empty(), seq![], l) {
            Err(e) => Err(e),
            Ok((inst, _)) => self.expanded(inst, env, 0),
        }
    }

    /// The flat lines of the top-level lines from `k` on.
    pub open spec fn flat(self, top: Seq<LineView>, env: Map<Seq<char>, u64>, k: int) -> Result<
        Seq<LineView>,
        ErrorView,
    >
        decreases top.len() - k,
    {
        if k < 0 || k >= top.len() {
            Ok(seq![])
        } else {
            let l = top[k];
            if lower(l.tokens[0]) == ".global"@ {
                self.flat(top, env, k + 1)
            } else if starts_instance(l.tokens[0]) {
                match self.top_instance(l, env) {
                    Err(e) => Err(e),
                    Ok(lines) => prepended(lines, self.flat(top, env, k + 1)),
                }
            } else {
                prepended(seq![l], self.flat(top, env, k + 1))
            }
        }
    }
}

pub open spec fn prepended(a: Seq<LineView>, r: Result<Seq<LineView>, ErrorView>) -> Result<
    Seq<LineView>,
    ErrorView,
> {
    match r {
        Ok(b) => Ok(a + b),
        Err(e) => Err(e),
    }
}

/// The lines `b` begin with the lines `a`.
pub open spec fn extends(a: Seq<LineView>, b: Seq<LineView>) -> bool {
    a.len() <= b.len() && b.take(a.len() as int) == a
}

/// What begins with `a + more` begins with `a`.
proof fn begins_with_less(a: Seq<LineView>, more: Seq<LineView>, b: Seq<LineView>)
    requires
        extends(a + more, b),
    ensures
        extends(a, b),
{
    assert(b.take(a.len() as int) =~= b.take((a + more).len() as int).take(a.len() as int));
    assert((a + more).take(a.len() as int) =~= a);
}

proof fn begins_with_itself(a: Seq<LineView>)
    ensures
        extends(a, a),
{
    assert(a.take(a.len() as int) =~= a);
}

/// The nodes of the `.global` lines from `k` on, in lower case.
pub open spec fn globals_of(top: Seq<LineView>, k: int) -> Seq<Seq<char>>
    decreases top.len() - k,
{
    if k < 0 || k >= top.len() {
        seq![]
    } else if lower(top[k].tokens[0]) == ".global"@ {
        top[k].tokens.skip(1).map_values(|t: Seq<char>| lower(t)) + globals_of(top, k + 1)
    } else {
        globals_of(top, k + 1)
    }
}

/// The flat netlist of a deck.
pub open spec fn flattened(h: Answers, lines: Seq<LineView>, env: Map<Seq<char>, u64>) -> Result<
    Seq<LineView>,
    ErrorView,
> {
    match collected(lines, lines.len() as int) {
        Err(e) => Err(e),
        Ok(c) => (Deck { h, subs: c.subs, globals: globals_of(c.top, 0) }).flat(c.top, env, 0),
    }
}


/// Every body line of every definition has a nonempty first token.
pub open spec fn subs_ok(subs: Map<Seq<char>, SubcktView>) -> bool {
    forall|k: Seq<char>| #[trigger] subs.contains_key(k) ==> lines_ok(subs[k].body)
}

proof fn collected_ok(lines: Seq<LineView>, i: int)
    requires
        lines_ok(lines),
        0 <= i <= lines.len(),
    ensures
        collected(lines, i) matches Ok(c) ==> subs_ok(c.subs) && lines_ok(c.top) && forall|j: int|
            0 <= j < c.open_subs.len() ==> lines_ok((#[trigger] c.open_subs[j]).1.body),
    decreases i,
{
    if i > 0 {
        collected_ok(lines, i - 1);
        if let Ok(c) = collected(lines, i - 1) {
            let l = lines[i - 1];
            if let Ok(d) = with_line(c, l) {
                assert(lines_ok(seq![]));
                if c.open_subs.len() > 0 {
                    let last = c.open_subs[c.open_subs.len() - 1];
                    assert(lines_ok(last.1.body));
                    assert(lines_ok(last.1.body.push(l)));
                }
                assert(lines_ok(c.top.push(l)));
                assert forall|j: int| 0 <= j < d.open_subs.len() implies lines_ok((#[trigger] d.open_subs[j]).1.body) by {
                    if j < c.open_subs.len() {
                        assert(lines_ok(c.open_subs[j].1.body));
                    }
                }
                assert forall|k: Seq<char>| #[trigger] d.subs.contains_key(k) implies lines_ok(d.subs[k].body) by {
                    if c.subs.contains_key(k) {
                        assert(lines_ok(c.subs[k].body));
                    }
                }
            }
        }
    }
}

/// Expand one instance, appending its flat lines to `out`.
#[verifier::rlimit(50)]
fn expand<F: Fn(Ask) -> Reply>(
    inst: &Instance,
    env_caller: &Table,
    subckts: &Subckts,
    out: &mut Vec<Line>,
    depth: u32,
    globals: &Vec<String>,
    host: &Host<F>,
) -> (r: Result<(), ParseError>)
    requires
        subckts.wf(),
        subs_ok(subckts@),
    ensures
        match (
            r,
            (Deck { h: host.answers(), subs: subckts@, globals: texts(globals@) }).expanded(
                inst.model(),
                entries(*env_caller),
                depth as int,
            ),
        ) {
            (Ok(()), Ok(ls)) => line_views(final(out)@) == line_views(old(out)@) + ls,
            (Err(e), Err(v)) => e@ == v,
            _ => false,
        },
        extends(line_views(old(out)@), line_views(final(out)@)),
        (Deck { h: host.answers(), subs: subckts@, globals: texts(globals@) }).refuses(
            inst.model(),
            depth as int,
        ) ==> r is Err && final(out)@ == old(out)@,
    decreases MAX_DEPTH + 1 - depth,
{
    let ghost deck = Deck { h: host.answers(), subs: subckts@, globals: texts(globals@) };
    let ghost caller = entries(*env_caller);
    proof {
        begins_with_itself(line_views(out@));
    }
    if depth > MAX_DEPTH {
        return Err(err(inst.line, "subcircuit nesting too deep (recursion?)"));
    }
    let sub = match subckts.get(&inst.subname) {
        Some(s) => s,
        None => {
            return Err(err(inst.line, &concat3("unknown subcircuit '", &inst.subname, "'")));
        },
    };
    if inst.conn.len() != sub.ports.len() {
        let mut msg = concat3("instance '", &inst.inst_name, "' has ");
        msg.append(&decimal_text(inst.conn.len() as u64));
        msg.append(" nodes, subckt '");
        msg.append(&inst.subname);
        msg.append("' expects ");
        msg.append(&decimal_text(sub.ports.len() as u64));
        return Err(err(inst.line, &msg));
    }
    let prefix = concat2(&inst.inst_name, ".");
    let mut nmap = connect(&sub.ports, &inst.conn);
    let mut env = table_clone(env_caller);
    bind_all(&mut env, &sub.defaults, host);
    bind_from(&mut env, env_caller, &inst.params, host);
    let ghost sv = sub@;
    let ghost full = deck.body(sv, 0, nmap@, entries(env), prefix@, depth as int);
    let ghost base = line_views(out@);
    let ghost mut added: Seq<LineView> = seq![];
    proof {
        assert(full == deck.expanded(inst.model(), caller, depth as int));
        assert(base + added =~= base);
        if let Ok(ls) = full {
            assert(added + ls =~= ls);
        }
    }
    let place = Place { host, globals, prefix: prefix.as_str() };
    for k in 0..sub.body.len()
        invariant
            sv == sub@,
            deck == (Deck { h: host.answers(), subs: subckts@, globals: texts(globals@) }),
            subckts.wf(),
            subs_ok(subckts@),
            lines_ok(sv.body),
            depth <= MAX_DEPTH,
            caller == entries(*env_caller),
            nmap.wf(),
            place.site() == (Site { h: deck.h, globals: deck.globals, prefix: prefix@ }),
            full == deck.expanded(inst.model(), caller, depth as int),
            line_views(out@) == base + added,
            base == line_views(old(out)@),
            !deck.refuses(inst.model(), depth as int),
            full == prepended(added, deck.body(sv, k as int, nmap@, entries(env), prefix@, depth as int)),
    {
        let line = &sub.body[k];
        let ghost l = line@;
        let ghost added0 = added;
        let ghost out0 = line_views(out@);
        let ghost known0 = nmap@;
        proof {
            assert(sv.body[k as int] == l);
            assert(l.tokens.len() > 0 && l.tokens[0].len() > 0);
            assert(l.tokens[0] == line.tokens@[0]@);
        }
        let head = to_lower(&line.tokens[0]);
        let first = chars_of(&line.tokens[0]);
        if same(&head, ".param") {
            let defs = assignments_of(&line.tokens, 1);
            bind_all(&mut env, &defs, host);
        } else if same(&head, ".model") {
            out.push(copy_line(line));
            proof {
                added = added.push(l);
                assert(line_views(out@) =~= out0.push(l));
                assert(out0.push(l) =~= base + added);
                if let Ok(ls) = deck.body(sv, k + 1, nmap@, entries(env), prefix@, depth as int) {
                    assert(added0 + (seq![l] + ls) =~= added + ls);
                }
            }
        } else if first[0] == 'X' || first[0] == 'x' {
            let inner = match parse_instance(line, &mut nmap, &prefix, globals) {
                Err(e) => {
                    assert(deck.body(sv, k as int, known0, entries(env), prefix@, depth as int) == Err::<
                        Seq<LineView>,
                        ErrorView,
                    >(e@));
                    proof {
                        begins_with_itself(line_views(out@));
                        begins_with_less(base, added, line_views(out@));
                    }
                    return Err(e);
                },
                Ok(i) => i,
            };
            let ghost iv = inner.model();
            let Instance { inst_name, subname, conn, params, line: no } = inner;
            let nested = Instance {
                inst_name: concat2(&prefix, &inst_name),
                subname,
                conn,
                params,
                line: no,
            };
            assert(nested.model() == (InstanceView { name: prefix@ + iv.name, ..iv }));
            match expand(&nested, &env, subckts, out, depth + 1, globals, host) {
                Err(e) => {
                    proof {
                        begins_with_less(base, added, line_views(out@));
                    }
                    return Err(e);
                },
                Ok(()) => {},
            }
            proof {
                let lines = deck.expanded(nested.model(), entries(env), depth + 1)->Ok_0;
                added = added + lines;
                assert(line_views(out@) =~= base + added);
                if let Ok(ls) = deck.body(sv, k + 1, nmap@, entries(env), prefix@, depth as int) {
                    assert(added0 + (lines + ls) =~= added + ls);
                }
            }
        } else {
            let flat = match place.element(&mut nmap, &env, line) {
                Err(e) => {
                    assert(deck.body(sv, k as int, known0, entries(env), prefix@, depth as int) == Err::<
                        Seq<LineView>,
                        ErrorView,
                    >(e@));
                    proof {
                        begins_with_itself(line_views(out@));
                        begins_with_less(base, added, line_views(out@));
                    }
                    return Err(e);
                },
                Ok(x) => x,
            };
            let ghost fv = flat@;
            out.push(flat);
            proof {
                added = added.push(fv);
                assert(line_views(out@) =~= out0.push(fv));
                assert(out0.push(fv) =~= base + added);
                if let Ok(ls) = deck.body(sv, k + 1, nmap@, entries(env), prefix@, depth as int) {
                    assert(added0 + (seq![fv] + ls) =~= added + ls);
                }
            }
        }
    }
    assert(added + seq![] =~= added);
    proof {
        begins_with_itself(line_views(out@));
        begins_with_less(base, added, line_views(out@));
    }
    Ok(())
}

fn collect_globals(top: &Vec<Line>) -> (r: Vec<String>)
    requires
        lines_ok(line_views(top@)),
    ensures
        texts(r@) == globals_of(line_views(top@), 0),
{
    let mut out: Vec<String> = Vec::new();
    let ghost tv = line_views(top@);
    assert(texts(out@) + globals_of(tv, 0) =~= globals_of(tv, 0));
    for k in 0..top.len()
        invariant
            tv == line_views(top@),
            lines_ok(tv),
            texts(out@) + globals_of(tv, k as int) == globals_of(tv, 0),
    {
        let line = &top[k];
        let ghost t = texts(line.tokens@);
        proof {
            assert(tv[k as int] == line@);
            assert(tv[k as int].tokens.len() > 0);
            assert(t[0] == line.tokens@[0]@);
        }
        if same(&to_lower(&line.tokens[0]), ".global") {
            let ghost start = texts(out@);
            let ghost names = t.skip(1).map_values(|t: Seq<char>| lower(t));
            let mut i: usize = 1;
            while i < line.tokens.len()
                invariant
                    1 <= i <= line.tokens@.len(),
                    t == texts(line.tokens@),
                    names == t.skip(1).map_values(|t: Seq<char>| lower(t)),
                    texts(out@) =~= start + names.take(i - 1),
                decreases line.tokens@.len() - i,
            {
                let ghost before = texts(out@);
                assert(t[i as int] == line.tokens@[i as int]@);
                assert(names[i - 1] == lower(t[i as int]));
                let name = to_lower(&line.tokens[i]);
                out.push(name);
                assert(texts(out@) =~= before.push(name@));
                assert(names.take(i as int) =~= names.take(i - 1).push(name@));
                i += 1;
            }
            proof {
                assert(names.take(names.len() as int) =~= names);
                assert((start + names) + globals_of(tv, k + 1) =~= start + (names + globals_of(tv, k + 1)));
            }
        }
    }
    assert(texts(out@) + seq![] =~= texts(out@));
    out
}

pub open spec fn lines_view(r: Result<Vec<Line>, ParseError>) -> Result<Seq<LineView>, ErrorView> {
    match r {
        Ok(v) => Ok(line_views(v@)),
        Err(e) => Err(e@),
    }
}

fn expand_top<F: Fn(Ask) -> Reply>(
    line: &Line,
    global_env: &Table,
    subckts: &Subckts,
    out: &mut Vec<Line>,
    globals: &Vec<String>,
    host: &Host<F>,
) -> (r: Result<(), ParseError>)
    requires
        line@.tokens.len() > 0,
        subckts.wf(),
        subs_ok(subckts@),
    ensures
        match (
            r,
            (Deck { h: host.answers(), subs: subckts@, globals: texts(globals@) }).top_instance(
                line@,
                entries(*global_env),
            ),
        ) {
            (Ok(()), Ok(ls)) => line_views(final(out)@) == line_views(old(out)@) + ls,
            (Err(e), Err(v)) => e@ == v,
            _ => false,
        },
        extends(line_views(old(out)@), line_views(final(out)@)),
{
    let mut nmap = Renames::new();
    let none = String::new();
    assert(none@ =~= seq![]);
    proof {
        begins_with_itself(line_views(out@));
    }
    match parse_instance(line, &mut nmap, &none, globals) {
        Err(e) => Err(e),
        Ok(inst) => expand(&inst, global_env, subckts, out, 0, globals, host),
    }
}

/// Flatten all subcircuit instances. Returns a flat line list with no
/// `.subckt`/`.ends`/`X`.
#[verifier::rlimit(80)]
pub fn flatten<F: Fn(Ask) -> Reply>(lines: &Vec<Line>, global_env: &Table, host: &Host<F>) -> (r: Result<
    Vec<Line>,
    ParseError,
>)
    requires
        lines_ok(line_views(lines@)),
    ensures
        lines_view(r) == flattened(host.answers(), line_views(lines@), entries(*global_env)),
{
    let (subckts, top) = match collect(lines) {
        Err(e) => {
            return Err(e);
        },
        Ok(x) => x,
    };
    proof {
        collected_ok(line_views(lines@), lines@.len() as int);
    }
    let globals = collect_globals(&top);
    let ghost deck = Deck { h: host.answers(), subs: subckts@, globals: texts(globals@) };
    let ghost tv = line_views(top@);
    let ghost e = entries(*global_env);
    let ghost goal = deck.flat(tv, e, 0);
    let mut out: Vec<Line> = Vec::new();
    proof {
        assert(line_views(out@) =~= seq![]);
        if let Ok(ls) = goal {
            assert(line_views(out@) + ls =~= ls);
        }
    }
    for k in 0..top.len()
        invariant
            deck == (Deck { h: host.answers(), subs: subckts@, globals: texts(globals@) }),
            tv == line_views(top@),
            e == entries(*global_env),
            lines_ok(tv),
            subckts.wf(),
            subs_ok(subckts@),
            goal == flattened(host.answers(), line_views(lines@), e),
            goal == prepended(line_views(out@), deck.flat(tv, e, k as int)),
    {
        let line = &top[k];
        let ghost l = line@;
        let ghost out0 = line_views(out@);
        proof {
            assert(tv[k as int] == l);
            assert(l.tokens.len() > 0 && l.tokens[0].len() > 0);
            assert(l.tokens[0] == line.tokens@[0]@);
        }
        let head = to_lower(&line.tokens[0]);
        let first = chars_of(&line.tokens[0]);
        if same(&head, ".global") {
        } else if first[0] == 'X' || first[0] == 'x' {
            match expand_top(line, global_env, &subckts, &mut out, &globals, host) {
                Err(e) => {
                    return Err(e);
                },
                Ok(()) => {},
            }
            proof {
                let lines = deck.top_instance(l, e)->Ok_0;
                if let Ok(ls) = deck.flat(tv, e, k + 1) {
                    assert(out0 + (lines + ls) =~= (out0 + lines) + ls);
                }
            }
        } else {
            out.push(copy_line(line));
            proof {
                assert(line_views(out@) =~= out0.push(l));
                if let Ok(ls) = deck.flat(tv, e, k + 1) {
                    assert(out0 + (seq![l] + ls) =~= out0.push(l) + ls);
                }
            }
        }
    }
    assert(line_views(out@) + seq![] =~= line_views(out@));
    Ok(out)
}

// ---------------------------------------------------------------------------
// What a flat netlist holds.
// ---------------------------------------------------------------------------
/// A line that neither opens nor closes a definition.
pub open spec fn settled(l: LineView) -> bool {
    &&& l.tokens.len() > 0
    &&& l.tokens[0].len() > 0
    &&& lower(l.tokens[0]) != ".subckt"@
    &&& lower(l.tokens[0]) != ".ends"@
}

pub open spec fn all_settled(lines: Seq<LineView>) -> bool {
    forall|i: int| 0 <= i < lines.len() ==> settled(#[trigger] lines[i])
}

/// A line of a flat netlist: it also declares no global nodes.
pub open spec fn flat_line(l: LineView) -> bool {
    settled(l) && lower(l.tokens[0]) != ".global"@
}

pub open spec fn all_flat(lines: Seq<LineView>) -> bool {
    forall|i: int| 0 <= i < lines.len() ==> flat_line(#[trigger] lines[i])
}

proof fn collected_settled(lines: Seq<LineView>, i: int)
    requires
        lines_ok(lines),
        0 <= i <= lines.len(),
    ensures
        collected(lines, i) matches Ok(c) ==> {
            &&& all_settled(c.top)
            &&& forall|k: Seq<char>| #[trigger] c.subs.contains_key(k) ==> all_settled(c.subs[k].body)
            &&& forall|j: int| 0 <= j < c.open_subs.len() ==> all_settled((#[trigger] c.open_subs[j]).1.body)
        },
    decreases i,
{
    if i > 0 {
        collected_settled(lines, i - 1);
        if let Ok(c) = collected(lines, i - 1) {
            let l = lines[i - 1];
            if let Ok(d) = with_line(c, l) {
                assert(all_settled(seq![]));
                if settled(l) {
                    assert(all_settled(c.top.push(l)));
                }
                if c.open_subs.len() > 0 {
                    let last = c.open_subs[c.open_subs.len() - 1];
                    assert(all_settled(last.1.body));
                    if settled(l) {
                        assert(all_settled(last.1.body.push(l)));
                    }
                }
                assert forall|j: int| 0 <= j < d.open_subs.len() implies all_settled(
                    (#[trigger] d.open_subs[j]).1.body,
                ) by {
                    if j < c.open_subs.len() {
                        assert(all_settled(c.open_subs[j].1.body));
                    }
                }
                assert forall|k: Seq<char>| #[trigger] d.subs.contains_key(k) implies all_settled(d.subs[k].body) by {
                    if c.subs.contains_key(k) {
                        assert(all_settled(c.subs[k].body));
                    }
                }
            }
        }
    }
}

/// The name of something inside an instance begins with the letter of its
/// outermost instance.
spec fn inside(prefix: Seq<char>) -> bool {
    prefix.len() > 0 && (prefix[0] == 'X' || prefix[0] == 'x')
}

proof fn inside_is_no_directive(prefix: Seq<char>, name: Seq<char>)
    requires
        inside(prefix),
    ensures
        (prefix + name).len() > 0,
        lower(prefix + name) != ".subckt"@,
        lower(prefix + name) != ".ends"@,
        lower(prefix + name) != ".global"@,
{
    reveal_strlit(".subckt");
    reveal_strlit(".ends");
    reveal_strlit(".global");
    let l = lower(prefix + name);
    assert((prefix + name)[0] == prefix[0]);
    assert(l[0] == 'x');
    assert(l[0] != ".subckt"@[0]);
    assert(l[0] != ".ends"@[0]);
    assert(l[0] != ".global"@[0]);
}

impl Deck {
    proof fn body_is_flat(
        self,
        sub: SubcktView,
        k: int,
        known: Map<Seq<char>, Seq<char>>,
        env: Map<Seq<char>, u64>,
        prefix: Seq<char>,
        depth: int,
    )
        requires
            all_settled(sub.body),
            forall|n: Seq<char>| #[trigger] self.subs.contains_key(n) ==> all_settled(self.subs[n].body),
            inside(prefix),
        ensures
            self.body(sub, k, known, env, prefix, depth) matches Ok(ls) ==> all_flat(ls),
        decreases MAX_DEPTH + 1 - depth, 0int, sub.body.len() - k,
    {
        if 0 <= k < sub.body.len() && depth <= MAX_DEPTH {
            let l = sub.body[k];
            let head = l.tokens[0];
            assert(settled(l));
            if lower(head) == ".param"@ {
                self.body_is_flat(
                    sub,
                    k + 1,
                    known,
                    bound(self.h, env, None, assignments(l.tokens, 1), 0),
                    prefix,
                    depth,
                );
            } else if lower(head) == ".model"@ {
                reveal_strlit(".model");
                reveal_strlit(".global");
                assert(".model"@[1] != ".global"@[1]);
                self.body_is_flat(sub, k + 1, known, env, prefix, depth);
            } else if starts_instance(head) {
                if let Ok((inst, next)) = instance_of(self.globals, known, prefix, l) {
                    let nested = InstanceView { name: prefix + inst.name, ..inst };
                    assert(nested.name[0] == prefix[0]);
                    self.instance_is_flat(nested, env, depth + 1);
                    self.body_is_flat(sub, k + 1, next, env, prefix, depth);
                }
            } else {
                let site = Site { h: self.h, globals: self.globals, prefix };
                if let Ok((flat, next)) = site.element(known, env, l) {
                    inside_is_no_directive(prefix, head);
                    assert(flat.tokens[0] == prefix + head);
                    self.body_is_flat(sub, k + 1, next, env, prefix, depth);
                }
            }
        }
    }

    proof fn instance_is_flat(self, inst: InstanceView, env: Map<Seq<char>, u64>, depth: int)
        requires
            forall|n: Seq<char>| #[trigger] self.subs.contains_key(n) ==> all_settled(self.subs[n].body),
            inside(inst.name),
        ensures
            self.expanded(inst, env, depth) matches Ok(ls) ==> all_flat(ls),
        decreases MAX_DEPTH + 1 - depth, 1int, 0int,
    {
        if depth <= MAX_DEPTH && self.subs.contains_key(inst.subname) {
            let sub = self.subs[inst.subname];
            let known = connected(Map::empty(), sub.ports, inst.conn, 0);
            let defaults = bound(self.h, env, None, sub.defaults, 0);
            let local = bound(self.h, defaults, Some(env), inst.params, 0);
            assert((inst.name + "."@)[0] == inst.name[0]);
            self.body_is_flat(sub, 0, known, local, inst.name + "."@, depth);
        }
    }

    proof fn top_is_flat(self, top: Seq<LineView>, env: Map<Seq<char>, u64>, k: int)
        requires
            all_settled(top),
            forall|n: Seq<char>| #[trigger] self.subs.contains_key(n) ==> all_settled(self.subs[n].body),
        ensures
            self.flat(top, env, k) matches Ok(ls) ==> all_flat(ls),
        decreases top.len() - k,
    {
        if 0 <= k < top.len() {
            let l = top[k];
            assert(settled(l));
            self.top_is_flat(top, env, k + 1);
            if starts_instance(l.tokens[0]) {
                if let Ok((inst, _)) = instance_of(self.globals, Map::empty(), seq![], l) {
                    self.instance_is_flat(inst, env, 0);
                }
            }
        }
    }
}

/// A flat netlist holds no definition: none of its lines is a `.subckt`, an
/// `.ends` or a `.global`, and every line has a name.
pub proof fn flattened_holds_no_definitions(h: Answers, lines: Seq<LineView>, env: Map<Seq<char>, u64>)
    requires
        lines_ok(lines),
    ensures
        flattened(h, lines, env) matches Ok(ls) ==> all_flat(ls),
{
    collected_settled(lines, lines.len() as int);
    if let Ok(c) = collected(lines, lines.len() as int) {
        (Deck { h, subs: c.subs, globals: globals_of(c.top, 0) }).top_is_flat(c.top, env, 0);
    }
}

} // verus!

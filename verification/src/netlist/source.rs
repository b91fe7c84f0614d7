//! Independent-source values: DC values, source functions (`SIN`, `PULSE`,
//! `PWL`, ...) and parameter aliasing.
use crate::netlist::expr::{resolve_value, resolved};
use crate::netlist::model_cards::values_text;
use crate::numerics::{Answers, Ask, Host, Reply};
use crate::source_fn::{shape_of, SourceFn};
use crate::table::{entries, table_insert, Table};
use crate::text::{
    chars_of, concat3, halves, has_prefix, lower, same, skip_chars, slice_text, split_once,
    split_words, starts_with, texts, to_lower, words,
};
use vstd::prelude::*;

verus! {

/// The DC value that the tokens `toks[i..]` give, after `dc` was found before.
pub open spec fn dc_from(
    h: Answers,
    env: Map<Seq<char>, u64>,
    toks: Seq<Seq<char>>,
    i: int,
    dc: Option<u64>,
) -> Option<u64>
    decreases toks.len() - i,
{
    if i < 0 || i >= toks.len() {
        dc
    } else {
        let t = lower(toks[i]);
        if t == "dc"@ {
            let next = if dc is Some || i + 1 >= toks.len() {
                dc
            } else {
                resolved(h, env, toks[i + 1])
            };
            if i + 2 <= toks.len() {
                dc_from(h, env, toks, i + 2, next)
            } else {
                next
            }
        } else if has_prefix(t, "dc="@) {
            let next = if dc is Some {
                dc
            } else {
                resolved(h, env, toks[i].skip(3))
            };
            dc_from(h, env, toks, i + 1, next)
        } else if t == "ac"@ {
            if i + 2 <= toks.len() {
                dc_from(h, env, toks, i + 2, dc)
            } else {
                dc
            }
        } else if has_prefix(t, "ac="@) {
            dc_from(h, env, toks, i + 1, dc)
        } else if starts_source(t) {
            dc
        } else {
            let next = if dc is Some {
                dc
            } else {
                resolved(h, env, toks[i])
            };
            dc_from(h, env, toks, i + 1, next)
        }
    }
}

/// A lower-case token that begins a transient source function.
pub open spec fn starts_source(t: Seq<char>) -> bool {
    has_prefix(t, "sin("@) || has_prefix(t, "pulse("@) || has_prefix(t, "exp("@) || has_prefix(t, "pwl("@)
}

/// A lower-case token that is the bare name of a source function.
pub open spec fn bare_source(t: Seq<char>) -> bool {
    t == "sin"@ || t == "pulse"@ || t == "exp"@ || t == "pwl"@
}

/// Is this token a transient source function (`SIN(...)`, `PULSE(...)`, ...)?
pub fn is_source_fn(tok: &str) -> (r: bool)
    ensures
        r == starts_source(lower(tok@)),
{
    let l = to_lower(tok);
    starts_with(&l, "sin(") || starts_with(&l, "pulse(") || starts_with(&l, "exp(") || starts_with(&l, "pwl(")
}

/// Is this token the bare (unparenthesised) form of a source-function keyword
/// (`... dc 0 sin 0 1 1k`)?
pub fn is_bare_source_kw(tok: &str) -> (r: bool)
    ensures
        r == bare_source(lower(tok@)),
{
    let l = to_lower(tok);
    same(&l, "sin") || same(&l, "pulse") || same(&l, "exp") || same(&l, "pwl")
}

/// The DC operating-point value of an independent source from token `from` on: a
/// leading bare number, or the value following a `DC` keyword. The `AC <mag>`
/// small-signal magnitude is skipped, as are transient functions.
pub fn dc_value<F: Fn(Ask) -> Reply>(toks: &Vec<String>, from: usize, env: &Table, host: &Host<F>) -> (r: Option<
    u64,
>)
    requires
        from <= toks@.len(),
    ensures
        r == dc_from(host.answers(), entries(*env), texts(toks@), from as int, None),
{
    let ghost t = texts(toks@);
    let ghost h = host.answers();
    let ghost e = entries(*env);
    let ghost goal = dc_from(h, e, t, from as int, None);
    let mut dc: Option<u64> = None;
    let mut i: usize = from;
    while i < toks.len()
        invariant
            from <= i <= toks@.len(),
            t == texts(toks@),
            h == host.answers(),
            e == entries(*env),
            goal == dc_from(h, e, t, from as int, None),
            dc_from(h, e, t, i as int, dc) == goal,
        decreases toks@.len() - i,
    {
        assert(t[i as int] == toks@[i as int]@);
        let l = to_lower(&toks[i]);
        if same(&l, "dc") {
            if dc.is_none() && i + 1 < toks.len() {
                assert(t[i + 1] == toks@[i + 1]@);
                dc = resolve_value(&toks[i + 1], env, host);
            }
            if i + 1 < toks.len() {
                i += 2;
            } else {
                return dc;
            }
        } else if starts_with(&l, "dc=") {
            proof {
                reveal_strlit("dc=");
                assert(lower(t[i as int]).len() == t[i as int].len());
            }
            if dc.is_none() {
                dc = resolve_value(&skip_chars(&toks[i], 3), env, host);
            }
            i += 1;
        } else if same(&l, "ac") {
            if i + 1 < toks.len() {
                i += 2;
            } else {
                return dc;
            }
        } else if starts_with(&l, "ac=") {
            i += 1;
        } else if is_source_fn(&toks[i]) {
            return dc;
        } else {
            if dc.is_none() {
                dc = resolve_value(&toks[i], env, host);
            }
            i += 1;
        }
    }
    dc
}

/// A text without its trailing closing parentheses.
pub open spec fn unclosed(s: Seq<char>) -> Seq<char>
    decreases s.len(),
{
    if s.len() > 0 && s.last() == ')' {
        unclosed(s.drop_last())
    } else {
        s
    }
}

fn drop_closing(s: &str) -> (r: String)
    ensures
        r@ == unclosed(s@),
{
    let v = chars_of(s);
    let mut n: usize = v.len();
    assert(v@.take(n as int) =~= s@);
    while n > 0 && v[n - 1] == ')'
        invariant
            v@ == s@,
            n <= v@.len(),
            unclosed(v@.take(n as int)) == unclosed(s@),
        decreases n,
    {
        assert(v@.take(n as int).drop_last() =~= v@.take(n - 1));
        n -= 1;
    }
    let r = slice_text(&v, 0, n);
    assert(r@ =~= v@.take(n as int));
    r
}

/// The values after the pairs `pairs[i..]`, each under `name.key`.
pub open spec fn with_values(
    values: Map<Seq<char>, u64>,
    name: Seq<char>,
    pairs: Seq<(Seq<char>, u64)>,
    i: int,
) -> Map<Seq<char>, u64>
    decreases pairs.len() - i,
{
    if i < 0 || i >= pairs.len() {
        values
    } else {
        with_values(values.insert(name + "."@ + pairs[i].0, pairs[i].1), name, pairs, i + 1)
    }
}

pub fn insert_values(values: &mut Table, name: &str, pairs: &Vec<(String, u64)>)
    ensures
        entries(*final(values)) == with_values(entries(*old(values)), name@, values_text(pairs@), 0),
{
    let ghost p = values_text(pairs@);
    let ghost goal = with_values(entries(*values), name@, p, 0);
    for i in 0..pairs.len()
        invariant
            p == values_text(pairs@),
            with_values(entries(*values), name@, p, i as int) == goal,
    {
        assert(p[i as int] == (pairs@[i as int].0@, pairs@[i as int].1));
        table_insert(values, concat3(name, ".", &pairs[i].0), pairs[i].1);
    }
}

/// The arguments of a source function; one that cannot be resolved leaves a
/// hole, so that it does not shift the later ones.
pub open spec fn source_args(h: Answers, env: Map<Seq<char>, u64>, inner: Seq<char>) -> Seq<Option<u64>> {
    words(inner).map_values(|w: Seq<char>| resolved(h, env, w))
}

/// The shape that a source function denotes, and the values after its
/// parameters are bound.
pub open spec fn source_of(
    h: Answers,
    env: Map<Seq<char>, u64>,
    values: Map<Seq<char>, u64>,
    name: Seq<char>,
    spec: Seq<char>,
) -> (Option<SourceFn>, Map<Seq<char>, u64>) {
    match halves(spec, '(') {
        None => (None, values),
        Some((func, rest)) => {
            let args = source_args(h, env, unclosed(rest));
            match shape_of(func, args.len() as usize) {
                None => (None, values),
                Some(s) => (Some(s), with_values(values, name, s.bound(h, args), 0)),
            }
        },
    }
}

fn resolve_args<F: Fn(Ask) -> Reply>(inner: &str, env: &Table, host: &Host<F>) -> (r: Vec<Option<u64>>)
    ensures
        r@ == source_args(host.answers(), entries(*env), inner@),
{
    let w = split_words(inner);
    let ghost goal = source_args(host.answers(), entries(*env), inner@);
    let mut out: Vec<Option<u64>> = Vec::new();
    for i in 0..w.len()
        invariant
            texts(w@) == words(inner@),
            goal == source_args(host.answers(), entries(*env), inner@),
            out@ =~= goal.take(i as int),
    {
        assert(words(inner@)[i as int] == w@[i as int]@);
        out.push(resolve_value(&w[i], env, host));
    }
    assert(goal.take(goal.len() as int) =~= goal);
    out
}

/// Parse a transient source-function spec, bind its parameters as
/// instance-scoped values, and return the [`SourceFn`] shape. Missing trailing
/// parameters are left unbound.
pub fn parse_source_fn<F: Fn(Ask) -> Reply>(
    name: &str,
    spec_text: &str,
    env: &Table,
    values: &mut Table,
    host: &Host<F>,
) -> (r: Option<SourceFn>)
    ensures
        (r, entries(*final(values))) == source_of(
            host.answers(),
            entries(*env),
            entries(*old(values)),
            name@,
            spec_text@,
        ),
{
    let (func, rest) = match split_once(spec_text, '(') {
        None => {
            return None;
        },
        Some(p) => p,
    };
    let args = resolve_args(&drop_closing(&rest), env, host);
    match SourceFn::from_func(&func, args.len()) {
        None => None,
        Some(s) => {
            let pairs = s.bind_params(&args, host);
            insert_values(values, name, &pairs);
            Some(s)
        },
    }
}

/// The device symbol that a model-parameter name stands for.
pub open spec fn alias(key: Seq<char>) -> Seq<char> {
    let k = lower(key);
    if k == "is"@ {
        "Is"@
    } else if k == "n"@ {
        "N"@
    } else if k == "vt"@ {
        "Vt"@
    } else if k == "cjo"@ || k == "cj0"@ {
        "Cj0"@
    } else if k == "vj"@ || k == "pb"@ {
        "Vj"@
    } else if k == "bf"@ {
        "betaF"@
    } else if k == "br"@ {
        "betaR"@
    } else if k == "vaf"@ || k == "va"@ {
        "VAf"@
    } else if k == "var"@ {
        "VAr"@
    } else if k == "ikf"@ {
        "IKF"@
    } else if k == "ikr"@ {
        "IKR"@
    } else if k == "ise"@ {
        "ISE"@
    } else if k == "isc"@ {
        "ISC"@
    } else if k == "ne"@ {
        "NE"@
    } else if k == "nc"@ {
        "NC"@
    } else if k == "rb"@ {
        "Rb"@
    } else if k == "rc"@ {
        "Rc"@
    } else if k == "re"@ {
        "Re"@
    } else if k == "vto"@ || k == "vth"@ {
        "Vto"@
    } else if k == "kp"@ {
        "Kp"@
    } else if k == "b"@ {
        "B"@
    } else if k == "w"@ {
        "W"@
    } else if k == "l"@ {
        "L"@
    } else if k == "lambda"@ {
        "lambda"@
    } else if k == "ron"@ {
        "Ron"@
    } else if k == "roff"@ {
        "Roff"@
    } else {
        key
    }
}

/// Map common SPICE model-parameter names to device symbol suffixes, so real
/// `.model` cards bind numerically. Unknown keys are kept verbatim.
pub fn alias_param(key: &str) -> (r: String)
    ensures
        r@ == alias(key@),
{
    let k = to_lower(key);
    let s: &str = if same(&k, "is") {
        "Is"
    } else if same(&k, "n") {
        "N"
    } else if same(&k, "vt") {
        "Vt"
    } else if same(&k, "cjo") || same(&k, "cj0") {
        "Cj0"
    } else if same(&k, "vj") || same(&k, "pb") {
        "Vj"
    } else if same(&k, "bf") {
        "betaF"
    } else if same(&k, "br") {
        "betaR"
    } else if same(&k, "vaf") || same(&k, "va") {
        "VAf"
    } else if same(&k, "var") {
        "VAr"
    } else if same(&k, "ikf") {
        "IKF"
    } else if same(&k, "ikr") {
        "IKR"
    } else if same(&k, "ise") {
        "ISE"
    } else if same(&k, "isc") {
        "ISC"
    } else if same(&k, "ne") {
        "NE"
    } else if same(&k, "nc") {
        "NC"
    } else if same(&k, "rb") {
        "Rb"
    } else if same(&k, "rc") {
        "Rc"
    } else if same(&k, "re") {
        "Re"
    } else if same(&k, "vto") || same(&k, "vth") {
        "Vto"
    } else if same(&k, "kp") {
        "Kp"
    } else if same(&k, "b") {
        "B"
    } else if same(&k, "w") {
        "W"
    } else if same(&k, "l") {
        "L"
    } else if same(&k, "lambda") {
        "lambda"
    } else if same(&k, "ron") {
        "Ron"
    } else if same(&k, "roff") {
        "Roff"
    } else {
        key
    };
    s.to_owned()
}

} // verus!

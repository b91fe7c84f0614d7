//! Verilog-A intake: extraction of `.veriloga` blocks and file references from
//! the deck, and the mapping of Verilog-A positions back onto the deck.
use crate::netlist::resolve::quote_end;
use crate::netlist::world::{
    fail, fail_at, failed, failed_at, CompiledVa, ModuleInfo, RefTable, Request, RequestView, Stop,
    StopView, VaResult,
};
use crate::text::{
    chars_of, chomp, concat2, concat3, ended, ended_texts_are_lines, has_char, has_prefix, holds_char,
    lines_hold_no_breaks, lower, same, skip_chars, slice_text, split_lines, split_words, starts_with, texts, to_lower, trim, trim_end, trimmed,
    trimmed_end, words,
};
use vstd::prelude::*;

verus! {

/// The nonempty quoted parts of `s[i..]`.
pub open spec fn quoted_from(s: Seq<char>, i: int) -> Seq<Seq<char>>
    decreases s.len() + 1 - i,
{
    if i < 0 || i >= s.len() {
        seq![]
    } else if s[i] == '"' {
        let e = quote_end(s, i + 1);
        if i < e <= s.len() {
            let rest = quoted_from(s, e + 1);
            if e > i + 1 {
                seq![s.subrange(i + 1, e)] + rest
            } else {
                rest
            }
        } else {
            seq![]
        }
    } else {
        quoted_from(s, i + 1)
    }
}

/// The paths that a `.veriloga` directive names.
pub open spec fn va_paths(rest: Seq<char>) -> Seq<Seq<char>> {
    if has_char(rest, '"') {
        quoted_from(rest, 0)
    } else {
        words(rest)
    }
}

/// Split the arguments of a `.veriloga "a.va" "b.va"` directive into paths,
/// honouring double quotes (paths may contain spaces) and falling back to
/// whitespace separation for bare tokens.
pub fn parse_va_paths(rest: &str) -> (r: Vec<String>)
    ensures
        texts(r@) == va_paths(rest@),
{
    if !holds_char(rest, '"') {
        return split_words(rest);
    }
    let v = chars_of(rest);
    let ghost s = rest@;
    let mut out: Vec<String> = Vec::new();
    let mut i: usize = 0;
    assert(texts(out@) + quoted_from(s, 0) =~= quoted_from(s, 0));
    while i < v.len()
        invariant
            v@ == s,
            i <= v@.len(),
            texts(out@) + quoted_from(s, i as int) == quoted_from(s, 0),
        decreases v@.len() - i,
    {
        if v[i] == '"' {
            let mut e: usize = i + 1;
            while e < v.len() && v[e] != '"'
                invariant
                    v@ == s,
                    i < e <= v@.len(),
                    quote_end(s, e as int) == quote_end(s, i + 1),
                decreases v@.len() - e,
            {
                e += 1;
            }
            let ghost before = texts(out@);
            if e > i + 1 {
                let a = slice_text(&v, i + 1, e);
                out.push(a);
                proof {
                    assert(texts(out@) =~= before.push(a@));
                    assert(before.push(a@) + quoted_from(s, e + 1) =~= before + (seq![a@] + quoted_from(s, e + 1)));
                }
            }
            if e < v.len() {
                i = e + 1;
            } else {
                assert(quoted_from(s, e + 1) == quoted_from(s, e as int));
                i = e;
            }
        } else {
            i += 1;
        }
    }
    assert(texts(out@) + seq![] =~= texts(out@));
    out
}

// ---------------------------------------------------------------------------
// Registration.
// ---------------------------------------------------------------------------
/// The first piece from `i` on that answers a request.
pub open spec fn va_index(va: Seq<CompiledVa>, file: bool, source: Seq<char>, i: int) -> Option<int>
    decreases va.len() - i,
{
    if i < 0 || i >= va.len() {
        None
    } else if va[i].file == file && va[i].source@ == source {
        Some(i)
    } else {
        va_index(va, file, source, i + 1)
    }
}

fn find_va(va: &Vec<CompiledVa>, file: bool, source: &str) -> (r: Option<usize>)
    ensures
        match r {
            Some(k) => k < va@.len() && va_index(va@, file, source@, 0) == Some(k as int),
            None => va_index(va@, file, source@, 0) is None,
        },
{
    for i in 0..va.len()
        invariant
            va_index(va@, file, source@, i as int) == va_index(va@, file, source@, 0),
    {
        if va[i].file == file && same(&va[i].source, source) {
            return Some(i);
        }
    }
    None
}

pub type Places = Map<Seq<char>, (usize, usize)>;

/// The registry with the modules `ms[j..]` of piece `k`.
pub open spec fn with_modules(models: Places, ms: Seq<ModuleInfo>, k: usize, j: int) -> Places
    decreases ms.len() - j,
{
    if j < 0 || j >= ms.len() {
        models
    } else {
        with_modules(models.insert(lower(ms[j].name@), (k, j as usize)), ms, k, j + 1)
    }
}

/// A line number past a given one, as far as there are line numbers.
pub open spec fn line_past(line: int, more: int) -> int {
    if line + more <= usize::MAX {
        line + more
    } else {
        usize::MAX as int
    }
}

/// A failure in a piece of Verilog-A, in deck coordinates: a block's own
/// position is counted from its directive; a file's is not in the deck, so its
/// message is embedded.
pub open spec fn va_error(
    file: bool,
    line: int,
    phase: Seq<char>,
    first: Option<(u32, u32, String)>,
    rendered: Seq<char>,
) -> StopView {
    if file {
        failed(line, phase + ":\n"@ + trim_end(rendered))
    } else {
        match first {
            Some((l, c, m)) => failed_at(line_past(line, l as int), c as int, phase + ": "@ + m@),
            None => failed(line, phase + ": unspecified error"@),
        }
    }
}

/// The registry with every module of a piece, or why not.
pub open spec fn registered(
    va: Seq<CompiledVa>,
    models: Places,
    file: bool,
    source: Seq<char>,
    line: int,
) -> Result<Places, StopView> {
    match va_index(va, file, source, 0) {
        None => Err(
            StopView::Need(
                if file {
                    RequestView::VaFile(source)
                } else {
                    RequestView::VaBlock(source)
                },
            ),
        ),
        Some(k) => match va[k].result {
            VaResult::Unreadable(e) => Err(failed(line, "veriloga file '"@ + source + "': "@ + e@)),
            VaResult::Failed { phase, first, rendered } => Err(
                va_error(file, line, phase@, first, rendered@),
            ),
            VaResult::Modules(ms) => Ok(with_modules(models, ms@, k as usize, 0)),
        },
    }
}

/// A place in the registry leads to a module.
pub open spec fn leads(va: Seq<CompiledVa>, p: (usize, usize)) -> bool {
    &&& p.0 < va.len()
    &&& va[p.0 as int].result matches VaResult::Modules(ms)
    &&& p.1 < ms@.len()
}

/// Every place leads to a module.
pub open spec fn places_ok(va: Seq<CompiledVa>, models: Places) -> bool {
    forall|k: Seq<char>| #[trigger] models.contains_key(k) ==> leads(va, models[k])
}

pub open spec fn module_at(va: Seq<CompiledVa>, p: (usize, usize)) -> ModuleInfo {
    va[p.0 as int].result->Modules_0@[p.1 as int]
}

pub(crate) fn find_module(va: &Vec<CompiledVa>, p: (usize, usize)) -> (r: &ModuleInfo)
    requires
        leads(va@, p),
    ensures
        *r == module_at(va@, p),
{
    match &va[p.0].result {
        VaResult::Modules(ms) => &ms[p.1],
        _ => vstd::pervasive::unreached(),
    }
}

/// A failure in a piece of Verilog-A as an error of the deck.
pub fn va_parse_error(
    file: bool,
    line: usize,
    phase: &str,
    first: &Option<(u32, u32, String)>,
    rendered: &str,
) -> (r: Stop)
    ensures
        r@ == va_error(file, line as int, phase@, *first, rendered@),
{
    if file {
        fail(line, &concat3(phase, ":\n", &trimmed_end(rendered)))
    } else {
        match first {
            Some((l, c, m)) => {
                let at: usize = match line.checked_add(*l as usize) {
                    Some(n) => n,
                    None => usize::MAX,
                };
                fail_at(at, *c as usize, &concat3(phase, ": ", m))
            },
            None => fail(line, &concat2(phase, ": unspecified error")),
        }
    }
}

/// Register every module that a piece of Verilog-A defines, by lower-cased name.
pub fn register_va_modules(
    models: &mut RefTable,
    va: &Vec<CompiledVa>,
    file: bool,
    source: &str,
    line: usize,
) -> (r: Result<(), Stop>)
    requires
        old(models).wf(),
        places_ok(va@, old(models)@),
    ensures
        final(models).wf(),
        places_ok(va@, final(models)@),
        match (r, registered(va@, old(models)@, file, source@, line as int)) {
            (Ok(()), Ok(m)) => final(models)@ == m,
            (Err(e), Err(v)) => e@ == v,
            _ => false,
        },
{
    let k: usize = match find_va(va, file, source) {
        None => {
            let q = if file {
                Request::VaFile(source.to_owned())
            } else {
                Request::VaBlock(source.to_owned())
            };
            return Err(Stop::Need(q));
        },
        Some(k) => k,
    };
    match &va[k].result {
        VaResult::Unreadable(e) => {
            let mut msg = concat3("veriloga file '", source, "': ");
            msg.append(e);
            Err(fail(line, &msg))
        },
        VaResult::Failed { phase, first, rendered } => Err(
            va_parse_error(file, line, phase, first, rendered),
        ),
        VaResult::Modules(ms) => {
            let ghost goal = with_modules(models@, ms@, k, 0);
            for j in 0..ms.len()
                invariant
                    models.wf(),
                    places_ok(va@, models@),
                    k < va@.len(),
                    va@[k as int].result matches VaResult::Modules(x) && x == *ms,
                    with_modules(models@, ms@, k, j as int) == goal,
            {
                let ghost before = models@;
                models.insert(to_lower(&ms[j].name), (k, j));
                proof {
                    assert(leads(va@, (k, j)));
                    assert forall|n: Seq<char>| #[trigger] models@.contains_key(n) implies leads(va@, models@[n]) by {
                        if n != lower(ms@[j as int].name@) {
                            assert(before.contains_key(n));
                        }
                    }
                }
            }
            Ok(())
        },
    }
}

// ---------------------------------------------------------------------------
// Extraction.
// ---------------------------------------------------------------------------
/// The registry after the files `paths[j..]`.
pub open spec fn with_files(
    va: Seq<CompiledVa>,
    models: Places,
    paths: Seq<Seq<char>>,
    j: int,
    line: int,
) -> Result<Places, StopView>
    decreases paths.len() - j,
{
    if j < 0 || j >= paths.len() {
        Ok(models)
    } else {
        match registered(va, models, true, paths[j], line) {
            Err(e) => Err(e),
            Ok(m) => with_files(va, m, paths, j + 1, line),
        }
    }
}

/// The deck without its Verilog-A, and the modules that it defines.
pub type Extracted = Result<(Seq<char>, Places), StopView>;

/// The rest of the extraction from line `i` on: `out` has been kept, and a block
/// may be open, with the line of its directive and its text so far.
pub open spec fn extract_from(
    va: Seq<CompiledVa>,
    raw: Seq<Seq<char>>,
    i: int,
    out: Seq<char>,
    models: Places,
    block: Option<(int, Seq<char>)>,
) -> Extracted
    decreases raw.len() - i,
{
    if i < 0 || i >= raw.len() {
        match block {
            Some((start, _)) => Err(failed(start, ".veriloga block without .endveriloga"@)),
            None => Ok((out, models)),
        }
    } else {
        let t = trim(raw[i]);
        match block {
            None => if has_prefix(lower(t), ".veriloga"@) {
                let rest = trim(t.skip(9));
                if rest.len() == 0 {
                    extract_from(va, raw, i + 1, out.push('\n'), models, Some((i + 1, seq![])))
                } else {
                    match with_files(va, models, va_paths(rest), 0, i + 1) {
                        Err(e) => Err(e),
                        Ok(m) => extract_from(va, raw, i + 1, out.push('\n'), m, None),
                    }
                }
            } else {
                extract_from(va, raw, i + 1, (out + raw[i]).push('\n'), models, None)
            },
            Some((start, buf)) => if lower(t) == ".endveriloga"@ {
                match registered(va, models, false, buf, start) {
                    Err(e) => Err(e),
                    Ok(m) => extract_from(va, raw, i + 1, out.push('\n'), m, None),
                }
            } else {
                extract_from(
                    va,
                    raw,
                    i + 1,
                    out.push('\n'),
                    models,
                    Some((start, (buf + raw[i]).push('\n'))),
                )
            },
        }
    }
}

pub open spec fn extracted(va: Seq<CompiledVa>, text: Seq<char>) -> Extracted {
    extract_from(va, crate::text::lines(text), 0, seq![], Map::empty(), None)
}

fn register_files(models: &mut RefTable, va: &Vec<CompiledVa>, paths: &Vec<String>, line: usize) -> (r: Result<
    (),
    Stop,
>)
    requires
        old(models).wf(),
        places_ok(va@, old(models)@),
    ensures
        final(models).wf(),
        places_ok(va@, final(models)@),
        match (r, with_files(va@, old(models)@, texts(paths@), 0, line as int)) {
            (Ok(()), Ok(m)) => final(models)@ == m,
            (Err(e), Err(v)) => e@ == v,
            _ => false,
        },
{
    let ghost p = texts(paths@);
    let ghost goal = with_files(va@, models@, p, 0, line as int);
    for j in 0..paths.len()
        invariant
            models.wf(),
            places_ok(va@, models@),
            p == texts(paths@),
            goal == with_files(va@, old(models)@, p, 0, line as int),
            with_files(va@, models@, p, j as int, line as int) == goal,
    {
        assert(p[j as int] == paths@[j as int]@);
        match register_va_modules(models, va, true, &paths[j], line) {
            Err(e) => {
                return Err(e);
            },
            Ok(()) => {},
        }
    }
    Ok(())
}

/// Pull `.veriloga` directives out of the deck and register every module they
/// define, by lower-cased name. Two forms are supported: an inline block
/// (`.veriloga ... .endveriloga`) and file references (`.veriloga "model.va"`).
/// Block lines are blanked in the returned text to preserve line numbers.
pub fn extract_veriloga(text: &str, va: &Vec<CompiledVa>) -> (r: Result<(String, RefTable), Stop>)
    ensures
        match (r, extracted(va@, text@)) {
            (Ok((s, m)), Ok((t, n))) => s@ == t && m@ == n && m.wf() && places_ok(va@, n),
            (Err(e), Err(v)) => e@ == v,
            _ => false,
        },
{
    let raw = split_lines(text);
    let ghost rv = crate::text::lines(text@);
    let ghost goal = extracted(va@, text@);
    let mut models = RefTable::new();
    let mut out = String::new();
    let mut buf = String::new();
    let mut open: bool = false;
    let mut start: usize = 0;
    assert(out@ =~= seq![]);
    for i in 0..raw.len()
        invariant
            rv == texts(raw@),
            goal == extracted(va@, text@),
            models.wf(),
            places_ok(va@, models@),
            extract_from(
                va@,
                rv,
                i as int,
                out@,
                models@,
                if open {
                    Some((start as int, buf@))
                } else {
                    None
                },
            ) == goal,
    {
        assert(rv[i as int] == raw@[i as int]@);
        let t = trimmed(&raw[i]);
        let l = to_lower(&t);
        if !open && starts_with(&l, ".veriloga") {
            proof {
                reveal_strlit(".veriloga");
            }
            let rest = trimmed(&skip_chars(&t, 9));
            if rest.as_str().unicode_len() == 0 {
                open = true;
                start = i + 1;
                buf = String::new();
                assert(buf@ =~= seq![]);
                out.push('\n');
            } else {
                let paths = parse_va_paths(&rest);
                match register_files(&mut models, va, &paths, i + 1) {
                    Err(e) => {
                        return Err(e);
                    },
                    Ok(()) => {},
                }
                out.push('\n');
            }
        } else if open && same(&l, ".endveriloga") {
            open = false;
            match register_va_modules(&mut models, va, false, &buf, start) {
                Err(e) => {
                    return Err(e);
                },
                Ok(()) => {},
            }
            out.push('\n');
        } else if open {
            buf.append(&raw[i]);
            buf.push('\n');
            out.push('\n');
        } else {
            out.append(&raw[i]);
            out.push('\n');
        }
    }
    if open {
        return Err(fail(start, ".veriloga block without .endveriloga"));
    }
    Ok((out, models))
}

/// The text that an extraction from line `i` on adds: one line for each, as it is
/// or blank.
pub open spec fn kept_or_blank(raw: Seq<Seq<char>>, i: int, v: Seq<Seq<char>>) -> bool {
    v.len() == raw.len() - i && forall|k: int|
        0 <= k < v.len() ==> (#[trigger] v[k]) == raw[i + k] || v[k].len() == 0
}

proof fn extraction_adds_lines(
    va: Seq<CompiledVa>,
    raw: Seq<Seq<char>>,
    i: int,
    out: Seq<char>,
    models: Places,
    block: Option<(int, Seq<char>)>,
)
    requires
        0 <= i <= raw.len(),
    ensures
        extract_from(va, raw, i, out, models, block) matches Ok((t, _)) ==> exists|v: Seq<Seq<char>>|
            #[trigger] kept_or_blank(raw, i, v) && t == out + ended(v),
    decreases raw.len() - i,
{
    if let Ok((t, _)) = extract_from(va, raw, i, out, models, block) {
        if i == raw.len() {
            let v: Seq<Seq<char>> = seq![];
            assert(out + ended(v) =~= out);
            assert(kept_or_blank(raw, i, v));
        } else {
            let line = trim(raw[i]);
            let directive = has_prefix(lower(line), ".veriloga"@);
            let closes = block is Some && lower(line) == ".endveriloga"@;
            let keep = block is None && !directive;
            let own = if keep {
                raw[i]
            } else {
                seq![]
            };
            let next = match block {
                None => if directive && trim(line.skip(9)).len() == 0 {
                    Some((i + 1, seq![]))
                } else {
                    None
                },
                Some((start, buf)) => if closes {
                    None
                } else {
                    Some((start, (buf + raw[i]).push('\n')))
                },
            };
            let then_models = match block {
                None => if directive && trim(line.skip(9)).len() > 0 {
                    with_files(va, models, va_paths(trim(line.skip(9))), 0, i + 1)->Ok_0
                } else {
                    models
                },
                Some((start, buf)) => if closes {
                    registered(va, models, false, buf, start)->Ok_0
                } else {
                    models
                },
            };
            let grown = out + own.push('\n');
            assert(out.push('\n') =~= out + Seq::<char>::empty().push('\n'));
            assert((out + raw[i]).push('\n') =~= out + raw[i].push('\n'));
            assert(extract_from(va, raw, i + 1, grown, then_models, next) == Ok::<(Seq<char>, Places), StopView>(
                (t, extract_from(va, raw, i, out, models, block)->Ok_0.1),
            ));
            extraction_adds_lines(va, raw, i + 1, grown, then_models, next);
            let rest = choose|v: Seq<Seq<char>>| #[trigger] kept_or_blank(raw, i + 1, v) && t == grown + ended(v);
            let v = seq![own] + rest;
            assert(v.drop_first() =~= rest);
            assert(t =~= out + ended(v));
            assert forall|k: int| 0 <= k < v.len() implies (#[trigger] v[k]) == raw[i + k] || v[k].len() == 0 by {
                if k > 0 {
                    assert(v[k] == rest[k - 1]);
                }
            }
            assert(kept_or_blank(raw, i, v));
        }
    }
}

/// Extraction keeps line numbers: the deck without its Verilog-A has as many lines
/// as the deck, and each of them is the deck's line of the same number (but for
/// one more carriage return at its end) or blank.
pub proof fn extraction_keeps_line_numbers(va: Seq<CompiledVa>, text: Seq<char>)
    requires
        extracted(va, text) is Ok,
    ensures
        ({
            let before = crate::text::lines(text);
            let after = crate::text::lines(extracted(va, text)->Ok_0.0);
            &&& after.len() == before.len()
            &&& forall|k: int|
                0 <= k < after.len() ==> (#[trigger] after[k]) == chomp(before[k]) || after[k].len() == 0
        }),
{
    let raw = crate::text::lines(text);
    extraction_adds_lines(va, raw, 0, seq![], Map::empty(), None);
    let t = extracted(va, text)->Ok_0.0;
    let v = choose|v: Seq<Seq<char>>| #[trigger] kept_or_blank(raw, 0, v) && t == Seq::<char>::empty() + ended(v);
    assert(t =~= ended(v));
    lines_hold_no_breaks(text);
    assert forall|k: int| 0 <= k < v.len() implies !(#[trigger] v[k]).contains('\n') by {
        if v[k].len() > 0 {
            assert(v[k] == raw[0 + k]);
        }
    }
    ended_texts_are_lines(v);
    let after = crate::text::lines(t);
    assert forall|k: int| 0 <= k < after.len() implies (#[trigger] after[k]) == chomp(raw[k]) || after[k].len()
        == 0 by {
        assert(after[k] == chomp(v[k]));
        assert(v[k] == raw[0 + k] || v[k].len() == 0);
    }
}

} // verus!

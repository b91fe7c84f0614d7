//! Text-level `.include` / `.lib` resolution, run before tokenisation.
//!
//! - `.include "file"` / `.inc "file"` splices the whole file, each file once.
//! - `.lib "file" SECTION` splices only the `SECTION` block of `file` (the lines
//!   between `.lib SECTION` and its matching `.endl`).
//! - `.lib SECTION ... .endl` definition blocks encountered standalone are
//!   skipped (only pulled in when called by the two-argument form above).
use crate::netlist::world::{fail, failed, LoadedFile, Request, RequestView, Stop, StopView};
use crate::text::{
    chars_of, concat3, contains_text, join, join_texts, lines, lower, same, slice_text, space, is_space,
    split_lines, split_words, texts, to_lower, trim_start, trimmed_start, words,
};
use vstd::prelude::*;

verus! {

/// Guards against include cycles and runaway recursion.
pub const MAX_INCLUDE_DEPTH: usize = 64;

// ---------------------------------------------------------------------------
// Directive lines.
// ---------------------------------------------------------------------------
/// First whitespace-delimited word of a line.
pub open spec fn keyword(s: Seq<char>) -> Seq<char> {
    if words(s).len() > 0 {
        words(s)[0]
    } else {
        seq![]
    }
}

/// Where white space first occurs from `i` on; the length of the text if nowhere.
pub open spec fn space_index(s: Seq<char>, i: int) -> int
    decreases s.len() - i,
{
    if i < 0 || i >= s.len() {
        s.len() as int
    } else if is_space(s[i]) {
        i
    } else {
        space_index(s, i + 1)
    }
}

/// Where an inline comment first starts from `i` on; the length if nowhere.
pub open spec fn comment_index(s: Seq<char>, i: int) -> int
    decreases s.len() - i,
{
    if i < 0 || i >= s.len() {
        s.len() as int
    } else if s[i] == ';' || s[i] == '$' {
        i
    } else {
        comment_index(s, i + 1)
    }
}

/// Everything after the first word, comments stripped.
pub open spec fn arguments(s: Seq<char>) -> Seq<char> {
    let rest = s.skip(space_index(s, 0));
    rest.take(comment_index(rest, 0))
}

/// Where a character first occurs from `i` on; the length if nowhere.
pub open spec fn quote_end(s: Seq<char>, i: int) -> int
    decreases s.len() - i,
{
    if i < 0 || i >= s.len() {
        s.len() as int
    } else if s[i] == '"' {
        i
    } else {
        quote_end(s, i + 1)
    }
}

/// Where a bare argument ends.
pub open spec fn bare_end(s: Seq<char>, i: int) -> int
    decreases s.len() - i,
{
    if i < 0 || i >= s.len() {
        s.len() as int
    } else if is_space(s[i]) || s[i] == '"' {
        i
    } else {
        bare_end(s, i + 1)
    }
}

/// The arguments of `s[i..]`: quoted ones may hold spaces, bare ones are
/// separated by white space.
pub open spec fn args_from(s: Seq<char>, i: int) -> Seq<Seq<char>>
    decreases s.len() + 1 - i,
{
    if i < 0 || i >= s.len() {
        seq![]
    } else if is_space(s[i]) {
        args_from(s, i + 1)
    } else if s[i] == '"' {
        let e = quote_end(s, i + 1);
        if i < e <= s.len() {
            seq![s.subrange(i + 1, e)] + args_from(s, e + 1)
        } else {
            seq![]
        }
    } else {
        let e = bare_end(s, i);
        if i < e <= s.len() {
            seq![s.subrange(i, e)] + args_from(s, e)
        } else {
            seq![]
        }
    }
}

pub open spec fn args_of(s: Seq<char>) -> Seq<Seq<char>> {
    args_from(s, 0)
}

fn find_space(v: &Vec<char>) -> (r: usize)
    ensures
        r == space_index(v@, 0),
        r <= v@.len(),
{
    let mut i: usize = 0;
    while i < v.len() && !space(v[i])
        invariant
            i <= v@.len(),
            space_index(v@, i as int) == space_index(v@, 0),
        decreases v@.len() - i,
    {
        i += 1;
    }
    i
}

fn find_comment(v: &Vec<char>) -> (r: usize)
    ensures
        r == comment_index(v@, 0),
        r <= v@.len(),
{
    let mut i: usize = 0;
    while i < v.len() && v[i] != ';' && v[i] != '$'
        invariant
            i <= v@.len(),
            comment_index(v@, i as int) == comment_index(v@, 0),
        decreases v@.len() - i,
    {
        i += 1;
    }
    i
}

/// First whitespace-delimited word of a line (the directive keyword).
fn first_word(s: &str) -> (r: String)
    ensures
        r@ == keyword(s@),
{
    let w = split_words(s);
    assert(texts(w@).len() == w@.len());
    if w.len() > 0 {
        assert(texts(w@)[0] == w@[0]@);
        w[0].clone()
    } else {
        let r = String::new();
        assert(r@ =~= seq![]);
        r
    }
}

/// Everything after the first word (the directive arguments), comments stripped.
fn after_word(s: &str) -> (r: String)
    ensures
        r@ == arguments(s@),
{
    let v = chars_of(s);
    let p: usize = find_space(&v);
    let rest = chars_of(&crate::text::skip_chars(s, p));
    let e: usize = find_comment(&rest);
    let r = slice_text(&rest, 0, e);
    assert(r@ =~= rest@.take(e as int));
    r
}

/// Split directive arguments, honouring double-quoted paths (which may contain
/// spaces) and falling back to whitespace separation for bare tokens.
pub fn split_args(rest: &str) -> (r: Vec<String>)
    ensures
        texts(r@) == args_of(rest@),
{
    let v = chars_of(rest);
    let ghost s = rest@;
    let mut out: Vec<String> = Vec::new();
    let mut i: usize = 0;
    assert(texts(out@) + args_from(s, 0) =~= args_from(s, 0));
    while i < v.len()
        invariant
            v@ == s,
            i <= v@.len(),
            texts(out@) + args_from(s, i as int) == args_of(s),
        decreases v@.len() - i,
    {
        let ghost before = texts(out@);
        if space(v[i]) {
            i += 1;
        } else if v[i] == '"' {
            let mut e: usize = i + 1;
            while e < v.len() && v[e] != '"'
                invariant
                    v@ == s,
                    i < e <= v@.len(),
                    quote_end(s, e as int) == quote_end(s, i + 1),
                decreases v@.len() - e,
            {
                e += 1;
            }
            let a = slice_text(&v, i + 1, e);
            out.push(a);
            proof {
                assert(texts(out@) =~= before.push(a@));
                assert(before.push(a@) + args_from(s, e + 1) =~= before + (seq![a@] + args_from(s, e + 1)));
            }
            if e < v.len() {
                i = e + 1;
            } else {
                assert(args_from(s, e + 1) == args_from(s, e as int));
                i = e;
            }
        } else {
            let mut e: usize = i;
            while e < v.len() && !space(v[e]) && v[e] != '"'
                invariant
                    v@ == s,
                    i <= e <= v@.len(),
                    i < v@.len() && !is_space(s[i as int]) && s[i as int] != '"',
                    bare_end(s, e as int) == bare_end(s, i as int),
                decreases v@.len() - e,
            {
                e += 1;
            }
            let a = slice_text(&v, i, e);
            out.push(a);
            proof {
                assert(e > i);
                assert(texts(out@) =~= before.push(a@));
                assert(before.push(a@) + args_from(s, e as int) =~= before + (seq![a@] + args_from(s, e as int)));
            }
            i = e;
        }
    }
    assert(texts(out@) + seq![] =~= texts(out@));
    out
}

// ---------------------------------------------------------------------------
// Definition blocks.
// ---------------------------------------------------------------------------
pub open spec fn head_of(line: Seq<char>) -> Seq<char> {
    lower(keyword(trim_start(line)))
}

pub open spec fn line_args(line: Seq<char>) -> Seq<Seq<char>> {
    args_of(arguments(trim_start(line)))
}

/// The line behind the `.endl` that closes the block open since before line `i`,
/// with `depth` blocks open; the number of lines if none does.
pub open spec fn block_end(raw: Seq<Seq<char>>, i: int, depth: int) -> int
    decreases raw.len() - i,
{
    if i < 0 || i >= raw.len() {
        raw.len() as int
    } else if head_of(raw[i]) == ".lib"@ && line_args(raw[i]).len() == 1 {
        block_end(raw, i + 1, depth + 1)
    } else if head_of(raw[i]) == ".endl"@ {
        if depth == 1 {
            i + 1
        } else {
            block_end(raw, i + 1, depth - 1)
        }
    } else {
        block_end(raw, i + 1, depth)
    }
}

/// Given the index of a `.lib <name>` definition line, the index of the line
/// just past its matching `.endl`, honouring nested definition blocks.
fn skip_lib_block(raw: &Vec<String>, start: usize) -> (r: usize)
    requires
        start <= raw@.len(),
    ensures
        r == block_end(texts(raw@), start as int, 0),
        start <= r <= raw@.len(),
{
    let ghost rv = texts(raw@);
    let mut depth: i128 = 0;
    let mut i: usize = start;
    while i < raw.len()
        invariant
            rv == texts(raw@),
            start <= i <= raw@.len(),
            -(i as int) <= depth <= i,
            block_end(rv, i as int, depth as int) == block_end(rv, start as int, 0),
        decreases raw@.len() - i,
    {
        assert(rv[i as int] == raw@[i as int]@);
        let t = trimmed_start(&raw[i]);
        let head = to_lower(&first_word(&t));
        if same(&head, ".lib") && split_args(&after_word(&t)).len() == 1 {
            assert(line_args(rv[i as int]).len() == 1);
            depth = depth + 1;
        } else if same(&head, ".endl") {
            if depth == 1 {
                return i + 1;
            }
            depth = depth - 1;
        }
        i += 1;
    }
    i
}

// ---------------------------------------------------------------------------
// Splicing.
// ---------------------------------------------------------------------------
/// The first loaded file from `i` on that answers a reference.
pub open spec fn file_index(files: Seq<LoadedFile>, from: usize, name: Seq<char>, i: int) -> Option<int>
    decreases files.len() - i,
{
    if i < 0 || i >= files.len() {
        None
    } else if files[i].from == from && files[i].name@ == name {
        Some(i)
    } else {
        file_index(files, from, name, i + 1)
    }
}

/// The text spliced and the files included so far, or why it stops.
pub type Spliced = Result<(Seq<char>, Seq<Seq<char>>), StopView>;

pub open spec fn text_before(a: Seq<char>, r: Spliced) -> Spliced {
    match r {
        Ok((b, seen)) => Ok((a + b, seen)),
        Err(e) => Err(e),
    }
}

/// The definition line of a section from line `i` on.
pub open spec fn section_at(raw: Seq<Seq<char>>, section: Seq<char>, i: int) -> Option<int>
    decreases raw.len() - i,
{
    if i < 0 || i >= raw.len() {
        None
    } else if head_of(raw[i]) == ".lib"@ && line_args(raw[i]).len() == 1 && lower(line_args(raw[i])[0])
        == lower(section) {
        Some(i)
    } else {
        section_at(raw, section, i + 1)
    }
}

/// The lines between a definition line and its `.endl`.
pub open spec fn section_body(raw: Seq<Seq<char>>, at: int) -> Seq<char> {
    let end = block_end(raw, at, 0);
    let stop = if end - 1 > at + 1 {
        end - 1
    } else {
        at + 1
    };
    join(raw.subrange(at + 1, stop), "\n"@)
}

/// The text of a file (or of the deck, file 0) with everything that it refers to
/// spliced in.
pub open spec fn spliced(
    files: Seq<LoadedFile>,
    text: Seq<char>,
    from: usize,
    seen: Seq<Seq<char>>,
    depth: int,
) -> Spliced
    decreases MAX_INCLUDE_DEPTH + 1 - depth, 1int, 0int,
{
    if depth > MAX_INCLUDE_DEPTH {
        Err(failed(0, "`.include`/`.lib` nesting too deep (cyclic reference?)"@))
    } else {
        spliced_from(files, lines(text), 0, from, seen, depth)
    }
}

/// The same from line `i` on.
pub open spec fn spliced_from(
    files: Seq<LoadedFile>,
    raw: Seq<Seq<char>>,
    i: int,
    from: usize,
    seen: Seq<Seq<char>>,
    depth: int,
) -> Spliced
    decreases MAX_INCLUDE_DEPTH + 1 - depth, 0int, raw.len() - i,
{
    if i < 0 || i >= raw.len() || depth > MAX_INCLUDE_DEPTH {
        Ok((seq![], seen))
    } else {
        let head = head_of(raw[i]);
        let args = line_args(raw[i]);
        if head == ".include"@ || head == ".inc"@ {
            if args.len() == 0 {
                Err(failed(i + 1, "`.include` needs a file path"@))
            } else {
                match file_index(files, from, args[0], 0) {
                    None => Err(StopView::Need(RequestView::File(from, args[0]))),
                    Some(k) => if seen.contains(files[k].canon@) {
                        spliced_from(files, raw, i + 1, from, seen, depth)
                    } else {
                        match files[k].text {
                            Err(e) => Err(
                                failed(
                                    i + 1,
                                    "cannot read `.include` file '"@ + files[k].shown@ + "': "@ + e@,
                                ),
                            ),
                            Ok(t) => match spliced(
                                files,
                                t@,
                                (k + 1) as usize,
                                seen.push(files[k].canon@),
                                depth + 1,
                            ) {
                                Err(e) => Err(e),
                                Ok((a, s)) => text_before(
                                    a,
                                    spliced_from(files, raw, i + 1, from, s, depth),
                                ),
                            },
                        }
                    },
                }
            }
        } else if head == ".lib"@ {
            if args.len() >= 2 {
                match file_index(files, from, args[0], 0) {
                    None => Err(StopView::Need(RequestView::File(from, args[0]))),
                    Some(k) => match files[k].text {
                        Err(e) => Err(
                            failed(
                                i + 1,
                                "cannot read `.lib` file '"@ + files[k].shown@ + "': "@ + e@,
                            ),
                        ),
                        Ok(t) => match section_at(lines(t@), args[1], 0) {
                            None => Err(
                                failed(
                                    i + 1,
                                    "section '"@ + args[1] + "' not found in `.lib` file '"@
                                        + files[k].shown@ + "'"@,
                                ),
                            ),
                            Some(at) => match spliced(
                                files,
                                section_body(lines(t@), at),
                                (k + 1) as usize,
                                seen,
                                depth + 1,
                            ) {
                                Err(e) => Err(e),
                                Ok((a, s)) => text_before(
                                    a,
                                    spliced_from(files, raw, i + 1, from, s, depth),
                                ),
                            },
                        },
                    },
                }
            } else if args.len() == 1 {
                let next = block_end(raw, i, 0);
                if i < next <= raw.len() {
                    spliced_from(files, raw, next, from, seen, depth)
                } else {
                    Ok((seq![], seen))
                }
            } else {
                Err(failed(i + 1, "malformed `.lib` directive"@))
            }
        } else if head == ".endl"@ {
            spliced_from(files, raw, i + 1, from, seen, depth)
        } else {
            text_before(raw[i] + "\n"@, spliced_from(files, raw, i + 1, from, seen, depth))
        }
    }
}

fn find_file(files: &Vec<LoadedFile>, from: usize, name: &str) -> (r: Option<usize>)
    ensures
        match r {
            Some(k) => k < files.len() && file_index(files@, from, name@, 0) == Some(k as int),
            None => file_index(files@, from, name@, 0) is None,
        },
{
    for i in 0..files.len()
        invariant
            file_index(files@, from, name@, i as int) == file_index(files@, from, name@, 0),
    {
        if files[i].from == from && same(&files[i].name, name) {
            return Some(i);
        }
    }
    None
}

fn find_section(raw: &Vec<String>, section: &str) -> (r: Option<usize>)
    ensures
        match r {
            Some(k) => k < raw.len() && section_at(texts(raw@), section@, 0) == Some(k as int),
            None => section_at(texts(raw@), section@, 0) is None,
        },
{
    let ghost rv = texts(raw@);
    let want = to_lower(section);
    for i in 0..raw.len()
        invariant
            rv == texts(raw@),
            want@ == lower(section@),
            section_at(rv, section@, i as int) == section_at(rv, section@, 0),
    {
        assert(rv[i as int] == raw@[i as int]@);
        let t = trimmed_start(&raw[i]);
        if same(&to_lower(&first_word(&t)), ".lib") {
            let args = split_args(&after_word(&t));
            assert(line_args(rv[i as int]) == texts(args@));
            if args.len() == 1 {
                assert(line_args(rv[i as int])[0] == args@[0]@);
                if to_lower(&args[0]) == want {
                    return Some(i);
                }
            }
        }
    }
    None
}

fn body_of(raw: &Vec<String>, at: usize) -> (r: String)
    requires
        at < raw@.len(),
    ensures
        r@ == section_body(texts(raw@), at as int),
{
    let n: usize = raw.len();
    let end: usize = skip_lib_block(raw, at);
    let start: usize = at + 1;
    let stop: usize = if end > start && end - 1 > start {
        end - 1
    } else {
        start
    };
    let mut part: Vec<String> = Vec::new();
    let ghost rv = texts(raw@);
    let mut i: usize = start;
    while i < stop
        invariant
            rv == texts(raw@),
            start <= i <= stop <= raw@.len(),
            texts(part@) =~= rv.subrange(start as int, i as int),
        decreases stop - i,
    {
        let ghost before = texts(part@);
        let c = raw[i].clone();
        part.push(c);
        assert(texts(part@) =~= before.push(rv[i as int]));
        i += 1;
    }
    join_texts(&part, "\n")
}

spec fn splice_agrees(
    r: Result<(), Stop>,
    out0: Seq<char>,
    out: Seq<char>,
    seen: Seq<Seq<char>>,
    s: Spliced,
) -> bool {
    match (r, s) {
        (Ok(()), Ok((a, b))) => out == out0 + a && seen == b,
        (Err(e), Err(v)) => e@ == v,
        _ => false,
    }
}

#[verifier::rlimit(60)]
fn expand(
    files: &Vec<LoadedFile>,
    text: &str,
    from: usize,
    out: &mut String,
    seen: &mut Vec<String>,
    depth: usize,
) -> (r: Result<(), Stop>)
    requires
        depth <= MAX_INCLUDE_DEPTH + 1,
    ensures
        splice_agrees(
            r,
            old(out)@,
            final(out)@,
            texts(final(seen)@),
            spliced(files@, text@, from, texts(old(seen)@), depth as int),
        ),
    decreases MAX_INCLUDE_DEPTH + 1 - depth,
{
    if depth > MAX_INCLUDE_DEPTH {
        return Err(fail(0, "`.include`/`.lib` nesting too deep (cyclic reference?)"));
    }
    let raw = split_lines(text);
    let ghost rv = lines(text@);
    let ghost base = out@;
    let ghost full = spliced_from(files@, rv, 0, from, texts(seen@), depth as int);
    let ghost mut added: Seq<char> = seq![];
    let mut i: usize = 0;
    proof {
        assert(full == spliced(files@, text@, from, texts(old(seen)@), depth as int));
        assert(base + added =~= base);
        if let Ok((a, s)) = full {
            assert(added + a =~= a);
        }
    }
    while i < raw.len()
        invariant
            i <= raw@.len(),
            rv == texts(raw@),
            depth <= MAX_INCLUDE_DEPTH,
            full == spliced(files@, text@, from, texts(old(seen)@), depth as int),
            base == old(out)@,
            out@ == base + added,
            full == text_before(added, spliced_from(files@, rv, i as int, from, texts(seen@), depth as int)),
        decreases raw@.len() - i,
    {
        let ghost added0 = added;
        let ghost seen0 = texts(seen@);
        assert(rv[i as int] == raw@[i as int]@);
        let t = trimmed_start(&raw[i]);
        let head = to_lower(&first_word(&t));
        if same(&head, ".include") || same(&head, ".inc") {
            let args = split_args(&after_word(&t));
            let ghost av = texts(args@);
            assert(av == line_args(rv[i as int]));
            if args.len() == 0 {
                return Err(fail(i + 1, "`.include` needs a file path"));
            }
            assert(av[0] == args@[0]@);
            let k: usize = match find_file(files, from, &args[0]) {
                None => {
                    return Err(Stop::Need(Request::File(from, args[0].clone())));
                },
                Some(k) => k,
            };
            if !contains_text(seen, &files[k].canon) {
                let t: &String = match &files[k].text {
                    Err(e) => {
                        let mut msg = concat3("cannot read `.include` file '", &files[k].shown, "': ");
                        msg.append(e);
                        return Err(fail(i + 1, &msg));
                    },
                    Ok(t) => t,
                };
                seen.push(files[k].canon.clone());
                assert(texts(seen@) =~= seen0.push(files@[k as int].canon@));
                let ghost inner = spliced(files@, t@, (k + 1) as usize, texts(seen@), depth + 1);
                match expand(files, t, k + 1, out, seen, depth + 1) {
                    Err(e) => {
                        return Err(e);
                    },
                    Ok(()) => {},
                }
                proof {
                    let a = inner->Ok_0.0;
                    added = added + a;
                    assert(out@ =~= base + added);
                    if let Ok((b, s)) = spliced_from(files@, rv, i + 1, from, texts(seen@), depth as int) {
                        assert(added0 + (a + b) =~= added + b);
                    }
                }
            }
            i += 1;
        } else if same(&head, ".lib") {
            let args = split_args(&after_word(&t));
            let ghost av = texts(args@);
            assert(av == line_args(rv[i as int]));
            if args.len() >= 2 {
                assert(av[0] == args@[0]@ && av[1] == args@[1]@);
                let k: usize = match find_file(files, from, &args[0]) {
                    None => {
                        return Err(Stop::Need(Request::File(from, args[0].clone())));
                    },
                    Some(k) => k,
                };
                let t: &String = match &files[k].text {
                    Err(e) => {
                        let mut msg = concat3("cannot read `.lib` file '", &files[k].shown, "': ");
                        msg.append(e);
                        return Err(fail(i + 1, &msg));
                    },
                    Ok(t) => t,
                };
                let part = split_lines(t);
                let at: usize = match find_section(&part, &args[1]) {
                    None => {
                        let mut msg = concat3("section '", &args[1], "' not found in `.lib` file '");
                        msg.append(&files[k].shown);
                        msg.append("'");
                        return Err(fail(i + 1, &msg));
                    },
                    Some(at) => at,
                };
                let body = body_of(&part, at);
                let ghost inner = spliced(files@, body@, (k + 1) as usize, texts(seen@), depth + 1);
                match expand(files, &body, k + 1, out, seen, depth + 1) {
                    Err(e) => {
                        return Err(e);
                    },
                    Ok(()) => {},
                }
                proof {
                    let a = inner->Ok_0.0;
                    added = added + a;
                    assert(out@ =~= base + added);
                    if let Ok((b, s)) = spliced_from(files@, rv, i + 1, from, texts(seen@), depth as int) {
                        assert(added0 + (a + b) =~= added + b);
                    }
                }
                i += 1;
            } else if args.len() == 1 {
                proof {
                    block_end_moves(rv, i as int);
                }
                i = skip_lib_block(&raw, i);
            } else {
                return Err(fail(i + 1, "malformed `.lib` directive"));
            }
        } else if same(&head, ".endl") {
            i += 1;
        } else {
            out.append(&raw[i]);
            out.append("\n");
            proof {
                let a = rv[i as int] + "\n"@;
                added = added + a;
                assert(out@ =~= base + added);
                if let Ok((b, s)) = spliced_from(files@, rv, i + 1, from, texts(seen@), depth as int) {
                    assert(added0 + (a + b) =~= added + b);
                }
            }
            i += 1;
        }
    }
    assert(added + seq![] =~= added);
    Ok(())
}

proof fn block_end_bound(raw: Seq<Seq<char>>, i: int, depth: int)
    requires
        0 <= i <= raw.len(),
    ensures
        i <= block_end(raw, i, depth) <= raw.len(),
        i < raw.len() ==> i < block_end(raw, i, depth),
    decreases raw.len() - i,
{
    if i < raw.len() {
        block_end_bound(raw, i + 1, depth + 1);
        block_end_bound(raw, i + 1, depth - 1);
        block_end_bound(raw, i + 1, depth);
    }
}

proof fn block_end_moves(raw: Seq<Seq<char>>, i: int)
    requires
        0 <= i < raw.len(),
    ensures
        i < block_end(raw, i, 0) <= raw.len(),
{
    block_end_bound(raw, i, 0);
}

/// Expand all `.include` / `.lib` references in `text`.
pub fn resolve_includes(text: &str, files: &Vec<LoadedFile>) -> (r: Result<String, Stop>)
    ensures
        match (r, spliced(files@, text@, 0, seq![], 0)) {
            (Ok(s), Ok((t, _))) => s@ == t,
            (Err(e), Err(v)) => e@ == v,
            _ => false,
        },
{
    let mut out = String::new();
    let mut seen: Vec<String> = Vec::new();
    assert(texts(seen@) =~= seq![]);
    match expand(files, text, 0, &mut out, &mut seen, 0) {
        Err(e) => Err(e),
        Ok(()) => {
            proof {
                if let Ok((a, s)) = spliced(files@, text@, 0, seq![], 0) {
                    assert(seq![] + a =~= a);
                    assert(out@ =~= a);
                }
            }
            Ok(out)
        },
    }
}

/// A text that refers to no file is spliced without one, and needs none: this is
/// so in particular of a text whose lines are no directives, which stays as it
/// is but for its line endings.
pub proof fn plain_lines_stay(files: Seq<LoadedFile>, raw: Seq<Seq<char>>, i: int, from: usize, seen: Seq<Seq<char>>)
    requires
        0 <= i <= raw.len(),
        forall|k: int|
            0 <= k < raw.len() ==> {
                let h = head_of(#[trigger] raw[k]);
                h != ".include"@ && h != ".inc"@ && h != ".lib"@ && h != ".endl"@
            },
    ensures
        spliced_from(files, raw, i, from, seen, 0) == Ok::<(Seq<char>, Seq<Seq<char>>), StopView>(
            (ended(raw, i), seen),
        ),
    decreases raw.len() - i,
{
    if i < raw.len() {
        assert(head_of(raw[i]) != ".include"@);
        plain_lines_stay(files, raw, i + 1, from, seen);
    }
}

/// The lines from `i` on, each with its ending.
pub open spec fn ended(raw: Seq<Seq<char>>, i: int) -> Seq<char>
    decreases raw.len() - i,
{
    if i < 0 || i >= raw.len() {
        seq![]
    } else {
        raw[i] + "\n"@ + ended(raw, i + 1)
    }
}

} // verus!

//! Netlist preprocessing: strip comments, join continuation lines, and tokenise
//! into logical lines.
//!
//! - A line whose first non-space character is `*` is a full-line comment.
//! - `$` and `;` start an inline comment (to end of line), unless inside `{...}`.
//! - A line whose first non-space character is `+` continues the previous
//!   logical line (its tokens are appended).
//! - `{...}` expression groups are kept as a single token even with spaces.
//! - Everything is otherwise whitespace-separated; case is preserved.
use crate::text::{
    blank_is_trimmed, chars_of, chomp, concat2, concat3, indent, indent_is_trim, indent_of, is_space, line_apart,
    lines, lines_apart, same, skip_chars, space, split_lines, string_of, texts, trim, trim_is_tight, trim_start,
    trimmed,
};
use vstd::prelude::*;

verus! {

/// A logical line: the 1-based source line number of its first physical line,
/// the 1-based column of its first token (for caret diagnostics), and its
/// tokens.
#[derive(Debug)]
pub struct Line {
    pub no: usize,
    pub col: usize,
    pub tokens: Vec<String>,
}

/// A logical line as a mathematical value.
pub struct LineView {
    pub no: int,
    pub col: int,
    pub tokens: Seq<Seq<char>>,
}

impl View for Line {
    type V = LineView;

    open spec fn view(&self) -> LineView {
        LineView { no: self.no as int, col: self.col as int, tokens: texts(self.tokens@) }
    }
}

pub open spec fn line_views(v: Seq<Line>) -> Seq<LineView> {
    v.map_values(|l: Line| l@)
}

// ---------------------------------------------------------------------------
// Comments.
// ---------------------------------------------------------------------------
/// The code of `s[i..]`: up to the first `$` or `;` outside braces, of which
/// `depth` are open.
pub open spec fn code_from(s: Seq<char>, i: int, depth: int) -> Seq<char>
    decreases s.len() - i,
{
    if i < 0 || i >= s.len() {
        seq![]
    } else if (s[i] == '$' || s[i] == ';') && depth <= 0 {
        seq![]
    } else {
        let d = if s[i] == '{' {
            depth + 1
        } else if s[i] == '}' {
            depth - 1
        } else {
            depth
        };
        seq![s[i]] + code_from(s, i + 1, d)
    }
}

/// The code portion of a physical line.
pub open spec fn code_of(raw: Seq<char>) -> Seq<char> {
    if trim_start(raw).len() > 0 && trim_start(raw)[0] == '*' {
        seq![]
    } else {
        code_from(raw, 0, 0)
    }
}

/// Remove comments from one physical line. Returns the code portion.
fn strip_comment(raw: &str) -> (r: String)
    ensures
        r@ == code_of(raw@),
{
    let v = chars_of(raw);
    let lead: usize = indent_of(&v);
    proof {
        indent_is_trim(raw@);
    }
    if lead < v.len() && v[lead] == '*' {
        return String::new();
    }
    let mut out = String::new();
    let mut depth: i128 = 0;
    let mut i: usize = 0;
    while i < v.len()
        invariant
            i <= v@.len(),
            v@ == raw@,
            -(i as int) <= depth <= i,
            out@ + code_from(raw@, i as int, depth as int) == code_from(raw@, 0, 0),
        ensures
            out@ == code_from(raw@, 0, 0),
        decreases v@.len() - i,
    {
        let c = v[i];
        if (c == '$' || c == ';') && depth <= 0 {
            assert(out@ =~= out@ + code_from(raw@, i as int, depth as int));
            break;
        }
        if c == '{' {
            depth = depth + 1;
        } else if c == '}' {
            depth = depth - 1;
        }
        let ghost before = out@;
        out.push(c);
        assert(out@ + code_from(raw@, i + 1, depth as int) =~= before + (seq![c] + code_from(
            raw@,
            i + 1,
            depth as int,
        )));
        i += 1;
        if i == v.len() {
            assert(out@ =~= out@ + code_from(raw@, i as int, depth as int));
        }
    }
    if v.len() == 0 {
        assert(out@ =~= code_from(raw@, 0, 0));
    }
    out
}

// ---------------------------------------------------------------------------
// Tokens.
// ---------------------------------------------------------------------------
/// The tokens of `s[i..]`, with `cur` already read and `depth` brackets open.
pub open spec fn tokens_from(s: Seq<char>, i: int, cur: Seq<char>, depth: nat) -> Seq<Seq<char>>
    decreases s.len() - i,
{
    if i < 0 || i >= s.len() {
        if cur.len() == 0 {
            seq![]
        } else {
            seq![cur]
        }
    } else if s[i] == '{' || s[i] == '(' {
        tokens_from(s, i + 1, cur.push(s[i]), depth + 1)
    } else if s[i] == '}' || s[i] == ')' {
        tokens_from(
            s,
            i + 1,
            cur.push(s[i]),
            if depth > 0 {
                (depth - 1) as nat
            } else {
                0
            },
        )
    } else if is_space(s[i]) && depth == 0 {
        if cur.len() == 0 {
            tokens_from(s, i + 1, cur, depth)
        } else {
            seq![cur] + tokens_from(s, i + 1, seq![], depth)
        }
    } else {
        tokens_from(s, i + 1, cur.push(s[i]), depth)
    }
}

/// White-space separated tokens; `{...}` and `(...)` groups stay whole.
pub open spec fn tokens_of(s: Seq<char>) -> Seq<Seq<char>> {
    tokens_from(s, 0, seq![], 0)
}

/// Whitespace-tokenise, keeping `{...}` and `(...)` groups intact (so brace
/// expressions and function-like values such as `SIN(0 1 1k)` stay one token).
fn tokenize(s: &str) -> (r: Vec<String>)
    ensures
        texts(r@) == tokens_of(s@),
{
    let v = chars_of(s);
    let mut toks: Vec<String> = Vec::new();
    let mut cur: Vec<char> = Vec::new();
    let mut depth: usize = 0;
    assert(texts(toks@) =~= seq![]);
    for i in 0..v.len()
        invariant
            v@ == s@,
            depth <= i,
            texts(toks@) + tokens_from(s@, i as int, cur@, depth as nat) == tokens_of(s@),
    {
        let c = v[i];
        if c == '{' || c == '(' {
            depth = depth + 1;
            cur.push(c);
        } else if c == '}' || c == ')' {
            if depth > 0 {
                depth = depth - 1;
            }
            cur.push(c);
        } else if space(c) && depth == 0 {
            if cur.len() > 0 {
                let ghost before = texts(toks@);
                let ghost word = cur@;
                toks.push(string_of(&cur));
                cur = Vec::new();
                assert(texts(toks@) =~= before.push(word));
                assert(cur@ =~= seq![]);
                assert(texts(toks@) + tokens_from(s@, i + 1, seq![], 0) =~= before + (seq![word]
                    + tokens_from(s@, i + 1, seq![], 0)));
            }
        } else {
            cur.push(c);
        }
    }
    if cur.len() > 0 {
        let ghost before = texts(toks@);
        toks.push(string_of(&cur));
        assert(texts(toks@) =~= before + seq![cur@]);
    } else {
        assert(texts(toks@) =~= texts(toks@) + seq![]);
    }
    toks
}

// ---------------------------------------------------------------------------
// Spaced assignments.
// ---------------------------------------------------------------------------
/// The last token, or nothing.
pub open spec fn last_or_empty(out: Seq<Seq<char>>) -> Seq<char> {
    if out.len() > 0 {
        out.last()
    } else {
        seq![]
    }
}

pub open spec fn without_last(out: Seq<Seq<char>>) -> Seq<Seq<char>> {
    if out.len() > 0 {
        out.drop_last()
    } else {
        out
    }
}

/// The tokens `t[i..]` appended to `out`, with the spaces around `=` closed up.
pub open spec fn coalesce_from(t: Seq<Seq<char>>, i: int, out: Seq<Seq<char>>) -> Seq<Seq<char>>
    decreases t.len() + 1 - i,
{
    if i < 0 || i >= t.len() {
        out
    } else {
        let next = if i + 1 < t.len() {
            t[i + 1]
        } else {
            seq![]
        };
        if t[i] == seq!['='] {
            coalesce_from(t, i + 2, without_last(out).push(last_or_empty(out) + seq!['='] + next))
        } else if t[i].len() > 1 && t[i].last() == '=' {
            coalesce_from(t, i + 2, out.push(t[i] + next))
        } else if t[i].len() > 1 && t[i][0] == '=' {
            coalesce_from(t, i + 1, without_last(out).push(last_or_empty(out) + t[i]))
        } else {
            coalesce_from(t, i + 1, out.push(t[i]))
        }
    }
}

pub open spec fn coalesced(t: Seq<Seq<char>>) -> Seq<Seq<char>> {
    coalesce_from(t, 0, seq![])
}

/// Merge `key`, `=`, `value` (in any spaced arrangement) into one `key=value`
/// token. Bracketed groups (`{..}`, `(..)`) are already single tokens and are
/// left untouched (they never start or end with a bare `=`).
fn coalesce_eq(tokens: &Vec<String>) -> (r: Vec<String>)
    ensures
        texts(r@) == coalesced(texts(tokens@)),
{
    let mut out: Vec<String> = Vec::new();
    let mut i: usize = 0;
    let ghost t = texts(tokens@);
    assert(texts(out@) =~= seq![]);
    proof {
        reveal_strlit("=");
        reveal_strlit("");
    }
    assert("="@ =~= seq!['=']);
    while i < tokens.len()
        invariant
            t == texts(tokens@),
            "="@ == seq!['='],
            ""@.len() == 0,
            coalesce_from(t, i as int, texts(out@)) == coalesced(t),
        decreases tokens@.len() - i,
    {
        let ghost before = texts(out@);
        let c = chars_of(&tokens[i]);
        assert(t[i as int] == c@);
        let n: usize = c.len();
        let next: String = if i + 1 < tokens.len() {
            tokens[i + 1].clone()
        } else {
            "".to_owned()
        };
        assert(next@ =~= if i + 1 < t.len() {
            t[i + 1]
        } else {
            seq![]
        });
        if same(&tokens[i], "=") {
            let prev: String = match out.pop() {
                Some(p) => p,
                None => "".to_owned(),
            };
            assert(prev@ =~= last_or_empty(before));
            assert(texts(out@) =~= without_last(before));
            let joined = concat3(&prev, "=", &next);
            let ghost kept = texts(out@);
            out.push(joined);
            assert(texts(out@) =~= kept.push(joined@));
            if i + 1 < tokens.len() {
                i += 2;
            } else {
                assert(coalesce_from(t, i + 2, texts(out@)) == texts(out@));
                i += 1;
                assert(coalesce_from(t, i as int, texts(out@)) == texts(out@));
            }
        } else if n > 1 && c[n - 1] == '=' {
            let joined = concat2(&tokens[i], &next);
            out.push(joined);
            assert(texts(out@) =~= before.push(joined@));
            if i + 1 < tokens.len() {
                i += 2;
            } else {
                assert(coalesce_from(t, i + 2, texts(out@)) == texts(out@));
                i += 1;
                assert(coalesce_from(t, i as int, texts(out@)) == texts(out@));
            }
        } else if n > 1 && c[0] == '=' {
            let prev: String = match out.pop() {
                Some(p) => p,
                None => "".to_owned(),
            };
            assert(prev@ =~= last_or_empty(before));
            assert(texts(out@) =~= without_last(before));
            let joined = concat2(&prev, &tokens[i]);
            let ghost kept = texts(out@);
            out.push(joined);
            assert(texts(out@) =~= kept.push(joined@));
            i += 1;
        } else {
            let same_token = tokens[i].clone();
            out.push(same_token);
            assert(texts(out@) =~= before.push(t[i as int]));
            i += 1;
        }
    }
    out
}

// ---------------------------------------------------------------------------
// Logical lines.
// ---------------------------------------------------------------------------
/// One more physical line, numbered `no`, after the logical lines `out`.
pub open spec fn with_physical(out: Seq<LineView>, no: int, raw: Seq<char>) -> Seq<LineView> {
    let content = code_of(raw);
    let body = trim(content);
    if body.len() == 0 {
        out
    } else if body[0] == '+' {
        let toks = tokens_of(body.skip(1));
        if out.len() > 0 {
            out.drop_last().push(LineView { tokens: out.last().tokens + toks, ..out.last() })
        } else {
            out
        }
    } else if tokens_of(body).len() > 0 {
        out.push(LineView { no, col: indent(content) as int + 1, tokens: tokens_of(body) })
    } else {
        out
    }
}

/// The logical lines of the first `i` physical lines, as they stand before the
/// spaces around `=` are closed up.
pub open spec fn gathered(raw: Seq<Seq<char>>, i: int) -> Seq<LineView>
    decreases i,
{
    if i <= 0 {
        seq![]
    } else {
        with_physical(gathered(raw, i - 1), i, raw[i - 1])
    }
}

/// Close up each line; drop those without tokens.
pub open spec fn closed_up(v: Seq<LineView>) -> Seq<LineView>
    decreases v.len(),
{
    if v.len() == 0 {
        seq![]
    } else {
        let rest = closed_up(v.drop_last());
        let l = LineView { tokens: coalesced(v.last().tokens), ..v.last() };
        if l.tokens.len() > 0 {
            rest.push(l)
        } else {
            rest
        }
    }
}

/// The logical lines of a netlist text.
pub open spec fn logical_lines(text: Seq<char>) -> Seq<LineView> {
    let raw = lines(text);
    closed_up(gathered(raw, raw.len() as int))
}

/// Preprocess raw netlist text into logical lines.
pub fn preprocess(text: &str) -> (r: Vec<Line>)
    ensures
        line_views(r@) == logical_lines(text@),
{
    let physical = split_lines(text);
    let ghost raw = lines(text@);
    let mut out: Vec<Line> = Vec::new();
    assert(line_views(out@) =~= seq![]);
    for i in 0..physical.len()
        invariant
            raw == texts(physical@),
            line_views(out@) == gathered(raw, i as int),
    {
        let ghost before = line_views(out@);
        assert(raw[i as int] == physical@[i as int]@);
        let content = strip_comment(&physical[i]);
        let body = trimmed(&content);
        let b = chars_of(&body);
        if b.len() > 0 {
            if b[0] == '+' {
                let mut toks = tokenize(&skip_chars(&body, 1));
                if let Some(last) = out.pop() {
                    assert(last@ == before.last());
                    assert(line_views(out@) =~= before.drop_last());
                    let ghost kept = line_views(out@);
                    let ghost more = texts(toks@);
                    let Line { no, col, tokens } = last;
                    let mut tokens = tokens;
                    let ghost first = texts(tokens@);
                    tokens.append(&mut toks);
                    assert(texts(tokens@) =~= first + more);
                    let l = Line { no, col, tokens };
                    let ghost lv = l@;
                    out.push(l);
                    assert(line_views(out@) =~= kept.push(lv));
                } else {
                    assert(line_views(out@) =~= before);
                }
            } else {
                let chars = chars_of(&content);
                let lead: usize = indent_of(&chars);
                proof {
                    indent_is_trim(content@);
                    if lead == content@.len() {
                        assert(trim_start(content@) =~= seq![]);
                        assert(trim(content@).len() == 0);
                        assert(b@.len() == 0);
                    }
                    assert(lead < chars.len());
                }
                let tokens = tokenize(&body);
                if tokens.len() > 0 {
                    let l = Line { no: i + 1, col: lead + 1, tokens };
                    let ghost lv = l@;
                    out.push(l);
                    assert(line_views(out@) =~= before.push(lv));
                }
            }
        }
    }
    let mut done: Vec<Line> = Vec::new();
    let ghost all = line_views(out@);
    assert(line_views(done@) =~= seq![]);
    assert(all.take(0) =~= seq![]);
    for i in 0..out.len()
        invariant
            all == line_views(out@),
            line_views(done@) == closed_up(all.take(i as int)),
    {
        let ghost before = line_views(done@);
        proof {
            assert(all.take(i + 1).drop_last() =~= all.take(i as int));
            assert(all.take(i + 1).last() == out@[i as int]@);
        }
        let tokens = coalesce_eq(&out[i].tokens);
        assert(texts(tokens@).len() == tokens@.len());
        if tokens.len() > 0 {
            let l = Line { no: out[i].no, col: out[i].col, tokens };
            let ghost lv = l@;
            done.push(l);
            assert(line_views(done@) =~= before.push(lv));
        }
    }
    assert(all.take(all.len() as int) =~= all);
    done
}

/// No text of the list is empty.
pub open spec fn none_empty(t: Seq<Seq<char>>) -> bool {
    forall|i: int| 0 <= i < t.len() ==> (#[trigger] t[i]).len() > 0
}

/// Every logical line has at least one token, and no token is empty.
pub proof fn logical_lines_have_tokens(text: Seq<char>)
    ensures
        forall|i: int|
            0 <= i < logical_lines(text).len() ==> (#[trigger] logical_lines(text)[i]).tokens.len() > 0
                && none_empty(logical_lines(text)[i].tokens),
{
    let raw = lines(text);
    gathered_tokens(raw, raw.len() as int);
    closed_up_has_tokens(gathered(raw, raw.len() as int));
}

proof fn tokens_nonempty(s: Seq<char>, i: int, cur: Seq<char>, depth: nat)
    ensures
        none_empty(tokens_from(s, i, cur, depth)),
    decreases s.len() - i,
{
    if 0 <= i < s.len() {
        if s[i] == '{' || s[i] == '(' {
            tokens_nonempty(s, i + 1, cur.push(s[i]), depth + 1);
        } else if s[i] == '}' || s[i] == ')' {
            let d: nat = if depth > 0 {
                (depth - 1) as nat
            } else {
                0
            };
            tokens_nonempty(s, i + 1, cur.push(s[i]), d);
        } else if is_space(s[i]) && depth == 0 {
            tokens_nonempty(s, i + 1, cur, depth);
            tokens_nonempty(s, i + 1, seq![], depth);
        } else {
            tokens_nonempty(s, i + 1, cur.push(s[i]), depth);
        }
    }
}

proof fn coalesce_nonempty(t: Seq<Seq<char>>, i: int, out: Seq<Seq<char>>)
    requires
        none_empty(t),
        none_empty(out),
    ensures
        none_empty(coalesce_from(t, i, out)),
    decreases t.len() + 1 - i,
{
    if 0 <= i < t.len() {
        let next = if i + 1 < t.len() {
            t[i + 1]
        } else {
            seq![]
        };
        let kept = without_last(out);
        assert(none_empty(kept));
        if t[i] == seq!['='] {
            coalesce_nonempty(t, i + 2, kept.push(last_or_empty(out) + seq!['='] + next));
        } else if t[i].len() > 1 && t[i].last() == '=' {
            coalesce_nonempty(t, i + 2, out.push(t[i] + next));
        } else if t[i].len() > 1 && t[i][0] == '=' {
            coalesce_nonempty(t, i + 1, kept.push(last_or_empty(out) + t[i]));
        } else {
            coalesce_nonempty(t, i + 1, out.push(t[i]));
        }
    }
}

proof fn gathered_tokens(raw: Seq<Seq<char>>, i: int)
    ensures
        forall|k: int| 0 <= k < gathered(raw, i).len() ==> none_empty((#[trigger] gathered(raw, i)[k]).tokens),
    decreases i,
{
    if i > 0 {
        gathered_tokens(raw, i - 1);
        let before = gathered(raw, i - 1);
        let body = trim(code_of(raw[i - 1]));
        tokens_nonempty(body, 0, seq![], 0);
        if body.len() > 0 {
            tokens_nonempty(body.skip(1), 0, seq![], 0);
        }
        assert forall|k: int| 0 <= k < gathered(raw, i).len() implies none_empty(
            (#[trigger] gathered(raw, i)[k]).tokens,
        ) by {
            if k < before.len() {
                assert(none_empty(before[k].tokens));
            }
        }
    }
}

proof fn closed_up_has_tokens(v: Seq<LineView>)
    requires
        forall|k: int| 0 <= k < v.len() ==> none_empty((#[trigger] v[k]).tokens),
    ensures
        forall|i: int|
            0 <= i < closed_up(v).len() ==> (#[trigger] closed_up(v)[i]).tokens.len() > 0 && none_empty(
                closed_up(v)[i].tokens,
            ),
    decreases v.len(),
{
    if v.len() > 0 {
        closed_up_has_tokens(v.drop_last());
        coalesce_nonempty(v.last().tokens, 0, seq![]);
        let rest = closed_up(v.drop_last());
        assert forall|i: int| 0 <= i < closed_up(v).len() implies (#[trigger] closed_up(v)[i]).tokens.len() > 0
            && none_empty(closed_up(v)[i].tokens) by {
            if i < rest.len() {
                assert(closed_up(v)[i] == rest[i]);
            }
        }
    }
}

/// A comment line contributes nothing.
pub proof fn comment_line_is_dropped(out: Seq<LineView>, no: int, raw: Seq<char>)
    requires
        trim_start(raw).len() > 0,
        trim_start(raw)[0] == '*',
    ensures
        with_physical(out, no, raw) == out,
{
    trim_is_tight(code_of(raw));
}

// ---------------------------------------------------------------------------
// Lines without code.
// ---------------------------------------------------------------------------
/// A physical line that says nothing: blank, or all comment.
pub open spec fn silent(raw: Seq<char>) -> bool {
    trim(code_of(raw)).len() == 0
}

proof fn code_is_prefix(s: Seq<char>, i: int, depth: int, k: int)
    requires
        0 <= i,
        0 <= k < code_from(s, i, depth).len(),
    ensures
        i + k < s.len(),
        code_from(s, i, depth)[k] == s[i + k],
    decreases s.len() - i,
{
    if k > 0 {
        let d = if s[i] == '{' {
            depth + 1
        } else if s[i] == '}' {
            depth - 1
        } else {
            depth
        };
        code_is_prefix(s, i + 1, d, k - 1);
    }
}

/// A blank line says nothing.
pub proof fn blank_lines_are_silent(raw: Seq<char>)
    requires
        forall|i: int| 0 <= i < raw.len() ==> is_space(#[trigger] raw[i]),
    ensures
        silent(raw),
{
    blank_is_trimmed(raw);
    let code = code_of(raw);
    assert forall|k: int| 0 <= k < code.len() implies is_space(#[trigger] code[k]) by {
        code_is_prefix(raw, 0, 0, k);
    }
    blank_is_trimmed(code);
}

/// A comment line says nothing.
pub proof fn comment_lines_are_silent(raw: Seq<char>)
    requires
        trim_start(raw).len() > 0,
        trim_start(raw)[0] == '*',
    ensures
        silent(raw),
{
    trim_is_tight(code_of(raw));
}

/// The same tokens in the same columns, line by line.
pub open spec fn alike(v: Seq<LineView>, w: Seq<LineView>) -> bool {
    &&& v.len() == w.len()
    &&& forall|i: int|
        0 <= i < v.len() ==> (#[trigger] v[i]).col == w[i].col && v[i].tokens == w[i].tokens
}

proof fn physical_keeps_alike(v: Seq<LineView>, w: Seq<LineView>, m: int, n: int, raw: Seq<char>)
    requires
        alike(v, w),
    ensures
        alike(with_physical(v, m, raw), with_physical(w, n, raw)),
{
    if v.len() > 0 {
        assert(v[v.len() - 1].tokens == w[v.len() - 1].tokens);
    }
}

proof fn closing_keeps_alike(v: Seq<LineView>, w: Seq<LineView>)
    requires
        alike(v, w),
    ensures
        alike(closed_up(v), closed_up(w)),
    decreases v.len(),
{
    if v.len() > 0 {
        let (a, b) = (v.drop_last(), w.drop_last());
        assert forall|i: int| 0 <= i < a.len() implies (#[trigger] a[i]).col == b[i].col && a[i].tokens == b[i].tokens by {
            assert(a[i] == v[i] && b[i] == w[i]);
        }
        closing_keeps_alike(a, b);
        assert(v[v.len() - 1].tokens == w[v.len() - 1].tokens);
    }
}

/// Later lines do not change what the earlier ones gather.
proof fn gathering_looks_back(v: Seq<Seq<char>>, w: Seq<Seq<char>>, i: int)
    requires
        0 <= i <= v.len(),
        i <= w.len(),
        forall|k: int| 0 <= k < i ==> (#[trigger] v[k]) == w[k],
    ensures
        gathered(v, i) == gathered(w, i),
    decreases i,
{
    if i > 0 {
        gathering_looks_back(v, w, i - 1);
        assert(v[i - 1] == w[i - 1]);
    }
}

proof fn silence_changes_nothing(a: Seq<Seq<char>>, q: Seq<char>, b: Seq<Seq<char>>, k: int)
    requires
        silent(q),
        0 <= k <= b.len(),
    ensures
        alike(gathered(a + (seq![q] + b), a.len() + 1 + k), gathered(a + b, a.len() + k as int)),
    decreases k,
{
    let v = a + (seq![q] + b);
    let w = a + b;
    let n = a.len() as int;
    if k == 0 {
        gathering_looks_back(v, w, n);
        assert(v[n] == q);
        assert(gathered(v, n + 1) == with_physical(gathered(v, n), n + 1, v[n]));
    } else {
        silence_changes_nothing(a, q, b, k - 1);
        assert(v[n + k] == b[k - 1]);
        assert(w[n + k - 1] == b[k - 1]);
        physical_keeps_alike(gathered(v, n + k), gathered(w, n + k - 1), n + k + 1, n + k, b[k - 1]);
    }
}

/// One more blank or comment line at a line boundary, be it between a line and its
/// continuation, changes no token and no column.
pub proof fn silent_lines_change_nothing(head: Seq<char>, extra: Seq<char>, rest: Seq<char>)
    requires
        head.len() > 0 ==> head.last() == '\n',
        !extra.contains('\n'),
        silent(chomp(extra)),
    ensures
        alike(logical_lines(head + (extra.push('\n') + rest)), logical_lines(head + rest)),
{
    let a = lines(head);
    let b = lines(rest);
    lines_apart(head, extra.push('\n') + rest);
    line_apart(extra, rest);
    lines_apart(head, rest);
    silence_changes_nothing(a, chomp(extra), b, b.len() as int);
    let v = a + (seq![chomp(extra)] + b);
    let w = a + b;
    assert(v.len() == a.len() + 1 + b.len());
    assert(w.len() == a.len() + b.len());
    closing_keeps_alike(gathered(v, v.len() as int), gathered(w, w.len() as int));
}

} // verus!

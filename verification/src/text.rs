//! Characters and strings: the few text operations the library is written in,
//! each with its meaning as a function on sequences of characters.
use vstd::prelude::*;

verus! {

/// `String::push` appends one character to the end of the string.
pub assume_specification[ String::push ](s: &mut String, c: char)
    ensures
        final(s)@ == old(s)@.push(c),
;

/// The texts of a sequence of strings.
pub open spec fn texts(v: Seq<String>) -> Seq<Seq<char>> {
    v.map_values(|s: String| s@)
}

// ---------------------------------------------------------------------------
// Character classes.
// ---------------------------------------------------------------------------
/// The characters with the Unicode `White_Space` property.
pub open spec fn is_space(c: char) -> bool {
    let u = c as u32;
    9 <= u <= 13 || u == 0x20 || u == 0x85 || u == 0xA0 || u == 0x1680 || 0x2000 <= u <= 0x200A
        || u == 0x2028 || u == 0x2029 || u == 0x202F || u == 0x205F || u == 0x3000
}

pub fn space(c: char) -> (r: bool)
    ensures
        r == is_space(c),
{
    let u: u32 = c as u32;
    (9 <= u && u <= 13) || u == 0x20 || u == 0x85 || u == 0xA0 || u == 0x1680 || (0x2000 <= u && u
        <= 0x200A) || u == 0x2028 || u == 0x2029 || u == 0x202F || u == 0x205F || u == 0x3000
}

pub open spec fn is_digit(c: char) -> bool {
    '0' <= c && c <= '9'
}

pub fn digit(c: char) -> (r: bool)
    ensures
        r == is_digit(c),
{
    '0' <= c && c <= '9'
}

pub open spec fn is_alpha(c: char) -> bool {
    ('a' <= c && c <= 'z') || ('A' <= c && c <= 'Z')
}

pub fn alpha(c: char) -> (r: bool)
    ensures
        r == is_alpha(c),
{
    ('a' <= c && c <= 'z') || ('A' <= c && c <= 'Z')
}

pub open spec fn lower_char(c: char) -> char {
    if 'A' <= c && c <= 'Z' {
        ((c as u8) + 32) as char
    } else {
        c
    }
}

pub fn to_lower_char(c: char) -> (r: char)
    ensures
        r == lower_char(c),
{
    if 'A' <= c && c <= 'Z' {
        ((c as u8) + 32) as char
    } else {
        c
    }
}

pub open spec fn upper_char(c: char) -> char {
    if 'a' <= c && c <= 'z' {
        ((c as u8) - 32) as char
    } else {
        c
    }
}

pub fn to_upper_char(c: char) -> (r: char)
    ensures
        r == upper_char(c),
{
    if 'a' <= c && c <= 'z' {
        ((c as u8) - 32) as char
    } else {
        c
    }
}

// ---------------------------------------------------------------------------
// Between strings and vectors of characters.
// ---------------------------------------------------------------------------
pub fn chars_of(s: &str) -> (r: Vec<char>)
    ensures
        r@ == s@,
{
    let mut out: Vec<char> = Vec::new();
    for c in it: s.chars()
        invariant
            out@ == s@.take(it.index() as int),
            it.seq() == s@,
    {
        out.push(c);
    }
    assert(s@.take(s@.len() as int) =~= s@);
    out
}

pub fn string_of(v: &[char]) -> (r: String)
    ensures
        r@ == v@,
{
    slice_text(v, 0, v.len())
}

/// The characters `lo..hi` as a string.
pub fn slice_text(v: &[char], lo: usize, hi: usize) -> (r: String)
    requires
        lo <= hi <= v@.len(),
    ensures
        r@ == v@.subrange(lo as int, hi as int),
{
    let mut out = String::new();
    let mut i: usize = lo;
    while i < hi
        invariant
            lo <= i <= hi <= v@.len(),
            out@ == v@.subrange(lo as int, i as int),
        decreases hi - i,
    {
        out.push(v[i]);
        assert(v@.subrange(lo as int, i + 1) =~= v@.subrange(lo as int, i as int).push(
            v@[i as int],
        ));
        i += 1;
    }
    out
}

/// Whether two strings hold the same text.
pub fn same(a: &str, b: &str) -> (r: bool)
    ensures
        r == (a@ == b@),
{
    a.to_owned() == b.to_owned()
}

pub fn concat2(a: &str, b: &str) -> (r: String)
    ensures
        r@ == a@ + b@,
{
    let mut out = a.to_owned();
    out.append(b);
    out
}

pub fn concat3(a: &str, b: &str, c: &str) -> (r: String)
    ensures
        r@ == a@ + b@ + c@,
{
    let mut out = a.to_owned();
    out.append(b);
    out.append(c);
    out
}

/// A copy of a list of strings.
pub fn copy_texts(v: &Vec<String>) -> (r: Vec<String>)
    ensures
        texts(r@) == texts(v@),
{
    let mut out: Vec<String> = Vec::new();
    for i in 0..v.len()
        invariant
            texts(out@) =~= texts(v@).take(i as int),
    {
        let t = v[i].clone();
        assert(texts(out@.push(t)) =~= texts(out@).push(t@));
        assert(texts(v@).take(i + 1) =~= texts(v@).take(i as int).push(v@[i as int]@));
        out.push(t);
    }
    assert(texts(v@).take(v@.len() as int) =~= texts(v@));
    out
}

/// A copy of the texts `v[lo..hi]`.
pub fn copy_range(v: &Vec<String>, lo: usize, hi: usize) -> (r: Vec<String>)
    requires
        lo <= hi <= v@.len(),
    ensures
        texts(r@) == texts(v@).subrange(lo as int, hi as int),
{
    let mut out: Vec<String> = Vec::new();
    let ghost t = texts(v@);
    let mut i: usize = lo;
    while i < hi
        invariant
            lo <= i <= hi <= v@.len(),
            t == texts(v@),
            texts(out@) =~= t.subrange(lo as int, i as int),
        decreases hi - i,
    {
        let ghost before = texts(out@);
        let c = v[i].clone();
        out.push(c);
        assert(texts(out@) =~= before.push(t[i as int]));
        i += 1;
    }
    out
}

pub fn contains_text(v: &Vec<String>, s: &str) -> (r: bool)
    ensures
        r == texts(v@).contains(s@),
{
    for i in 0..v.len()
        invariant
            forall|j: int| 0 <= j < i ==> texts(v@)[j] != s@,
    {
        if same(&v[i], s) {
            assert(texts(v@)[i as int] == s@);
            return true;
        }
    }
    false
}

// ---------------------------------------------------------------------------
// Case.
// ---------------------------------------------------------------------------
/// ASCII lower case; every other character stays.
pub open spec fn lower(s: Seq<char>) -> Seq<char> {
    s.map_values(|c: char| lower_char(c))
}

pub fn to_lower(s: &str) -> (r: String)
    ensures
        r@ == lower(s@),
{
    let v = chars_of(s);
    let mut out = String::new();
    for i in 0..v.len()
        invariant
            v@ == s@,
            out@ =~= lower(s@).take(i as int),
    {
        out.push(to_lower_char(v[i]));
    }
    assert(lower(s@).take(s@.len() as int) =~= lower(s@));
    out
}

/// Whether two texts agree up to ASCII case.
pub fn same_caseless(a: &str, b: &str) -> (r: bool)
    ensures
        r == (lower(a@) == lower(b@)),
{
    to_lower(a) == to_lower(b)
}

/// Lower case is a fixed point of `lower`.
pub proof fn lower_idempotent(s: Seq<char>)
    ensures
        lower(lower(s)) == lower(s),
{
    assert forall|c: char| lower_char(lower_char(c)) == #[trigger] lower_char(c) by {
        if 'A' <= c && c <= 'Z' {
            let u = c as u8;
            assert(65 <= u <= 90);
            let d = (u + 32) as char;
            assert(d as int == u + 32);
        }
    }
    assert(lower(lower(s)) =~= lower(s));
}

// ---------------------------------------------------------------------------
// Prefixes and suffixes.
// ---------------------------------------------------------------------------
pub open spec fn has_prefix(s: Seq<char>, p: Seq<char>) -> bool {
    s.len() >= p.len() && s.take(p.len() as int) == p
}

pub fn starts_with(s: &str, p: &str) -> (r: bool)
    ensures
        r == has_prefix(s@, p@),
{
    let a = chars_of(s);
    let b = chars_of(p);
    if a.len() < b.len() {
        return false;
    }
    for i in 0..b.len()
        invariant
            a@ == s@,
            b@ == p@,
            a@.len() >= b@.len(),
            forall|j: int| 0 <= j < i ==> a@[j] == b@[j],
    {
        if a[i] != b[i] {
            assert(s@.take(p@.len() as int)[i as int] != p@[i as int]);
            return false;
        }
    }
    assert(s@.take(p@.len() as int) =~= p@);
    true
}

/// The text from character `k` on.
pub fn skip_chars(s: &str, k: usize) -> (r: String)
    requires
        k <= s@.len(),
    ensures
        r@ == s@.skip(k as int),
{
    let v = chars_of(s);
    let r = slice_text(&v, k, v.len());
    assert(r@ =~= s@.skip(k as int));
    r
}

// ---------------------------------------------------------------------------
// White space.
// ---------------------------------------------------------------------------
pub open spec fn trim_start(s: Seq<char>) -> Seq<char>
    decreases s.len(),
{
    if s.len() > 0 && is_space(s[0]) {
        trim_start(s.skip(1))
    } else {
        s
    }
}

pub open spec fn trim_end(s: Seq<char>) -> Seq<char>
    decreases s.len(),
{
    if s.len() > 0 && is_space(s.last()) {
        trim_end(s.drop_last())
    } else {
        s
    }
}

pub open spec fn trim(s: Seq<char>) -> Seq<char> {
    trim_end(trim_start(s))
}

/// How many white-space characters lead the text.
pub open spec fn indent(s: Seq<char>) -> nat
    decreases s.len(),
{
    if s.len() > 0 && is_space(s[0]) {
        1 + indent(s.skip(1))
    } else {
        0
    }
}

pub proof fn indent_is_trim(s: Seq<char>)
    ensures
        indent(s) <= s.len(),
        trim_start(s) == s.skip(indent(s) as int),
    decreases s.len(),
{
    if s.len() > 0 && is_space(s[0]) {
        indent_is_trim(s.skip(1));
        assert(s.skip(1).skip(indent(s.skip(1)) as int) =~= s.skip(indent(s) as int));
    } else {
        assert(s.skip(0) =~= s);
    }
}

pub fn indent_of(v: &[char]) -> (r: usize)
    ensures
        r == indent(v@),
        r <= v@.len(),
{
    let mut i: usize = 0;
    assert(v@.skip(0) =~= v@);
    while i < v.len() && space(v[i])
        invariant
            i <= v@.len(),
            indent(v@) == i + indent(v@.skip(i as int)),
        decreases v@.len() - i,
    {
        assert(v@.skip(i as int).skip(1) =~= v@.skip(i + 1));
        i += 1;
    }
    i
}

pub fn trimmed_start(s: &str) -> (r: String)
    ensures
        r@ == trim_start(s@),
{
    let v = chars_of(s);
    let k: usize = indent_of(&v);
    proof {
        indent_is_trim(s@);
    }
    let r = slice_text(&v, k, v.len());
    assert(r@ =~= s@.skip(k as int));
    r
}

pub fn trimmed_end(s: &str) -> (r: String)
    ensures
        r@ == trim_end(s@),
{
    let v = chars_of(s);
    let mut n: usize = v.len();
    assert(v@.take(n as int) =~= s@);
    while n > 0 && space(v[n - 1])
        invariant
            v@ == s@,
            n <= v@.len(),
            trim_end(v@.take(n as int)) == trim_end(s@),
        decreases n,
    {
        assert(v@.take(n as int).drop_last() =~= v@.take(n - 1));
        n -= 1;
    }
    let r = slice_text(&v, 0, n);
    assert(r@ =~= v@.take(n as int));
    r
}

pub fn trimmed(s: &str) -> (r: String)
    ensures
        r@ == trim(s@),
{
    let v = chars_of(s);
    let lo: usize = indent_of(&v);
    proof {
        indent_is_trim(s@);
    }
    let mut hi: usize = v.len();
    assert(v@.subrange(lo as int, hi as int) =~= s@.skip(lo as int));
    while lo < hi && space(v[hi - 1])
        invariant
            lo <= hi <= v@.len(),
            trim(s@) == trim_end(v@.subrange(lo as int, hi as int)),
        decreases hi,
    {
        assert(v@.subrange(lo as int, hi as int).drop_last() =~= v@.subrange(lo as int, hi - 1));
        hi -= 1;
    }
    slice_text(&v, lo, hi)
}

/// Trimming leaves no white space at either end.
pub proof fn trim_is_tight(s: Seq<char>)
    ensures
        trim(s).len() > 0 ==> !is_space(trim(s)[0]) && !is_space(trim(s).last()),
        trim(s).len() <= s.len(),
{
    trim_start_tight(s);
    trim_end_tight(trim_start(s));
}

proof fn trim_start_tight(s: Seq<char>)
    ensures
        trim_start(s).len() > 0 ==> !is_space(trim_start(s)[0]),
        trim_start(s).len() <= s.len(),
    decreases s.len(),
{
    if s.len() > 0 && is_space(s[0]) {
        trim_start_tight(s.skip(1));
    }
}

proof fn trim_end_tight(s: Seq<char>)
    ensures
        trim_end(s).len() > 0 ==> !is_space(trim_end(s).last()) && trim_end(s)[0] == s[0],
        trim_end(s).len() <= s.len(),
    decreases s.len(),
{
    if s.len() > 0 && is_space(s.last()) {
        trim_end_tight(s.drop_last());
    }
}

// ---------------------------------------------------------------------------
// Words and lines.
// ---------------------------------------------------------------------------
/// The maximal runs of non-space characters of `s[i..]`, with `cur` already read.
pub open spec fn words_from(s: Seq<char>, i: int, cur: Seq<char>) -> Seq<Seq<char>>
    decreases s.len() - i,
{
    if i < 0 || i >= s.len() {
        if cur.len() == 0 {
            seq![]
        } else {
            seq![cur]
        }
    } else if is_space(s[i]) {
        if cur.len() == 0 {
            words_from(s, i + 1, cur)
        } else {
            seq![cur] + words_from(s, i + 1, seq![])
        }
    } else {
        words_from(s, i + 1, cur.push(s[i]))
    }
}

/// The white-space separated words of a text.
pub open spec fn words(s: Seq<char>) -> Seq<Seq<char>> {
    words_from(s, 0, seq![])
}

pub fn split_words(s: &str) -> (r: Vec<String>)
    ensures
        texts(r@) == words(s@),
{
    let v = chars_of(s);
    let mut out: Vec<String> = Vec::new();
    let mut cur = String::new();
    let mut cur_len: usize = 0;
    assert(texts(out@) =~= seq![]);
    for i in 0..v.len()
        invariant
            v@ == s@,
            cur@.len() == cur_len,
            cur_len <= i,
            texts(out@) + words_from(s@, i as int, cur@) == words(s@),
    {
        if space(v[i]) {
            if cur_len > 0 {
                let ghost before = texts(out@);
                let ghost word = cur@;
                out.push(cur);
                cur = String::new();
                cur_len = 0;
                assert(texts(out@) =~= before.push(word));
                assert(cur@ =~= seq![]);
                assert(texts(out@) + words_from(s@, i + 1, cur@) =~= before + (seq![word]
                    + words_from(s@, i + 1, seq![])));
            }
        } else {
            cur.push(v[i]);
            cur_len += 1;
        }
    }
    if cur_len > 0 {
        let ghost before = texts(out@);
        let ghost word = cur@;
        out.push(cur);
        assert(texts(out@) =~= before + seq![word]);
    } else {
        assert(texts(out@) =~= texts(out@) + seq![]);
    }
    out
}

/// A text without one trailing carriage return.
pub open spec fn chomp(s: Seq<char>) -> Seq<char> {
    if s.len() > 0 && s.last() == '\r' {
        s.drop_last()
    } else {
        s
    }
}

/// The lines of `s[i..]`, with `cur` already read of the first.
pub open spec fn lines_from(s: Seq<char>, i: int, cur: Seq<char>) -> Seq<Seq<char>>
    decreases s.len() - i,
{
    if i < 0 || i >= s.len() {
        if cur.len() == 0 {
            seq![]
        } else {
            seq![cur]
        }
    } else if s[i] == '\n' {
        seq![chomp(cur)] + lines_from(s, i + 1, seq![])
    } else {
        lines_from(s, i + 1, cur.push(s[i]))
    }
}

/// The lines of a text: each ends at `\n` or `\r\n`, the last one may end with
/// the text.
pub open spec fn lines(s: Seq<char>) -> Seq<Seq<char>> {
    lines_from(s, 0, seq![])
}

/// Texts one after the other, each ended by a line break.
pub open spec fn ended(v: Seq<Seq<char>>) -> Seq<char>
    decreases v.len(),
{
    if v.len() == 0 {
        seq![]
    } else {
        v[0].push('\n') + ended(v.drop_first())
    }
}

proof fn lines_of_rest(s: Seq<char>, i: int, cur: Seq<char>)
    requires
        0 <= i <= s.len(),
    ensures
        lines_from(s, i, cur) == lines_from(s.skip(i), 0, cur),
    decreases s.len() - i,
{
    let t = s.skip(i);
    if i < s.len() {
        let next = if s[i] == '\n' {
            seq![]
        } else {
            cur.push(s[i])
        };
        lines_of_rest(s, i + 1, next);
        lines_of_rest(t, 1, next);
        assert(s.skip(i + 1) =~= t.skip(1));
    }
}

proof fn first_line(l: Seq<char>, rest: Seq<char>, cur: Seq<char>)
    requires
        !l.contains('\n'),
    ensures
        lines_from(l.push('\n') + rest, 0, cur) == seq![chomp(cur + l)] + lines_from(rest, 0, seq![]),
    decreases l.len(),
{
    let s = l.push('\n') + rest;
    if l.len() == 0 {
        assert(cur + l =~= cur);
        lines_of_rest(s, 1, seq![]);
        assert(s.skip(1) =~= rest);
    } else {
        let tail = l.drop_first();
        assert(l.contains(l[0]));
        assert(!tail.contains('\n')) by {
            if tail.contains('\n') {
                let k = choose|k: int| 0 <= k < tail.len() && tail[k] == '\n';
                assert(l[k + 1] == '\n');
            }
        }
        first_line(tail, rest, cur.push(l[0]));
        lines_of_rest(s, 1, cur.push(l[0]));
        assert(s.skip(1) =~= tail.push('\n') + rest);
        assert(cur.push(l[0]) + tail =~= cur + l);
    }
}

/// A line break at the end of a text keeps its lines apart from what follows.
pub proof fn lines_apart(head: Seq<char>, rest: Seq<char>)
    requires
        head.len() > 0 ==> head.last() == '\n',
    ensures
        lines(head + rest) == lines(head) + lines(rest),
{
    lines_apart_from(head, rest, 0, seq![]);
}

proof fn lines_apart_from(head: Seq<char>, rest: Seq<char>, i: int, cur: Seq<char>)
    requires
        head.len() > 0 ==> head.last() == '\n',
        0 <= i <= head.len(),
        i == head.len() ==> cur.len() == 0,
    ensures
        lines_from(head + rest, i, cur) == lines_from(head, i, cur) + lines(rest),
    decreases head.len() - i,
{
    if i == head.len() {
        lines_of_rest(head + rest, i, cur);
        assert((head + rest).skip(i) =~= rest);
        assert(cur =~= seq![]);
        assert(lines_from(head, i, cur) + lines(rest) =~= lines(rest));
    } else {
        assert((head + rest)[i] == head[i]);
        if head[i] == '\n' {
            lines_apart_from(head, rest, i + 1, seq![]);
            let own = seq![chomp(cur)];
            assert(own + (lines_from(head, i + 1, seq![]) + lines(rest)) =~= (own + lines_from(head, i + 1, seq![])) + lines(
                rest,
            ));
        } else {
            lines_apart_from(head, rest, i + 1, cur.push(head[i]));
        }
    }
}

/// A text without line breaks and a line break make one line.
pub proof fn line_apart(l: Seq<char>, rest: Seq<char>)
    requires
        !l.contains('\n'),
    ensures
        lines(l.push('\n') + rest) == seq![chomp(l)] + lines(rest),
{
    first_line(l, rest, seq![]);
    assert(seq![] + l =~= l);
}

/// White space alone is trimmed away.
pub proof fn blank_is_trimmed(s: Seq<char>)
    requires
        forall|i: int| 0 <= i < s.len() ==> is_space(#[trigger] s[i]),
    ensures
        trim_start(s).len() == 0,
        trim(s).len() == 0,
    decreases s.len(),
{
    if s.len() > 0 {
        let t = s.skip(1);
        assert forall|i: int| 0 <= i < t.len() implies is_space(#[trigger] t[i]) by {
            assert(t[i] == s[i + 1]);
        }
        blank_is_trimmed(t);
        assert(is_space(s[0]));
    }
}

/// Texts without line breaks, each ended by one, are the lines of the whole, but
/// for a carriage return at their end.
pub proof fn ended_texts_are_lines(v: Seq<Seq<char>>)
    requires
        forall|k: int| 0 <= k < v.len() ==> !(#[trigger] v[k]).contains('\n'),
    ensures
        lines(ended(v)) == v.map_values(|l: Seq<char>| chomp(l)),
    decreases v.len(),
{
    if v.len() > 0 {
        let rest = v.drop_first();
        ended_texts_are_lines(rest);
        first_line(v[0], ended(rest), seq![]);
        assert(seq![] + v[0] =~= v[0]);
        assert(lines(ended(v)) =~= v.map_values(|l: Seq<char>| chomp(l)));
    } else {
        assert(lines(ended(v)) =~= v.map_values(|l: Seq<char>| chomp(l)));
    }
}

proof fn lines_from_hold_no_breaks(s: Seq<char>, i: int, cur: Seq<char>)
    requires
        0 <= i,
        !cur.contains('\n'),
    ensures
        forall|k: int| 0 <= k < lines_from(s, i, cur).len() ==> !(#[trigger] lines_from(s, i, cur)[k]).contains('\n'),
    decreases s.len() - i,
{
    let all = lines_from(s, i, cur);
    if i >= s.len() {
    } else if s[i] == '\n' {
        let rest = lines_from(s, i + 1, seq![]);
        lines_from_hold_no_breaks(s, i + 1, seq![]);
        assert forall|k: int| 0 <= k < all.len() implies !(#[trigger] all[k]).contains('\n') by {
            if k > 0 {
                assert(all[k] == rest[k - 1]);
            } else if all[0].contains('\n') {
                let j = choose|j: int| 0 <= j < all[0].len() && all[0][j] == '\n';
                assert(cur[j] == '\n');
            }
        }
    } else {
        let next = cur.push(s[i]);
        if next.contains('\n') {
            let j = choose|j: int| 0 <= j < next.len() && next[j] == '\n';
            assert(cur[j] == '\n');
        }
        lines_from_hold_no_breaks(s, i + 1, next);
        assert(all == lines_from(s, i + 1, next));
    }
}

/// No line holds a line break.
pub proof fn lines_hold_no_breaks(s: Seq<char>)
    ensures
        forall|k: int| 0 <= k < lines(s).len() ==> !(#[trigger] lines(s)[k]).contains('\n'),
{
    lines_from_hold_no_breaks(s, 0, seq![]);
}

pub fn split_lines(s: &str) -> (r: Vec<String>)
    ensures
        texts(r@) == lines(s@),
        r@.len() <= s@.len(),
{
    let v = chars_of(s);
    let mut out: Vec<String> = Vec::new();
    let mut lo: usize = 0;
    assert(texts(out@) =~= seq![]);
    assert(v@.subrange(0, 0) =~= seq![]);
    for i in 0..v.len()
        invariant
            v@ == s@,
            lo <= i,
            out@.len() <= lo,
            texts(out@) + lines_from(s@, i as int, v@.subrange(lo as int, i as int)) == lines(s@),
    {
        if v[i] == '\n' {
            let ghost before = texts(out@);
            let ghost cur = v@.subrange(lo as int, i as int);
            let mut hi: usize = i;
            if lo < i && v[i - 1] == '\r' {
                hi = i - 1;
                assert(cur.drop_last() =~= v@.subrange(lo as int, hi as int));
            }
            assert(chomp(cur) =~= v@.subrange(lo as int, hi as int));
            out.push(slice_text(&v, lo, hi));
            lo = i + 1;
            assert(texts(out@) =~= before.push(chomp(cur)));
            assert(v@.subrange(lo as int, i + 1) =~= seq![]);
            assert(texts(out@) + lines_from(s@, i + 1, seq![]) =~= before + (seq![chomp(cur)]
                + lines_from(s@, i + 1, seq![])));
        } else {
            assert(v@.subrange(lo as int, i + 1) =~= v@.subrange(lo as int, i as int).push(
                v@[i as int],
            ));
        }
    }
    if lo < v.len() {
        let ghost before = texts(out@);
        let n: usize = v.len();
        out.push(slice_text(&v, lo, n));
        assert(texts(out@) =~= before + seq![v@.subrange(lo as int, n as int)]);
    } else {
        assert(texts(out@) =~= texts(out@) + seq![]);
    }
    out
}

// ---------------------------------------------------------------------------
// Searching.
// ---------------------------------------------------------------------------
/// Where a character first occurs from `i` on; the length of the text if it
/// does not.
pub open spec fn index_from(s: Seq<char>, c: char, i: int) -> int
    decreases s.len() - i,
{
    if i < 0 || i >= s.len() {
        s.len() as int
    } else if s[i] == c {
        i
    } else {
        index_from(s, c, i + 1)
    }
}

pub open spec fn index_of(s: Seq<char>, c: char) -> int {
    index_from(s, c, 0)
}

/// The character occurs in the text.
pub open spec fn has_char(s: Seq<char>, c: char) -> bool {
    index_of(s, c) < s.len()
}

pub fn find_char(v: &[char], c: char) -> (r: usize)
    ensures
        r == index_of(v@, c),
        r <= v@.len(),
        r < v@.len() ==> v@[r as int] == c,
{
    let mut i: usize = 0;
    while i < v.len()
        invariant
            i <= v@.len(),
            index_from(v@, c, i as int) == index_of(v@, c),
        decreases v@.len() - i,
    {
        if v[i] == c {
            return i;
        }
        i += 1;
    }
    i
}

pub fn holds_char(s: &str, c: char) -> (r: bool)
    ensures
        r == has_char(s@, c),
{
    let v = chars_of(s);
    find_char(&v, c) < v.len()
}

/// What stands before and after the first `c`.
pub open spec fn halves(s: Seq<char>, c: char) -> Option<(Seq<char>, Seq<char>)> {
    if has_char(s, c) {
        Some((s.take(index_of(s, c)), s.skip(index_of(s, c) + 1)))
    } else {
        None
    }
}

pub open spec fn pair_text(p: Option<(String, String)>) -> Option<(Seq<char>, Seq<char>)> {
    match p {
        Some((a, b)) => Some((a@, b@)),
        None => None,
    }
}

/// Split a text at the first `c`.
pub fn split_once(s: &str, c: char) -> (r: Option<(String, String)>)
    ensures
        pair_text(r) == halves(s@, c),
{
    let v = chars_of(s);
    let i: usize = find_char(&v, c);
    if i < v.len() {
        let a = slice_text(&v, 0, i);
        let b = slice_text(&v, i + 1, v.len());
        assert(a@ =~= s@.take(i as int));
        assert(b@ =~= s@.skip(i + 1));
        Some((a, b))
    } else {
        None
    }
}

/// `p` occurs in the text at `i`.
pub open spec fn occurs_at(s: Seq<char>, p: Seq<char>, i: int) -> bool {
    0 <= i && i + p.len() <= s.len() && s.subrange(i, i + p.len()) == p
}

/// `p` occurs in the text.
pub open spec fn occurs(s: Seq<char>, p: Seq<char>) -> bool {
    exists|i: int| #[trigger] occurs_at(s, p, i)
}

pub fn holds_text(s: &str, p: &str) -> (r: bool)
    ensures
        r == occurs(s@, p@),
{
    let v = chars_of(s);
    let w = chars_of(p);
    if w.len() == 0 {
        assert(s@.subrange(0, 0) =~= p@);
        assert(occurs_at(s@, p@, 0));
        return true;
    }
    let mut i: usize = 0;
    while i < v.len() && v.len() - i >= w.len()
        invariant
            v@ == s@,
            w@ == p@,
            w@.len() > 0,
            i <= v@.len(),
            forall|j: int| 0 <= j < i ==> !#[trigger] occurs_at(s@, p@, j),
        decreases v@.len() - i,
    {
        let mut k: usize = 0;
        while k < w.len() && v[i + k] == w[k]
            invariant
                v@ == s@,
                w@ == p@,
                i + w.len() <= v.len(),
                k <= w@.len(),
                forall|j: int| 0 <= j < k ==> v@[i + j] == w@[j],
            decreases w@.len() - k,
        {
            k += 1;
        }
        if k == w.len() {
            assert(s@.subrange(i as int, i + p@.len()) =~= p@);
            assert(occurs_at(s@, p@, i as int));
            return true;
        }
        proof {
            assert(!occurs_at(s@, p@, i as int)) by {
                if occurs_at(s@, p@, i as int) {
                    assert(s@.subrange(i as int, i + p@.len())[k as int] == p@[k as int]);
                }
            }
        }
        i += 1;
    }
    false
}

// ---------------------------------------------------------------------------
// Joining and numbers.
// ---------------------------------------------------------------------------
/// The texts, with `sep` between each two.
pub open spec fn join(parts: Seq<Seq<char>>, sep: Seq<char>) -> Seq<char>
    decreases parts.len(),
{
    if parts.len() == 0 {
        seq![]
    } else if parts.len() == 1 {
        parts[0]
    } else {
        join(parts.drop_last(), sep) + sep + parts.last()
    }
}

pub fn join_texts(parts: &Vec<String>, sep: &str) -> (r: String)
    ensures
        r@ == join(texts(parts@), sep@),
{
    let mut out = String::new();
    assert(texts(parts@).take(0) =~= seq![]);
    for i in 0..parts.len()
        invariant
            out@ == join(texts(parts@).take(i as int), sep@),
    {
        proof {
            let t = texts(parts@).take(i + 1);
            assert(t.drop_last() =~= texts(parts@).take(i as int));
            assert(t.last() == parts@[i as int]@);
        }
        if i > 0 {
            out.append(sep);
        } else {
            assert(texts(parts@).take(1)[0] == parts@[0]@);
        }
        out.append(&parts[i]);
        if i == 0 {
            assert(out@ =~= parts@[0]@);
        }
    }
    assert(texts(parts@).take(parts@.len() as int) =~= texts(parts@));
    out
}

pub open spec fn digit_char(d: nat) -> char {
    (48 + d) as char
}

/// The decimal digits of a number.
pub open spec fn decimal(n: nat) -> Seq<char>
    decreases n,
{
    if n < 10 {
        seq![digit_char(n)]
    } else {
        decimal(n / 10).push(digit_char(n % 10))
    }
}

pub fn decimal_text(n: u64) -> (r: String)
    ensures
        r@ == decimal(n as nat),
    decreases n,
{
    if n < 10 {
        let mut out = String::new();
        out.push(((48 + n) as u8) as char);
        assert(out@ =~= decimal(n as nat));
        out
    } else {
        let mut out = decimal_text(n / 10);
        out.push(((48 + n % 10) as u8) as char);
        out
    }
}

/// A number with its sign.
pub open spec fn signed_decimal(i: int) -> Seq<char> {
    if i < 0 {
        seq!['-'] + decimal((-i) as nat)
    } else {
        decimal(i as nat)
    }
}

pub fn signed_text(i: i64) -> (r: String)
    ensures
        r@ == signed_decimal(i as int),
{
    if i < 0 {
        let m: u64 = if i == i64::MIN {
            0x8000_0000_0000_0000
        } else {
            (-i) as u64
        };
        let mut out = String::new();
        out.push('-');
        out.append(&decimal_text(m));
        assert(out@ =~= signed_decimal(i as int));
        out
    } else {
        decimal_text(i as u64)
    }
}

/// A decimal number is a nonempty run of digits.
pub proof fn decimal_is_digits(n: nat)
    ensures
        decimal(n).len() > 0,
        forall|i: int| 0 <= i < decimal(n).len() ==> is_digit(#[trigger] decimal(n)[i]),
    decreases n,
{
    if n >= 10 {
        decimal_is_digits(n / 10);
    }
}

/// Two numbers with the same digits are the same number.
pub proof fn decimal_injective(a: nat, b: nat)
    requires
        decimal(a) == decimal(b),
    ensures
        a == b,
    decreases a,
{
    decimal_is_digits(a / 10);
    decimal_is_digits(b / 10);
    assert(digit_char(a % 10) as int == 48 + a % 10);
    assert(digit_char(b % 10) as int == 48 + b % 10);
    if a >= 10 && b >= 10 {
        assert(decimal(a).drop_last() =~= decimal(a / 10));
        assert(decimal(b).drop_last() =~= decimal(b / 10));
        assert(decimal(a).last() == digit_char(a % 10));
        assert(decimal(b).last() == digit_char(b % 10));
        decimal_injective(a / 10, b / 10);
        assert(a % 10 == b % 10);
        assert(a == 10 * (a / 10) + a % 10);
        assert(b == 10 * (b / 10) + b % 10);
    } else if a < 10 && b < 10 {
        assert(a % 10 == a && b % 10 == b);
        assert(decimal(a)[0] == digit_char(a) && decimal(b)[0] == digit_char(b));
    } else {
        let (small, big) = if a < 10 {
            (a, b)
        } else {
            (b, a)
        };
        assert(decimal(small).len() == 1);
        assert(decimal(big).len() == decimal(big / 10).len() + 1);
    }
}

} // verus!

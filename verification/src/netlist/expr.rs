//! Arithmetic expressions of `.param` definitions and `{...}` values, evaluated
//! to numbers against a table of parameters. Supports `+ - * / ^`, unary minus,
//! parentheses, comparisons, logic, the ternary operator, engineering-suffix
//! numbers, named parameters and common functions.
use crate::numerics::{
    apply1, apply2, compares, is_true, parsed, shown, truth, truth_number, Answers, Ask, Host, Op1,
    Op2, Rel, Reply, Style, ONE,
};
use crate::table::{entries, table_get, Table};
use crate::text::{
    alpha, chars_of, concat3, digit, find_char, halves, has_prefix, index_of, is_alpha, is_digit,
    is_space, lower, same, slice_text, space, split_once, split_words, starts_with, texts, to_lower,
    trim, trim_start, trimmed, trimmed_start, words,
};
use vstd::prelude::*;

verus! {

// ---------------------------------------------------------------------------
// Numbers.
// ---------------------------------------------------------------------------
/// Where the number at the front of `s[i..]` ends: digits and dots, a leading
/// sign, one exponent.
pub open spec fn mantissa_end(s: Seq<char>, i: int, seen_exp: bool) -> int
    decreases s.len() - i,
{
    if i < 0 || i >= s.len() {
        s.len() as int
    } else if is_digit(s[i]) || s[i] == '.' {
        mantissa_end(s, i + 1, seen_exp)
    } else if (s[i] == '+' || s[i] == '-') && i == 0 {
        mantissa_end(s, i + 1, seen_exp)
    } else if (s[i] == 'e' || s[i] == 'E') && !seen_exp {
        let j = if i + 1 < s.len() && (s[i + 1] == '+' || s[i + 1] == '-') {
            i + 2
        } else {
            i + 1
        };
        if j < s.len() && is_digit(s[j]) {
            mantissa_end(s, j, true)
        } else {
            i
        }
    } else {
        i
    }
}

pub const TERA: u64 = 0x426d_1a94_a200_0000;

pub const GIGA: u64 = 0x41cd_cd65_0000_0000;

pub const MEGA: u64 = 0x412e_8480_0000_0000;

pub const KILO: u64 = 0x408f_4000_0000_0000;

pub const MILLI: u64 = 0x3f50_624d_d2f1_a9fc;

pub const MICRO: u64 = 0x3eb0_c6f7_a0b5_ed8d;

pub const NANO: u64 = 0x3e11_2e0b_e826_d695;

pub const PICO: u64 = 0x3d71_9799_812d_ea11;

pub const FEMTO: u64 = 0x3cd2_03af_9ee7_5616;

/// The factor that an engineering suffix stands for.
pub open spec fn suffix_factor(suffix: Seq<char>) -> u64 {
    if has_prefix(suffix, "meg"@) {
        MEGA
    } else if suffix.len() == 0 {
        ONE
    } else if suffix[0] == 't' {
        TERA
    } else if suffix[0] == 'g' {
        GIGA
    } else if suffix[0] == 'k' {
        KILO
    } else if suffix[0] == 'm' {
        MILLI
    } else if suffix[0] == 'u' {
        MICRO
    } else if suffix[0] == 'n' {
        NANO
    } else if suffix[0] == 'p' {
        PICO
    } else if suffix[0] == 'f' {
        FEMTO
    } else {
        ONE
    }
}

/// The value of an engineering number.
pub open spec fn engineering(h: Answers, text: Seq<char>) -> Option<u64> {
    let s = trim(text);
    match parsed(h, s) {
        Some(v) => Some(v),
        None => {
            let split = mantissa_end(s, 0, false);
            match parsed(h, s.take(split)) {
                Some(num) => Some(apply2(h, Op2::Mul, num, suffix_factor(lower(s.skip(split))))),
                None => None,
            }
        },
    }
}

fn factor_of(suffix: &str) -> (r: u64)
    ensures
        r == suffix_factor(suffix@),
{
    if starts_with(suffix, "meg") {
        return MEGA;
    }
    let v = chars_of(suffix);
    if v.len() == 0 {
        return ONE;
    }
    match v[0] {
        't' => TERA,
        'g' => GIGA,
        'k' => KILO,
        'm' => MILLI,
        'u' => MICRO,
        'n' => NANO,
        'p' => PICO,
        'f' => FEMTO,
        _ => ONE,
    }
}

fn find_mantissa_end(v: &Vec<char>) -> (r: usize)
    ensures
        r == mantissa_end(v@, 0, false),
        r <= v@.len(),
{
    let mut i: usize = 0;
    let mut seen_exp: bool = false;
    while i < v.len()
        invariant
            i <= v@.len(),
            mantissa_end(v@, i as int, seen_exp) == mantissa_end(v@, 0, false),
        decreases v@.len() - i,
    {
        let c = v[i];
        if digit(c) || c == '.' {
            i += 1;
        } else if (c == '+' || c == '-') && i == 0 {
            i += 1;
        } else if (c == 'e' || c == 'E') && !seen_exp {
            let mut j: usize = i + 1;
            if j < v.len() && (v[j] == '+' || v[j] == '-') {
                j += 1;
            }
            if j < v.len() && digit(v[j]) {
                seen_exp = true;
                i = j;
            } else {
                return i;
            }
        } else {
            return i;
        }
    }
    v.len()
}

/// Parse a SPICE engineering value, e.g. `1k`, `2.2u`, `1Meg`, `1e3`, `4.7nF`.
///
/// Trailing unit text after the multiplier is ignored (`1kOhm` is 1000).
pub fn parse_value<F: Fn(Ask) -> Reply>(text: &str, host: &Host<F>) -> (r: Option<u64>)
    ensures
        r == engineering(host.answers(), text@),
{
    let s = trimmed(text);
    if let Some(v) = host.parse(&s) {
        return Some(v);
    }
    let v = chars_of(&s);
    let split: usize = find_mantissa_end(&v);
    let head = slice_text(&v, 0, split);
    assert(head@ =~= s@.take(split as int));
    match host.parse(&head) {
        Some(num) => {
            let tail = slice_text(&v, split, v.len());
            assert(tail@ =~= s@.skip(split as int));
            let f: u64 = factor_of(&to_lower(&tail));
            Some(host.apply2(Op2::Mul, num, f))
        },
        None => None,
    }
}

// ---------------------------------------------------------------------------
// Tokens.
// ---------------------------------------------------------------------------
/// A token of an expression.
#[derive(Debug)]
pub enum Tok {
    Num(u64),
    Ident(String),
    /// One of `+ - * / ^`.
    Op(char),
    /// A comparison: `<`, `>`, `<=`, `>=`, `==`, `!=`.
    Rel(Rel),
    /// A logical operator: `||` if set, else `&&`.
    Logic(bool),
    /// Logical negation `!`.
    Not,
    /// Ternary punctuation `?` and `:`.
    Question,
    Colon,
    LParen,
    RParen,
    Comma,
}

pub enum TokView {
    Num(u64),
    Ident(Seq<char>),
    Op(char),
    Rel(Rel),
    Logic(bool),
    Not,
    Question,
    Colon,
    LParen,
    RParen,
    Comma,
}

impl View for Tok {
    type V = TokView;

    open spec fn view(&self) -> TokView {
        match *self {
            Tok::Num(x) => TokView::Num(x),
            Tok::Ident(s) => TokView::Ident(s@),
            Tok::Op(c) => TokView::Op(c),
            Tok::Rel(r) => TokView::Rel(r),
            Tok::Logic(b) => TokView::Logic(b),
            Tok::Not => TokView::Not,
            Tok::Question => TokView::Question,
            Tok::Colon => TokView::Colon,
            Tok::LParen => TokView::LParen,
            Tok::RParen => TokView::RParen,
            Tok::Comma => TokView::Comma,
        }
    }
}

pub open spec fn tok_views(v: Seq<Tok>) -> Seq<TokView> {
    v.map_values(|t: Tok| t@)
}

/// The first index from `i` on at which the character no longer satisfies `p`.
pub open spec fn span_end(s: Seq<char>, i: int, p: spec_fn(char) -> bool) -> int
    decreases s.len() - i,
{
    if 0 <= i < s.len() && p(s[i]) {
        span_end(s, i + 1, p)
    } else {
        i
    }
}

pub open spec fn digit_or_dot() -> spec_fn(char) -> bool {
    |c: char| is_digit(c) || c == '.'
}

pub open spec fn digits() -> spec_fn(char) -> bool {
    |c: char| is_digit(c)
}

pub open spec fn letters() -> spec_fn(char) -> bool {
    |c: char| is_alpha(c)
}

pub open spec fn is_word(c: char) -> bool {
    is_alpha(c) || is_digit(c) || c == '_'
}

/// Where the number literal at `i` ends: digits and dots, an exponent, then an
/// engineering suffix.
pub open spec fn literal_end(s: Seq<char>, i: int) -> int {
    let a = span_end(s, i, digit_or_dot());
    let b = if a < s.len() && (s[a] == 'e' || s[a] == 'E') {
        let j = if a + 1 < s.len() && (s[a + 1] == '+' || s[a + 1] == '-') {
            a + 2
        } else {
            a + 1
        };
        if j < s.len() && is_digit(s[j]) {
            span_end(s, j, digits())
        } else {
            a
        }
    } else {
        a
    };
    span_end(s, b, letters())
}

/// Where the identifier at `i` ends. A dot continues it only when a word
/// character follows.
pub open spec fn ident_end(s: Seq<char>, i: int) -> int
    decreases s.len() - i,
{
    if 0 <= i < s.len() && (is_word(s[i]) || (s[i] == '.' && i + 1 < s.len() && is_word(s[i + 1]))) {
        ident_end(s, i + 1)
    } else {
        i
    }
}

/// One token (or white space) at `i`, and where it ends.
pub open spec fn lex_one(h: Answers, s: Seq<char>, i: int) -> Result<(Seq<TokView>, int), Seq<char>> {
    let c = s[i];
    if is_space(c) {
        Ok((seq![], i + 1))
    } else if is_digit(c) || c == '.' {
        let j = literal_end(s, i);
        let num = s.subrange(i, j);
        match engineering(h, num) {
            Some(v) => Ok((seq![TokView::Num(v)], j)),
            None => Err("bad number '"@ + num + "'"@),
        }
    } else if is_alpha(c) || c == '_' {
        let j = ident_end(s, i);
        Ok((seq![TokView::Ident(s.subrange(i, j))], j))
    } else if c == '<' || c == '>' || c == '=' || c == '!' {
        let eq = i + 1 < s.len() && s[i + 1] == '=';
        let j = if eq {
            i + 2
        } else {
            i + 1
        };
        if c == '!' && !eq {
            Ok((seq![TokView::Not], j))
        } else if c == '=' && !eq {
            Err("incomplete operator '=' (use == for comparison)"@)
        } else if c == '<' {
            Ok((seq![TokView::Rel(if eq { Rel::Le } else { Rel::Lt })], j))
        } else if c == '>' {
            Ok((seq![TokView::Rel(if eq { Rel::Ge } else { Rel::Gt })], j))
        } else if c == '=' {
            Ok((seq![TokView::Rel(Rel::Eq)], j))
        } else {
            Ok((seq![TokView::Rel(Rel::Ne)], j))
        }
    } else if c == '&' || c == '|' {
        if i + 1 < s.len() && s[i + 1] == c {
            Ok((seq![TokView::Logic(c == '|')], i + 2))
        } else if c == '&' {
            Err("incomplete logical operator '&' (use &&)"@)
        } else {
            Err("incomplete logical operator '|' (use ||)"@)
        }
    } else if c == '(' {
        Ok((seq![TokView::LParen], i + 1))
    } else if c == ')' {
        Ok((seq![TokView::RParen], i + 1))
    } else if c == ',' {
        Ok((seq![TokView::Comma], i + 1))
    } else if c == '?' {
        Ok((seq![TokView::Question], i + 1))
    } else if c == ':' {
        Ok((seq![TokView::Colon], i + 1))
    } else if c == '+' || c == '-' || c == '*' || c == '/' || c == '^' {
        Ok((seq![TokView::Op(c)], i + 1))
    } else {
        Err("unexpected char '"@ + seq![c] + "'"@)
    }
}

/// The tokens of `s[i..]`, or the first thing that is none.
pub open spec fn lex_from(h: Answers, s: Seq<char>, i: int) -> Result<Seq<TokView>, Seq<char>>
    decreases s.len() - i,
{
    if i < 0 || i >= s.len() {
        Ok(seq![])
    } else {
        match lex_one(h, s, i) {
            Err(e) => Err(e),
            Ok((t, j)) => if j <= i || j > s.len() {
                Err(seq![])
            } else {
                match lex_from(h, s, j) {
                    Err(e) => Err(e),
                    Ok(rest) => Ok(t + rest),
                }
            },
        }
    }
}

pub open spec fn lexed(h: Answers, s: Seq<char>) -> Result<Seq<TokView>, Seq<char>> {
    lex_from(h, s, 0)
}

proof fn span_end_bounds(s: Seq<char>, i: int, p: spec_fn(char) -> bool)
    requires
        0 <= i <= s.len(),
    ensures
        i <= span_end(s, i, p) <= s.len(),
        i < s.len() && p(s[i]) ==> i < span_end(s, i, p),
    decreases s.len() - i,
{
    if i < s.len() && p(s[i]) {
        span_end_bounds(s, i + 1, p);
    }
}

fn skip_digits_dots(v: &Vec<char>, from: usize) -> (r: usize)
    requires
        from <= v@.len(),
    ensures
        r == span_end(v@, from as int, digit_or_dot()),
        from <= r <= v@.len(),
        from < v@.len() && (is_digit(v@[from as int]) || v@[from as int] == '.') ==> r > from,
{
    let mut i: usize = from;
    while i < v.len() && (digit(v[i]) || v[i] == '.')
        invariant
            from <= i <= v@.len(),
            span_end(v@, i as int, digit_or_dot()) == span_end(v@, from as int, digit_or_dot()),
        decreases v@.len() - i,
    {
        i += 1;
    }
    proof {
        span_end_bounds(v@, from as int, digit_or_dot());
    }
    i
}

fn skip_digits(v: &Vec<char>, from: usize) -> (r: usize)
    requires
        from <= v@.len(),
    ensures
        r == span_end(v@, from as int, digits()),
        from <= r <= v@.len(),
{
    let mut i: usize = from;
    while i < v.len() && digit(v[i])
        invariant
            from <= i <= v@.len(),
            span_end(v@, i as int, digits()) == span_end(v@, from as int, digits()),
        decreases v@.len() - i,
    {
        i += 1;
    }
    i
}

fn skip_letters(v: &Vec<char>, from: usize) -> (r: usize)
    requires
        from <= v@.len(),
    ensures
        r == span_end(v@, from as int, letters()),
        from <= r <= v@.len(),
{
    let mut i: usize = from;
    while i < v.len() && alpha(v[i])
        invariant
            from <= i <= v@.len(),
            span_end(v@, i as int, letters()) == span_end(v@, from as int, letters()),
        decreases v@.len() - i,
    {
        i += 1;
    }
    i
}

fn skip_literal(v: &Vec<char>, from: usize) -> (r: usize)
    requires
        from < v@.len(),
        is_digit(v@[from as int]) || v@[from as int] == '.',
    ensures
        r == literal_end(v@, from as int),
        from < r <= v@.len(),
{
    let a: usize = skip_digits_dots(v, from);
    let mut b: usize = a;
    if a < v.len() && (v[a] == 'e' || v[a] == 'E') {
        let mut j: usize = a + 1;
        if j < v.len() && (v[j] == '+' || v[j] == '-') {
            j += 1;
        }
        if j < v.len() && digit(v[j]) {
            b = skip_digits(v, j);
        }
    }
    skip_letters(v, b)
}

fn word_char(c: char) -> (r: bool)
    ensures
        r == is_word(c),
{
    alpha(c) || digit(c) || c == '_'
}

fn skip_ident(v: &Vec<char>, from: usize) -> (r: usize)
    requires
        from < v@.len(),
        is_word(v@[from as int]),
    ensures
        r == ident_end(v@, from as int),
        from < r <= v@.len(),
{
    let n: usize = v.len();
    let mut i: usize = from + 1;
    while i < v.len() && (word_char(v[i]) || (v[i] == '.' && i + 1 < v.len() && word_char(v[i + 1])))
        invariant
            from < i <= v@.len(),
            ident_end(v@, i as int) == ident_end(v@, from as int),
        decreases v@.len() - i,
    {
        i += 1;
    }
    i
}

/// What a step of the lexer found.
enum Step {
    Blank,
    Token(Tok),
}

impl Step {
    spec fn toks(self) -> Seq<TokView> {
        match self {
            Step::Blank => seq![],
            Step::Token(t) => seq![t@],
        }
    }
}

spec fn step_view(r: Result<(Step, usize), String>) -> Result<(Seq<TokView>, int), Seq<char>> {
    match r {
        Ok((s, j)) => Ok((s.toks(), j as int)),
        Err(e) => Err(e@),
    }
}

fn read_token<F: Fn(Ask) -> Reply>(v: &Vec<char>, i: usize, host: &Host<F>) -> (r: Result<
    (Step, usize),
    String,
>)
    requires
        i < v@.len(),
    ensures
        step_view(r) == lex_one(host.answers(), v@, i as int),
        r matches Ok((_, j)) ==> i < j <= v@.len(),
{
    let n: usize = v.len();
    let c = v[i];
    let one: usize = i + 1;
    if space(c) {
        Ok((Step::Blank, one))
    } else if digit(c) || c == '.' {
        let j: usize = skip_literal(v, i);
        let num = slice_text(v, i, j);
        match parse_value(&num, host) {
            Some(x) => Ok((Step::Token(Tok::Num(x)), j)),
            None => Err(concat3("bad number '", &num, "'")),
        }
    } else if alpha(c) || c == '_' {
        let j: usize = skip_ident(v, i);
        Ok((Step::Token(Tok::Ident(slice_text(v, i, j))), j))
    } else if c == '<' || c == '>' || c == '=' || c == '!' {
        let eq: bool = one < v.len() && v[one] == '=';
        let j: usize = if eq {
            one + 1
        } else {
            one
        };
        if c == '!' && !eq {
            Ok((Step::Token(Tok::Not), j))
        } else if c == '=' && !eq {
            Err("incomplete operator '=' (use == for comparison)".to_owned())
        } else {
            let rel = if c == '<' {
                if eq {
                    Rel::Le
                } else {
                    Rel::Lt
                }
            } else if c == '>' {
                if eq {
                    Rel::Ge
                } else {
                    Rel::Gt
                }
            } else if c == '=' {
                Rel::Eq
            } else {
                Rel::Ne
            };
            Ok((Step::Token(Tok::Rel(rel)), j))
        }
    } else if c == '&' || c == '|' {
        if one < v.len() && v[one] == c {
            Ok((Step::Token(Tok::Logic(c == '|')), one + 1))
        } else if c == '&' {
            Err("incomplete logical operator '&' (use &&)".to_owned())
        } else {
            Err("incomplete logical operator '|' (use ||)".to_owned())
        }
    } else if c == '(' {
        Ok((Step::Token(Tok::LParen), one))
    } else if c == ')' {
        Ok((Step::Token(Tok::RParen), one))
    } else if c == ',' {
        Ok((Step::Token(Tok::Comma), one))
    } else if c == '?' {
        Ok((Step::Token(Tok::Question), one))
    } else if c == ':' {
        Ok((Step::Token(Tok::Colon), one))
    } else if c == '+' || c == '-' || c == '*' || c == '/' || c == '^' {
        Ok((Step::Token(Tok::Op(c)), one))
    } else {
        let shown = slice_text(v, i, one);
        assert(shown@ =~= seq![c]);
        Err(concat3("unexpected char '", &shown, "'"))
    }
}

pub open spec fn lex_view(r: Result<Vec<Tok>, String>) -> Result<Seq<TokView>, Seq<char>> {
    match r {
        Ok(v) => Ok(tok_views(v@)),
        Err(e) => Err(e@),
    }
}

/// Split an expression into tokens.
pub fn lex<F: Fn(Ask) -> Reply>(s: &str, host: &Host<F>) -> (r: Result<Vec<Tok>, String>)
    ensures
        lex_view(r) == lexed(host.answers(), s@),
{
    let v = chars_of(s);
    let mut i: usize = 0;
    let mut out: Vec<Tok> = Vec::new();
    let ghost h = host.answers();
    proof {
        assert(tok_views(out@) =~= seq![]);
        if let Ok(rest) = lex_from(h, s@, 0) {
            assert(seq![] + rest =~= rest);
        }
    }
    while i < v.len()
        invariant
            v@ == s@,
            h == host.answers(),
            i <= v@.len(),
            lexed(h, s@) == after(tok_views(out@), lex_from(h, s@, i as int)),
        decreases v@.len() - i,
    {
        let ghost before = tok_views(out@);
        match read_token(&v, i, host) {
            Err(e) => {
                return Err(e);
            },
            Ok((step, j)) => {
                let ghost t = step.toks();
                match step {
                    Step::Blank => {
                        assert(tok_views(out@) =~= before + t);
                    },
                    Step::Token(tok) => {
                        out.push(tok);
                        assert(tok_views(out@) =~= before + t);
                    },
                }
                proof {
                    if let Ok(rest) = lex_from(h, s@, j as int) {
                        assert(before + (t + rest) =~= (before + t) + rest);
                    }
                }
                i = j;
            },
        }
    }
    assert(tok_views(out@) + seq![] =~= tok_views(out@));
    Ok(out)
}

spec fn after(t: Seq<TokView>, r: Result<Seq<TokView>, Seq<char>>) -> Result<Seq<TokView>, Seq<char>> {
    match r {
        Ok(rest) => Ok(t + rest),
        Err(e) => Err(e),
    }
}


// ---------------------------------------------------------------------------
// Evaluation.
// ---------------------------------------------------------------------------
/// A value and the position after what denotes it, or an error message.
pub type Parsed = Result<(u64, int), Seq<char>>;

/// The spelling of a comparison.
pub open spec fn rel_text(r: Rel) -> Seq<char> {
    match r {
        Rel::Lt => "<"@,
        Rel::Gt => ">"@,
        Rel::Le => "<="@,
        Rel::Ge => ">="@,
        Rel::Eq => "=="@,
        Rel::Ne => "!="@,
    }
}

pub open spec fn logic_text(or: bool) -> Seq<char> {
    if or {
        "||"@
    } else {
        "&&"@
    }
}

/// A token as a diagnostic names it.
pub open spec fn token_text(h: Answers, t: TokView) -> Seq<char> {
    match t {
        TokView::Num(x) => "Num("@ + shown(h, Style::Debug, x) + ")"@,
        TokView::Ident(s) => "Ident(\""@ + s + "\")"@,
        TokView::Op(c) => "Op('"@ + seq![c] + "')"@,
        TokView::Rel(r) => "Cmp(\""@ + rel_text(r) + "\")"@,
        TokView::Logic(or) => "Logic(\""@ + logic_text(or) + "\")"@,
        TokView::Not => "Not"@,
        TokView::Question => "Question"@,
        TokView::Colon => "Colon"@,
        TokView::LParen => "LParen"@,
        TokView::RParen => "RParen"@,
        TokView::Comma => "Comma"@,
    }
}

/// Left and right binding power of a binary operator:
/// `||` < `&&` < comparison < `+ -` < `* /` < `^`, the last one right-associative.
pub open spec fn binding(t: TokView) -> Option<(int, int)> {
    match t {
        TokView::Logic(or) => if or {
            Some((1, 2))
        } else {
            Some((3, 4))
        },
        TokView::Rel(_) => Some((5, 6)),
        TokView::Op(c) => if c == '+' || c == '-' {
            Some((7, 8))
        } else if c == '*' || c == '/' {
            Some((9, 10))
        } else if c == '^' {
            Some((14, 13))
        } else {
            None
        },
        _ => None,
    }
}

/// The value of a binary operator; comparisons and logic yield 1 or 0.
pub open spec fn combined(h: Answers, t: TokView, a: u64, b: u64) -> u64 {
    match t {
        TokView::Logic(or) => truth(
            if or {
                is_true(h, a) || is_true(h, b)
            } else {
                is_true(h, a) && is_true(h, b)
            },
        ),
        TokView::Rel(r) => truth(compares(h, r, a, b)),
        TokView::Op(c) => if c == '+' {
            apply2(h, Op2::Add, a, b)
        } else if c == '-' {
            apply2(h, Op2::Sub, a, b)
        } else if c == '*' {
            apply2(h, Op2::Mul, a, b)
        } else if c == '/' {
            apply2(h, Op2::Div, a, b)
        } else {
            apply2(h, Op2::Pow, a, b)
        },
        _ => a,
    }
}

/// The functions of one argument.
pub open spec fn function1(name: Seq<char>) -> Option<Op1> {
    if name == "sin"@ {
        Some(Op1::Sin)
    } else if name == "cos"@ {
        Some(Op1::Cos)
    } else if name == "tan"@ {
        Some(Op1::Tan)
    } else if name == "asin"@ {
        Some(Op1::Asin)
    } else if name == "acos"@ {
        Some(Op1::Acos)
    } else if name == "atan"@ {
        Some(Op1::Atan)
    } else if name == "exp"@ {
        Some(Op1::Exp)
    } else if name == "ln"@ {
        Some(Op1::Ln)
    } else if name == "log"@ || name == "log10"@ {
        Some(Op1::Log10)
    } else if name == "sqrt"@ {
        Some(Op1::Sqrt)
    } else if name == "abs"@ {
        Some(Op1::Abs)
    } else {
        None
    }
}

/// The functions of two arguments.
pub open spec fn function2(name: Seq<char>) -> Option<Op2> {
    if name == "pow"@ || name == "pwr"@ {
        Some(Op2::Pow)
    } else if name == "min"@ {
        Some(Op2::Min)
    } else if name == "max"@ {
        Some(Op2::Max)
    } else {
        None
    }
}

/// The statistical functions: nominally each is its first argument.
pub open spec fn is_statistical(name: Seq<char>) -> bool {
    name == "agauss"@ || name == "gauss"@ || name == "aunif"@ || name == "unif"@ || name == "limit"@
}

/// The value of a function call.
pub open spec fn called(h: Answers, name: Seq<char>, a: Seq<u64>) -> Result<u64, Seq<char>> {
    if name == "if"@ && a.len() == 3 {
        Ok(if is_true(h, a[0]) { a[1] } else { a[2] })
    } else if function1(name) is Some {
        if a.len() == 1 {
            Ok(apply1(h, function1(name)->0, a[0]))
        } else {
            Err(name + " expects 1 arg"@)
        }
    } else if function2(name) is Some && a.len() == 2 {
        Ok(apply2(h, function2(name)->0, a[0], a[1]))
    } else if is_statistical(name) {
        if a.len() >= 1 {
            Ok(a[0])
        } else {
            Err(name + " expects at least 1 args"@)
        }
    } else {
        Err("unknown function '"@ + name + "'"@)
    }
}

/// What evaluation goes by: the host, the parameters and the tokens.
pub struct Scope {
    pub h: Answers,
    pub env: Map<Seq<char>, u64>,
    pub t: Seq<TokView>,
}

impl Scope {
    pub open spec fn at(self, pos: int, t: TokView) -> bool {
        0 <= pos < self.t.len() && self.t[pos] == t
    }

    /// A ternary `cond ? a : b` (right-associative) over the operators below it.
    pub open spec fn ternary(self, pos: int) -> Parsed
        decreases self.t.len() - pos, 3int,
    {
        match self.expr(pos, 0) {
            Err(e) => Err(e),
            Ok((c, p)) => if self.at(p, TokView::Question) && p > pos {
                match self.ternary(p + 1) {
                    Err(e) => Err(e),
                    Ok((a, q)) => if self.at(q, TokView::Colon) && q > pos {
                        match self.ternary(q + 1) {
                            Err(e) => Err(e),
                            Ok((b, r)) => Ok((if is_true(self.h, c) { a } else { b }, r)),
                        }
                    } else {
                        Err("expected ':' in ternary expression"@)
                    },
                }
            } else {
                Ok((c, p))
            },
        }
    }

    /// An operand followed by operators that bind at least as tightly as `min`.
    pub open spec fn expr(self, pos: int, min: int) -> Parsed
        decreases self.t.len() - pos, 2int,
    {
        match self.atom(pos) {
            Err(e) => Err(e),
            Ok((v, p)) => if pos < p <= self.t.len() {
                self.climb(v, p, min)
            } else {
                Err(seq![])
            },
        }
    }

    /// The operators from `pos` on, applied to `lhs`.
    pub open spec fn climb(self, lhs: u64, pos: int, min: int) -> Parsed
        decreases self.t.len() - pos, 1int,
    {
        if 0 <= pos < self.t.len() && binding(self.t[pos]) is Some && (binding(self.t[pos])->0).0 >= min {
            let op = self.t[pos];
            match self.expr(pos + 1, (binding(op)->0).1) {
                Err(e) => Err(e),
                Ok((rhs, p)) => if pos < p <= self.t.len() {
                    self.climb(combined(self.h, op, lhs, rhs), p, min)
                } else {
                    Err(seq![])
                },
            }
        } else {
            Ok((lhs, pos))
        }
    }

    /// A number, a parameter, a call, a parenthesis, or an operand with a sign.
    /// Unary operators bind tighter than every binary operator except `^`.
    pub open spec fn atom(self, pos: int) -> Parsed
        decreases self.t.len() - pos, 0int,
    {
        if pos < 0 || pos >= self.t.len() {
            Err("unexpected end of expression"@)
        } else {
            match self.t[pos] {
                TokView::Num(n) => Ok((n, pos + 1)),
                TokView::Op(c) => if c == '-' {
                    match self.expr(pos + 1, 13) {
                        Err(e) => Err(e),
                        Ok((v, p)) => Ok((apply1(self.h, Op1::Neg, v), p)),
                    }
                } else if c == '+' {
                    self.expr(pos + 1, 13)
                } else {
                    Err("unexpected token "@ + token_text(self.h, self.t[pos]))
                },
                TokView::Not => match self.expr(pos + 1, 13) {
                    Err(e) => Err(e),
                    Ok((v, p)) => Ok((truth(!is_true(self.h, v)), p)),
                },
                TokView::LParen => match self.ternary(pos + 1) {
                    Err(e) => Err(e),
                    Ok((v, p)) => if self.at(p, TokView::RParen) {
                        Ok((v, p + 1))
                    } else {
                        Err("expected ')'"@)
                    },
                },
                TokView::Ident(name) => if self.at(pos + 1, TokView::LParen) {
                    let args = if self.at(pos + 2, TokView::RParen) {
                        Ok((Seq::<u64>::empty(), pos + 3))
                    } else {
                        self.args(pos + 2, seq![])
                    };
                    match args {
                        Err(e) => Err(e),
                        Ok((a, p)) => match called(self.h, lower(name), a) {
                            Err(e) => Err(e),
                            Ok(v) => Ok((v, p)),
                        },
                    }
                } else if self.env.contains_key(lower(name)) {
                    Ok((self.env[lower(name)], pos + 1))
                } else {
                    Err("unknown parameter '"@ + name + "'"@)
                },
                _ => Err("unexpected token "@ + token_text(self.h, self.t[pos])),
            }
        }
    }

    /// The arguments of a call from `pos` on, after those in `acc`.
    pub open spec fn args(self, pos: int, acc: Seq<u64>) -> Result<(Seq<u64>, int), Seq<char>>
        decreases self.t.len() - pos, 4int,
    {
        match self.ternary(pos) {
            Err(e) => Err(e),
            Ok((v, p)) => if self.at(p, TokView::Comma) && p > pos {
                self.args(p + 1, acc.push(v))
            } else if self.at(p, TokView::RParen) {
                Ok((acc.push(v), p + 1))
            } else {
                Err("expected ',' or ')'"@)
            },
        }
    }
}

/// The value of an expression.
pub open spec fn evaluated(h: Answers, env: Map<Seq<char>, u64>, s: Seq<char>) -> Result<u64, Seq<char>> {
    match lexed(h, s) {
        Err(e) => Err(e),
        Ok(t) => match (Scope { h, env, t }).ternary(0) {
            Err(e) => Err(e),
            Ok((v, p)) => if p == t.len() {
                Ok(v)
            } else {
                Err("trailing tokens in expression"@)
            },
        },
    }
}

/// The spelling of a comparison.
pub fn rel_name(r: Rel) -> (s: String)
    ensures
        s@ == rel_text(r),
{
    match r {
        Rel::Lt => "<".to_owned(),
        Rel::Gt => ">".to_owned(),
        Rel::Le => "<=".to_owned(),
        Rel::Ge => ">=".to_owned(),
        Rel::Eq => "==".to_owned(),
        Rel::Ne => "!=".to_owned(),
    }
}

/// A token as a diagnostic names it.
pub fn token_name<F: Fn(Ask) -> Reply>(t: &Tok, host: &Host<F>) -> (s: String)
    ensures
        s@ == token_text(host.answers(), t@),
{
    match t {
        Tok::Num(x) => concat3("Num(", &host.shown(Style::Debug, *x), ")"),
        Tok::Ident(s) => concat3("Ident(\"", s, "\")"),
        Tok::Op(c) => {
            let mut mid = String::new();
            mid.push(*c);
            assert(mid@ =~= seq![*c]);
            concat3("Op('", &mid, "')")
        },
        Tok::Rel(r) => concat3("Cmp(\"", &rel_name(*r), "\")"),
        Tok::Logic(or) => if *or {
            concat3("Logic(\"", "||", "\")")
        } else {
            concat3("Logic(\"", "&&", "\")")
        },
        Tok::Not => "Not".to_owned(),
        Tok::Question => "Question".to_owned(),
        Tok::Colon => "Colon".to_owned(),
        Tok::LParen => "LParen".to_owned(),
        Tok::RParen => "RParen".to_owned(),
        Tok::Comma => "Comma".to_owned(),
    }
}

fn function1_of(name: &str) -> (r: Option<Op1>)
    ensures
        r == function1(name@),
{
    if same(name, "sin") {
        Some(Op1::Sin)
    } else if same(name, "cos") {
        Some(Op1::Cos)
    } else if same(name, "tan") {
        Some(Op1::Tan)
    } else if same(name, "asin") {
        Some(Op1::Asin)
    } else if same(name, "acos") {
        Some(Op1::Acos)
    } else if same(name, "atan") {
        Some(Op1::Atan)
    } else if same(name, "exp") {
        Some(Op1::Exp)
    } else if same(name, "ln") {
        Some(Op1::Ln)
    } else if same(name, "log") || same(name, "log10") {
        Some(Op1::Log10)
    } else if same(name, "sqrt") {
        Some(Op1::Sqrt)
    } else if same(name, "abs") {
        Some(Op1::Abs)
    } else {
        None
    }
}

fn function2_of(name: &str) -> (r: Option<Op2>)
    ensures
        r == function2(name@),
{
    if same(name, "pow") || same(name, "pwr") {
        Some(Op2::Pow)
    } else if same(name, "min") {
        Some(Op2::Min)
    } else if same(name, "max") {
        Some(Op2::Max)
    } else {
        None
    }
}

pub open spec fn value_view(r: Result<u64, String>) -> Result<u64, Seq<char>> {
    match r {
        Ok(v) => Ok(v),
        Err(e) => Err(e@),
    }
}

fn call<F: Fn(Ask) -> Reply>(name: &str, a: &Vec<u64>, host: &Host<F>) -> (r: Result<u64, String>)
    ensures
        value_view(r) == called(host.answers(), name@, a@),
{
    if same(name, "if") && a.len() == 3 {
        return Ok(
            if host.is_true(a[0]) {
                a[1]
            } else {
                a[2]
            },
        );
    }
    if let Some(f) = function1_of(name) {
        if a.len() == 1 {
            return Ok(host.apply1(f, a[0]));
        }
        return Err(crate::text::concat2(name, " expects 1 arg"));
    }
    if let Some(f) = function2_of(name) {
        if a.len() == 2 {
            return Ok(host.apply2(f, a[0], a[1]));
        }
    }
    if same(name, "agauss") || same(name, "gauss") || same(name, "aunif") || same(name, "unif")
        || same(name, "limit") {
        if a.len() >= 1 {
            return Ok(a[0]);
        }
        return Err(crate::text::concat2(name, " expects at least 1 args"));
    }
    Err(concat3("unknown function '", name, "'"))
}

fn binding_of(t: &Tok) -> (r: Option<(u8, u8)>)
    ensures
        (r is Some) == (binding(t@) is Some),
        r matches Some(b) ==> (b.0 as int, b.1 as int) == binding(t@)->0,
{
    match t {
        Tok::Logic(or) => if *or {
            Some((1, 2))
        } else {
            Some((3, 4))
        },
        Tok::Rel(_) => Some((5, 6)),
        Tok::Op(c) => if *c == '+' || *c == '-' {
            Some((7, 8))
        } else if *c == '*' || *c == '/' {
            Some((9, 10))
        } else if *c == '^' {
            Some((14, 13))
        } else {
            None
        },
        _ => None,
    }
}

fn combine<F: Fn(Ask) -> Reply>(t: &Tok, a: u64, b: u64, host: &Host<F>) -> (r: u64)
    ensures
        r == combined(host.answers(), t@, a, b),
{
    match t {
        Tok::Logic(or) => {
            let x: bool = host.is_true(a);
            let y: bool = host.is_true(b);
            truth_number(
                if *or {
                    x || y
                } else {
                    x && y
                },
            )
        },
        Tok::Rel(rel) => truth_number(host.compares(*rel, a, b)),
        Tok::Op(c) => if *c == '+' {
            host.apply2(Op2::Add, a, b)
        } else if *c == '-' {
            host.apply2(Op2::Sub, a, b)
        } else if *c == '*' {
            host.apply2(Op2::Mul, a, b)
        } else if *c == '/' {
            host.apply2(Op2::Div, a, b)
        } else {
            host.apply2(Op2::Pow, a, b)
        },
        _ => a,
    }
}

/// The evaluator: the tokens, the parameters and the host.
struct P<'a, F: Fn(Ask) -> Reply> {
    t: &'a Vec<Tok>,
    env: &'a Table,
    host: &'a Host<F>,
}

pub open spec fn parsed_view(r: Result<(u64, usize), String>) -> Parsed {
    match r {
        Ok((v, p)) => Ok((v, p as int)),
        Err(e) => Err(e@),
    }
}

spec fn args_view(r: Result<(Vec<u64>, usize), String>) -> Result<(Seq<u64>, int), Seq<char>> {
    match r {
        Ok((v, p)) => Ok((v@, p as int)),
        Err(e) => Err(e@),
    }
}

/// What stands at a position.
enum Mark {
    Question,
    Colon,
    LParen,
    RParen,
    Comma,
}

impl Mark {
    spec fn tok(self) -> TokView {
        match self {
            Mark::Question => TokView::Question,
            Mark::Colon => TokView::Colon,
            Mark::LParen => TokView::LParen,
            Mark::RParen => TokView::RParen,
            Mark::Comma => TokView::Comma,
        }
    }
}

fn stands_at(t: &Vec<Tok>, pos: usize, m: Mark) -> (r: bool)
    ensures
        r == (0 <= pos < tok_views(t@).len() && tok_views(t@)[pos as int] == m.tok()),
        r ==> pos < t.len(),
{
    if pos >= t.len() {
        return false;
    }
    assert(tok_views(t@)[pos as int] == t@[pos as int]@);
    match (&t[pos], m) {
        (Tok::Question, Mark::Question) => true,
        (Tok::Colon, Mark::Colon) => true,
        (Tok::LParen, Mark::LParen) => true,
        (Tok::RParen, Mark::RParen) => true,
        (Tok::Comma, Mark::Comma) => true,
        _ => false,
    }
}

impl<'a, F: Fn(Ask) -> Reply> P<'a, F> {
    spec fn scope(&self) -> Scope {
        Scope { h: self.host.answers(), env: entries(*self.env), t: tok_views(self.t@) }
    }

    fn ternary(&self, pos: usize) -> (r: Result<(u64, usize), String>)
        requires
            pos <= self.t@.len(),
        ensures
            parsed_view(r) == self.scope().ternary(pos as int),
            r matches Ok((_, p)) ==> pos < p <= self.t@.len(),
        decreases self.t@.len() - pos, 3int,
    {
        let (c, p) = match self.expr(pos, 0) {
            Err(e) => {
                return Err(e);
            },
            Ok(x) => x,
        };
        if stands_at(self.t, p, Mark::Question) {
            let (a, q) = match self.ternary(p + 1) {
                Err(e) => {
                    return Err(e);
                },
                Ok(x) => x,
            };
            if stands_at(self.t, q, Mark::Colon) {
                match self.ternary(q + 1) {
                    Err(e) => Err(e),
                    Ok((b, r)) => Ok(
                        (
                            if self.host.is_true(c) {
                                a
                            } else {
                                b
                            },
                            r,
                        ),
                    ),
                }
            } else {
                Err("expected ':' in ternary expression".to_owned())
            }
        } else {
            Ok((c, p))
        }
    }

    fn expr(&self, pos: usize, min_bp: u8) -> (r: Result<(u64, usize), String>)
        requires
            pos <= self.t@.len(),
        ensures
            parsed_view(r) == self.scope().expr(pos as int, min_bp as int),
            r matches Ok((_, p)) ==> pos < p <= self.t@.len(),
        decreases self.t@.len() - pos, 2int,
    {
        let (v, p) = match self.atom(pos) {
            Err(e) => {
                return Err(e);
            },
            Ok(x) => x,
        };
        let mut lhs: u64 = v;
        let mut at: usize = p;
        while at < self.t.len()
            invariant
                pos < at <= self.t@.len(),
                self.scope().climb(lhs, at as int, min_bp as int) == self.scope().expr(
                    pos as int,
                    min_bp as int,
                ),
            decreases self.t@.len() - at,
        {
            assert(tok_views(self.t@)[at as int] == self.t@[at as int]@);
            let op = &self.t[at];
            let bp = match binding_of(op) {
                Some(b) => b,
                None => {
                    return Ok((lhs, at));
                },
            };
            if bp.0 < min_bp {
                return Ok((lhs, at));
            }
            let (rhs, q) = match self.expr(at + 1, bp.1) {
                Err(e) => {
                    return Err(e);
                },
                Ok(x) => x,
            };
            lhs = combine(op, lhs, rhs, self.host);
            at = q;
        }
        Ok((lhs, at))
    }

    fn atom(&self, pos: usize) -> (r: Result<(u64, usize), String>)
        requires
            pos <= self.t@.len(),
        ensures
            parsed_view(r) == self.scope().atom(pos as int),
            r matches Ok((_, p)) ==> pos < p <= self.t@.len(),
        decreases self.t@.len() - pos, 0int,
    {
        if pos >= self.t.len() {
            return Err("unexpected end of expression".to_owned());
        }
        assert(tok_views(self.t@)[pos as int] == self.t@[pos as int]@);
        match &self.t[pos] {
            Tok::Num(n) => Ok((*n, pos + 1)),
            Tok::Op(c) => {
                if *c == '-' {
                    match self.expr(pos + 1, 13) {
                        Err(e) => Err(e),
                        Ok((v, p)) => Ok((self.host.apply1(Op1::Neg, v), p)),
                    }
                } else if *c == '+' {
                    self.expr(pos + 1, 13)
                } else {
                    Err(crate::text::concat2("unexpected token ", &token_name(&self.t[pos], self.host)))
                }
            },
            Tok::Not => match self.expr(pos + 1, 13) {
                Err(e) => Err(e),
                Ok((v, p)) => Ok((truth_number(!self.host.is_true(v)), p)),
            },
            Tok::LParen => match self.ternary(pos + 1) {
                Err(e) => Err(e),
                Ok((v, p)) => if stands_at(self.t, p, Mark::RParen) {
                    Ok((v, p + 1))
                } else {
                    Err("expected ')'".to_owned())
                },
            },
            Tok::Ident(name) => {
                if stands_at(self.t, pos + 1, Mark::LParen) {
                    let (a, p) = if pos + 2 < self.t.len() && stands_at(self.t, pos + 2, Mark::RParen) {
                        let none: Vec<u64> = Vec::new();
                        (none, pos + 3)
                    } else {
                        match self.args(pos + 2) {
                            Err(e) => {
                                return Err(e);
                            },
                            Ok(x) => x,
                        }
                    };
                    match call(&to_lower(name), &a, self.host) {
                        Err(e) => Err(e),
                        Ok(v) => Ok((v, p)),
                    }
                } else {
                    match table_get(self.env, &to_lower(name)) {
                        Some(v) => Ok((v, pos + 1)),
                        None => Err(concat3("unknown parameter '", name, "'")),
                    }
                }
            },
            _ => Err(crate::text::concat2("unexpected token ", &token_name(&self.t[pos], self.host))),
        }
    }

    fn args(&self, start: usize) -> (r: Result<(Vec<u64>, usize), String>)
        requires
            start <= self.t@.len(),
        ensures
            args_view(r) == self.scope().args(start as int, seq![]),
            r matches Ok((_, p)) ==> start < p <= self.t@.len(),
        decreases self.t@.len() - start, 4int,
    {
        let mut acc: Vec<u64> = Vec::new();
        let mut pos: usize = start;
        assert(acc@ =~= seq![]);
        loop
            invariant
                start <= pos <= self.t@.len(),
                self.scope().args(pos as int, acc@) == self.scope().args(start as int, seq![]),
            decreases self.t@.len() - pos,
        {
            let (v, p) = match self.ternary(pos) {
                Err(e) => {
                    return Err(e);
                },
                Ok(x) => x,
            };
            acc.push(v);
            if stands_at(self.t, p, Mark::Comma) {
                pos = p + 1;
            } else if stands_at(self.t, p, Mark::RParen) {
                return Ok((acc, p + 1));
            } else {
                return Err("expected ',' or ')'".to_owned());
            }
        }
    }
}

/// Evaluate an arithmetic expression against `env`.
pub fn eval_expr<F: Fn(Ask) -> Reply>(s: &str, env: &Table, host: &Host<F>) -> (r: Result<u64, String>)
    ensures
        value_view(r) == evaluated(host.answers(), entries(*env), s@),
{
    let t = match lex(s, host) {
        Err(e) => {
            return Err(e);
        },
        Ok(t) => t,
    };
    let p = P { t: &t, env, host };
    match p.ternary(0) {
        Err(e) => Err(e),
        Ok((v, pos)) => if pos == t.len() {
            Ok(v)
        } else {
            Err("trailing tokens in expression".to_owned())
        },
    }
}

// ---------------------------------------------------------------------------
// Values.
// ---------------------------------------------------------------------------
/// A text inside one layer of braces or single quotes, else the text itself.
pub open spec fn unwrapped(s: Seq<char>) -> Seq<char> {
    if s.len() >= 2 && ((s[0] == '{' && s.last() == '}') || (s[0] == '\'' && s.last() == '\'')) {
        s.subrange(1, s.len() - 1)
    } else {
        s
    }
}

/// Strip a single layer of expression delimiters: braces `{...}` or single
/// quotes `'...'`.
pub fn unwrap_expr(tok: &str) -> (r: &str)
    ensures
        r@ == unwrapped(tok@),
{
    let v = chars_of(tok);
    let n: usize = v.len();
    if n >= 2 && ((v[0] == '{' && v[n - 1] == '}') || (v[0] == '\'' && v[n - 1] == '\'')) {
        tok.substring_char(1, n - 1)
    } else {
        tok
    }
}

/// The number a value token denotes: a plain engineering number or an
/// expression, bare or delimited.
pub open spec fn resolved(h: Answers, env: Map<Seq<char>, u64>, tok: Seq<char>) -> Option<u64> {
    match evaluated(h, env, unwrapped(trim(tok))) {
        Ok(v) => Some(v),
        Err(_) => None,
    }
}

/// Resolve a value token to a number: a plain engineering number, or an
/// arithmetic expression (optionally wrapped in `{...}`) over `env`.
pub fn resolve_value<F: Fn(Ask) -> Reply>(tok: &str, env: &Table, host: &Host<F>) -> (r: Option<u64>)
    ensures
        r == resolved(host.answers(), entries(*env), tok@),
{
    let t = trimmed(tok);
    match eval_expr(unwrap_expr(&t), env, host) {
        Ok(v) => Some(v),
        Err(_) => None,
    }
}


/// A leading `<alpha>=` keyword dropped.
pub open spec fn without_keyword(s: Seq<char>) -> Seq<char> {
    match halves(s, '=') {
        Some((lhs, rhs)) => if trim(lhs).len() > 0 && all_alpha(trim(lhs)) {
            trim_start(rhs)
        } else {
            s
        },
        None => s,
    }
}

pub open spec fn all_alpha(s: Seq<char>) -> bool {
    forall|i: int| 0 <= i < s.len() ==> is_alpha(#[trigger] s[i])
}

/// Where the brace closes that leaves `depth` open before `s[i..]`; the length
/// of the text if it does not.
pub open spec fn brace_end(s: Seq<char>, i: int, depth: int) -> int
    decreases s.len() - i,
{
    if i < 0 || i >= s.len() {
        s.len() as int
    } else if s[i] == '{' {
        brace_end(s, i + 1, depth + 1)
    } else if s[i] == '}' {
        if depth == 1 {
            i
        } else {
            brace_end(s, i + 1, depth - 1)
        }
    } else {
        brace_end(s, i + 1, depth)
    }
}

/// The value expression of an element value: what a delimiter encloses, else
/// the first word.
pub open spec fn value_body(raw: Seq<char>) -> Seq<char> {
    let s = without_keyword(trim(raw));
    if s.len() > 0 && s[0] == '{' {
        s.skip(1).take(brace_end(s.skip(1), 0, 1))
    } else if s.len() > 0 && s[0] == '\'' {
        s.skip(1).take(index_of(s.skip(1), '\''))
    } else if words(s).len() > 0 {
        words(s)[0]
    } else {
        s
    }
}

fn alphabetic(s: &str) -> (r: bool)
    ensures
        r == all_alpha(s@),
{
    let v = chars_of(s);
    for i in 0..v.len()
        invariant
            v@ == s@,
            forall|j: int| 0 <= j < i ==> is_alpha(#[trigger] s@[j]),
    {
        if !alpha(v[i]) {
            assert(!is_alpha(s@[i as int]));
            return false;
        }
    }
    true
}

fn find_brace_end(v: &Vec<char>) -> (r: usize)
    ensures
        r == brace_end(v@, 0, 1),
        r <= v@.len(),
{
    let mut depth: u128 = 1;
    let mut i: usize = 0;
    while i < v.len()
        invariant
            i <= v@.len(),
            1 <= depth <= i + 1,
            brace_end(v@, i as int, depth as int) == brace_end(v@, 0, 1),
        decreases v@.len() - i,
    {
        if v[i] == '{' {
            depth = depth + 1;
        } else if v[i] == '}' {
            if depth == 1 {
                return i;
            }
            depth = depth - 1;
        }
        i += 1;
    }
    i
}

/// Extract the value *expression* from an element value string that may carry a
/// leading keyword (`r=`, `c =`) and trailing parameters (`tc1=...`): strip the
/// keyword, then return the body of the first balanced `{...}` or `'...'` block,
/// else the first whitespace-delimited token. So `r = {f(V)} tc1=0` yields
/// `f(V)`, `r={1k}` yields `1k`, and `1k tc1=0` yields `1k`.
pub fn value_expr(raw: &str) -> (r: String)
    ensures
        r@ == value_body(raw@),
{
    let t = trimmed(raw);
    let s: String = match split_once(&t, '=') {
        Some((lhs, rhs)) => {
            let l = trimmed(&lhs);
            if l.as_str().unicode_len() > 0 && alphabetic(&l) {
                trimmed_start(&rhs)
            } else {
                t
            }
        },
        None => t,
    };
    assert(s@ == without_keyword(trim(raw@)));
    let v = chars_of(&s);
    if v.len() > 0 && v[0] == '{' {
        let rest = chars_of(&crate::text::skip_chars(&s, 1));
        let e: usize = find_brace_end(&rest);
        let r = slice_text(&rest, 0, e);
        assert(r@ =~= rest@.take(e as int));
        return r;
    }
    if v.len() > 0 && v[0] == '\'' {
        let rest = chars_of(&crate::text::skip_chars(&s, 1));
        let e: usize = find_char(&rest, '\'');
        let r = slice_text(&rest, 0, e);
        assert(r@ =~= rest@.take(e as int));
        return r;
    }
    let w = split_words(&s);
    assert(texts(w@).len() == w@.len());
    if w.len() > 0 {
        assert(texts(w@)[0] == w@[0]@);
        w[0].clone()
    } else {
        s
    }
}

} // verus!

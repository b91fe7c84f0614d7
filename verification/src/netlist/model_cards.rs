//! `.model` card parsing and the binned model library (`nch.1`, `nch.2`, ...:
//! bin selection by instance geometry, half-open windows).
use crate::netlist::expr::{resolve_value, resolved};
use crate::netlist::preprocess::{line_views, Line, LineView};
use crate::numerics::{compares, Answers, Ask, Host, Rel, Reply};
use crate::table::{entries, table_get, table_insert, table_new, Table};
use crate::text::{
    chars_of, digit, halves, has_char, holds_char, is_digit, is_space, join, join_texts, lower, same,
    slice_text, space, split_once, string_of, texts, to_lower,
};
use vstd::prelude::*;

verus! {

/// The geometric validity window of a binned model card.
#[derive(Clone, Copy, Debug, PartialEq, Eq, Structural)]
pub struct BinRange {
    pub lmin: u64,
    pub lmax: u64,
    pub wmin: u64,
    pub wmax: u64,
}

impl BinRange {
    /// Length and width fall in the window, which is half-open at the top.
    pub open spec fn covers(self, h: Answers, l: u64, w: u64) -> bool {
        &&& compares(h, Rel::Ge, l, self.lmin)
        &&& compares(h, Rel::Lt, l, self.lmax)
        &&& compares(h, Rel::Ge, w, self.wmin)
        &&& compares(h, Rel::Lt, w, self.wmax)
    }

    pub fn contains<F: Fn(Ask) -> Reply>(&self, l: u64, w: u64, host: &Host<F>) -> (r: bool)
        ensures
            r == self.covers(host.answers(), l, w),
    {
        host.compares(Rel::Ge, l, self.lmin) && host.compares(Rel::Lt, l, self.lmax) && host.compares(
            Rel::Ge,
            w,
            self.wmin,
        ) && host.compares(Rel::Lt, w, self.wmax)
    }
}

/// A parsed `.model` card: its type keyword (e.g. `NMOS`, `PMOS`, `NPN`, `D`),
/// its numeric parameters, and an optional binning window (set when the card
/// declares `lmin/lmax/wmin/wmax`).
#[derive(Debug)]
pub struct ModelCard {
    pub mtype: String,
    pub params: Vec<(String, u64)>,
    pub bin: Option<BinRange>,
}

pub struct CardView {
    pub mtype: Seq<char>,
    pub params: Seq<(Seq<char>, u64)>,
    pub bin: Option<BinRange>,
}

pub open spec fn values_text(v: Seq<(String, u64)>) -> Seq<(Seq<char>, u64)> {
    v.map_values(|p: (String, u64)| (p.0@, p.1))
}

impl View for ModelCard {
    type V = CardView;

    open spec fn view(&self) -> CardView {
        CardView { mtype: self.mtype@, params: values_text(self.params@), bin: self.bin }
    }
}

pub open spec fn card_views(v: Seq<ModelCard>) -> Seq<CardView> {
    v.map_values(|c: ModelCard| c@)
}

/// The value of the first parameter with the given lower-case key.
pub open spec fn param_value(params: Seq<(Seq<char>, u64)>, key: Seq<char>, i: int) -> Option<u64>
    decreases params.len() - i,
{
    if i < 0 || i >= params.len() {
        None
    } else if lower(params[i].0) == key {
        Some(params[i].1)
    } else {
        param_value(params, key, i + 1)
    }
}

pub fn find_param(params: &Vec<(String, u64)>, key: &str) -> (r: Option<u64>)
    ensures
        r == param_value(values_text(params@), key@, 0),
{
    let ghost p = values_text(params@);
    for i in 0..params.len()
        invariant
            p == values_text(params@),
            param_value(p, key@, i as int) == param_value(p, key@, 0),
    {
        assert(p[i as int] == (params@[i as int].0@, params@[i as int].1));
        if same(&to_lower(&params[i].0), key) {
            return Some(params[i].1);
        }
    }
    None
}

// ---------------------------------------------------------------------------
// Names.
// ---------------------------------------------------------------------------
/// Where a character last occurs before `i`; -1 if it does not.
pub open spec fn last_index(s: Seq<char>, c: char, i: int) -> int
    decreases i,
{
    if i <= 0 || i > s.len() {
        -1
    } else if s[i - 1] == c {
        i - 1
    } else {
        last_index(s, c, i - 1)
    }
}

pub open spec fn all_digits(s: Seq<char>, from: int) -> bool {
    forall|i: int| from <= i < s.len() ==> is_digit(#[trigger] s[i])
}

/// A model name without a trailing numeric bin suffix.
pub open spec fn base_name(name: Seq<char>) -> Seq<char> {
    let dot = last_index(name, '.', name.len() as int);
    if dot >= 0 && dot + 1 < name.len() && all_digits(name, dot + 1) {
        name.take(dot)
    } else {
        name
    }
}

/// Strip a trailing numeric bin suffix (`nch.1` is `nch`); names without a
/// `.<digits>` tail are returned unchanged.
pub fn model_base_name(name: &str) -> (r: String)
    ensures
        r@ == base_name(name@),
{
    let v = chars_of(name);
    let n: usize = v.len();
    let mut i: usize = n;
    while i > 0 && v[i - 1] != '.'
        invariant
            v@ == name@,
            n == v@.len(),
            i <= n,
            last_index(name@, '.', i as int) == last_index(name@, '.', n as int),
            forall|j: int| i <= j < n ==> name@[j] != '.',
        decreases i,
    {
        i -= 1;
    }
    if i == 0 {
        return name.to_owned();
    }
    let dot: usize = i - 1;
    if dot + 1 >= n {
        return name.to_owned();
    }
    let mut k: usize = dot + 1;
    while k < n
        invariant
            v@ == name@,
            n == v@.len(),
            dot < k <= n,
            dot + 1 < n,
            dot as int == last_index(name@, '.', n as int),
            forall|j: int| dot < j < k ==> is_digit(#[trigger] name@[j]),
        decreases n - k,
    {
        if !digit(v[k]) {
            assert(!is_digit(name@[k as int]));
            assert(!all_digits(name@, dot + 1));
            return name.to_owned();
        }
        k += 1;
    }
    let r = slice_text(&v, 0, dot);
    assert(r@ =~= name@.take(dot as int));
    r
}

// ---------------------------------------------------------------------------
// Card tokens.
// ---------------------------------------------------------------------------
/// The tokens of `s[i..]` of a card, with `cur` already read, `brace` braces
/// open, and inside a quotation or not.
pub open spec fn card_from(s: Seq<char>, i: int, cur: Seq<char>, brace: int, quoted: bool) -> Seq<Seq<char>>
    decreases s.len() - i,
{
    if i < 0 || i >= s.len() {
        if cur.len() == 0 {
            seq![]
        } else {
            seq![cur]
        }
    } else {
        let c = s[i];
        if quoted {
            card_from(s, i + 1, cur.push(c), brace, c != '\'')
        } else if brace > 0 {
            card_from(
                s,
                i + 1,
                cur.push(c),
                if c == '{' {
                    brace + 1
                } else if c == '}' {
                    brace - 1
                } else {
                    brace
                },
                false,
            )
        } else if c == '\'' {
            card_from(s, i + 1, cur.push(c), brace, true)
        } else if c == '{' {
            card_from(s, i + 1, cur.push(c), brace + 1, false)
        } else if is_space(c) || c == '(' || c == ')' || c == ',' {
            if cur.len() == 0 {
                card_from(s, i + 1, cur, brace, false)
            } else {
                seq![cur] + card_from(s, i + 1, seq![], brace, false)
            }
        } else {
            card_from(s, i + 1, cur.push(c), brace, false)
        }
    }
}

/// The tokens of a card: blanks, parentheses and commas separate, except inside
/// a `{...}` or `'...'` expression.
pub open spec fn card_tokens(s: Seq<char>) -> Seq<Seq<char>> {
    card_from(s, 0, seq![], 0, false)
}

/// Tokenise a `.model` card body. Whitespace, parentheses, and commas all
/// separate tokens (so both the `nmos(p=v, ...)` and the `nmos p=v ...` forms
/// parse) -- except inside a `{...}` or `'...'` value expression, where they are
/// part of the expression.
pub fn split_card_tokens(s: &str) -> (r: Vec<String>)
    ensures
        texts(r@) == card_tokens(s@),
{
    let v = chars_of(s);
    let mut out: Vec<String> = Vec::new();
    let mut cur: Vec<char> = Vec::new();
    let mut brace: i128 = 0;
    let mut quoted: bool = false;
    assert(texts(out@) =~= seq![]);
    for i in 0..v.len()
        invariant
            v@ == s@,
            0 <= brace <= i,
            texts(out@) + card_from(s@, i as int, cur@, brace as int, quoted) == card_tokens(s@),
    {
        let c = v[i];
        if quoted {
            cur.push(c);
            if c == '\'' {
                quoted = false;
            }
        } else if brace > 0 {
            if c == '{' {
                brace = brace + 1;
            } else if c == '}' {
                brace = brace - 1;
            }
            cur.push(c);
        } else if c == '\'' {
            quoted = true;
            cur.push(c);
        } else if c == '{' {
            brace = brace + 1;
            cur.push(c);
        } else if space(c) || c == '(' || c == ')' || c == ',' {
            if cur.len() > 0 {
                let ghost before = texts(out@);
                let ghost word = cur@;
                out.push(string_of(&cur));
                cur = Vec::new();
                assert(texts(out@) =~= before.push(word));
                assert(cur@ =~= seq![]);
                assert(texts(out@) + card_from(s@, i + 1, seq![], brace as int, false) =~= before + (
                seq![word] + card_from(s@, i + 1, seq![], brace as int, false)));
            }
        } else {
            cur.push(c);
        }
    }
    if cur.len() > 0 {
        let ghost before = texts(out@);
        out.push(string_of(&cur));
        assert(texts(out@) =~= before + seq![cur@]);
    } else {
        assert(texts(out@) =~= texts(out@) + seq![]);
    }
    out
}

// ---------------------------------------------------------------------------
// Cards.
// ---------------------------------------------------------------------------
/// The parameters that the tokens `toks[i..]` bind.
pub open spec fn bound_params(h: Answers, env: Map<Seq<char>, u64>, toks: Seq<Seq<char>>, i: int) -> Seq<
    (Seq<char>, u64),
>
    decreases toks.len() - i,
{
    if i < 0 || i >= toks.len() {
        seq![]
    } else {
        let rest = bound_params(h, env, toks, i + 1);
        match halves(toks[i], '=') {
            None => rest,
            Some((k, v)) => match resolved(h, env, v) {
                None => rest,
                Some(x) => seq![(k, x)] + rest,
            },
        }
    }
}

pub fn bound_params_of<F: Fn(Ask) -> Reply>(toks: &Vec<String>, from: usize, env: &Table, host: &Host<F>) -> (r: Vec<
    (String, u64),
>)
    requires
        from <= toks@.len(),
    ensures
        values_text(r@) == bound_params(host.answers(), entries(*env), texts(toks@), from as int),
{
    let mut out: Vec<(String, u64)> = Vec::new();
    let ghost t = texts(toks@);
    let ghost h = host.answers();
    let ghost e = entries(*env);
    let mut i: usize = from;
    assert(values_text(out@) + bound_params(h, e, t, from as int) =~= bound_params(h, e, t, from as int));
    while i < toks.len()
        invariant
            from <= i <= toks@.len(),
            t == texts(toks@),
            h == host.answers(),
            e == entries(*env),
            values_text(out@) + bound_params(h, e, t, i as int) == bound_params(h, e, t, from as int),
        decreases toks@.len() - i,
    {
        let ghost before = values_text(out@);
        assert(t[i as int] == toks@[i as int]@);
        if let Some((k, v)) = split_once(&toks[i], '=') {
            if let Some(x) = resolve_value(&v, env, host) {
                let ghost item = (k@, x);
                out.push((k, x));
                proof {
                    let rest = bound_params(h, e, t, i + 1);
                    assert(values_text(out@) =~= before.push(item));
                    assert(before.push(item) + rest =~= before + (seq![item] + rest));
                }
            }
        }
        i += 1;
    }
    assert(values_text(out@) + seq![] =~= values_text(out@));
    out
}

/// The first token from `i` on without a `=`, or nothing.
pub open spec fn first_plain(toks: Seq<Seq<char>>, i: int) -> Option<Seq<char>>
    decreases toks.len() - i,
{
    if i < 0 || i >= toks.len() {
        None
    } else if !has_char(toks[i], '=') {
        Some(toks[i])
    } else {
        first_plain(toks, i + 1)
    }
}

pub fn find_plain(toks: &Vec<String>, from: usize) -> (r: Option<String>)
    ensures
        crate::circuit::text_opt(r) == first_plain(texts(toks@), from as int),
{
    let ghost t = texts(toks@);
    let mut i: usize = from;
    while i < toks.len()
        invariant
            from <= i,
            t == texts(toks@),
            first_plain(t, i as int) == first_plain(t, from as int),
        decreases toks@.len() - i,
    {
        assert(t[i as int] == toks@[i as int]@);
        if !holds_char(&toks[i], '=') {
            return Some(toks[i].clone());
        }
        i += 1;
    }
    None
}

pub open spec fn is_bin_key(k: Seq<char>) -> bool {
    lower(k) == "lmin"@ || lower(k) == "lmax"@ || lower(k) == "wmin"@ || lower(k) == "wmax"@
}

/// The parameters without the binning bounds.
pub open spec fn device_params(params: Seq<(Seq<char>, u64)>) -> Seq<(Seq<char>, u64)> {
    params.filter(|p: (Seq<char>, u64)| !is_bin_key(p.0))
}

/// The window of a card that declares all four bounds.
pub open spec fn bin_of(params: Seq<(Seq<char>, u64)>) -> Option<BinRange> {
    match (
        param_value(params, "lmin"@, 0),
        param_value(params, "lmax"@, 0),
        param_value(params, "wmin"@, 0),
        param_value(params, "wmax"@, 0),
    ) {
        (Some(lmin), Some(lmax), Some(wmin), Some(wmax)) => Some(BinRange { lmin, lmax, wmin, wmax }),
        _ => None,
    }
}

/// The name and card of a `.model` line.
pub open spec fn card_of(h: Answers, env: Map<Seq<char>, u64>, l: LineView) -> Option<
    (Seq<char>, CardView),
> {
    let toks = card_tokens(join(l.tokens, " "@));
    if toks.len() < 2 {
        None
    } else {
        let all = bound_params(h, env, toks, 0);
        Some(
            (
                base_name(lower(toks[1])),
                CardView {
                    mtype: match first_plain(toks, 2) {
                        Some(m) => m,
                        None => seq![],
                    },
                    params: device_params(all),
                    bin: bin_of(all),
                },
            ),
        )
    }
}

pub open spec fn with_card(
    lib: Map<Seq<char>, Seq<CardView>>,
    name: Seq<char>,
    card: CardView,
) -> Map<Seq<char>, Seq<CardView>> {
    if lib.contains_key(name) {
        lib.insert(name, lib[name].push(card))
    } else {
        lib.insert(name, seq![card])
    }
}

/// The model library of the first `i` lines: base name to cards, in order.
pub open spec fn library(h: Answers, env: Map<Seq<char>, u64>, lines: Seq<LineView>, i: int) -> Map<
    Seq<char>,
    Seq<CardView>,
>
    decreases i,
{
    if i <= 0 {
        Map::empty()
    } else {
        let before = library(h, env, lines, i - 1);
        let l = lines[i - 1];
        if lower(l.tokens[0]) == ".model"@ {
            match card_of(h, env, l) {
                Some((name, card)) => with_card(before, name, card),
                None => before,
            }
        } else {
            before
        }
    }
}

/// The card that serves an instance: the only one, else the first whose window
/// covers the geometry, else the first without a window, else the first.
pub open spec fn chosen(h: Answers, cards: Seq<CardView>, l: Option<u64>, w: Option<u64>) -> int {
    if cards.len() == 1 {
        0
    } else {
        let hit = match (l, w) {
            (Some(l), Some(w)) => first_bin(h, cards, l, w, 0),
            _ => cards.len() as int,
        };
        if hit < cards.len() {
            hit
        } else {
            let open = first_open(cards, 0);
            if open < cards.len() {
                open
            } else {
                0
            }
        }
    }
}

pub open spec fn first_bin(h: Answers, cards: Seq<CardView>, l: u64, w: u64, i: int) -> int
    decreases cards.len() - i,
{
    if i < 0 || i >= cards.len() {
        cards.len() as int
    } else if cards[i].bin matches Some(b) && b.covers(h, l, w) {
        i
    } else {
        first_bin(h, cards, l, w, i + 1)
    }
}

pub open spec fn first_open(cards: Seq<CardView>, i: int) -> int
    decreases cards.len() - i,
{
    if i < 0 || i >= cards.len() {
        cards.len() as int
    } else if cards[i].bin is None {
        i
    } else {
        first_open(cards, i + 1)
    }
}

/// A model library: base model name to its card(s). A binned model (`nch.1`,
/// `nch.2`, ...) has several cards, selected by the instance geometry.
pub struct ModelLib {
    index: Table,
    bins: Vec<Vec<ModelCard>>,
}

impl View for ModelLib {
    type V = Map<Seq<char>, Seq<CardView>>;

    closed spec fn view(&self) -> Map<Seq<char>, Seq<CardView>> {
        Map::new(
            |k: Seq<char>| entries(self.index).contains_key(k),
            |k: Seq<char>| card_views(self.bins@[entries(self.index)[k] as int]@),
        )
    }
}

impl ModelLib {
    pub closed spec fn wf(&self) -> bool {
        &&& forall|k: Seq<char>| #[trigger]
            entries(self.index).contains_key(k) ==> entries(self.index)[k] < self.bins@.len()
        &&& forall|a: Seq<char>, b: Seq<char>|
            #![trigger entries(self.index).contains_key(a), entries(self.index).contains_key(b)]
            entries(self.index).contains_key(a) && entries(self.index).contains_key(b) && entries(
                self.index,
            )[a] == entries(self.index)[b] ==> a == b
        &&& forall|i: int| 0 <= i < self.bins@.len() ==> (#[trigger] self.bins@[i])@.len() > 0
    }

    pub fn new() -> (r: ModelLib)
        ensures
            r.wf(),
            r@ == Map::<Seq<char>, Seq<CardView>>::empty(),
    {
        let r = ModelLib { index: table_new(), bins: Vec::new() };
        assert(r@ =~= Map::<Seq<char>, Seq<CardView>>::empty());
        r
    }

    fn insert(&mut self, name: String, card: ModelCard)
        requires
            old(self).wf(),
        ensures
            final(self).wf(),
            final(self)@ == with_card(old(self)@, name@, card@),
    {
        let n: usize = self.bins.len();
        let ghost before = *self;
        let ghost cv = card@;
        match table_get(&self.index, &name) {
            Some(i) => {
                assert(entries(self.index).contains_key(name@));
                assert(i < n);
                let at: usize = i as usize;
                self.bins[at].push(card);
                proof {
                    assert(card_views(self.bins@[at as int]@) =~= card_views(before.bins@[at as int]@).push(cv));
                    assert forall|k: Seq<char>| self@.contains_key(k) implies self@[k] == with_card(
                        before@,
                        name@,
                        cv,
                    )[k] by {
                        assert(entries(before.index).contains_key(k));
                        if k != name@ {
                            assert(entries(before.index)[k] != i);
                        }
                    }
                    assert(self@ =~= with_card(before@, name@, cv));
                }
            },
            None => {
                let mut first: Vec<ModelCard> = Vec::new();
                first.push(card);
                assert(card_views(first@) =~= seq![cv]);
                table_insert(&mut self.index, name, n as u64);
                self.bins.push(first);
                proof {
                    assert forall|k: Seq<char>| #[trigger] entries(self.index).contains_key(k) implies entries(
                        self.index,
                    )[k] < self.bins@.len() by {
                        if k != name@ {
                            assert(entries(before.index).contains_key(k));
                        }
                    }
                    assert forall|a: Seq<char>, b: Seq<char>|
                        #![trigger entries(self.index).contains_key(a), entries(self.index).contains_key(b)]
                        entries(self.index).contains_key(a) && entries(self.index).contains_key(b)
                            && entries(self.index)[a] == entries(self.index)[b] implies a == b by {
                        if a != name@ {
                            assert(entries(before.index).contains_key(a));
                        }
                        if b != name@ {
                            assert(entries(before.index).contains_key(b));
                        }
                    }
                    assert forall|k: Seq<char>| self@.contains_key(k) implies self@[k] == with_card(
                        before@,
                        name@,
                        cv,
                    )[k] by {
                        if k != name@ {
                            assert(entries(before.index).contains_key(k));
                        }
                    }
                    assert(self@ =~= with_card(before@, name@, cv));
                }
            },
        }
    }

    /// Select the card for model `name` given an instance length/width. With one
    /// card (the common case) geometry is ignored; with several, the bin whose
    /// window contains `(l, w)` wins, else the first un-binned / first card.
    pub fn select<F: Fn(Ask) -> Reply>(&self, name: &str, l: Option<u64>, w: Option<u64>, host: &Host<F>) -> (r: Option<
        &ModelCard,
    >)
        requires
            self.wf(),
        ensures
            match r {
                Some(c) => self@.contains_key(lower(name@)) && c@ == self@[lower(name@)][chosen(
                    host.answers(),
                    self@[lower(name@)],
                    l,
                    w,
                )],
                None => !self@.contains_key(lower(name@)),
            },
    {
        let n: usize = self.bins.len();
        let key = to_lower(name);
        let at: usize = match table_get(&self.index, &key) {
            Some(i) => {
                assert(entries(self.index).contains_key(key@));
                assert(i < n);
                i as usize
            },
            None => {
                return None;
            },
        };
        let cards = &self.bins[at];
        let ghost cv = card_views(cards@);
        let ghost h = host.answers();
        assert(cv == self@[key@]);
        if cards.len() == 1 {
            assert(cv[0] == cards@[0]@);
            return Some(&cards[0]);
        }
        if let (Some(len), Some(wid)) = (l, w) {
            for i in 0..cards.len()
                invariant
                    cv == card_views(cards@),
                    h == host.answers(),
                    cv.len() != 1,
                    self@.contains_key(lower(name@)),
                    cv == self@[lower(name@)],
                    l == Some(len),
                    w == Some(wid),
                    first_bin(h, cv, len, wid, i as int) == first_bin(h, cv, len, wid, 0),
            {
                assert(cv[i as int] == cards@[i as int]@);
                if let Some(b) = cards[i].bin {
                    if b.contains(len, wid, host) {
                        return Some(&cards[i]);
                    }
                }
            }
        }
        for i in 0..cards.len()
            invariant
                cv == card_views(cards@),
                h == host.answers(),
                cv.len() != 1,
                self@.contains_key(lower(name@)),
                cv == self@[lower(name@)],
                (match (l, w) {
                    (Some(l), Some(w)) => first_bin(h, cv, l, w, 0) == cv.len(),
                    _ => true,
                }),
                first_open(cv, i as int) == first_open(cv, 0),
        {
            assert(cv[i as int] == cards@[i as int]@);
            if cards[i].bin.is_none() {
                return Some(&cards[i]);
            }
        }
        assert(cv[0] == cards@[0]@);
        Some(&cards[0])
    }
}

fn drop_bins(params: &Vec<(String, u64)>) -> (r: Vec<(String, u64)>)
    ensures
        values_text(r@) == device_params(values_text(params@)),
{
    let ghost p = values_text(params@);
    let ghost keep = |p: (Seq<char>, u64)| !is_bin_key(p.0);
    let mut out: Vec<(String, u64)> = Vec::new();
    assert(p.take(0).filter(keep) =~= seq![]) by {
        reveal(Seq::filter);
    }
    assert(values_text(out@) =~= seq![]);
    for i in 0..params.len()
        invariant
            p == values_text(params@),
            keep == (|p: (Seq<char>, u64)| !is_bin_key(p.0)),
            values_text(out@) == p.take(i as int).filter(keep),
    {
        let ghost before = values_text(out@);
        proof {
            assert(p[i as int] == (params@[i as int].0@, params@[i as int].1));
            assert(p.take(i + 1).drop_last() =~= p.take(i as int));
            assert(p.take(i + 1).last() == p[i as int]);
            reveal(Seq::filter);
        }
        let k = to_lower(&params[i].0);
        if !(same(&k, "lmin") || same(&k, "lmax") || same(&k, "wmin") || same(&k, "wmax")) {
            let item = (params[i].0.clone(), params[i].1);
            out.push(item);
            assert(values_text(out@) =~= before.push(p[i as int]));
        }
    }
    assert(p.take(p.len() as int) =~= p);
    out
}

/// Collect `.model NAME TYPE(p=v ...)` cards into a [`ModelLib`].
///
/// Any token of the form `key=value` is a parameter. Model names are matched
/// case-insensitively; parameter keys are kept verbatim. A card carrying
/// `lmin/lmax/wmin/wmax` is registered as a geometry bin under its base name.
pub fn parse_model_cards<F: Fn(Ask) -> Reply>(lines: &Vec<Line>, env: &Table, host: &Host<F>) -> (r: ModelLib)
    requires
        forall|i: int| 0 <= i < lines@.len() ==> (#[trigger] lines@[i]).tokens@.len() > 0,
    ensures
        r.wf(),
        r@ == library(host.answers(), entries(*env), line_views(lines@), lines@.len() as int),
{
    let mut lib = ModelLib::new();
    let ghost h = host.answers();
    let ghost e = entries(*env);
    let ghost all = line_views(lines@);
    for i in 0..lines.len()
        invariant
            all == line_views(lines@),
            forall|i: int| 0 <= i < lines@.len() ==> (#[trigger] lines@[i]).tokens@.len() > 0,
            h == host.answers(),
            e == entries(*env),
            lib.wf(),
            lib@ == library(h, e, all, i as int),
    {
        let line = &lines[i];
        proof {
            assert(all[i as int] == line@);
            assert(line.tokens@.len() > 0);
            assert(line@.tokens[0] == line.tokens@[0]@);
        }
        if same(&to_lower(&line.tokens[0]), ".model") {
            let toks = split_card_tokens(&join_texts(&line.tokens, " "));
            let ghost t = texts(toks@);
            assert(t.len() == toks@.len());
            if toks.len() >= 2 {
                assert(t[1] == toks@[1]@);
                let name = model_base_name(&to_lower(&toks[1]));
                let mtype: String = match find_plain(&toks, 2) {
                    Some(m) => m,
                    None => String::new(),
                };
                let params = bound_params_of(&toks, 0, env, host);
                let bin: Option<BinRange> = match (
                    find_param(&params, "lmin"),
                    find_param(&params, "lmax"),
                    find_param(&params, "wmin"),
                    find_param(&params, "wmax"),
                ) {
                    (Some(lmin), Some(lmax), Some(wmin), Some(wmax)) => Some(
                        BinRange { lmin, lmax, wmin, wmax },
                    ),
                    _ => None,
                };
                let card = ModelCard { mtype, params: drop_bins(&params), bin };
                assert(card@.mtype =~= (match first_plain(t, 2) {
                    Some(m) => m,
                    None => seq![],
                }));
                lib.insert(name, card);
            }
        }
    }
    lib
}

} // verus!

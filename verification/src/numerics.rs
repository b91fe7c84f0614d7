//! Real numbers, computed by the host.
//!
//! The library never computes with real numbers itself. It holds each as the
//! bits of its machine representation and asks the host for every operation,
//! so that what it decides is a function of the host's answers.
use vstd::prelude::*;

verus! {

/// Functions of one number.
#[derive(Clone, Copy, Debug, PartialEq, Eq, Structural)]
pub enum Op1 {
    Neg,
    Sin,
    Cos,
    Tan,
    Asin,
    Acos,
    Atan,
    Exp,
    Ln,
    Log10,
    Sqrt,
    Abs,
    Floor,
    Ceil,
}

/// Functions of two numbers.
#[derive(Clone, Copy, Debug, PartialEq, Eq, Structural)]
pub enum Op2 {
    Add,
    Sub,
    Mul,
    Div,
    Pow,
    Min,
    Max,
}

/// Comparisons.
#[derive(Clone, Copy, Debug, PartialEq, Eq, Structural)]
pub enum Rel {
    Lt,
    Gt,
    Le,
    Ge,
    Eq,
    Ne,
}

/// How a number is written out.
#[derive(Clone, Copy, Debug, PartialEq, Eq, Structural)]
pub enum Style {
    /// The shortest decimal that reads back as the number.
    Plain,
    /// The same with an exponent.
    Scientific,
    /// As `Plain`, but a whole number keeps a fractional part (`1.0`).
    Debug,
}

/// A question to the host.
#[derive(Debug)]
pub enum Ask {
    /// The number that a text denotes, if it denotes one.
    Parse(String),
    Apply1(Op1, u64),
    Apply2(Op2, u64, u64),
    Compare(Rel, u64, u64),
    Show(Style, u64),
    /// The integer that a number without fractional part is, clamped to range.
    Whole(u64),
    /// The nearest natural number, clamped to range.
    Nearest(u64),
    /// The number without its fractional part, clamped to range.
    Truncate(u64),
    /// The number without its fractional part as an integer, clamped to range.
    Integer(u64),
    /// The number that an integer is.
    Count(i64),
}

/// The host's answer.
#[derive(Debug)]
pub enum Reply {
    Nothing,
    Number(u64),
    Truth(bool),
    Text(String),
    Integer(i64),
    Natural(u32),
    Size(usize),
}

pub enum AskView {
    Parse(Seq<char>),
    Apply1(Op1, u64),
    Apply2(Op2, u64, u64),
    Compare(Rel, u64, u64),
    Show(Style, u64),
    Whole(u64),
    Nearest(u64),
    Truncate(u64),
    Integer(u64),
    Count(i64),
}

pub enum ReplyView {
    Nothing,
    Number(u64),
    Truth(bool),
    Text(Seq<char>),
    Integer(i64),
    Natural(u32),
    Size(usize),
}

impl View for Ask {
    type V = AskView;

    open spec fn view(&self) -> AskView {
        match *self {
            Ask::Parse(s) => AskView::Parse(s@),
            Ask::Apply1(f, a) => AskView::Apply1(f, a),
            Ask::Apply2(f, a, b) => AskView::Apply2(f, a, b),
            Ask::Compare(r, a, b) => AskView::Compare(r, a, b),
            Ask::Show(s, a) => AskView::Show(s, a),
            Ask::Whole(a) => AskView::Whole(a),
            Ask::Nearest(a) => AskView::Nearest(a),
            Ask::Truncate(a) => AskView::Truncate(a),
            Ask::Integer(a) => AskView::Integer(a),
            Ask::Count(n) => AskView::Count(n),
        }
    }
}

impl View for Reply {
    type V = ReplyView;

    open spec fn view(&self) -> ReplyView {
        match *self {
            Reply::Nothing => ReplyView::Nothing,
            Reply::Number(a) => ReplyView::Number(a),
            Reply::Truth(b) => ReplyView::Truth(b),
            Reply::Text(s) => ReplyView::Text(s@),
            Reply::Integer(i) => ReplyView::Integer(i),
            Reply::Natural(n) => ReplyView::Natural(n),
            Reply::Size(n) => ReplyView::Size(n),
        }
    }
}

/// All answers of a host.
pub type Answers = spec_fn(AskView) -> ReplyView;

/// The host may be asked anything, and a question has one answer.
pub open spec fn lawful<F: Fn(Ask) -> Reply>(f: F) -> bool {
    &&& forall|a: Ask| #[trigger] f.requires((a,))
    &&& forall|a: Ask, b: Ask, r: Reply, s: Reply|
        #![trigger f.ensures((a,), r), f.ensures((b,), s)]
        a@ == b@ && f.ensures((a,), r) && f.ensures((b,), s) ==> r@ == s@
}

// ---------------------------------------------------------------------------
// What the answers mean.
// ---------------------------------------------------------------------------
pub open spec fn number_of(r: ReplyView) -> u64 {
    match r {
        ReplyView::Number(x) => x,
        _ => 0,
    }
}

pub open spec fn parsed(h: Answers, s: Seq<char>) -> Option<u64> {
    match h(AskView::Parse(s)) {
        ReplyView::Number(x) => Some(x),
        _ => None,
    }
}

pub open spec fn apply1(h: Answers, f: Op1, a: u64) -> u64 {
    number_of(h(AskView::Apply1(f, a)))
}

pub open spec fn apply2(h: Answers, f: Op2, a: u64, b: u64) -> u64 {
    number_of(h(AskView::Apply2(f, a, b)))
}

pub open spec fn compares(h: Answers, r: Rel, a: u64, b: u64) -> bool {
    h(AskView::Compare(r, a, b)) == ReplyView::Truth(true)
}

pub open spec fn shown(h: Answers, s: Style, a: u64) -> Seq<char> {
    match h(AskView::Show(s, a)) {
        ReplyView::Text(t) => t,
        _ => seq![],
    }
}

pub open spec fn whole(h: Answers, a: u64) -> Option<i64> {
    match h(AskView::Whole(a)) {
        ReplyView::Integer(i) => Some(i),
        _ => None,
    }
}

pub open spec fn nearest(h: Answers, a: u64) -> u32 {
    match h(AskView::Nearest(a)) {
        ReplyView::Natural(n) => n,
        _ => 0,
    }
}

pub open spec fn truncated(h: Answers, a: u64) -> usize {
    match h(AskView::Truncate(a)) {
        ReplyView::Size(n) => n,
        _ => 0,
    }
}

pub open spec fn integer(h: Answers, a: u64) -> i64 {
    match h(AskView::Integer(a)) {
        ReplyView::Integer(i) => i,
        _ => 0,
    }
}

pub open spec fn count(h: Answers, n: i64) -> u64 {
    number_of(h(AskView::Count(n)))
}

/// A number counts as true when it is not zero.
pub open spec fn is_true(h: Answers, a: u64) -> bool {
    compares(h, Rel::Ne, a, ZERO)
}

/// `1` for true, `0` for false.
pub open spec fn truth(b: bool) -> u64 {
    if b {
        ONE
    } else {
        ZERO
    }
}

pub const ZERO: u64 = 0;

/// Infinity.
pub const INFINITY: u64 = 0x7ff0_0000_0000_0000;

pub const ONE: u64 = 0x3ff0_0000_0000_0000;

pub const MINUS_ONE: u64 = 0xbff0_0000_0000_0000;

pub const PI: u64 = 0x4009_21fb_5444_2d18;

pub const TWO_PI: u64 = 0x4019_21fb_5444_2d18;

// ---------------------------------------------------------------------------
// The host.
// ---------------------------------------------------------------------------
/// The host of the computation.
pub struct Host<F: Fn(Ask) -> Reply> {
    ask: F,
}

impl<F: Fn(Ask) -> Reply> Host<F> {
    #[verifier::type_invariant]
    spec fn wf(&self) -> bool {
        lawful(self.ask)
    }

    /// The host behind `ask`: its answers are those that `ask` gives.
    pub fn new(ask: F) -> (r: Self)
        requires
            lawful(ask),
        ensures
            forall|a: Ask, b: Reply| #[trigger] ask.ensures((a,), b) ==> r.answers()(a@) == b@,
    {
        let r = Host { ask };
        assert forall|a: Ask, b: Reply| #[trigger] ask.ensures((a,), b) implies r.answers()(a@) == b@ by {
            assert(r.gives(a@, b@));
        }
        r
    }

    spec fn gives(&self, q: AskView, r: ReplyView) -> bool {
        exists|a: Ask, b: Reply| a@ == q && b@ == r && #[trigger] self.ask.ensures((a,), b)
    }

    pub closed spec fn answer(&self, q: AskView) -> ReplyView {
        choose|r: ReplyView| self.gives(q, r)
    }

    /// All answers of this host.
    pub open spec fn answers(&self) -> Answers {
        |q: AskView| self.answer(q)
    }

    fn put(&self, q: Ask) -> (r: Reply)
        ensures
            r@ == self.answers()(q@),
    {
        proof {
            use_type_invariant(self);
        }
        let ghost view = q@;
        let ghost asked = q;
        let r = (self.ask)(q);
        assert(self.ask.ensures((asked,), r));
        assert(self.gives(view, r@));
        r
    }

    pub fn parse(&self, s: &str) -> (r: Option<u64>)
        ensures
            r == parsed(self.answers(), s@),
    {
        match self.put(Ask::Parse(s.to_owned())) {
            Reply::Number(x) => Some(x),
            _ => None,
        }
    }

    pub fn apply1(&self, f: Op1, a: u64) -> (r: u64)
        ensures
            r == apply1(self.answers(), f, a),
    {
        match self.put(Ask::Apply1(f, a)) {
            Reply::Number(x) => x,
            _ => 0,
        }
    }

    pub fn apply2(&self, f: Op2, a: u64, b: u64) -> (r: u64)
        ensures
            r == apply2(self.answers(), f, a, b),
    {
        match self.put(Ask::Apply2(f, a, b)) {
            Reply::Number(x) => x,
            _ => 0,
        }
    }

    pub fn compares(&self, rel: Rel, a: u64, b: u64) -> (r: bool)
        ensures
            r == compares(self.answers(), rel, a, b),
    {
        match self.put(Ask::Compare(rel, a, b)) {
            Reply::Truth(t) => t,
            _ => false,
        }
    }

    pub fn shown(&self, s: Style, a: u64) -> (r: String)
        ensures
            r@ == shown(self.answers(), s, a),
    {
        match self.put(Ask::Show(s, a)) {
            Reply::Text(t) => t,
            _ => String::new(),
        }
    }

    pub fn whole(&self, a: u64) -> (r: Option<i64>)
        ensures
            r == whole(self.answers(), a),
    {
        match self.put(Ask::Whole(a)) {
            Reply::Integer(i) => Some(i),
            _ => None,
        }
    }

    pub fn nearest(&self, a: u64) -> (r: u32)
        ensures
            r == nearest(self.answers(), a),
    {
        match self.put(Ask::Nearest(a)) {
            Reply::Natural(n) => n,
            _ => 0,
        }
    }

    pub fn truncated(&self, a: u64) -> (r: usize)
        ensures
            r == truncated(self.answers(), a),
    {
        match self.put(Ask::Truncate(a)) {
            Reply::Size(n) => n,
            _ => 0,
        }
    }

    pub fn integer(&self, a: u64) -> (r: i64)
        ensures
            r == integer(self.answers(), a),
    {
        match self.put(Ask::Integer(a)) {
            Reply::Integer(i) => i,
            _ => 0,
        }
    }

    pub fn count(&self, n: i64) -> (r: u64)
        ensures
            r == count(self.answers(), n),
    {
        match self.put(Ask::Count(n)) {
            Reply::Number(x) => x,
            _ => 0,
        }
    }

    pub fn is_true(&self, a: u64) -> (r: bool)
        ensures
            r == is_true(self.answers(), a),
    {
        self.compares(Rel::Ne, a, ZERO)
    }
}

pub fn truth_number(b: bool) -> (r: u64)
    ensures
        r == truth(b),
{
    if b {
        ONE
    } else {
        ZERO
    }
}

} // verus!

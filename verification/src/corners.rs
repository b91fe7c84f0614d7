//! Corners over adjoining intervals: stepping through a waveform in two goes meets
//! the corners that one go meets.
use crate::numerics::{apply1, apply2, compares, integer, Answers, Op1, Op2, Rel, INFINITY, ZERO};
use crate::source_fn::SourceFn;
use crate::text::decimal;
use crate::waveform::{corner, corner_opt, pulse_corners, pwl_corners, train_of, within, Train};
use vstd::multiset::Multiset;
use vstd::prelude::*;

verus! {

/// What the bits of a number stand for: which of them are numbers at all, and where
/// on the line each lies.
pub struct Reading {
    pub number: spec_fn(u64) -> bool,
    pub value: spec_fn(u64) -> real,
}

impl Reading {
    /// Comparisons go by the values; what is no number compares with nothing.
    pub open spec fn orders(self, h: Answers) -> bool {
        &&& forall|a: u64, b: u64| #[trigger]
            compares(h, Rel::Gt, a, b) <==> (self.number)(a) && (self.number)(b) && (self.value)(a) > (self.value)(b)
        &&& forall|a: u64, b: u64| #[trigger]
            compares(h, Rel::Le, a, b) <==> (self.number)(a) && (self.number)(b) && (self.value)(a) <= (self.value)(b)
    }

    /// Three instants in order.
    pub open spec fn in_order(self, t0: u64, tm: u64, t1: u64) -> bool {
        &&& (self.number)(t0) && (self.number)(tm) && (self.number)(t1)
        &&& (self.value)(t0) <= (self.value)(tm) <= (self.value)(t1)
    }

    /// A pulse fits into its period, and its corners follow one another.
    pub open spec fn fits(self, p: Train) -> bool {
        &&& (self.value)(ZERO) == 0real
        &&& 0real <= (self.value)(p.tr) <= (self.value)(p.high)
        &&& (self.value)(p.high) <= (self.value)(p.low) <= (self.value)(p.per)
        &&& 0real < (self.value)(p.per)
    }

    /// The first `m` periods are placed without rounding.
    pub open spec fn places(self, h: Answers, p: Train, m: int) -> bool {
        forall|k: int| 0 <= k <= m ==> self.placed(h, p, #[trigger] p.start(h, k), k)
    }

    pub open spec fn placed(self, h: Answers, p: Train, start: u64, k: int) -> bool {
        &&& (self.number)(start)
        &&& (self.value)(start) == (self.value)(p.td) + (k as real) * (self.value)(p.per)
        &&& (self.value)(apply2(h, Op2::Add, start, ZERO)) == (self.value)(start)
        &&& (self.value)(apply2(h, Op2::Add, start, p.tr)) == (self.value)(start) + (self.value)(p.tr)
        &&& (self.value)(apply2(h, Op2::Add, start, p.high)) == (self.value)(start) + (self.value)(p.high)
        &&& (self.value)(apply2(h, Op2::Add, start, p.low)) == (self.value)(start) + (self.value)(p.low)
    }

    /// The periods before an interval and up to its end are counted without
    /// rounding, and there are at most `m` of them.
    pub open spec fn counts(self, h: Answers, p: Train, t0: u64, t1: u64, m: int) -> bool {
        let (td, per) = ((self.value)(p.td), (self.value)(p.per));
        let whole = integer(h, apply1(h, Op1::Floor, apply2(h, Op2::Div, apply2(h, Op2::Sub, t0, p.td), p.per)));
        let upper = integer(h, apply1(h, Op1::Ceil, apply2(h, Op2::Div, apply2(h, Op2::Sub, t1, p.td), p.per)));
        &&& compares(h, Rel::Gt, t0, p.td) ==> (whole as real) * per <= (self.value)(t0) - td
        &&& (self.value)(t1) - td <= (upper as real) * per
        &&& p.last(h, t0, t1) <= m < i64::MAX
    }
}

// ---------------------------------------------------------------------------
// One corner, one pulse.
// ---------------------------------------------------------------------------
/// What two intervals hold together.
spec fn both(a: Seq<u64>, b: Seq<u64>) -> Multiset<u64> {
    a.to_multiset().add(b.to_multiset())
}

proof fn corner_splits(r: Reading, h: Answers, t: u64, t0: u64, tm: u64, t1: u64)
    requires
        r.orders(h),
        r.in_order(t0, tm, t1),
    ensures
        corner(h, t, t0, t1).to_multiset() == both(corner(h, t, t0, tm), corner(h, t, tm, t1)),
{
    broadcast use vstd::seq_lib::group_to_multiset_ensures;

    assert(within(h, t, t0, t1) <==> within(h, t, t0, tm) || within(h, t, tm, t1));
    assert(!(within(h, t, t0, tm) && within(h, t, tm, t1)));
    let none: Seq<u64> = seq![];
    let one = seq![t];
    assert(none.to_multiset() =~= Multiset::empty());
    assert(one.to_multiset() =~= one.to_multiset().add(none.to_multiset()));
    assert(one.to_multiset() =~= none.to_multiset().add(one.to_multiset()));
    assert(none.to_multiset() =~= none.to_multiset().add(none.to_multiset()));
}

/// Lists that split stay split one behind the other.
proof fn splits_join(a: Seq<u64>, a0: Seq<u64>, a1: Seq<u64>, b: Seq<u64>, b0: Seq<u64>, b1: Seq<u64>)
    requires
        a.to_multiset() == both(a0, a1),
        b.to_multiset() == both(b0, b1),
    ensures
        (a + b).to_multiset() == both(a0 + b0, a1 + b1),
{
    vstd::seq_lib::lemma_multiset_commutative(a, b);
    vstd::seq_lib::lemma_multiset_commutative(a0, b0);
    vstd::seq_lib::lemma_multiset_commutative(a1, b1);
    assert((a + b).to_multiset() =~= both(a0 + b0, a1 + b1));
}

proof fn corner_opt_splits(r: Reading, h: Answers, t: Option<u64>, t0: u64, tm: u64, t1: u64)
    requires
        r.orders(h),
        r.in_order(t0, tm, t1),
    ensures
        corner_opt(h, t, t0, t1).to_multiset() == both(corner_opt(h, t, t0, tm), corner_opt(h, t, tm, t1)),
{
    broadcast use vstd::seq_lib::group_to_multiset_ensures;

    match t {
        Some(x) => {
            corner_splits(r, h, x, t0, tm, t1);
        },
        None => {
            let none: Seq<u64> = seq![];
            assert(none.to_multiset() =~= none.to_multiset().add(none.to_multiset()));
        },
    }
}

proof fn pulse_splits(r: Reading, h: Answers, base: u64, p: Train, t0: u64, tm: u64, t1: u64)
    requires
        r.orders(h),
        r.in_order(t0, tm, t1),
    ensures
        pulse_corners(h, base, p.tr, p.high, p.low, t0, t1).to_multiset() == both(
            pulse_corners(h, base, p.tr, p.high, p.low, t0, tm),
            pulse_corners(h, base, p.tr, p.high, p.low, tm, t1),
        ),
{
    let (a, b, c, d) = (
        apply2(h, Op2::Add, base, ZERO),
        apply2(h, Op2::Add, base, p.tr),
        apply2(h, Op2::Add, base, p.high),
        apply2(h, Op2::Add, base, p.low),
    );
    corner_splits(r, h, a, t0, tm, t1);
    corner_splits(r, h, b, t0, tm, t1);
    corner_splits(r, h, c, t0, tm, t1);
    corner_splits(r, h, d, t0, tm, t1);
    splits_join(
        corner(h, a, t0, t1),
        corner(h, a, t0, tm),
        corner(h, a, tm, t1),
        corner(h, b, t0, t1),
        corner(h, b, t0, tm),
        corner(h, b, tm, t1),
    );
    let ab = corner(h, a, t0, t1) + corner(h, b, t0, t1);
    let ab0 = corner(h, a, t0, tm) + corner(h, b, t0, tm);
    let ab1 = corner(h, a, tm, t1) + corner(h, b, tm, t1);
    splits_join(ab, ab0, ab1, corner(h, c, t0, t1), corner(h, c, t0, tm), corner(h, c, tm, t1));
    splits_join(
        ab + corner(h, c, t0, t1),
        ab0 + corner(h, c, t0, tm),
        ab1 + corner(h, c, tm, t1),
        corner(h, d, t0, t1),
        corner(h, d, t0, tm),
        corner(h, d, tm, t1),
    );
}

// ---------------------------------------------------------------------------
// A train of pulses.
// ---------------------------------------------------------------------------
/// The corners of the periods from `k` to `m`, all of them.
spec fn spread(h: Answers, p: Train, k: int, m: int, t0: u64, t1: u64) -> Seq<u64>
    decreases m + 1 - k,
{
    if k > m {
        seq![]
    } else {
        pulse_corners(h, p.start(h, k), p.tr, p.high, p.low, t0, t1) + spread(h, p, k + 1, m, t0, t1)
    }
}

proof fn spread_splits(r: Reading, h: Answers, p: Train, k: int, m: int, t0: u64, tm: u64, t1: u64)
    requires
        r.orders(h),
        r.in_order(t0, tm, t1),
    ensures
        spread(h, p, k, m, t0, t1).to_multiset() == both(spread(h, p, k, m, t0, tm), spread(h, p, k, m, tm, t1)),
    decreases m + 1 - k,
{
    broadcast use vstd::seq_lib::group_to_multiset_ensures;

    if k > m {
        let none: Seq<u64> = seq![];
        assert(none.to_multiset() =~= none.to_multiset().add(none.to_multiset()));
    } else {
        let base = p.start(h, k);
        pulse_splits(r, h, base, p, t0, tm, t1);
        spread_splits(r, h, p, k + 1, m, t0, tm, t1);
        splits_join(
            pulse_corners(h, base, p.tr, p.high, p.low, t0, t1),
            pulse_corners(h, base, p.tr, p.high, p.low, t0, tm),
            pulse_corners(h, base, p.tr, p.high, p.low, tm, t1),
            spread(h, p, k + 1, m, t0, t1),
            spread(h, p, k + 1, m, t0, tm),
            spread(h, p, k + 1, m, tm, t1),
        );
    }
}

/// A pulse that starts past the interval has no corner in it.
proof fn late_pulse_is_outside(r: Reading, h: Answers, p: Train, k: int, t0: u64, t1: u64)
    requires
        r.orders(h),
        r.fits(p),
        r.placed(h, p, p.start(h, k), k),
        (r.value)(p.start(h, k)) > (r.value)(t1),
    ensures
        pulse_corners(h, p.start(h, k), p.tr, p.high, p.low, t0, t1) == Seq::<u64>::empty(),
{
    let base = p.start(h, k);
    assert(!within(h, apply2(h, Op2::Add, base, ZERO), t0, t1));
    assert(!within(h, apply2(h, Op2::Add, base, p.tr), t0, t1));
    assert(!within(h, apply2(h, Op2::Add, base, p.high), t0, t1));
    assert(!within(h, apply2(h, Op2::Add, base, p.low), t0, t1));
}

/// A pulse that is over when the interval begins has no corner in it.
proof fn early_pulse_is_outside(r: Reading, h: Answers, p: Train, k: int, t0: u64, t1: u64)
    requires
        r.orders(h),
        r.fits(p),
        r.placed(h, p, p.start(h, k), k),
        (r.value)(p.start(h, k)) + (r.value)(p.per) <= (r.value)(t0),
    ensures
        pulse_corners(h, p.start(h, k), p.tr, p.high, p.low, t0, t1) == Seq::<u64>::empty(),
{
    let base = p.start(h, k);
    assert(!within(h, apply2(h, Op2::Add, base, ZERO), t0, t1));
    assert(!within(h, apply2(h, Op2::Add, base, p.tr), t0, t1));
    assert(!within(h, apply2(h, Op2::Add, base, p.high), t0, t1));
    assert(!within(h, apply2(h, Op2::Add, base, p.low), t0, t1));
}

proof fn later_starts_later(r: Reading, h: Answers, p: Train, k: int, j: int, m: int)
    requires
        r.fits(p),
        r.places(h, p, m),
        0 <= k <= j <= m,
    ensures
        (r.value)(p.start(h, k)) <= (r.value)(p.start(h, j)),
{
    assert(r.placed(h, p, p.start(h, k), k));
    assert(r.placed(h, p, p.start(h, j), j));
    let per = (r.value)(p.per);
    assert((k as real) * per <= (j as real) * per) by (nonlinear_arith)
        requires
            k <= j,
            0real < per,
    ;
}

/// Nothing of the periods from one that starts past the interval on lies in it.
proof fn spread_past_the_end(r: Reading, h: Answers, p: Train, k: int, m: int, t0: u64, t1: u64)
    requires
        r.orders(h),
        r.fits(p),
        r.places(h, p, m),
        0 <= k,
        k <= m ==> (r.value)(p.start(h, k)) > (r.value)(t1),
    ensures
        spread(h, p, k, m, t0, t1) == Seq::<u64>::empty(),
    decreases m + 1 - k,
{
    if k <= m {
        assert(r.placed(h, p, p.start(h, k), k));
        late_pulse_is_outside(r, h, p, k, t0, t1);
        if k + 1 <= m {
            later_starts_later(r, h, p, k, k + 1, m);
        }
        spread_past_the_end(r, h, p, k + 1, m, t0, t1);
    }
}

/// The periods that are walked hold all the corners from there on.
proof fn walk_is_spread(r: Reading, h: Answers, p: Train, k: int, m: int, t0: u64, t1: u64)
    requires
        r.orders(h),
        r.fits(p),
        r.places(h, p, m),
        (r.number)(t1),
        r.counts(h, p, t0, t1, m),
        0 <= k,
    ensures
        p.from(h, k, p.last(h, t0, t1), t0, t1) == spread(h, p, k, m, t0, t1),
    decreases m + 1 - k,
{
    let last = p.last(h, t0, t1);
    if k > last {
        if k <= m {
            assert(r.placed(h, p, p.start(h, k), k));
            let upper = integer(h, apply1(h, Op1::Ceil, apply2(h, Op2::Div, apply2(h, Op2::Sub, t1, p.td), p.per)));
            let per = (r.value)(p.per);
            assert((upper as real) * per < (k as real) * per) by (nonlinear_arith)
                requires
                    upper < k,
                    0real < per,
            ;
        }
        spread_past_the_end(r, h, p, k, m, t0, t1);
    } else if compares(h, Rel::Gt, p.start(h, k), t1) {
        spread_past_the_end(r, h, p, k, m, t0, t1);
    } else {
        walk_is_spread(r, h, p, k + 1, m, t0, t1);
    }
}

/// The periods before the first that is walked hold none.
proof fn skipped_periods_are_outside(r: Reading, h: Answers, p: Train, k: int, m: int, t0: u64, t1: u64)
    requires
        r.orders(h),
        r.fits(p),
        r.places(h, p, m),
        r.counts(h, p, t0, t1, m),
        0 <= k <= p.first(h, t0),
    ensures
        spread(h, p, k, m, t0, t1) == spread(h, p, p.first(h, t0), m, t0, t1),
    decreases p.first(h, t0) - k,
{
    let first = p.first(h, t0);
    if k < first {
        assert(first <= p.last(h, t0, t1));
        assert(k <= m);
        assert(r.placed(h, p, p.start(h, k), k));
        let per = (r.value)(p.per);
        assert((k as real) * per + per <= (first as real) * per) by (nonlinear_arith)
            requires
                k + 1 <= first,
                0real < per,
        ;
        early_pulse_is_outside(r, h, p, k, t0, t1);
        skipped_periods_are_outside(r, h, p, k + 1, m, t0, t1);
        let rest = spread(h, p, k + 1, m, t0, t1);
        assert(Seq::<u64>::empty() + rest =~= rest);
    }
}

proof fn train_is_spread(r: Reading, h: Answers, p: Train, m: int, t0: u64, t1: u64)
    requires
        r.orders(h),
        r.fits(p),
        r.places(h, p, m),
        (r.number)(t1),
        r.counts(h, p, t0, t1, m),
    ensures
        p.from(h, p.first(h, t0), p.last(h, t0, t1), t0, t1) == spread(h, p, 0, m, t0, t1),
{
    walk_is_spread(r, h, p, p.first(h, t0), m, t0, t1);
    skipped_periods_are_outside(r, h, p, 0, m, t0, t1);
}

proof fn points_split(r: Reading, h: Answers, v: Map<Seq<char>, u64>, n: int, i: int, t0: u64, tm: u64, t1: u64)
    requires
        r.orders(h),
        r.in_order(t0, tm, t1),
    ensures
        pwl_corners(h, v, n, i, t0, t1).to_multiset() == both(
            pwl_corners(h, v, n, i, t0, tm),
            pwl_corners(h, v, n, i, tm, t1),
        ),
    decreases n - i,
{
    broadcast use vstd::seq_lib::group_to_multiset_ensures;

    if i >= n {
        let none: Seq<u64> = seq![];
        assert(none.to_multiset() =~= none.to_multiset().add(none.to_multiset()));
    } else {
        let t = v.get("pwl_t"@ + decimal(i as nat));
        corner_opt_splits(r, h, t, t0, tm, t1);
        points_split(r, h, v, n, i + 1, t0, tm, t1);
        splits_join(
            corner_opt(h, t, t0, t1),
            corner_opt(h, t, t0, tm),
            corner_opt(h, t, tm, t1),
            pwl_corners(h, v, n, i + 1, t0, t1),
            pwl_corners(h, v, n, i + 1, t0, tm),
            pwl_corners(h, v, n, i + 1, tm, t1),
        );
    }
}

/// A waveform repeats: it is a train of pulses with a period.
pub open spec fn repeats(s: SourceFn, h: Answers, v: Map<Seq<char>, u64>) -> bool {
    let per = train_of(h, v).per;
    s == SourceFn::Pulse && compares(h, Rel::Gt, per, ZERO) && compares(h, Rel::Lt, per, INFINITY)
}

/// The corners of an interval are those of its two parts together. Of a train that
/// repeats this is said where each pulse fits into its period and the first `m`
/// periods, which cover the interval, are placed and counted without rounding.
pub proof fn corners_of_adjoining_intervals(
    s: SourceFn,
    r: Reading,
    h: Answers,
    v: Map<Seq<char>, u64>,
    m: int,
    t0: u64,
    tm: u64,
    t1: u64,
)
    requires
        r.orders(h),
        r.in_order(t0, tm, t1),
        repeats(s, h, v) ==> {
            let p = train_of(h, v);
            &&& r.fits(p)
            &&& r.places(h, p, m)
            &&& r.counts(h, p, t0, t1, m)
            &&& r.counts(h, p, t0, tm, m)
            &&& r.counts(h, p, tm, t1, m)
        },
    ensures
        s.corners(h, v, t0, t1).to_multiset() == s.corners(h, v, t0, tm).to_multiset().add(
            s.corners(h, v, tm, t1).to_multiset(),
        ),
{
    broadcast use vstd::seq_lib::group_to_multiset_ensures;

    match s {
        SourceFn::Sin => {
            let none: Seq<u64> = seq![];
            assert(none.to_multiset() =~= none.to_multiset().add(none.to_multiset()));
        },
        SourceFn::Pulse => {
            let p = train_of(h, v);
            if repeats(s, h, v) {
                train_is_spread(r, h, p, m, t0, t1);
                train_is_spread(r, h, p, m, t0, tm);
                train_is_spread(r, h, p, m, tm, t1);
                spread_splits(r, h, p, 0, m, t0, tm, t1);
            } else {
                pulse_splits(r, h, p.td, p, t0, tm, t1);
            }
        },
        SourceFn::Exp => {
            let (a, b) = (v.get("exp_td1"@), v.get("exp_td2"@));
            corner_opt_splits(r, h, a, t0, tm, t1);
            corner_opt_splits(r, h, b, t0, tm, t1);
            splits_join(
                corner_opt(h, a, t0, t1),
                corner_opt(h, a, t0, tm),
                corner_opt(h, a, tm, t1),
                corner_opt(h, b, t0, t1),
                corner_opt(h, b, t0, tm),
                corner_opt(h, b, tm, t1),
            );
        },
        SourceFn::Pwl(n) => {
            points_split(r, h, v, n as int, 0, t0, tm, t1);
        },
    }
}

} // verus!

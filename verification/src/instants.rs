//! The corners of the stimulus shapes are all listed: every instant within the
//! interval at which a shape bends is among them.
use crate::corners::Reading;
use crate::numerics::{apply2, compares, Answers, Op2, Rel, INFINITY, ZERO};
use crate::source_fn::SourceFn;
use crate::text::decimal;
use crate::waveform::{corner, corner_opt, pulse_corners, pwl_corners, train_of, within, Train};
use vstd::prelude::*;

verus! {

proof fn corner_is_listed(h: Answers, t: u64, t0: u64, t1: u64)
    ensures
        corner(h, t, t0, t1).contains(t) <==> within(h, t, t0, t1),
{
    if within(h, t, t0, t1) {
        assert(corner(h, t, t0, t1)[0] == t);
    }
}

proof fn holds_both(a: Seq<u64>, b: Seq<u64>, t: u64)
    ensures
        (a + b).contains(t) <==> a.contains(t) || b.contains(t),
{
    if a.contains(t) {
        let i = choose|i: int| 0 <= i < a.len() && a[i] == t;
        assert((a + b)[i] == t);
    }
    if b.contains(t) {
        let i = choose|i: int| 0 <= i < b.len() && b[i] == t;
        assert((a + b)[a.len() + i] == t);
    }
    if (a + b).contains(t) {
        let i = choose|i: int| 0 <= i < (a + b).len() && (a + b)[i] == t;
        if i < a.len() {
            assert(a[i] == t);
        } else {
            assert(b[i - a.len()] == t);
        }
    }
}

/// An exponential source bends at its two delays: each is listed where it lies within
/// the interval.
pub proof fn exponentials_bend_at_their_delays(h: Answers, v: Map<Seq<char>, u64>, t0: u64, t1: u64)
    ensures
        v.contains_key("exp_td1"@) && within(h, v["exp_td1"@], t0, t1) ==> SourceFn::Exp.corners(h, v, t0, t1).contains(
            v["exp_td1"@],
        ),
        v.contains_key("exp_td2"@) && within(h, v["exp_td2"@], t0, t1) ==> SourceFn::Exp.corners(h, v, t0, t1).contains(
            v["exp_td2"@],
        ),
{
    let (a, b) = (corner_opt(h, v.get("exp_td1"@), t0, t1), corner_opt(h, v.get("exp_td2"@), t0, t1));
    if v.contains_key("exp_td1"@) {
        let t = v["exp_td1"@];
        assert(v.get("exp_td1"@) == Some(t));
        corner_is_listed(h, t, t0, t1);
        holds_both(a, b, t);
    }
    if v.contains_key("exp_td2"@) {
        let t = v["exp_td2"@];
        assert(v.get("exp_td2"@) == Some(t));
        corner_is_listed(h, t, t0, t1);
        holds_both(a, b, t);
    }
}

proof fn points_are_listed(h: Answers, v: Map<Seq<char>, u64>, n: int, i: int, k: int, t0: u64, t1: u64)
    requires
        0 <= i <= k < n,
        v.contains_key("pwl_t"@ + decimal(k as nat)),
        within(h, v["pwl_t"@ + decimal(k as nat)], t0, t1),
    ensures
        pwl_corners(h, v, n, i, t0, t1).contains(v["pwl_t"@ + decimal(k as nat)]),
    decreases k - i,
{
    let key = "pwl_t"@ + decimal(k as nat);
    let t = v[key];
    let own = corner_opt(h, v.get("pwl_t"@ + decimal(i as nat)), t0, t1);
    holds_both(own, pwl_corners(h, v, n, i + 1, t0, t1), t);
    if i == k {
        assert(v.get(key) == Some(t));
        corner_is_listed(h, t, t0, t1);
    } else {
        points_are_listed(h, v, n, i + 1, k, t0, t1);
    }
}

/// A piecewise linear source bends at its points: the instant of each is listed where
/// it lies within the interval.
pub proof fn piecewise_sources_bend_at_their_points(
    h: Answers,
    v: Map<Seq<char>, u64>,
    n: usize,
    k: int,
    t0: u64,
    t1: u64,
)
    requires
        0 <= k < n,
        v.contains_key("pwl_t"@ + decimal(k as nat)),
        within(h, v["pwl_t"@ + decimal(k as nat)], t0, t1),
    ensures
        SourceFn::Pwl(n).corners(h, v, t0, t1).contains(v["pwl_t"@ + decimal(k as nat)]),
{
    points_are_listed(h, v, n as int, 0, k, t0, t1);
}

/// The instants at which a pulse that starts at `base` bends: its start, the end of
/// its rise, and the start and the end of its fall.
pub open spec fn bends_at(h: Answers, p: Train, base: u64, t: u64) -> bool {
    ||| t == apply2(h, Op2::Add, base, ZERO)
    ||| t == apply2(h, Op2::Add, base, p.tr)
    ||| t == apply2(h, Op2::Add, base, p.high)
    ||| t == apply2(h, Op2::Add, base, p.low)
}

proof fn pulse_is_listed(h: Answers, p: Train, base: u64, t: u64, t0: u64, t1: u64)
    requires
        within(h, t, t0, t1),
        bends_at(h, p, base, t),
    ensures
        pulse_corners(h, base, p.tr, p.high, p.low, t0, t1).contains(t),
{
    let (a, b, c, d) = (
        corner(h, apply2(h, Op2::Add, base, ZERO), t0, t1),
        corner(h, apply2(h, Op2::Add, base, p.tr), t0, t1),
        corner(h, apply2(h, Op2::Add, base, p.high), t0, t1),
        corner(h, apply2(h, Op2::Add, base, p.low), t0, t1),
    );
    corner_is_listed(h, t, t0, t1);
    holds_both(a, b, t);
    holds_both(a + b, c, t);
    holds_both(a + b + c, d, t);
}

proof fn period_is_listed(h: Answers, p: Train, i: int, k: int, last: int, t: u64, t0: u64, t1: u64)
    requires
        i <= k <= last,
        within(h, t, t0, t1),
        bends_at(h, p, p.start(h, k), t),
        forall|j: int| i <= j <= k ==> !compares(h, Rel::Gt, #[trigger] p.start(h, j), t1),
    ensures
        p.from(h, i, last, t0, t1).contains(t),
    decreases k - i,
{
    assert(!compares(h, Rel::Gt, p.start(h, i), t1));
    let own = pulse_corners(h, p.start(h, i), p.tr, p.high, p.low, t0, t1);
    holds_both(own, p.from(h, i + 1, last, t0, t1), t);
    if i == k {
        pulse_is_listed(h, p, p.start(h, k), t, t0, t1);
    } else {
        period_is_listed(h, p, i + 1, k, last, t, t0, t1);
    }
}

/// A pulse bends four times in every period, and each bend is listed where it lies
/// within the interval: for the periods that are looked at, up to the first one that
/// starts past the interval. A pulse that does not repeat has the bends of its one
/// period.
pub proof fn pulses_bend_four_times_a_period(
    h: Answers,
    v: Map<Seq<char>, u64>,
    k: int,
    t: u64,
    t0: u64,
    t1: u64,
)
    requires
        within(h, t, t0, t1),
    ensures
        ({
            let p = train_of(h, v);
            let repeats = compares(h, Rel::Gt, p.per, ZERO) && compares(h, Rel::Lt, p.per, INFINITY);
            &&& !repeats && bends_at(h, p, p.td, t) ==> SourceFn::Pulse.corners(h, v, t0, t1).contains(t)
            &&& repeats && p.first(h, t0) <= k <= p.last(h, t0, t1) && bends_at(h, p, p.start(h, k), t) && (forall|
                j: int,
            |
                p.first(h, t0) <= j <= k ==> !compares(h, Rel::Gt, #[trigger] p.start(h, j), t1))
                ==> SourceFn::Pulse.corners(h, v, t0, t1).contains(t)
        }),
{
    let p = train_of(h, v);
    let repeats = compares(h, Rel::Gt, p.per, ZERO) && compares(h, Rel::Lt, p.per, INFINITY);
    if !repeats {
        if bends_at(h, p, p.td, t) {
            pulse_is_listed(h, p, p.td, t, t0, t1);
        }
    } else if p.first(h, t0) <= k <= p.last(h, t0, t1) && bends_at(h, p, p.start(h, k), t) && (forall|j: int|
        p.first(h, t0) <= j <= k ==> !compares(h, Rel::Gt, #[trigger] p.start(h, j), t1)) {
        period_is_listed(h, p, p.first(h, t0), k, p.last(h, t0, t1), t, t0, t1);
    }
}

/// An interval of instants leaves out its beginning and holds its end, so that
/// stepping from one interval into the next meets no corner twice.
pub proof fn intervals_hold_their_end(r: Reading, h: Answers, t: u64, t0: u64, t1: u64)
    requires
        r.orders(h),
        (r.number)(t0) && (r.number)(t1),
    ensures
        within(h, t, t0, t1) <==> (r.number)(t) && (r.value)(t0) < (r.value)(t) <= (r.value)(t1),
{
}

} // verus!

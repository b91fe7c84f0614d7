//! What the stimulus shapes are as functions of time: their expressions, the
//! instants at which they have corners, and their tones.
use crate::numerics::{
    apply1, apply2, compares, count, integer, Answers, Ask, Host, Op1, Op2, Rel, Reply, INFINITY, ONE,
    TWO_PI, ZERO,
};
use crate::source_fn::SourceFn;
use crate::symbolic::{Algebra, Answer, ExprId, Fun1, Graph, Query};
use crate::table::{entries, table_get, Table};
use crate::text::{concat2, concat3, decimal, decimal_text};
use vstd::prelude::*;

verus! {

/// The parameter `suffix` of a source, as an expression.
pub open spec fn param(g: Graph, name: Seq<char>, suffix: Seq<char>) -> ExprId {
    g.sym(name + "."@ + suffix)
}

fn param_expr<G: Fn(Query) -> Answer>(al: &Algebra<G>, name: &str, suffix: &str) -> (r: ExprId)
    ensures
        r == param(al.graph(), name@, suffix@),
{
    al.sym(&concat3(name, ".", suffix))
}

/// `offset + amplitude * sin(w * t)`.
pub open spec fn sine(g: Graph, name: Seq<char>, t: ExprId) -> ExprId {
    g.plus(
        param(g, name, "sin_off"@),
        g.times(param(g, name, "sin_amp"@), g.fun1(Fun1::Sin, g.times(param(g, name, "sin_w"@), t))),
    )
}

/// `v1` until `td`, then a trapezoid (`tr`, `pw`, `tf`) repeating every `per`.
pub open spec fn pulse(g: Graph, name: Seq<char>, t: ExprId) -> ExprId {
    let v1 = param(g, name, "pulse_v1"@);
    let v2 = param(g, name, "pulse_v2"@);
    let td = param(g, name, "pulse_td"@);
    let tr = param(g, name, "pulse_tr"@);
    let tf = param(g, name, "pulse_tf"@);
    let pw = param(g, name, "pulse_pw"@);
    let per = param(g, name, "pulse_per"@);
    let since = g.minus(t, td);
    let phase = g.minus(since, g.times(per, g.fun1(Fun1::Floor, g.over(since, per))));
    let rise = g.plus(v1, g.times(g.minus(v2, v1), g.over(phase, tr)));
    let top = g.plus(tr, pw);
    let fall = g.plus(v2, g.times(g.minus(v1, v2), g.over(g.minus(phase, top), tf)));
    let tail = g.select(g.compare(Rel::Lt, phase, g.plus(top, tf)), fall, v1);
    let high = g.select(g.compare(Rel::Lt, phase, top), v2, tail);
    let body = g.select(g.compare(Rel::Lt, phase, tr), rise, high);
    g.select(g.compare(Rel::Lt, t, td), v1, body)
}

/// `1 - exp(-(t - td) / tau)`.
pub open spec fn settling(g: Graph, t: ExprId, td: ExprId, tau: ExprId) -> ExprId {
    g.minus(g.one(), g.fun1(Fun1::Exp, g.neg(g.over(g.minus(t, td), tau))))
}

/// Exponential rise from `v1` towards `v2` at `td1`, and fall back at `td2`.
pub open spec fn exponential(g: Graph, name: Seq<char>, t: ExprId) -> ExprId {
    let v1 = param(g, name, "exp_v1"@);
    let v2 = param(g, name, "exp_v2"@);
    let td1 = param(g, name, "exp_td1"@);
    let tau1 = param(g, name, "exp_tau1"@);
    let td2 = param(g, name, "exp_td2"@);
    let tau2 = param(g, name, "exp_tau2"@);
    let rise = g.plus(v1, g.times(g.minus(v2, v1), settling(g, t, td1, tau1)));
    let after = g.plus(rise, g.times(g.minus(v1, v2), settling(g, t, td2, tau2)));
    let mid = g.select(g.compare(Rel::Lt, t, td2), rise, after);
    g.select(g.compare(Rel::Lt, t, td1), v1, mid)
}

pub open spec fn pwl_time(g: Graph, name: Seq<char>, i: int) -> ExprId {
    g.sym(name + ".pwl_t"@ + decimal(i as nat))
}

pub open spec fn pwl_value(g: Graph, name: Seq<char>, i: int) -> ExprId {
    g.sym(name + ".pwl_v"@ + decimal(i as nat))
}

/// The straight line through points `i` and `i + 1`.
pub open spec fn segment(g: Graph, name: Seq<char>, t: ExprId, i: int) -> ExprId {
    let run = g.over(
        g.minus(t, pwl_time(g, name, i)),
        g.minus(pwl_time(g, name, i + 1), pwl_time(g, name, i)),
    );
    g.plus(
        pwl_value(g, name, i),
        g.times(g.minus(pwl_value(g, name, i + 1), pwl_value(g, name, i)), run),
    )
}

/// From point `i` on: straight lines, and the last value held.
pub open spec fn pwl_from(g: Graph, name: Seq<char>, t: ExprId, n: int, i: int) -> ExprId
    decreases n - i,
{
    if i + 1 >= n {
        pwl_value(g, name, n - 1)
    } else {
        g.select(
            g.compare(Rel::Lt, t, pwl_time(g, name, i + 1)),
            segment(g, name, t, i),
            pwl_from(g, name, t, n, i + 1),
        )
    }
}

/// Piecewise linear over `n` points, held flat outside their range.
pub open spec fn piecewise(g: Graph, name: Seq<char>, t: ExprId, n: int) -> ExprId {
    if n == 0 {
        g.zero()
    } else {
        g.select(
            g.compare(Rel::Lt, t, pwl_time(g, name, 0)),
            pwl_value(g, name, 0),
            pwl_from(g, name, t, n, 0),
        )
    }
}

// ---------------------------------------------------------------------------
// Corners.
// ---------------------------------------------------------------------------
/// A value within `(t0, t1]`.
pub open spec fn within(h: Answers, t: u64, t0: u64, t1: u64) -> bool {
    compares(h, Rel::Gt, t, t0) && compares(h, Rel::Le, t, t1)
}

/// A corner, where it lies in the interval.
pub open spec fn corner(h: Answers, t: u64, t0: u64, t1: u64) -> Seq<u64> {
    if within(h, t, t0, t1) {
        seq![t]
    } else {
        seq![]
    }
}

pub open spec fn corner_opt(h: Answers, t: Option<u64>, t0: u64, t1: u64) -> Seq<u64> {
    match t {
        Some(x) => corner(h, x, t0, t1),
        None => seq![],
    }
}

/// The four corners of a pulse that starts at `base`.
pub open spec fn pulse_corners(h: Answers, base: u64, tr: u64, high: u64, low: u64, t0: u64, t1: u64) -> Seq<u64> {
    corner(h, apply2(h, Op2::Add, base, ZERO), t0, t1) + corner(h, apply2(h, Op2::Add, base, tr), t0, t1)
        + corner(h, apply2(h, Op2::Add, base, high), t0, t1) + corner(
        h,
        apply2(h, Op2::Add, base, low),
        t0,
        t1,
    )
}

/// What the corners of a pulse train are made from.
pub struct Train {
    pub td: u64,
    pub tr: u64,
    pub high: u64,
    pub low: u64,
    pub per: u64,
}

impl Train {
    pub open spec fn start(self, h: Answers, k: int) -> u64 {
        apply2(h, Op2::Add, self.td, apply2(h, Op2::Mul, count(h, k as i64), self.per))
    }

    /// The corners of the periods from `k` to `last`, up to the first period
    /// that starts past the interval.
    pub open spec fn from(self, h: Answers, k: int, last: int, t0: u64, t1: u64) -> Seq<u64>
        decreases last + 1 - k,
    {
        if k > last || compares(h, Rel::Gt, self.start(h, k), t1) {
            seq![]
        } else {
            pulse_corners(h, self.start(h, k), self.tr, self.high, self.low, t0, t1) + self.from(
                h,
                k + 1,
                last,
                t0,
                t1,
            )
        }
    }

    /// The period in which the interval begins.
    pub open spec fn first(self, h: Answers, t0: u64) -> int {
        let k = if compares(h, Rel::Gt, t0, self.td) {
            integer(
                h,
                apply1(h, Op1::Floor, apply2(h, Op2::Div, apply2(h, Op2::Sub, t0, self.td), self.per)),
            ) as int
        } else {
            0
        };
        if k > 0 {
            k
        } else {
            0
        }
    }

    /// The last period that is looked at.
    pub open spec fn last(self, h: Answers, t0: u64, t1: u64) -> int {
        let c = integer(
            h,
            apply1(h, Op1::Ceil, apply2(h, Op2::Div, apply2(h, Op2::Sub, t1, self.td), self.per)),
        ) as int;
        let k = self.first(h, t0) + (if c > 0 {
            c
        } else {
            0
        }) + 2;
        if k > i64::MAX {
            i64::MAX as int
        } else {
            k
        }
    }

    pub open spec fn corners(self, h: Answers, t0: u64, t1: u64) -> Seq<u64> {
        if compares(h, Rel::Gt, self.per, ZERO) && compares(h, Rel::Lt, self.per, INFINITY) {
            self.from(h, self.first(h, t0), self.last(h, t0, t1), t0, t1)
        } else {
            pulse_corners(h, self.td, self.tr, self.high, self.low, t0, t1)
        }
    }
}

pub open spec fn value_or_zero(v: Map<Seq<char>, u64>, key: Seq<char>) -> u64 {
    if v.contains_key(key) {
        v[key]
    } else {
        ZERO
    }
}

/// The pulse train that bound parameters describe; times are not negative.
pub open spec fn train_of(h: Answers, v: Map<Seq<char>, u64>) -> Train {
    let tr = apply2(h, Op2::Max, value_or_zero(v, "pulse_tr"@), ZERO);
    let tf = apply2(h, Op2::Max, value_or_zero(v, "pulse_tf"@), ZERO);
    let pw = apply2(h, Op2::Max, value_or_zero(v, "pulse_pw"@), ZERO);
    let high = apply2(h, Op2::Add, tr, pw);
    Train {
        td: value_or_zero(v, "pulse_td"@),
        tr,
        high,
        low: apply2(h, Op2::Add, high, tf),
        per: if v.contains_key("pulse_per"@) {
            v["pulse_per"@]
        } else {
            INFINITY
        },
    }
}

/// The corners of the points from `i` on.
pub open spec fn pwl_corners(h: Answers, v: Map<Seq<char>, u64>, n: int, i: int, t0: u64, t1: u64) -> Seq<u64>
    decreases n - i,
{
    if i >= n {
        seq![]
    } else {
        corner_opt(h, v.get("pwl_t"@ + decimal(i as nat)), t0, t1) + pwl_corners(h, v, n, i + 1, t0, t1)
    }
}

impl SourceFn {
    /// The waveform as an expression of time.
    pub open spec fn waveform(self, g: Graph, name: Seq<char>, t: ExprId) -> ExprId {
        match self {
            SourceFn::Sin => sine(g, name, t),
            SourceFn::Pulse => pulse(g, name, t),
            SourceFn::Exp => exponential(g, name, t),
            SourceFn::Pwl(n) => piecewise(g, name, t, n as int),
        }
    }

    /// The corners in `(t0, t1]`, for parameters bound by their suffixes.
    pub open spec fn corners(self, h: Answers, v: Map<Seq<char>, u64>, t0: u64, t1: u64) -> Seq<u64> {
        match self {
            SourceFn::Sin => seq![],
            SourceFn::Pulse => train_of(h, v).corners(h, t0, t1),
            SourceFn::Exp => corner_opt(h, v.get("exp_td1"@), t0, t1) + corner_opt(
                h,
                v.get("exp_td2"@),
                t0,
                t1,
            ),
            SourceFn::Pwl(n) => pwl_corners(h, v, n as int, 0, t0, t1),
        }
    }

    /// The frequency of the tone, if there is one.
    pub open spec fn tone(self, h: Answers, v: Map<Seq<char>, u64>) -> Option<u64> {
        match self {
            SourceFn::Sin => match v.get("sin_w"@) {
                Some(w) => Some(apply2(h, Op2::Div, w, TWO_PI)),
                None => None,
            },
            SourceFn::Pulse => match v.get("pulse_per"@) {
                Some(per) => if compares(h, Rel::Gt, per, ZERO) && compares(h, Rel::Lt, per, INFINITY) {
                    Some(apply2(h, Op2::Div, ONE, per))
                } else {
                    None
                },
                None => None,
            },
            _ => None,
        }
    }

    /// Lower the waveform into an expression of the time `t`. Numeric parameters
    /// become instance-scoped symbols `"{name}.{suffix}"`. Region splits are
    /// selections; periodicity uses `floor`.
    pub fn lower<G: Fn(Query) -> Answer>(&self, al: &Algebra<G>, name: &str, t: ExprId) -> (r: ExprId)
        ensures
            r == self.waveform(al.graph(), name@, t),
    {
        match self {
            SourceFn::Sin => {
                let w = param_expr(al, name, "sin_w");
                let s = al.fun1(Fun1::Sin, al.times(w, t));
                let swing = al.times(param_expr(al, name, "sin_amp"), s);
                al.plus(param_expr(al, name, "sin_off"), swing)
            },
            SourceFn::Pulse => lower_pulse(al, name, t),
            SourceFn::Exp => lower_exponential(al, name, t),
            SourceFn::Pwl(n) => lower_piecewise(al, name, t, *n),
        }
    }

    /// Append the waveform's discontinuity times in `(t0, t1]` to `out`: the
    /// instants an integrator must step onto exactly. `params` holds the
    /// parameters by suffix; an unbound one takes a sensible default. A smooth
    /// waveform contributes nothing.
    pub fn breakpoints<F: Fn(Ask) -> Reply>(
        &self,
        params: &Table,
        t0: u64,
        t1: u64,
        out: &mut Vec<u64>,
        host: &Host<F>,
    )
        ensures
            final(out)@ == old(out)@ + self.corners(host.answers(), entries(*params), t0, t1),
    {
        let ghost h = host.answers();
        let ghost v = entries(*params);
        let ghost start = out@;
        match self {
            SourceFn::Sin => {
                assert(start + seq![] =~= start);
            },
            SourceFn::Pulse => {
                pulse_breakpoints(params, t0, t1, out, host);
            },
            SourceFn::Exp => {
                emit_opt(table_get(params, "exp_td1"), t0, t1, out, host);
                emit_opt(table_get(params, "exp_td2"), t0, t1, out, host);
                assert(out@ =~= start + self.corners(h, v, t0, t1));
            },
            SourceFn::Pwl(n) => {
                let mut i: usize = 0;
                assert(out@ + pwl_corners(h, v, *n as int, 0, t0, t1) =~= start + self.corners(h, v, t0, t1));
                while i < *n
                    invariant
                        i <= *n,
                        h == host.answers(),
                        v == entries(*params),
                        *self == SourceFn::Pwl(*n),
                        out@ + pwl_corners(h, v, *n as int, i as int, t0, t1) == start + self.corners(h, v, t0, t1),
                    decreases *n - i,
                {
                    let ghost before = out@;
                    let key = concat2("pwl_t", &decimal_text(i as u64));
                    emit_opt(table_get(params, &key), t0, t1, out, host);
                    proof {
                        let rest = pwl_corners(h, v, *n as int, i + 1, t0, t1);
                        let here = corner_opt(h, v.get("pwl_t"@ + decimal(i as nat)), t0, t1);
                        assert(before + (here + rest) =~= (before + here) + rest);
                    }
                    i += 1;
                }
                assert(out@ + seq![] =~= out@);
            },
        }
    }

    /// The fundamental frequency, if the source is periodic with a well-defined
    /// tone: a sine's frequency, or a pulse train's `1/per`.
    pub fn fundamental<F: Fn(Ask) -> Reply>(&self, params: &Table, host: &Host<F>) -> (r: Option<u64>)
        ensures
            r == self.tone(host.answers(), entries(*params)),
    {
        match self {
            SourceFn::Sin => match table_get(params, "sin_w") {
                Some(w) => Some(host.apply2(Op2::Div, w, TWO_PI)),
                None => None,
            },
            SourceFn::Pulse => match table_get(params, "pulse_per") {
                Some(per) => if host.compares(Rel::Gt, per, ZERO) && host.compares(Rel::Lt, per, INFINITY) {
                    Some(host.apply2(Op2::Div, ONE, per))
                } else {
                    None
                },
                None => None,
            },
            _ => None,
        }
    }
}

fn lower_pulse<G: Fn(Query) -> Answer>(al: &Algebra<G>, name: &str, t: ExprId) -> (r: ExprId)
    ensures
        r == pulse(al.graph(), name@, t),
{
    let v1 = param_expr(al, name, "pulse_v1");
    let v2 = param_expr(al, name, "pulse_v2");
    let td = param_expr(al, name, "pulse_td");
    let tr = param_expr(al, name, "pulse_tr");
    let tf = param_expr(al, name, "pulse_tf");
    let pw = param_expr(al, name, "pulse_pw");
    let per = param_expr(al, name, "pulse_per");
    let since = al.minus(t, td);
    let cycle = al.fun1(Fun1::Floor, al.over(since, per));
    let phase = al.minus(since, al.times(per, cycle));
    let rise = al.plus(v1, al.times(al.minus(v2, v1), al.over(phase, tr)));
    let top = al.plus(tr, pw);
    let fall = al.plus(v2, al.times(al.minus(v1, v2), al.over(al.minus(phase, top), tf)));
    let tail = al.select(al.compare(Rel::Lt, phase, al.plus(top, tf)), fall, v1);
    let high = al.select(al.compare(Rel::Lt, phase, top), v2, tail);
    let body = al.select(al.compare(Rel::Lt, phase, tr), rise, high);
    al.select(al.compare(Rel::Lt, t, td), v1, body)
}

fn lower_settling<G: Fn(Query) -> Answer>(al: &Algebra<G>, t: ExprId, td: ExprId, tau: ExprId) -> (r: ExprId)
    ensures
        r == settling(al.graph(), t, td, tau),
{
    let e = al.fun1(Fun1::Exp, al.neg(al.over(al.minus(t, td), tau)));
    al.minus(al.one(), e)
}

fn lower_exponential<G: Fn(Query) -> Answer>(al: &Algebra<G>, name: &str, t: ExprId) -> (r: ExprId)
    ensures
        r == exponential(al.graph(), name@, t),
{
    let v1 = param_expr(al, name, "exp_v1");
    let v2 = param_expr(al, name, "exp_v2");
    let td1 = param_expr(al, name, "exp_td1");
    let tau1 = param_expr(al, name, "exp_tau1");
    let td2 = param_expr(al, name, "exp_td2");
    let tau2 = param_expr(al, name, "exp_tau2");
    let rise = al.plus(v1, al.times(al.minus(v2, v1), lower_settling(al, t, td1, tau1)));
    let after = al.plus(rise, al.times(al.minus(v1, v2), lower_settling(al, t, td2, tau2)));
    let mid = al.select(al.compare(Rel::Lt, t, td2), rise, after);
    al.select(al.compare(Rel::Lt, t, td1), v1, mid)
}

fn point_time<G: Fn(Query) -> Answer>(al: &Algebra<G>, name: &str, i: usize) -> (r: ExprId)
    ensures
        r == pwl_time(al.graph(), name@, i as int),
{
    al.sym(&concat3(name, ".pwl_t", &decimal_text(i as u64)))
}

fn point_value<G: Fn(Query) -> Answer>(al: &Algebra<G>, name: &str, i: usize) -> (r: ExprId)
    ensures
        r == pwl_value(al.graph(), name@, i as int),
{
    al.sym(&concat3(name, ".pwl_v", &decimal_text(i as u64)))
}

fn lower_piecewise<G: Fn(Query) -> Answer>(al: &Algebra<G>, name: &str, t: ExprId, n: usize) -> (r: ExprId)
    ensures
        r == piecewise(al.graph(), name@, t, n as int),
{
    if n == 0 {
        return al.zero();
    }
    let mut expr = point_value(al, name, n - 1);
    let mut i: usize = n - 1;
    while i > 0
        invariant
            i < n,
            expr == pwl_from(al.graph(), name@, t, n as int, i as int),
        decreases i,
    {
        i -= 1;
        let ti = point_time(al, name, i);
        let tj = point_time(al, name, i + 1);
        let vi = point_value(al, name, i);
        let vj = point_value(al, name, i + 1);
        let run = al.over(al.minus(t, ti), al.minus(tj, ti));
        let line = al.plus(vi, al.times(al.minus(vj, vi), run));
        expr = al.select(al.compare(Rel::Lt, t, tj), line, expr);
    }
    let before = al.compare(Rel::Lt, t, point_time(al, name, 0));
    al.select(before, point_value(al, name, 0), expr)
}

fn emit<F: Fn(Ask) -> Reply>(t: u64, t0: u64, t1: u64, out: &mut Vec<u64>, host: &Host<F>)
    ensures
        final(out)@ == old(out)@ + corner(host.answers(), t, t0, t1),
{
    let ghost before = out@;
    if host.compares(Rel::Gt, t, t0) && host.compares(Rel::Le, t, t1) {
        out.push(t);
    }
    assert(out@ =~= before + corner(host.answers(), t, t0, t1));
}

fn emit_opt<F: Fn(Ask) -> Reply>(t: Option<u64>, t0: u64, t1: u64, out: &mut Vec<u64>, host: &Host<F>)
    ensures
        final(out)@ == old(out)@ + corner_opt(host.answers(), t, t0, t1),
{
    let ghost before = out@;
    if let Some(x) = t {
        emit(x, t0, t1, out, host);
    } else {
        assert(before + seq![] =~= before);
    }
}

fn emit_pulse<F: Fn(Ask) -> Reply>(
    base: u64,
    train: &Train,
    t0: u64,
    t1: u64,
    out: &mut Vec<u64>,
    host: &Host<F>,
)
    ensures
        final(out)@ == old(out)@ + pulse_corners(
            host.answers(),
            base,
            train.tr,
            train.high,
            train.low,
            t0,
            t1,
        ),
{
    let ghost before = out@;
    emit(host.apply2(Op2::Add, base, ZERO), t0, t1, out, host);
    emit(host.apply2(Op2::Add, base, train.tr), t0, t1, out, host);
    emit(host.apply2(Op2::Add, base, train.high), t0, t1, out, host);
    emit(host.apply2(Op2::Add, base, train.low), t0, t1, out, host);
    assert(out@ =~= before + pulse_corners(
        host.answers(),
        base,
        train.tr,
        train.high,
        train.low,
        t0,
        t1,
    ));
}

fn or_zero(params: &Table, key: &str) -> (r: u64)
    ensures
        r == value_or_zero(entries(*params), key@),
{
    match table_get(params, key) {
        Some(x) => x,
        None => ZERO,
    }
}

fn read_train<F: Fn(Ask) -> Reply>(params: &Table, host: &Host<F>) -> (r: Train)
    ensures
        r == train_of(host.answers(), entries(*params)),
{
    let tr: u64 = host.apply2(Op2::Max, or_zero(params, "pulse_tr"), ZERO);
    let tf: u64 = host.apply2(Op2::Max, or_zero(params, "pulse_tf"), ZERO);
    let pw: u64 = host.apply2(Op2::Max, or_zero(params, "pulse_pw"), ZERO);
    let high: u64 = host.apply2(Op2::Add, tr, pw);
    Train {
        td: or_zero(params, "pulse_td"),
        tr,
        high,
        low: host.apply2(Op2::Add, high, tf),
        per: match table_get(params, "pulse_per") {
            Some(p) => p,
            None => INFINITY,
        },
    }
}

fn pulse_breakpoints<F: Fn(Ask) -> Reply>(params: &Table, t0: u64, t1: u64, out: &mut Vec<u64>, host: &Host<F>)
    ensures
        final(out)@ == old(out)@ + train_of(host.answers(), entries(*params)).corners(host.answers(), t0, t1),
{
    let ghost h = host.answers();
    let train = read_train(params, host);
    let ghost start = out@;
    if !(host.compares(Rel::Gt, train.per, ZERO) && host.compares(Rel::Lt, train.per, INFINITY)) {
        emit_pulse(train.td, &train, t0, t1, out, host);
        return;
    }
    let mut k: i64 = 0;
    if host.compares(Rel::Gt, t0, train.td) {
        let q: u64 = host.apply2(Op2::Div, host.apply2(Op2::Sub, t0, train.td), train.per);
        k = host.integer(host.apply1(Op1::Floor, q));
    }
    if k < 0 {
        k = 0;
    }
    let q: u64 = host.apply2(Op2::Div, host.apply2(Op2::Sub, t1, train.td), train.per);
    let c: i64 = host.integer(host.apply1(Op1::Ceil, q));
    let more: i128 = if c > 0 {
        c as i128
    } else {
        0
    };
    let far: i128 = k as i128 + more + 2;
    let last: i64 = if far > i64::MAX as i128 {
        i64::MAX
    } else {
        far as i64
    };
    let ghost goal = start + train.from(h, k as int, last as int, t0, t1);
    assert(k as int == train.first(h, t0));
    assert(last as int == train.last(h, t0, t1));
    let mut j: i128 = k as i128;
    let mut going: bool = true;
    while going && j <= last as i128
        invariant
            h == host.answers(),
            0 <= j <= last + 1,
            going ==> out@ + train.from(h, j as int, last as int, t0, t1) == goal,
            !going ==> out@ == goal,
        decreases last + 1 - j,
    {
        let ghost before = out@;
        let base: u64 = host.apply2(Op2::Add, train.td, host.apply2(Op2::Mul, host.count(j as i64), train.per));
        if host.compares(Rel::Gt, base, t1) {
            going = false;
            assert(out@ + seq![] =~= out@);
            j = last as i128 + 1;
        } else {
            emit_pulse(base, &train, t0, t1, out, host);
            proof {
                let here = pulse_corners(h, base, train.tr, train.high, train.low, t0, t1);
                let rest = train.from(h, j + 1, last as int, t0, t1);
                assert(before + (here + rest) =~= (before + here) + rest);
            }
            j += 1;
        }
    }
    assert(out@ + seq![] =~= out@);
}

/// A smooth waveform has no corners, and every corner that is reported lies in
/// the interval asked for.
pub proof fn corners_lie_within(s: SourceFn, h: Answers, v: Map<Seq<char>, u64>, t0: u64, t1: u64)
    ensures
        s == SourceFn::Sin ==> s.corners(h, v, t0, t1).len() == 0,
        forall|i: int|
            0 <= i < s.corners(h, v, t0, t1).len() ==> within(h, #[trigger] s.corners(h, v, t0, t1)[i], t0, t1),
{
    match s {
        SourceFn::Pulse => {
            let train = train_of(h, v);
            train_within(train, h, train.first(h, t0), train.last(h, t0, t1), t0, t1);
        },
        SourceFn::Pwl(n) => {
            pwl_within(h, v, n as int, 0, t0, t1);
        },
        _ => {},
    }
}

proof fn train_within(train: Train, h: Answers, k: int, last: int, t0: u64, t1: u64)
    ensures
        forall|i: int|
            0 <= i < train.from(h, k, last, t0, t1).len() ==> within(
                h,
                #[trigger] train.from(h, k, last, t0, t1)[i],
                t0,
                t1,
            ),
    decreases last + 1 - k,
{
    if !(k > last || compares(h, Rel::Gt, train.start(h, k), t1)) {
        train_within(train, h, k + 1, last, t0, t1);
        let here = pulse_corners(h, train.start(h, k), train.tr, train.high, train.low, t0, t1);
        let rest = train.from(h, k + 1, last, t0, t1);
        assert forall|i: int| 0 <= i < (here + rest).len() implies within(h, #[trigger] (here + rest)[i], t0, t1) by {
            if i >= here.len() {
                assert((here + rest)[i] == rest[i - here.len()]);
            }
        }
    }
}

proof fn pwl_within(h: Answers, v: Map<Seq<char>, u64>, n: int, i: int, t0: u64, t1: u64)
    ensures
        forall|k: int|
            0 <= k < pwl_corners(h, v, n, i, t0, t1).len() ==> within(
                h,
                #[trigger] pwl_corners(h, v, n, i, t0, t1)[k],
                t0,
                t1,
            ),
    decreases n - i,
{
    if i < n {
        pwl_within(h, v, n, i + 1, t0, t1);
        let here = corner_opt(h, v.get("pwl_t"@ + decimal(i as nat)), t0, t1);
        let rest = pwl_corners(h, v, n, i + 1, t0, t1);
        assert forall|k: int| 0 <= k < (here + rest).len() implies within(h, #[trigger] (here + rest)[k], t0, t1) by {
            if k >= here.len() {
                assert((here + rest)[k] == rest[k - here.len()]);
            }
        }
    }
}

} // verus!

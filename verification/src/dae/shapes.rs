//! What the stimulus shapes are as functions of time, on real values.
use crate::dae::cases::reals;
use crate::dae::meaning::{Env, Meaning};
use crate::dae::reading::Functions;
use crate::numerics::Rel;
use crate::symbolic::{ExprId, Fun1, Graph};
use crate::text::decimal;
use crate::waveform::{exponential, param, piecewise, pulse, pwl_from, pwl_time, pwl_value, segment, settling, sine};
use vstd::prelude::*;

verus! {

pub open spec fn is_whole(n: real, k: int) -> bool {
    n == k as real
}

/// `n` is the largest whole number that is not above `x`.
pub open spec fn rounds_down(n: real, x: real) -> bool {
    &&& n <= x < n + 1real
    &&& exists|k: int| is_whole(n, k)
}

/// The comparisons are those of the real line, and `floor` rounds down.
pub open spec fn ordinary(c: Functions<real>) -> bool {
    &&& forall|a: real, b: real| #[trigger] (c.holds)(Rel::Lt, a, b) <==> a < b
    &&& forall|a: real, b: real| #[trigger] (c.holds)(Rel::Gt, a, b) <==> a > b
    &&& forall|a: real, b: real| #[trigger] (c.holds)(Rel::Le, a, b) <==> a <= b
    &&& forall|a: real, b: real| #[trigger] (c.holds)(Rel::Ge, a, b) <==> a >= b
    &&& forall|a: real, b: real| #[trigger] (c.holds)(Rel::Eq, a, b) <==> a == b
    &&& forall|a: real, b: real| #[trigger] (c.holds)(Rel::Ne, a, b) <==> a != b
    &&& forall|x: real| rounds_down(#[trigger] (c.fun)(Fun1::Floor, x), x)
}

/// A graph read over the reals.
pub struct Line {
    pub m: Meaning<real>,
    pub g: Graph,
    pub c: Functions<real>,
}

impl Line {
    pub open spec fn reads(self) -> bool {
        &&& self.m.field == reals()
        &&& self.m.sound(self.g)
        &&& self.m.reads(self.g, self.c)
        &&& ordinary(self.c)
    }

    /// The parameter of a source.
    pub open spec fn setting(self, name: Seq<char>, suffix: Seq<char>, env: Env<real>) -> real {
        env(self.g.symbol(name + "."@ + suffix))
    }

    pub(crate) proof fn setting_is(self, name: Seq<char>, suffix: Seq<char>, env: Env<real>)
        requires
            self.reads(),
            self.m.lives(param(self.g, name, suffix)),
        ensures
            self.m.at(param(self.g, name, suffix), env) == self.setting(name, suffix, env),
    {
        self.m.symbol_is(self.g, name + "."@ + suffix, env);
    }

    pub(crate) proof fn plus(self, a: ExprId, b: ExprId, env: Env<real>)
        requires
            self.reads(),
            self.m.lives(self.g.plus(a, b)),
        ensures
            self.m.lives(a) && self.m.lives(b),
            self.m.at(self.g.plus(a, b), env) == self.m.at(a, env) + self.m.at(b, env),
    {
        self.m.plus_is(self.g, a, b, env);
    }

    pub(crate) proof fn minus(self, a: ExprId, b: ExprId, env: Env<real>)
        requires
            self.reads(),
            self.m.lives(self.g.minus(a, b)),
        ensures
            self.m.lives(a) && self.m.lives(b),
            self.m.at(self.g.minus(a, b), env) == self.m.at(a, env) - self.m.at(b, env),
    {
        self.m.minus_is(self.g, self.c, a, b, env);
    }

    pub(crate) proof fn times(self, a: ExprId, b: ExprId, env: Env<real>)
        requires
            self.reads(),
            self.m.lives(self.g.times(a, b)),
        ensures
            self.m.lives(a) && self.m.lives(b),
            self.m.at(self.g.times(a, b), env) == self.m.at(a, env) * self.m.at(b, env),
    {
        self.m.times_is(self.g, a, b, env);
    }

    pub(crate) proof fn neg(self, a: ExprId, env: Env<real>)
        requires
            self.reads(),
            self.m.lives(self.g.neg(a)),
        ensures
            self.m.lives(a),
            self.m.at(self.g.neg(a), env) == 0real - self.m.at(a, env),
    {
        self.m.neg_is(self.g, a, env);
    }

    pub(crate) proof fn over(self, a: ExprId, b: ExprId, env: Env<real>)
        requires
            self.reads(),
            self.m.lives(self.g.over(a, b)),
        ensures
            self.m.lives(a) && self.m.lives(b),
            self.m.at(b, env) != 0real ==> self.m.at(self.g.over(a, b), env) * self.m.at(b, env) == self.m.at(a, env),
    {
        self.m.over_is(self.g, self.c, a, b, env);
        let (x, y) = (self.m.at(a, env), self.m.at(b, env));
        if y != 0real {
            assert(x * (1real / y) * y == x) by (nonlinear_arith)
                requires
                    y != 0real,
            ;
        }
    }

    pub(crate) proof fn choice(self, a: ExprId, b: ExprId, x: ExprId, y: ExprId, env: Env<real>)
        requires
            self.reads(),
            self.m.lives(self.g.select(self.g.compare(Rel::Lt, a, b), x, y)),
        ensures
            self.m.lives(a) && self.m.lives(b) && self.m.lives(x) && self.m.lives(y),
            self.m.at(self.g.select(self.g.compare(Rel::Lt, a, b), x, y), env) == (if self.m.at(a, env) < self.m.at(
                b,
                env,
            ) {
                self.m.at(x, env)
            } else {
                self.m.at(y, env)
            }),
    {
        self.m.choice_is(self.g, self.c, Rel::Lt, a, b, x, y, env);
    }
}

// ---------------------------------------------------------------------------
// Sine.
// ---------------------------------------------------------------------------
impl Line {
    /// A sine swings about its offset by its amplitude times the sine of the angle
    /// that its angular frequency makes with time.
    pub proof fn sine_swings_about_its_offset(self, name: Seq<char>, t: ExprId, env: Env<real>)
        requires
            self.reads(),
            self.m.lives(sine(self.g, name, t)),
        ensures
            self.m.at(sine(self.g, name, t), env) - self.setting(name, "sin_off"@, env) == self.setting(
                name,
                "sin_amp"@,
                env,
            ) * (self.c.fun)(Fun1::Sin, self.setting(name, "sin_w"@, env) * self.m.at(t, env)),
    {
        let g = self.g;
        let (off, amp, w) = (param(g, name, "sin_off"@), param(g, name, "sin_amp"@), param(g, name, "sin_w"@));
        let s = g.fun1(Fun1::Sin, g.times(w, t));
        self.plus(off, g.times(amp, s), env);
        self.times(amp, s, env);
        self.m.fun_is(g, self.c, Fun1::Sin, g.times(w, t), env);
        self.times(w, t, env);
        self.setting_is(name, "sin_off"@, env);
        self.setting_is(name, "sin_amp"@, env);
        self.setting_is(name, "sin_w"@, env);
    }
}

// ---------------------------------------------------------------------------
// Pulse.
// ---------------------------------------------------------------------------
/// The settings of a pulse.
pub struct Trapezoid {
    pub v1: real,
    pub v2: real,
    pub td: real,
    pub tr: real,
    pub tf: real,
    pub pw: real,
    pub per: real,
}

/// A whole number of periods and what is left of one are told apart by rounding
/// down.
proof fn phase_is(since: real, per: real, n: int, phase: real, q: real, fl: real)
    requires
        0real < per,
        0real <= phase < per,
        since == (n as real) * per + phase,
        q * per == since,
        rounds_down(fl, q),
    ensures
        since - per * fl == phase,
{
    let k = choose|k: int| is_whole(fl, k);
    let (a, b) = (n as real, k as real);
    assert(a <= q < a + 1real) by (nonlinear_arith)
        requires
            0real < per,
            0real <= phase < per,
            q * per == a * per + phase,
    ;
    assert(b < a + 1real && a < b + 1real);
    assert(n == k);
    assert(per * a == a * per) by (nonlinear_arith);
}

impl Line {
    pub open spec fn trapezoid(self, name: Seq<char>, env: Env<real>) -> Trapezoid {
        Trapezoid {
            v1: self.setting(name, "pulse_v1"@, env),
            v2: self.setting(name, "pulse_v2"@, env),
            td: self.setting(name, "pulse_td"@, env),
            tr: self.setting(name, "pulse_tr"@, env),
            tf: self.setting(name, "pulse_tf"@, env),
            pw: self.setting(name, "pulse_pw"@, env),
            per: self.setting(name, "pulse_per"@, env),
        }
    }

    /// A pulse rests at `v1` before its delay.
    pub proof fn pulse_rests_before_its_delay(self, name: Seq<char>, t: ExprId, env: Env<real>)
        requires
            self.reads(),
            self.m.lives(pulse(self.g, name, t)),
            self.m.at(t, env) < self.trapezoid(name, env).td,
        ensures
            self.m.at(pulse(self.g, name, t), env) == self.trapezoid(name, env).v1,
    {
        let g = self.g;
        let v1 = param(g, name, "pulse_v1"@);
        let v2 = param(g, name, "pulse_v2"@);
        let td = param(g, name, "pulse_td"@);
        let tr = param(g, name, "pulse_tr"@);
        let tf = param(g, name, "pulse_tf"@);
        let pw = param(g, name, "pulse_pw"@);
        let per = param(g, name, "pulse_per"@);
        let since = g.minus(t, td);
        let phase = g.minus(since, g.times(per, g.fun1(Fun1::Floor, g.over(since, per))));
        let rise = g.plus(v1, g.times(g.minus(v2, v1), g.over(phase, tr)));
        let top = g.plus(tr, pw);
        let fall = g.plus(v2, g.times(g.minus(v1, v2), g.over(g.minus(phase, top), tf)));
        let tail = g.select(g.compare(Rel::Lt, phase, g.plus(top, tf)), fall, v1);
        let high = g.select(g.compare(Rel::Lt, phase, top), v2, tail);
        let body = g.select(g.compare(Rel::Lt, phase, tr), rise, high);
        self.choice(t, td, v1, body, env);
        self.setting_is(name, "pulse_td"@, env);
        self.setting_is(name, "pulse_v1"@, env);
    }

    /// From its delay on a pulse is a trapezoid in every period: at a phase before
    /// `tr` it is on the straight line from `v1` to `v2`; from there it stays at `v2`
    /// for `pw`; then it is on the straight line back, for `tf`; and from there to the
    /// end of the period it rests at `v1`.
    pub proof fn pulse_is_a_trapezoid_in_every_period(
        self,
        name: Seq<char>,
        t: ExprId,
        env: Env<real>,
        n: int,
        phase: real,
    )
        requires
            self.reads(),
            self.m.lives(pulse(self.g, name, t)),
            0real <= phase < self.trapezoid(name, env).per,
            self.m.at(t, env) >= self.trapezoid(name, env).td,
            self.m.at(t, env) == self.trapezoid(name, env).td + (n as real) * self.trapezoid(name, env).per + phase,
        ensures
            ({
                let p = self.trapezoid(name, env);
                let v = self.m.at(pulse(self.g, name, t), env);
                let (high, low) = (p.tr + p.pw, p.tr + p.pw + p.tf);
                &&& phase < p.tr ==> (v - p.v1) * p.tr == (p.v2 - p.v1) * phase
                &&& p.tr <= phase < high ==> v == p.v2
                &&& p.tr <= phase && high <= phase < low ==> (v - p.v2) * p.tf == (p.v1 - p.v2) * (phase - high)
                &&& p.tr <= phase && high <= phase && low <= phase ==> v == p.v1
            }),
    {
        let g = self.g;
        let p = self.trapezoid(name, env);
        let v1 = param(g, name, "pulse_v1"@);
        let v2 = param(g, name, "pulse_v2"@);
        let td = param(g, name, "pulse_td"@);
        let tr = param(g, name, "pulse_tr"@);
        let tf = param(g, name, "pulse_tf"@);
        let pw = param(g, name, "pulse_pw"@);
        let per = param(g, name, "pulse_per"@);
        let since = g.minus(t, td);
        let turns = g.over(since, per);
        let whole = g.fun1(Fun1::Floor, turns);
        let at = g.minus(since, g.times(per, whole));
        let up = g.over(at, tr);
        let rise = g.plus(v1, g.times(g.minus(v2, v1), up));
        let top = g.plus(tr, pw);
        let down = g.over(g.minus(at, top), tf);
        let fall = g.plus(v2, g.times(g.minus(v1, v2), down));
        let tail = g.select(g.compare(Rel::Lt, at, g.plus(top, tf)), fall, v1);
        let high = g.select(g.compare(Rel::Lt, at, top), v2, tail);
        let body = g.select(g.compare(Rel::Lt, at, tr), rise, high);
        self.choice(t, td, v1, body, env);
        self.choice(at, tr, rise, high, env);
        self.choice(at, top, v2, tail, env);
        self.choice(at, g.plus(top, tf), fall, v1, env);
        self.plus(top, tf, env);
        self.plus(tr, pw, env);
        self.minus(since, g.times(per, whole), env);
        self.times(per, whole, env);
        self.m.fun_is(g, self.c, Fun1::Floor, turns, env);
        self.over(since, per, env);
        self.minus(t, td, env);
        self.plus(v1, g.times(g.minus(v2, v1), up), env);
        self.times(g.minus(v2, v1), up, env);
        self.minus(v2, v1, env);
        self.over(at, tr, env);
        self.plus(v2, g.times(g.minus(v1, v2), down), env);
        self.times(g.minus(v1, v2), down, env);
        self.minus(v1, v2, env);
        self.over(g.minus(at, top), tf, env);
        self.minus(at, top, env);
        self.setting_is(name, "pulse_v1"@, env);
        self.setting_is(name, "pulse_v2"@, env);
        self.setting_is(name, "pulse_td"@, env);
        self.setting_is(name, "pulse_tr"@, env);
        self.setting_is(name, "pulse_tf"@, env);
        self.setting_is(name, "pulse_pw"@, env);
        self.setting_is(name, "pulse_per"@, env);
        phase_is(
            self.m.at(since, env),
            p.per,
            n,
            phase,
            self.m.at(turns, env),
            self.m.at(whole, env),
        );
        assert(self.m.at(at, env) == phase);
        let u = self.m.at(up, env);
        let d = self.m.at(down, env);
        if phase < p.tr {
            assert((p.v2 - p.v1) * u * p.tr == (p.v2 - p.v1) * phase) by (nonlinear_arith)
                requires
                    u * p.tr == phase,
            ;
        }
        if p.tr + p.pw <= phase < p.tr + p.pw + p.tf {
            let x = phase - (p.tr + p.pw);
            assert((p.v1 - p.v2) * d * p.tf == (p.v1 - p.v2) * x) by (nonlinear_arith)
                requires
                    d * p.tf == x,
            ;
        }
    }

    /// From its delay on a pulse repeats: a period later it has the same value.
    pub proof fn pulse_repeats_every_period(self, name: Seq<char>, t: ExprId, now: Env<real>, later: Env<real>)
        requires
            self.reads(),
            self.m.lives(pulse(self.g, name, t)),
            self.trapezoid(name, later) == self.trapezoid(name, now),
            self.trapezoid(name, now).per > 0real,
            self.m.at(t, now) >= self.trapezoid(name, now).td,
            self.m.at(t, later) == self.m.at(t, now) + self.trapezoid(name, now).per,
        ensures
            self.m.at(pulse(self.g, name, t), later) == self.m.at(pulse(self.g, name, t), now),
    {
        let p = self.trapezoid(name, now);
        let since = self.m.at(t, now) - p.td;
        let q = since / p.per;
        assert(q * p.per == since) by (nonlinear_arith)
            requires
                q == since / p.per,
                p.per > 0real,
        ;
        let fl = (self.c.fun)(Fun1::Floor, q);
        assert(rounds_down(fl, q));
        let n = choose|k: int| is_whole(fl, k);
        let a = n as real;
        let phase = since - a * p.per;
        assert(0real <= since - a * p.per < p.per) by (nonlinear_arith)
            requires
                a <= q < a + 1real,
                q * p.per == since,
                p.per > 0real,
        ;
        assert(((n + 1) as real) * p.per == a * p.per + p.per) by (nonlinear_arith)
            requires
                (n + 1) as real == a + 1real,
        ;
        self.pulse_is_a_trapezoid_in_every_period(name, t, now, n, phase);
        self.pulse_is_a_trapezoid_in_every_period(name, t, later, n + 1, phase);
        let (x, y) = (self.m.at(pulse(self.g, name, t), now), self.m.at(pulse(self.g, name, t), later));
        if phase < p.tr {
            assert(x == y) by (nonlinear_arith)
                requires
                    (x - p.v1) * p.tr == (p.v2 - p.v1) * phase,
                    (y - p.v1) * p.tr == (p.v2 - p.v1) * phase,
                    p.tr > 0real,
            ;
        } else if p.tr + p.pw <= phase < p.tr + p.pw + p.tf {
            let z = phase - (p.tr + p.pw);
            assert(x == y) by (nonlinear_arith)
                requires
                    (x - p.v2) * p.tf == (p.v1 - p.v2) * z,
                    (y - p.v2) * p.tf == (p.v1 - p.v2) * z,
                    p.tf > 0real,
            ;
        }
    }
}

// ---------------------------------------------------------------------------
// Exponential.
// ---------------------------------------------------------------------------
impl Line {
    /// What is left of a step after it has settled from `td` on with the time
    /// constant `tau`.
    pub open spec fn remainder(self, t: real, td: real, tau: real) -> real {
        (self.c.fun)(Fun1::Exp, 0real - (t - td) / tau)
    }

    proof fn settling_is(self, t: ExprId, td: ExprId, tau: ExprId, env: Env<real>)
        requires
            self.reads(),
            self.m.lives(settling(self.g, t, td, tau)),
        ensures
            self.m.lives(t) && self.m.lives(td) && self.m.lives(tau),
            self.m.at(tau, env) != 0real ==> self.m.at(settling(self.g, t, td, tau), env) == 1real - self.remainder(
                self.m.at(t, env),
                self.m.at(td, env),
                self.m.at(tau, env),
            ),
    {
        let g = self.g;
        let q = g.over(g.minus(t, td), tau);
        self.minus(g.one(), g.fun1(Fun1::Exp, g.neg(q)), env);
        self.m.one_is(g, self.c, env);
        self.m.fun_is(g, self.c, Fun1::Exp, g.neg(q), env);
        self.neg(q, env);
        self.over(g.minus(t, td), tau, env);
        self.minus(t, td, env);
        let (x, y, z) = (self.m.at(t, env) - self.m.at(td, env), self.m.at(tau, env), self.m.at(q, env));
        if y != 0real {
            assert(z == x / y) by (nonlinear_arith)
                requires
                    z * y == x,
                    y != 0real,
            ;
        }
    }

    /// An exponential source rests at `v1` before `td1`. From there its distance to
    /// `v2` decays with `tau1`. From `td2` on it falls back towards `v1` with `tau2`,
    /// while the rise goes on.
    pub proof fn exponential_approaches_its_levels(self, name: Seq<char>, t: ExprId, env: Env<real>)
        requires
            self.reads(),
            self.m.lives(exponential(self.g, name, t)),
            self.setting(name, "exp_tau1"@, env) != 0real,
            self.setting(name, "exp_tau2"@, env) != 0real,
        ensures
            ({
                let x = self.m.at(t, env);
                let v = self.m.at(exponential(self.g, name, t), env);
                let (v1, v2) = (self.setting(name, "exp_v1"@, env), self.setting(name, "exp_v2"@, env));
                let (td1, td2) = (self.setting(name, "exp_td1"@, env), self.setting(name, "exp_td2"@, env));
                let rising = self.remainder(x, td1, self.setting(name, "exp_tau1"@, env));
                let falling = self.remainder(x, td2, self.setting(name, "exp_tau2"@, env));
                &&& x < td1 ==> v == v1
                &&& td1 <= x < td2 ==> v2 - v == (v2 - v1) * rising
                &&& td1 <= x && td2 <= x ==> v - v1 == (v2 - v1) * (falling - rising)
            }),
    {
        let g = self.g;
        let v1 = param(g, name, "exp_v1"@);
        let v2 = param(g, name, "exp_v2"@);
        let td1 = param(g, name, "exp_td1"@);
        let tau1 = param(g, name, "exp_tau1"@);
        let td2 = param(g, name, "exp_td2"@);
        let tau2 = param(g, name, "exp_tau2"@);
        let (s1, s2) = (settling(g, t, td1, tau1), settling(g, t, td2, tau2));
        let rise = g.plus(v1, g.times(g.minus(v2, v1), s1));
        let after = g.plus(rise, g.times(g.minus(v1, v2), s2));
        let mid = g.select(g.compare(Rel::Lt, t, td2), rise, after);
        self.choice(t, td1, v1, mid, env);
        self.choice(t, td2, rise, after, env);
        self.plus(rise, g.times(g.minus(v1, v2), s2), env);
        self.plus(v1, g.times(g.minus(v2, v1), s1), env);
        self.times(g.minus(v1, v2), s2, env);
        self.times(g.minus(v2, v1), s1, env);
        self.minus(v1, v2, env);
        self.minus(v2, v1, env);
        self.settling_is(t, td1, tau1, env);
        self.settling_is(t, td2, tau2, env);
        self.setting_is(name, "exp_v1"@, env);
        self.setting_is(name, "exp_v2"@, env);
        self.setting_is(name, "exp_td1"@, env);
        self.setting_is(name, "exp_td2"@, env);
        self.setting_is(name, "exp_tau1"@, env);
        self.setting_is(name, "exp_tau2"@, env);
        let (a, b) = (self.m.at(v1, env), self.m.at(v2, env));
        let x = self.m.at(t, env);
        let r1 = self.remainder(x, self.m.at(td1, env), self.m.at(tau1, env));
        let r2 = self.remainder(x, self.m.at(td2, env), self.m.at(tau2, env));
        assert((b - a) * (1real - r1) == (b - a) - (b - a) * r1) by (nonlinear_arith);
        assert((a - b) * (1real - r2) == (a - b) + (b - a) * r2) by (nonlinear_arith);
        assert((b - a) * (r2 - r1) == (b - a) * r2 - (b - a) * r1) by (nonlinear_arith);
    }
}

// ---------------------------------------------------------------------------
// Piecewise linear.
// ---------------------------------------------------------------------------
impl Line {
    /// The instant of a point.
    pub open spec fn instant(self, name: Seq<char>, i: int, env: Env<real>) -> real {
        env(self.g.symbol(name + ".pwl_t"@ + decimal(i as nat)))
    }

    /// The level of a point.
    pub open spec fn level(self, name: Seq<char>, i: int, env: Env<real>) -> real {
        env(self.g.symbol(name + ".pwl_v"@ + decimal(i as nat)))
    }

    /// The points follow one another in time.
    pub open spec fn in_time(self, name: Seq<char>, n: int, env: Env<real>) -> bool {
        forall|i: int, j: int|
            0 <= i <= j < n ==> #[trigger] self.instant(name, i, env) <= #[trigger] self.instant(name, j, env)
    }

    proof fn segment_is(self, name: Seq<char>, t: ExprId, i: int, env: Env<real>)
        requires
            self.reads(),
            self.m.lives(segment(self.g, name, t, i)),
        ensures
            self.m.lives(t),
            self.instant(name, i, env) < self.instant(name, i + 1, env) ==> (self.m.at(
                segment(self.g, name, t, i),
                env,
            ) - self.level(name, i, env)) * (self.instant(name, i + 1, env) - self.instant(name, i, env)) == (self.level(
                name,
                i + 1,
                env,
            ) - self.level(name, i, env)) * (self.m.at(t, env) - self.instant(name, i, env)),
    {
        let g = self.g;
        let (t0, t1) = (pwl_time(g, name, i), pwl_time(g, name, i + 1));
        let (v0, v1) = (pwl_value(g, name, i), pwl_value(g, name, i + 1));
        let run = g.over(g.minus(t, t0), g.minus(t1, t0));
        self.plus(v0, g.times(g.minus(v1, v0), run), env);
        self.times(g.minus(v1, v0), run, env);
        self.minus(v1, v0, env);
        self.over(g.minus(t, t0), g.minus(t1, t0), env);
        self.minus(t, t0, env);
        self.minus(t1, t0, env);
        self.m.symbol_is(g, name + ".pwl_t"@ + decimal(i as nat), env);
        self.m.symbol_is(g, name + ".pwl_t"@ + decimal((i + 1) as nat), env);
        self.m.symbol_is(g, name + ".pwl_v"@ + decimal(i as nat), env);
        self.m.symbol_is(g, name + ".pwl_v"@ + decimal((i + 1) as nat), env);
        let (r, d) = (self.m.at(run, env), self.instant(name, i + 1, env) - self.instant(name, i, env));
        let (dv, x) = (
            self.level(name, i + 1, env) - self.level(name, i, env),
            self.m.at(t, env) - self.instant(name, i, env),
        );
        if d > 0real {
            assert(dv * r * d == dv * x) by (nonlinear_arith)
                requires
                    r * d == x,
            ;
        }
    }

    proof fn from_is(self, name: Seq<char>, t: ExprId, n: int, i: int, k: int, env: Env<real>)
        requires
            self.reads(),
            0 <= i <= k < n,
            self.m.lives(pwl_from(self.g, name, t, n, i)),
            self.in_time(name, n, env),
            self.instant(name, k, env) <= self.m.at(t, env),
            k + 1 < n ==> self.m.at(t, env) < self.instant(name, k + 1, env),
        ensures
            k + 1 == n ==> self.m.at(pwl_from(self.g, name, t, n, i), env) == self.level(name, k, env),
            k + 1 < n ==> (self.m.at(pwl_from(self.g, name, t, n, i), env) - self.level(name, k, env)) * (self.instant(
                name,
                k + 1,
                env,
            ) - self.instant(name, k, env)) == (self.level(name, k + 1, env) - self.level(name, k, env)) * (self.m.at(
                t,
                env,
            ) - self.instant(name, k, env)),
        decreases n - i,
    {
        let g = self.g;
        if i + 1 >= n {
            self.m.symbol_is(g, name + ".pwl_v"@ + decimal((n - 1) as nat), env);
        } else {
            let (t1, rest) = (pwl_time(g, name, i + 1), pwl_from(g, name, t, n, i + 1));
            self.choice(t, t1, segment(g, name, t, i), rest, env);
            self.m.symbol_is(g, name + ".pwl_t"@ + decimal((i + 1) as nat), env);
            assert(self.m.at(t1, env) == self.instant(name, i + 1, env));
            if i == k {
                self.segment_is(name, t, i, env);
            } else {
                assert(self.instant(name, i + 1, env) <= self.instant(name, k, env));
                self.from_is(name, t, n, i + 1, k, env);
            }
        }
    }

    /// A piecewise linear source goes through its points: it holds the first level
    /// before the first point and the last level from the last point on, and between
    /// two points it is on the straight line that joins them. Without points it is
    /// zero.
    pub proof fn piecewise_goes_through_its_points(
        self,
        name: Seq<char>,
        t: ExprId,
        n: int,
        k: int,
        env: Env<real>,
    )
        requires
            self.reads(),
            n >= 0,
            self.m.lives(piecewise(self.g, name, t, n)),
            self.in_time(name, n, env),
        ensures
            ({
                let x = self.m.at(t, env);
                let v = self.m.at(piecewise(self.g, name, t, n), env);
                &&& n == 0 ==> v == 0real
                &&& n > 0 && x < self.instant(name, 0, env) ==> v == self.level(name, 0, env)
                &&& n > 0 && self.instant(name, n - 1, env) <= x ==> v == self.level(name, n - 1, env)
                &&& 0 <= k && k + 1 < n && self.instant(name, k, env) <= x < self.instant(name, k + 1, env) ==> (v
                    - self.level(name, k, env)) * (self.instant(name, k + 1, env) - self.instant(name, k, env)) == (
                self.level(name, k + 1, env) - self.level(name, k, env)) * (x - self.instant(name, k, env))
            }),
    {
        let g = self.g;
        self.m.zero_is(g, env);
        if n > 0 {
            let first = pwl_time(g, name, 0);
            self.choice(t, first, pwl_value(g, name, 0), pwl_from(g, name, t, n, 0), env);
            self.m.symbol_is(g, name + ".pwl_t"@ + decimal(0), env);
            self.m.symbol_is(g, name + ".pwl_v"@ + decimal(0), env);
            assert(self.m.at(first, env) == self.instant(name, 0, env));
            assert(self.instant(name, 0, env) <= self.instant(name, n - 1, env));
            if self.instant(name, n - 1, env) <= self.m.at(t, env) {
                self.from_is(name, t, n, 0, n - 1, env);
            }
            if 0 <= k && k + 1 < n && self.instant(name, k, env) <= self.m.at(t, env) < self.instant(
                name,
                k + 1,
                env,
            ) {
                assert(self.instant(name, 0, env) <= self.instant(name, k, env));
                self.from_is(name, t, n, 0, k, env);
            }
        }
    }
}

} // verus!

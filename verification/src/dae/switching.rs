//! What the switches are on real values: their conductance, their current and their
//! switching surfaces.
use crate::dae::meaning::Env;
use crate::dae::shapes::Line;
use crate::device::{clamped, conductance, smooth_conductance, switch_current, switch_edge};
use crate::numerics::Rel;
use crate::symbolic::{ExprId, Fun1};
use vstd::prelude::*;

verus! {

/// A value brought into the interval from zero to one.
pub open spec fn bounded(x: real) -> real {
    if x < 0real {
        0real
    } else if x > 1real {
        1real
    } else {
        x
    }
}

impl Line {
    proof fn above(self, a: ExprId, b: ExprId, x: ExprId, y: ExprId, env: Env<real>)
        requires
            self.reads(),
            self.m.lives(self.g.select(self.g.compare(Rel::Gt, a, b), x, y)),
        ensures
            self.m.lives(a) && self.m.lives(b) && self.m.lives(x) && self.m.lives(y),
            self.m.at(self.g.select(self.g.compare(Rel::Gt, a, b), x, y), env) == (if self.m.at(a, env) > self.m.at(
                b,
                env,
            ) {
                self.m.at(x, env)
            } else {
                self.m.at(y, env)
            }),
    {
        self.m.choice_is(self.g, self.c, Rel::Gt, a, b, x, y, env);
    }

    /// What is clamped stays within zero and one, and is unchanged where it was there.
    pub proof fn clamping_bounds(self, x: ExprId, env: Env<real>)
        requires
            self.reads(),
            self.m.lives(clamped(self.g, x)),
        ensures
            self.m.lives(x),
            self.m.at(clamped(self.g, x), env) == bounded(self.m.at(x, env)),
    {
        let g = self.g;
        let lo = g.select(g.compare(Rel::Gt, x, g.zero()), x, g.zero());
        self.choice(lo, g.one(), lo, g.one(), env);
        self.m.one_is(g, self.c, env);
        self.above(x, g.zero(), x, g.zero(), env);
        self.m.zero_is(g, env);
    }

    /// A soft switch moves from off to on along the logarithm of its conductance: the
    /// fraction of the way is zero up to the lower edge of the window, one from the
    /// upper edge on, and `u^2 (3 - 2u)` a fraction `u` into it.
    pub proof fn soft_switch_moves_across_its_window(
        self,
        ctrl: ExprId,
        center: ExprId,
        vh: ExprId,
        on: ExprId,
        off: ExprId,
        u: real,
        env: Env<real>,
    )
        requires
            self.reads(),
            self.m.lives(smooth_conductance(self.g, ctrl, center, vh, on, off)),
            self.m.at(vh, env) > 0real,
            self.m.at(ctrl, env) == self.m.at(center, env) + (2real * u - 1real) * self.m.at(vh, env),
        ensures
            ({
                let w = bounded(u);
                let (lo, hi) = (
                    (self.c.fun)(Fun1::Ln, self.m.at(off, env)),
                    (self.c.fun)(Fun1::Ln, self.m.at(on, env)),
                );
                &&& self.m.at(smooth_conductance(self.g, ctrl, center, vh, on, off), env) == (self.c.fun)(
                    Fun1::Exp,
                    lo + (w * w * (3real - 2real * w)) * (hi - lo),
                )
                &&& u <= 0real ==> self.m.at(smooth_conductance(self.g, ctrl, center, vh, on, off), env) == (
                self.c.fun)(Fun1::Exp, lo)
                &&& u >= 1real ==> self.m.at(smooth_conductance(self.g, ctrl, center, vh, on, off), env) == (
                self.c.fun)(Fun1::Exp, hi)
            }),
    {
        let g = self.g;
        let two = g.whole(2);
        let three = g.whole(3);
        let low = g.minus(center, vh);
        let q = g.over(g.minus(ctrl, low), g.times(two, vh));
        let k = clamped(g, q);
        let rest = g.minus(three, g.times(two, k));
        let s = g.times(g.power(k, 2), rest);
        let ln_off = g.fun1(Fun1::Ln, off);
        let ln_on = g.fun1(Fun1::Ln, on);
        let d = g.minus(ln_on, ln_off);
        self.m.fun_is(g, self.c, Fun1::Exp, g.plus(ln_off, g.times(s, d)), env);
        self.plus(ln_off, g.times(s, d), env);
        self.times(s, d, env);
        self.minus(ln_on, ln_off, env);
        self.m.fun_is(g, self.c, Fun1::Ln, off, env);
        self.m.fun_is(g, self.c, Fun1::Ln, on, env);
        self.times(g.power(k, 2), rest, env);
        self.m.power_is(g, self.c, k, 2, env);
        self.minus(three, g.times(two, k), env);
        self.times(two, k, env);
        self.clamping_bounds(q, env);
        self.over(g.minus(ctrl, low), g.times(two, vh), env);
        self.minus(ctrl, low, env);
        self.minus(center, vh, env);
        self.times(two, vh, env);
        self.counted(2, env);
        self.counted(3, env);
        let (x, h, v) = (self.m.at(q, env), self.m.at(vh, env), self.m.at(k, env));
        let reach = self.m.at(ctrl, env) - (self.m.at(center, env) - h);
        assert(reach == 2real * u * h) by (nonlinear_arith)
            requires
                reach == (2real * u - 1real) * h + h,
        ;
        assert(x == u) by (nonlinear_arith)
            requires
                x * (2real * h) == 2real * u * h,
                h > 0real,
        ;
        self.squared(v);
        let p = self.m.at(d, env);
        if u <= 0real {
            assert(0real * 0real * (3real - 2real * 0real) == 0real) by (nonlinear_arith);
            assert(0real * p == 0real) by (nonlinear_arith);
        }
        if u >= 1real {
            assert(1real * 1real * (3real - 2real * 1real) == 1real) by (nonlinear_arith);
            assert(1real * p == p) by (nonlinear_arith);
        }
    }

    proof fn squared(self, v: real)
        requires
            self.reads(),
        ensures
            self.m.field.raised(v, 2) == v * v,
    {
        let f = self.m.field;
        reveal_with_fuel(crate::dae::meaning::Field::raised, 3);
        assert(1real * v == v) by (nonlinear_arith);
    }

    proof fn counted(self, n: i64, env: Env<real>)
        requires
            self.reads(),
            n == 2 || n == 3,
            self.m.lives(self.g.whole(n)),
        ensures
            self.m.at(self.g.whole(n), env) == n as real,
    {
        self.m.whole_is(self.g, self.c, n, env);
        reveal_with_fuel(crate::dae::meaning::Field::counted, 4);
    }

    /// A switch with a positive half-width is soft. Without one it is on above its
    /// center and off elsewhere.
    pub proof fn hard_switch_flips_at_its_center(
        self,
        ctrl: ExprId,
        center: ExprId,
        vh: ExprId,
        on: ExprId,
        off: ExprId,
        env: Env<real>,
    )
        requires
            self.reads(),
            self.m.lives(conductance(self.g, ctrl, center, vh, on, off)),
        ensures
            ({
                let v = self.m.at(conductance(self.g, ctrl, center, vh, on, off), env);
                let soft = self.m.at(vh, env) > 0real;
                &&& soft ==> v == self.m.at(smooth_conductance(self.g, ctrl, center, vh, on, off), env)
                &&& !soft && self.m.at(ctrl, env) > self.m.at(center, env) ==> v == self.m.at(on, env)
                &&& !soft && self.m.at(ctrl, env) <= self.m.at(center, env) ==> v == self.m.at(off, env)
            }),
    {
        let g = self.g;
        let smooth = smooth_conductance(g, ctrl, center, vh, on, off);
        let hard = g.select(g.compare(Rel::Gt, ctrl, center), on, off);
        self.above(vh, g.zero(), smooth, hard, env);
        self.above(ctrl, center, on, off, env);
        self.m.zero_is(g, env);
    }

    /// The current through a switch without a window obeys the resistance that it
    /// has: `Ron` above its threshold, `Roff` elsewhere.
    pub proof fn switched_resistance_drives_the_current(
        self,
        name: Seq<char>,
        va: ExprId,
        vb: ExprId,
        ictrl: ExprId,
        env: Env<real>,
    )
        requires
            self.reads(),
            self.m.lives(switch_current(self.g, name, va, vb, ictrl)),
            self.setting(name, "Ih"@, env) <= 0real,
            self.setting(name, "Ron"@, env) != 0real,
            self.setting(name, "Roff"@, env) != 0real,
        ensures
            ({
                let i = self.m.at(switch_current(self.g, name, va, vb, ictrl), env);
                let v = self.m.at(va, env) - self.m.at(vb, env);
                &&& self.m.at(ictrl, env) > self.setting(name, "It"@, env) ==> i * self.setting(name, "Ron"@, env) == v
                &&& self.m.at(ictrl, env) <= self.setting(name, "It"@, env) ==> i * self.setting(name, "Roff"@, env)
                    == v
            }),
    {
        let g = self.g;
        settings_are_spelled(name);
        let ron = g.sym(name + ".Ron"@);
        let roff = g.sym(name + ".Roff"@);
        let it = g.sym(name + ".It"@);
        let ih = g.sym(name + ".Ih"@);
        let k = conductance(g, ictrl, it, ih, g.recip(ron), g.recip(roff));
        self.times(k, g.minus(va, vb), env);
        self.minus(va, vb, env);
        self.hard_switch_flips_at_its_center(ictrl, it, ih, g.recip(ron), g.recip(roff), env);
        self.conductance_parts(ictrl, it, ih, g.recip(ron), g.recip(roff), env);
        self.m.recip_is(g, self.c, ron, env);
        self.m.recip_is(g, self.c, roff, env);
        self.m.symbol_is(g, name + ".Ron"@, env);
        self.m.symbol_is(g, name + ".Roff"@, env);
        self.m.symbol_is(g, name + ".It"@, env);
        self.m.symbol_is(g, name + ".Ih"@, env);
        let (r, s) = (self.setting(name, "Ron"@, env), self.setting(name, "Roff"@, env));
        let v = self.m.at(va, env) - self.m.at(vb, env);
        assert((1real / r) * v * r == v) by (nonlinear_arith)
            requires
                r != 0real,
        ;
        assert((1real / s) * v * s == v) by (nonlinear_arith)
            requires
                s != 0real,
        ;
    }

    proof fn conductance_parts(
        self,
        ctrl: ExprId,
        center: ExprId,
        vh: ExprId,
        on: ExprId,
        off: ExprId,
        env: Env<real>,
    )
        requires
            self.reads(),
            self.m.lives(conductance(self.g, ctrl, center, vh, on, off)),
        ensures
            self.m.lives(ctrl) && self.m.lives(center) && self.m.lives(vh) && self.m.lives(on) && self.m.lives(off),
    {
        let g = self.g;
        let smooth = smooth_conductance(g, ctrl, center, vh, on, off);
        let hard = g.select(g.compare(Rel::Gt, ctrl, center), on, off);
        self.above(vh, g.zero(), smooth, hard, env);
        self.above(ctrl, center, on, off, env);
    }

    /// The switching surfaces of a switch are the edges of its window: the lower one
    /// vanishes where the control is `Ih` below `It`, the upper one where it is `Ih`
    /// above, and both grow with the control.
    pub proof fn switching_surfaces_are_the_edges(
        self,
        name: Seq<char>,
        ictrl: ExprId,
        upper: bool,
        env: Env<real>,
    )
        requires
            self.reads(),
            self.m.lives(switch_edge(self.g, name, ictrl, upper)),
        ensures
            self.m.at(switch_edge(self.g, name, ictrl, upper), env) == self.m.at(ictrl, env) - self.setting(
                name,
                "It"@,
                env,
            ) + (if upper {
                0real - self.setting(name, "Ih"@, env)
            } else {
                self.setting(name, "Ih"@, env)
            }),
    {
        let g = self.g;
        settings_are_spelled(name);
        let it = g.sym(name + ".It"@);
        let ih = g.sym(name + ".Ih"@);
        if upper {
            self.minus(ictrl, g.plus(it, ih), env);
            self.plus(it, ih, env);
        } else {
            self.minus(ictrl, g.minus(it, ih), env);
            self.minus(it, ih, env);
        }
        self.m.symbol_is(g, name + ".It"@, env);
        self.m.symbol_is(g, name + ".Ih"@, env);
    }
}

proof fn settings_are_spelled(name: Seq<char>)
    ensures
        name + ".Ron"@ == name + "."@ + "Ron"@,
        name + ".Roff"@ == name + "."@ + "Roff"@,
        name + ".It"@ == name + "."@ + "It"@,
        name + ".Ih"@ == name + "."@ + "Ih"@,
{
    reveal_strlit(".Ron");
    reveal_strlit("Ron");
    reveal_strlit(".Roff");
    reveal_strlit("Roff");
    reveal_strlit(".It");
    reveal_strlit("It");
    reveal_strlit(".Ih");
    reveal_strlit("Ih");
    reveal_strlit(".");
    assert(name + ".Ron"@ =~= name + "."@ + "Ron"@);
    assert(name + ".Roff"@ =~= name + "."@ + "Roff"@);
    assert(name + ".It"@ =~= name + "."@ + "It"@);
    assert(name + ".Ih"@ =~= name + "."@ + "Ih"@);
}

} // verus!

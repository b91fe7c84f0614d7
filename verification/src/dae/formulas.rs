//! What behavioral formulas, forced voltages and noise generators are on values.
use crate::circuit::{value_symbol, BTerm, BehavioralView};
use crate::dae::assemble::{
    forced_row, thermal_noise, translated, translated_all, value_of, volt,
};
use crate::dae::meaning::{Env, Meaning};
use crate::dae::reading::Functions;
use crate::dae::relations::{last_named_is, named_last};
use crate::numerics::{whole, Answers, Rel};
use crate::symbolic::{Fun1, Graph};
use crate::text::lower;
use vstd::prelude::*;

verus! {

/// The comparison that an operator of a formula is.
pub open spec fn comparison(op: char) -> Option<Rel> {
    match op {
        '<' => Some(Rel::Lt),
        '>' => Some(Rel::Gt),
        'l' => Some(Rel::Le),
        'g' => Some(Rel::Ge),
        'e' => Some(Rel::Eq),
        'n' => Some(Rel::Ne),
        _ => None,
    }
}

impl<V> Meaning<V> {
    /// The value of a formula.
    pub open spec fn formula(self, h: Answers, g: Graph, names: Seq<Seq<char>>, e: BTerm, env: Env<V>) -> V {
        self.at(translated(h, g, names, e), env)
    }

    /// The leaves of a formula: a literal is its number, a node its voltage, a branch
    /// its current, `time` the time in whatever case, and another name its symbol.
    pub proof fn leaves_of_formulas(self, h: Answers, g: Graph, names: Seq<Seq<char>>, e: BTerm, env: Env<V>)
        requires
            self.sound(g),
            self.lives(translated(h, g, names, e)),
        ensures
            forall|b: u64| e == BTerm::Const(b) ==> self.formula(h, g, names, e, env) == #[trigger] (self.literal)(b),
            forall|n: usize|
                e == BTerm::NodeV(n) ==> self.formula(h, g, names, e, env) == #[trigger] self.potential(g, n, env),
            forall|n: Seq<char>, k: int|
                #![trigger named_last(names, n, k)]
                e == BTerm::BranchI(n) && named_last(names, n, k) ==> self.formula(h, g, names, e, env) == env(
                    g.symbol("i_"@ + names[k]),
                ),
            forall|n: Seq<char>|
                e == BTerm::Param(n) && #[trigger] lower(n) == "time"@ ==> self.formula(h, g, names, e, env) == env(
                    g.symbol("t"@),
                ),
            forall|n: Seq<char>|
                e == BTerm::Param(n) && #[trigger] lower(n) != "time"@ ==> self.formula(h, g, names, e, env) == env(
                    g.symbol(n),
                ),
    {
        match e {
            BTerm::Const(b) => {
                self.number_is(g, b, env);
            },
            BTerm::NodeV(n) => {
                self.volt_is(g, n, env);
            },
            BTerm::BranchI(n) => {
                assert forall|k: int| #[trigger] named_last(names, n, k) implies self.formula(h, g, names, e, env)
                    == env(g.symbol("i_"@ + names[k])) by {
                    last_named_is(names, n, k, names.len() as int);
                    self.symbol_is(g, "i_"@ + names[k], env);
                }
            },
            BTerm::Param(n) => {
                if lower(n) == "time"@ {
                    self.symbol_is(g, "t"@, env);
                } else {
                    self.symbol_is(g, n, env);
                }
            },
            _ => {},
        }
    }

    /// The operators of a formula, on the values of its operands: the left one first.
    /// A power with a small whole exponent is a repeated product, any other one
    /// `exp(y ln x)`; a comparison is one or zero.
    pub proof fn operators_of_formulas(
        self,
        h: Answers,
        g: Graph,
        c: Functions<V>,
        names: Seq<Seq<char>>,
        op: char,
        a: BTerm,
        b: BTerm,
        env: Env<V>,
    )
        requires
            self.sound(g),
            self.reads(g, c),
            self.lives(translated(h, g, names, BTerm::Bin(op, Box::new(a), Box::new(b)))),
        ensures
            ({
                let f = self.field;
                let x = self.formula(h, g, names, a, env);
                let y = self.formula(h, g, names, b, env);
                let r = self.formula(h, g, names, BTerm::Bin(op, Box::new(a), Box::new(b)), env);
                let n = match b {
                    BTerm::Const(bits) => whole(h, bits),
                    _ => None,
                };
                &&& op == '+' ==> r == (f.plus)(x, y)
                &&& op == '-' ==> (f.plus)(r, y) == x
                &&& op == '*' ==> r == (f.times)(x, y)
                &&& op == '/' && y != f.zero ==> (f.times)(r, y) == x
                &&& op == '^' && n is Some && 0 <= n->0 < 64 ==> r == f.raised(x, n->0 as nat)
                &&& op == '^' && n is Some && -64 < n->0 < 0 && x != f.zero ==> r == (f.recip)(
                    f.raised(x, (-(n->0)) as nat),
                )
                &&& op == '^' && !(n is Some && -64 < n->0 < 64) ==> r == (c.fun)(
                    Fun1::Exp,
                    (f.times)(y, (c.fun)(Fun1::Ln, x)),
                )
                &&& comparison(op) is Some ==> r == (if (c.holds)(comparison(op)->0, x, y) {
                    f.one
                } else {
                    f.zero
                })
            }),
    {
        let f = self.field;
        let (l, r) = (translated(h, g, names, a), translated(h, g, names, b));
        let (x, y) = (self.at(l, env), self.at(r, env));
        self.zero_is(g, env);
        if op == '+' {
            self.plus_is(g, l, r, env);
        } else if op == '-' {
            self.minus_is(g, c, l, r, env);
            f.completes(x, y);
        } else if op == '*' {
            self.times_is(g, l, r, env);
        } else if op == '/' {
            self.over_is(g, c, l, r, env);
            if y != f.zero {
                f.divided(x, y);
            }
        } else if op == '^' {
            let n = match b {
                BTerm::Const(bits) => whole(h, bits),
                _ => None,
            };
            if n is Some && -64 < n->0 < 64 {
                self.power_is(g, c, l, n->0, env);
            } else {
                let ln = g.fun1(Fun1::Ln, l);
                self.fun_is(g, c, Fun1::Exp, g.times(r, ln), env);
                self.times_is(g, r, ln, env);
                self.fun_is(g, c, Fun1::Ln, l, env);
            }
        } else if comparison(op) is Some {
            self.compare_is(g, c, comparison(op)->0, l, r, env);
        }
    }

    /// A sign turns the value of a formula round.
    pub proof fn signs_of_formulas(self, h: Answers, g: Graph, names: Seq<Seq<char>>, a: BTerm, env: Env<V>)
        requires
            self.sound(g),
            self.lives(translated(h, g, names, BTerm::Neg(Box::new(a)))),
        ensures
            (self.field.plus)(
                self.formula(h, g, names, a, env),
                self.formula(h, g, names, BTerm::Neg(Box::new(a)), env),
            ) == self.field.zero,
    {
        let x = self.formula(h, g, names, a, env);
        self.neg_is(g, translated(h, g, names, a), env);
        self.zero_is(g, env);
        self.field.sums(x, x, x);
    }

    /// `if` takes its second argument where the first is not zero, else its third.
    pub proof fn choices_of_formulas(
        self,
        h: Answers,
        g: Graph,
        c: Functions<V>,
        names: Seq<Seq<char>>,
        x: BTerm,
        y: BTerm,
        z: BTerm,
        env: Env<V>,
    )
        requires
            self.sound(g),
            self.reads(g, c),
            self.lives(translated(h, g, names, BTerm::Call("if"@, seq![x, y, z]))),
        ensures
            self.formula(h, g, names, BTerm::Call("if"@, seq![x, y, z]), env) == (if self.formula(h, g, names, x, env)
                != self.field.zero {
                self.formula(h, g, names, y, env)
            } else {
                self.formula(h, g, names, z, env)
            }),
    {
        let v = seq![x, y, z];
        assert(v.drop_last() =~= seq![x, y]);
        assert(seq![x, y].drop_last() =~= seq![x]);
        assert(seq![x].drop_last() =~= Seq::<BTerm>::empty());
        reveal_with_fuel(translated_all, 4);
        let t = translated_all(h, g, names, v);
        assert(t =~= seq![translated(h, g, names, x), translated(h, g, names, y), translated(h, g, names, z)]);
        self.select_is(
            g,
            c,
            translated(h, g, names, x),
            translated(h, g, names, y),
            translated(h, g, names, z),
            env,
        );
    }

    /// The row of a forced voltage vanishes exactly where the voltage from `a` to `b`
    /// is what the formula says.
    pub proof fn forced_rows_are_their_formulas(
        self,
        h: Answers,
        g: Graph,
        c: Functions<V>,
        names: Seq<Seq<char>>,
        b: BehavioralView,
        env: Env<V>,
    )
        requires
            self.sound(g),
            self.reads(g, c),
            self.lives(forced_row(h, g, names, b)),
        ensures
            self.at(forced_row(h, g, names, b), env) == self.field.zero <==> self.across(g, b.a, b.b, env)
                == self.formula(h, g, names, b.expr, env),
    {
        let dv = g.minus(volt(g, b.a), volt(g, b.b));
        let e = translated(h, g, names, b.expr);
        self.minus_is(g, c, dv, e, env);
        self.difference_is(g, c, b.a, b.b, env);
        self.zero_is(g, env);
        self.field.differs_by_nothing(self.across(g, b.a, b.b, env), self.at(e, env));
    }

    /// The thermal noise of a resistor: its spectral density times the resistance is
    /// four times the Boltzmann constant times the temperature, between the nodes of
    /// the resistor and at every frequency alike.
    pub proof fn thermal_noise_follows_the_temperature(
        self,
        g: Graph,
        c: Functions<V>,
        four_k: u64,
        r: (Seq<char>, usize, usize),
        env: Env<V>,
    )
        requires
            self.sound(g),
            self.reads(g, c),
            self.lives(thermal_noise(g, four_k, r).psd),
            self.worth(g, r.0, env) != self.field.zero,
        ensures
            (self.field.times)(self.at(thermal_noise(g, four_k, r).psd, env), self.worth(g, r.0, env)) == (
            self.field.times)((self.literal)(four_k), env(g.symbol("$temp"@))),
            r.1 != 0 ==> thermal_noise(g, four_k, r).hi is Some && env(thermal_noise(g, four_k, r).hi->0)
                == self.potential(g, r.1, env),
            r.2 != 0 ==> thermal_noise(g, four_k, r).lo is Some && env(thermal_noise(g, four_k, r).lo->0)
                == self.potential(g, r.2, env),
            r.1 == 0 ==> thermal_noise(g, four_k, r).hi is None,
            r.2 == 0 ==> thermal_noise(g, four_k, r).lo is None,
            self.at(thermal_noise(g, four_k, r).flicker_exp, env) == self.field.zero,
    {
        let own = value_of(g, r.0);
        let heat = g.times(g.number(four_k), g.sym("$temp"@));
        self.times_is(g, heat, g.recip(own), env);
        self.recip_is(g, c, own, env);
        self.symbol_is(g, value_symbol(r.0), env);
        self.times_is(g, g.number(four_k), g.sym("$temp"@), env);
        self.number_is(g, four_k, env);
        self.symbol_is(g, "$temp"@, env);
        self.zero_is(g, env);
        self.field.divided(self.at(heat, env), self.worth(g, r.0, env));
    }
}

/// `pwr` is another name of `pow`.
pub proof fn powers_have_two_names(h: Answers, g: Graph, names: Seq<Seq<char>>, args: Seq<BTerm>)
    ensures
        translated(h, g, names, BTerm::Call("pwr"@, args)) == translated(h, g, names, BTerm::Call("pow"@, args)),
{
    reveal_strlit("pwr");
    reveal_strlit("pow");
    reveal_strlit("if");
    assert("pwr"@.len() == 3 && "pow"@.len() == 3 && "if"@.len() == 2);
}

} // verus!

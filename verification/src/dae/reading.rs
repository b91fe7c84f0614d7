//! Reading expressions: the value of each operation in terms of the values of what
//! it is applied to.
use crate::dae::meaning::{Env, Field, Meaning};
use crate::numerics::Rel;
use crate::symbolic::{ExprId, Fun1, Graph};
use vstd::prelude::*;

verus! {

impl<V> Field<V> {
    /// The difference of two values.
    pub open spec fn less(self, a: V, b: V) -> V {
        (self.plus)(a, (self.neg)(b))
    }

    /// A value times itself, `n` times.
    pub open spec fn raised(self, a: V, n: nat) -> V
        decreases n,
    {
        if n == 0 {
            self.one
        } else {
            (self.times)(self.raised(a, (n - 1) as nat), a)
        }
    }

    /// The value of a whole number: as many times one.
    pub open spec fn counted(self, n: nat) -> V
        decreases n,
    {
        if n == 0 {
            self.zero
        } else {
            (self.plus)(self.counted((n - 1) as nat), self.one)
        }
    }

    /// Two values differ by nothing exactly where they are the same.
    pub(crate) proof fn differs_by_nothing(self, a: V, b: V)
        requires
            self.obeys(),
        ensures
            self.less(a, b) == self.zero <==> a == b,
    {
        let n = (self.neg)(b);
        self.sums(b, n, n);
        if self.less(a, b) == self.zero {
            self.sums(a, n, b);
            self.sums(n, b, b);
            self.sums(a, b, b);
            self.sums(b, b, b);
        }
    }

    /// A difference is what is missing.
    pub(crate) proof fn completes(self, a: V, b: V)
        requires
            self.obeys(),
        ensures
            (self.plus)(self.less(a, b), b) == a,
    {
        let n = (self.neg)(b);
        self.sums(a, n, b);
        self.sums(n, b, b);
        self.sums(b, n, b);
        self.sums(a, b, b);
    }

    /// A product with a reciprocal is a quotient.
    pub(crate) proof fn divided(self, a: V, b: V)
        requires
            self.obeys(),
            b != self.zero,
        ensures
            (self.times)((self.times)(a, (self.recip)(b)), b) == a,
    {
        let r = (self.recip)(b);
        self.products(a, r, b);
        self.products(r, b, b);
        self.products(b, r, b);
        self.products(a, self.one, b);
    }
}

/// What the functions and the comparisons of a graph are on values.
#[verifier::reject_recursive_types(V)]
pub struct Functions<V> {
    pub fun: spec_fn(Fun1, V) -> V,
    pub holds: spec_fn(Rel, V, V) -> bool,
}

impl<V> Meaning<V> {
    /// Differences, quotients, functions, comparisons and selections mean what they
    /// say, and are made of expressions.
    #[verifier::opaque]
    pub open spec fn reads(self, g: Graph, c: Functions<V>) -> bool {
        let f = self.field;
        &&& forall|env: Env<V>| self.lives(g.one()) ==> #[trigger] self.at(g.one(), env) == f.one
        &&& forall|n: i64, env: Env<V>|
            self.lives(g.whole(n)) && n >= 0 ==> #[trigger] self.at(g.whole(n), env) == f.counted(n as nat)
        &&& forall|a: ExprId, b: ExprId| #[trigger] self.lives(g.minus(a, b)) ==> self.lives(a) && self.lives(b)
        &&& forall|a: ExprId, b: ExprId, env: Env<V>|
            self.lives(g.minus(a, b)) ==> #[trigger] self.at(g.minus(a, b), env) == f.less(
                self.at(a, env),
                self.at(b, env),
            )
        &&& forall|a: ExprId, b: ExprId| #[trigger] self.lives(g.over(a, b)) ==> self.lives(a) && self.lives(b)
        &&& forall|a: ExprId, b: ExprId, env: Env<V>|
            self.lives(g.over(a, b)) && self.at(b, env) != f.zero ==> #[trigger] self.at(g.over(a, b), env) == (
            f.times)(self.at(a, env), (f.recip)(self.at(b, env)))
        &&& forall|a: ExprId| #[trigger] self.lives(g.recip(a)) ==> self.lives(a)
        &&& forall|a: ExprId, env: Env<V>|
            self.lives(g.recip(a)) && self.at(a, env) != f.zero ==> #[trigger] self.at(g.recip(a), env) == (f.recip)(
                self.at(a, env),
            )
        &&& forall|a: ExprId, n: i64| #[trigger] self.lives(g.power(a, n)) ==> self.lives(a)
        &&& forall|a: ExprId, n: i64, env: Env<V>|
            self.lives(g.power(a, n)) && n >= 0 ==> #[trigger] self.at(g.power(a, n), env) == f.raised(
                self.at(a, env),
                n as nat,
            )
        &&& forall|a: ExprId, n: i64, env: Env<V>|
            self.lives(g.power(a, n)) && n < 0 && self.at(a, env) != f.zero ==> #[trigger] self.at(g.power(a, n), env)
                == (f.recip)(f.raised(self.at(a, env), (-n) as nat))
        &&& forall|k: Fun1, a: ExprId| #[trigger] self.lives(g.fun1(k, a)) ==> self.lives(a)
        &&& forall|k: Fun1, a: ExprId, env: Env<V>|
            self.lives(g.fun1(k, a)) && k != Fun1::Neg && k != Fun1::Recip ==> #[trigger] self.at(g.fun1(k, a), env)
                == (c.fun)(k, self.at(a, env))
        &&& forall|r: Rel, a: ExprId, b: ExprId| #[trigger]
            self.lives(g.compare(r, a, b)) ==> self.lives(a) && self.lives(b)
        &&& forall|r: Rel, a: ExprId, b: ExprId, env: Env<V>|
            self.lives(g.compare(r, a, b)) ==> #[trigger] self.at(g.compare(r, a, b), env) == (if (c.holds)(
                r,
                self.at(a, env),
                self.at(b, env),
            ) {
                f.one
            } else {
                f.zero
            })
        &&& forall|a: ExprId, b: ExprId, d: ExprId| #[trigger]
            self.lives(g.select(a, b, d)) ==> self.lives(a) && self.lives(b) && self.lives(d)
        &&& forall|a: ExprId, b: ExprId, d: ExprId, env: Env<V>|
            self.lives(g.select(a, b, d)) ==> #[trigger] self.at(g.select(a, b, d), env) == (if self.at(a, env)
                != f.zero {
                self.at(b, env)
            } else {
                self.at(d, env)
            })
    }

    pub(crate) proof fn symbol_is(self, g: Graph, name: Seq<char>, env: Env<V>)
        requires
            self.sound(g),
            self.lives(g.sym(name)),
        ensures
            self.at(g.sym(name), env) == env(g.symbol(name)),
    {
        reveal(Meaning::sound);
    }

    pub(crate) proof fn zero_is(self, g: Graph, env: Env<V>)
        requires
            self.sound(g),
        ensures
            self.field.obeys(),
            self.lives(g.zero()),
            self.at(g.zero(), env) == self.field.zero,
    {
        reveal(Meaning::sound);
    }

    pub(crate) proof fn number_is(self, g: Graph, b: u64, env: Env<V>)
        requires
            self.sound(g),
            self.lives(g.number(b)),
        ensures
            self.at(g.number(b), env) == (self.literal)(b),
    {
        reveal(Meaning::sound);
    }

    pub(crate) proof fn plus_is(self, g: Graph, a: ExprId, b: ExprId, env: Env<V>)
        requires
            self.sound(g),
            self.lives(g.plus(a, b)),
        ensures
            self.lives(a) && self.lives(b),
            self.at(g.plus(a, b), env) == (self.field.plus)(self.at(a, env), self.at(b, env)),
    {
        reveal(Meaning::sound);
    }

    pub(crate) proof fn times_is(self, g: Graph, a: ExprId, b: ExprId, env: Env<V>)
        requires
            self.sound(g),
            self.lives(g.times(a, b)),
        ensures
            self.lives(a) && self.lives(b),
            self.at(g.times(a, b), env) == (self.field.times)(self.at(a, env), self.at(b, env)),
    {
        reveal(Meaning::sound);
    }

    pub(crate) proof fn neg_is(self, g: Graph, a: ExprId, env: Env<V>)
        requires
            self.sound(g),
            self.lives(g.neg(a)),
        ensures
            self.lives(a),
            self.at(g.neg(a), env) == (self.field.neg)(self.at(a, env)),
    {
        reveal(Meaning::sound);
    }

    pub(crate) proof fn minus_is(self, g: Graph, c: Functions<V>, a: ExprId, b: ExprId, env: Env<V>)
        requires
            self.reads(g, c),
            self.lives(g.minus(a, b)),
        ensures
            self.lives(a) && self.lives(b),
            self.at(g.minus(a, b), env) == self.field.less(self.at(a, env), self.at(b, env)),
    {
        reveal(Meaning::reads);
    }

    pub(crate) proof fn over_is(self, g: Graph, c: Functions<V>, a: ExprId, b: ExprId, env: Env<V>)
        requires
            self.reads(g, c),
            self.lives(g.over(a, b)),
        ensures
            self.lives(a) && self.lives(b),
            self.at(b, env) != self.field.zero ==> self.at(g.over(a, b), env) == (self.field.times)(
                self.at(a, env),
                (self.field.recip)(self.at(b, env)),
            ),
    {
        reveal(Meaning::reads);
    }

    pub(crate) proof fn recip_is(self, g: Graph, c: Functions<V>, a: ExprId, env: Env<V>)
        requires
            self.reads(g, c),
            self.lives(g.recip(a)),
        ensures
            self.lives(a),
            self.at(a, env) != self.field.zero ==> self.at(g.recip(a), env) == (self.field.recip)(self.at(a, env)),
    {
        reveal(Meaning::reads);
    }

    pub(crate) proof fn power_is(self, g: Graph, c: Functions<V>, a: ExprId, n: i64, env: Env<V>)
        requires
            self.reads(g, c),
            self.lives(g.power(a, n)),
        ensures
            self.lives(a),
            n >= 0 ==> self.at(g.power(a, n), env) == self.field.raised(self.at(a, env), n as nat),
            n < 0 && self.at(a, env) != self.field.zero ==> self.at(g.power(a, n), env) == (self.field.recip)(
                self.field.raised(self.at(a, env), (-n) as nat),
            ),
    {
        reveal(Meaning::reads);
    }

    pub(crate) proof fn whole_is(self, g: Graph, c: Functions<V>, n: i64, env: Env<V>)
        requires
            self.reads(g, c),
            self.lives(g.whole(n)),
            n >= 0,
        ensures
            self.at(g.whole(n), env) == self.field.counted(n as nat),
    {
        reveal(Meaning::reads);
    }

    pub(crate) proof fn one_is(self, g: Graph, c: Functions<V>, env: Env<V>)
        requires
            self.reads(g, c),
            self.lives(g.one()),
        ensures
            self.at(g.one(), env) == self.field.one,
    {
        reveal(Meaning::reads);
    }

    pub(crate) proof fn fun_is(self, g: Graph, c: Functions<V>, k: Fun1, a: ExprId, env: Env<V>)
        requires
            self.reads(g, c),
            self.lives(g.fun1(k, a)),
            k != Fun1::Neg && k != Fun1::Recip,
        ensures
            self.lives(a),
            self.at(g.fun1(k, a), env) == (c.fun)(k, self.at(a, env)),
    {
        reveal(Meaning::reads);
    }

    pub(crate) proof fn compare_is(self, g: Graph, c: Functions<V>, r: Rel, a: ExprId, b: ExprId, env: Env<V>)
        requires
            self.reads(g, c),
            self.lives(g.compare(r, a, b)),
        ensures
            self.lives(a) && self.lives(b),
            self.at(g.compare(r, a, b), env) == (if (c.holds)(r, self.at(a, env), self.at(b, env)) {
                self.field.one
            } else {
                self.field.zero
            }),
    {
        reveal(Meaning::reads);
    }

    pub(crate) proof fn select_is(self, g: Graph, c: Functions<V>, a: ExprId, b: ExprId, d: ExprId, env: Env<V>)
        requires
            self.reads(g, c),
            self.lives(g.select(a, b, d)),
        ensures
            self.lives(a) && self.lives(b) && self.lives(d),
            self.at(g.select(a, b, d), env) == (if self.at(a, env) != self.field.zero {
                self.at(b, env)
            } else {
                self.at(d, env)
            }),
    {
        reveal(Meaning::reads);
    }

    /// A selection by a comparison.
    pub(crate) proof fn choice_is(
        self,
        g: Graph,
        c: Functions<V>,
        r: Rel,
        a: ExprId,
        b: ExprId,
        x: ExprId,
        y: ExprId,
        env: Env<V>,
    )
        requires
            self.sound(g),
            self.reads(g, c),
            self.lives(g.select(g.compare(r, a, b), x, y)),
        ensures
            self.lives(a) && self.lives(b) && self.lives(x) && self.lives(y),
            self.at(g.select(g.compare(r, a, b), x, y), env) == (if (c.holds)(r, self.at(a, env), self.at(b, env)) {
                self.at(x, env)
            } else {
                self.at(y, env)
            }),
    {
        self.select_is(g, c, g.compare(r, a, b), x, y, env);
        self.compare_is(g, c, r, a, b, env);
        self.arithmetic(g);
        assert(self.field.zero != self.field.one) by {
            reveal(Field::obeys);
        }
    }
}

} // verus!

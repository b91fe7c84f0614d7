//! Graphs that can be read: the graphs of terms read their differences, quotients,
//! functions, comparisons and selections as the laws ask.
use crate::dae::cases::{real_sense, reals_obey};
use crate::dae::meaning::{Env, Field, Meaning};
use crate::dae::reading::Functions;
use crate::dae::shapes::{is_whole, ordinary, rounds_down, Line};
use crate::dae::terms::{
    closed, found_is, graph, leaves, operations, stored, term, terms_are_sound, Sense, Term,
};
use crate::numerics::Rel;
use crate::symbolic::{ExprId, Fun1, SymbolId};
use vstd::prelude::*;

verus! {

/// The functions and comparisons that agree with a sense where it has them.
pub open spec fn extends<V>(w: Functions<V>, c: Sense<V>) -> bool {
    &&& forall|a: V| #[trigger] (w.fun)(Fun1::Exp, a) == (c.exp)(a)
    &&& forall|a: V, b: V| #[trigger] (w.holds)(Rel::Gt, a, b) == (c.above)(a, b)
}

pub open spec fn quotient_of(a: Term, b: Term) -> Term {
    Term::Times(Box::new(a), Box::new(Term::Recip(Box::new(b))))
}

pub open spec fn difference_of(a: Term, b: Term) -> Term {
    Term::Plus(Box::new(a), Box::new(Term::Neg(Box::new(b))))
}

pub open spec fn function_of(k: Fun1, a: Term) -> Term {
    match k {
        Fun1::Neg => Term::Neg(Box::new(a)),
        Fun1::Recip => Term::Recip(Box::new(a)),
        _ => Term::Exp(Box::new(a)),
    }
}

pub open spec fn comparison_of(a: Term, b: Term) -> Term {
    Term::Above(Box::new(a), Box::new(b))
}

/// A store knows negatives, reciprocals and exponentials.
pub open spec fn known(k: Fun1) -> bool {
    k == Fun1::Neg || k == Fun1::Recip || k == Fun1::Exp
}

pub open spec fn choice_of(a: Term, b: Term, d: Term) -> Term {
    Term::Select(Box::new(a), Box::new(b), Box::new(d))
}

/// Quotients, functions, comparisons and selections are the terms that they are named
/// after, where the store has them.
proof fn more_operations(
    st: Seq<Term>,
    names: Seq<Seq<char>>,
    k: Fun1,
    r: Rel,
    a: ExprId,
    b: ExprId,
    d: ExprId,
)
    requires
        closed(st),
    ensures
        ({
            let g = graph(st, names);
            let (x, y, z) = (term(st, a), term(st, b), term(st, d));
            let both = stored(st, a) && stored(st, b);
            &&& stored(st, g.over(a, b)) <==> both && st.contains(quotient_of(x, y))
            &&& stored(st, g.over(a, b)) ==> term(st, g.over(a, b)) == quotient_of(x, y)
            &&& stored(st, g.fun1(k, a)) <==> known(k) && stored(st, a) && st.contains(function_of(k, x))
            &&& stored(st, g.fun1(k, a)) ==> term(st, g.fun1(k, a)) == function_of(k, x)
            &&& stored(st, g.compare(r, a, b)) <==> r == Rel::Gt && both && st.contains(comparison_of(x, y))
            &&& stored(st, g.compare(r, a, b)) ==> term(st, g.compare(r, a, b)) == comparison_of(x, y)
            &&& stored(st, g.select(a, b, d)) <==> both && stored(st, d) && st.contains(choice_of(x, y, z))
            &&& stored(st, g.select(a, b, d)) ==> term(st, g.select(a, b, d)) == choice_of(x, y, z)
        }),
{
    let (x, y, z) = (term(st, a), term(st, b), term(st, d));
    found_is(st, quotient_of(x, y));
    found_is(st, function_of(k, x));
    found_is(st, comparison_of(x, y));
    found_is(st, choice_of(x, y, z));
}

proof fn powers_are_reciprocals(st: Seq<Term>, names: Seq<Seq<char>>, a: ExprId, n: i64)
    requires
        closed(st),
        stored(st, graph(st, names).power(a, n)),
    ensures
        n == -1,
        stored(st, a),
        term(st, graph(st, names).power(a, n)) == Term::Recip(Box::new(term(st, a))),
{
    found_is(st, Term::Recip(Box::new(term(st, a))));
}

/// The graph of a store can be read, over any field and with any functions.
pub proof fn terms_are_read<V>(c: Sense<V>, w: Functions<V>, st: Seq<Term>, names: Seq<Seq<char>>)
    requires
        closed(st),
        c.field.obeys(),
        extends(w, c),
    ensures
        c.meaning(st).reads(graph(st, names), w),
{
    let g = graph(st, names);
    let m = c.meaning(st);
    let f = c.field;
    leaves(st, names, 0, SymbolId(0));
    assert forall|n: i64, env: Env<V>| m.lives(g.whole(n)) && n >= 0 implies #[trigger] m.at(g.whole(n), env)
        == f.counted(n as nat) by {
        found_is(st, Term::Zero);
        found_is(st, Term::One);
        reveal_with_fuel(Field::counted, 2);
        f.sums(f.zero, f.one, f.one);
        f.sums(f.one, f.zero, f.zero);
    }
    assert forall|a: ExprId, b: ExprId| #[trigger] m.lives(g.minus(a, b)) implies m.lives(a) && m.lives(b) by {
        operations(st, names, a, b);
    }
    assert forall|a: ExprId, b: ExprId, env: Env<V>| m.lives(g.minus(a, b)) implies #[trigger] m.at(
        g.minus(a, b),
        env,
    ) == f.less(m.at(a, env), m.at(b, env)) by {
        operations(st, names, a, b);
        reveal_with_fuel(Term::value, 3);
    }
    assert forall|a: ExprId, b: ExprId| #[trigger] m.lives(g.over(a, b)) implies m.lives(a) && m.lives(b) by {
        more_operations(st, names, Fun1::Exp, Rel::Lt, a, b, a);
    }
    assert forall|a: ExprId, b: ExprId, env: Env<V>| m.lives(g.over(a, b)) implies #[trigger] m.at(g.over(a, b), env)
        == (f.times)(m.at(a, env), (f.recip)(m.at(b, env))) by {
        more_operations(st, names, Fun1::Exp, Rel::Lt, a, b, a);
        reveal_with_fuel(Term::value, 3);
    }
    assert forall|a: ExprId, n: i64| #[trigger] m.lives(g.power(a, n)) implies m.lives(a) by {
        powers_are_reciprocals(st, names, a, n);
    }
    assert forall|a: ExprId, n: i64, env: Env<V>| #![trigger m.at(g.power(a, n), env)]
        m.lives(g.power(a, n)) implies n < 0 && m.at(g.power(a, n), env) == (f.recip)(
        f.raised(m.at(a, env), (-n) as nat),
    ) by {
        powers_are_reciprocals(st, names, a, n);
        let x = m.at(a, env);
        reveal_with_fuel(Field::raised, 2);
        f.products(x, f.one, x);
        f.products(f.one, x, x);
    }
    assert forall|k: Fun1, a: ExprId| #[trigger] m.lives(g.fun1(k, a)) implies m.lives(a) by {
        more_operations(st, names, k, Rel::Lt, a, a, a);
    }
    assert forall|k: Fun1, a: ExprId, env: Env<V>|
        m.lives(g.fun1(k, a)) && k != Fun1::Neg && k != Fun1::Recip implies #[trigger] m.at(g.fun1(k, a), env) == (
    w.fun)(k, m.at(a, env)) by {
        more_operations(st, names, k, Rel::Lt, a, a, a);
    }
    assert forall|a: ExprId| #[trigger] m.lives(g.recip(a)) implies m.lives(a) by {
        more_operations(st, names, Fun1::Recip, Rel::Lt, a, a, a);
    }
    assert forall|a: ExprId, env: Env<V>| m.lives(g.recip(a)) implies #[trigger] m.at(g.recip(a), env) == (f.recip)(
        m.at(a, env),
    ) by {
        more_operations(st, names, Fun1::Recip, Rel::Lt, a, a, a);
    }
    assert forall|r: Rel, a: ExprId, b: ExprId| #[trigger] m.lives(g.compare(r, a, b)) implies m.lives(a)
        && m.lives(b) by {
        more_operations(st, names, Fun1::Exp, r, a, b, a);
    }
    assert forall|r: Rel, a: ExprId, b: ExprId, env: Env<V>| m.lives(g.compare(r, a, b)) implies #[trigger] m.at(
        g.compare(r, a, b),
        env,
    ) == (if (w.holds)(r, m.at(a, env), m.at(b, env)) {
        f.one
    } else {
        f.zero
    }) by {
        more_operations(st, names, Fun1::Exp, r, a, b, a);
    }
    assert forall|a: ExprId, b: ExprId, d: ExprId| #[trigger] m.lives(g.select(a, b, d)) implies m.lives(a)
        && m.lives(b) && m.lives(d) by {
        more_operations(st, names, Fun1::Exp, Rel::Lt, a, b, d);
    }
    assert forall|a: ExprId, b: ExprId, d: ExprId, env: Env<V>| m.lives(g.select(a, b, d)) implies #[trigger] m.at(
        g.select(a, b, d),
        env,
    ) == (if m.at(a, env) != f.zero {
        m.at(b, env)
    } else {
        m.at(d, env)
    }) by {
        more_operations(st, names, Fun1::Exp, Rel::Lt, a, b, d);
    }
    reveal(Meaning::reads);
}

// ---------------------------------------------------------------------------
// The real line.
// ---------------------------------------------------------------------------
/// The comparisons of the real line, rounding down, and other functions as given.
pub open spec fn line_functions(fun: spec_fn(Fun1, real) -> real) -> Functions<real> {
    Functions {
        fun: |k: Fun1, a: real|
            if k == Fun1::Floor {
                a.floor() as real
            } else {
                fun(k, a)
            },
        holds: |r: Rel, a: real, b: real|
            match r {
                Rel::Lt => a < b,
                Rel::Gt => a > b,
                Rel::Le => a <= b,
                Rel::Ge => a >= b,
                Rel::Eq => a == b,
                Rel::Ne => a != b,
            },
    }
}

/// The graph of a store over the real line.
pub open spec fn line_of(
    st: Seq<Term>,
    names: Seq<Seq<char>>,
    literal: spec_fn(u64) -> real,
    fun: spec_fn(Fun1, real) -> real,
) -> Line {
    Line {
        m: real_sense(literal, |a: real| fun(Fun1::Exp, a)).meaning(st),
        g: graph(st, names),
        c: line_functions(fun),
    }
}

/// The graph of every store can be read over the real line.
pub proof fn stores_are_read_over_the_line(
    st: Seq<Term>,
    names: Seq<Seq<char>>,
    literal: spec_fn(u64) -> real,
    fun: spec_fn(Fun1, real) -> real,
)
    requires
        closed(st),
    ensures
        line_of(st, names, literal, fun).reads(),
{
    let c = real_sense(literal, |a: real| fun(Fun1::Exp, a));
    let w = line_functions(fun);
    reals_obey();
    terms_are_sound(c, st, names);
    terms_are_read(c, w, st, names);
    assert forall|x: real| rounds_down(#[trigger] (w.fun)(Fun1::Floor, x), x) by {
        let k = x.floor();
        assert(is_whole((w.fun)(Fun1::Floor, x), k));
        assert(k as real <= x < k as real + 1real);
    }
    assert(ordinary(w));
}

} // verus!

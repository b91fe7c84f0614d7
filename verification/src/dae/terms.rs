//! Graphs of terms: what the laws of the transformations ask of a graph is what
//! every finite store of terms answers, whatever the field its values lie in.
use crate::dae::blocks::{one_to_one, structural};
use crate::dae::meaning::{moved, Env, Field, Meaning};
use crate::dae::symbols::{lives, tells_symbols};
use crate::dae::templates::forth;
use crate::numerics::Rel;
use crate::symbolic::{AnswerView, ExprId, Fun1, Fun2, Graph, QueryView, SymbolId};
use vstd::prelude::*;

verus! {

/// A term.
pub enum Term {
    Zero,
    One,
    Num(u64),
    Sym(SymbolId),
    Plus(Box<Term>, Box<Term>),
    Times(Box<Term>, Box<Term>),
    Neg(Box<Term>),
    Recip(Box<Term>),
    Exp(Box<Term>),
    /// One where the first is above the second, else zero.
    Above(Box<Term>, Box<Term>),
    /// The second where the first is not zero, else the third.
    Select(Box<Term>, Box<Term>, Box<Term>),
}

/// What the terms are read with: a field, its literals, an exponential and an order.
#[verifier::reject_recursive_types(V)]
pub struct Sense<V> {
    pub field: Field<V>,
    pub literal: spec_fn(u64) -> V,
    pub exp: spec_fn(V) -> V,
    pub above: spec_fn(V, V) -> bool,
}

impl Term {
    pub open spec fn value<V>(self, c: Sense<V>, env: Env<V>) -> V
        decreases self,
    {
        let f = c.field;
        match self {
            Term::Zero => f.zero,
            Term::One => f.one,
            Term::Num(b) => (c.literal)(b),
            Term::Sym(s) => env(s),
            Term::Plus(a, b) => (f.plus)(a.value(c, env), b.value(c, env)),
            Term::Times(a, b) => (f.times)(a.value(c, env), b.value(c, env)),
            Term::Neg(a) => (f.neg)(a.value(c, env)),
            Term::Recip(a) => (f.recip)(a.value(c, env)),
            Term::Exp(a) => (c.exp)(a.value(c, env)),
            Term::Above(a, b) => if (c.above)(a.value(c, env), b.value(c, env)) {
                f.one
            } else {
                f.zero
            },
            Term::Select(a, b, d) => if a.value(c, env) != f.zero {
                b.value(c, env)
            } else {
                d.value(c, env)
            },
        }
    }

    pub open spec fn mentions(self, s: SymbolId) -> bool
        decreases self,
    {
        match self {
            Term::Zero => false,
            Term::One => false,
            Term::Num(_) => false,
            Term::Sym(t) => s == t,
            Term::Plus(a, b) => a.mentions(s) || b.mentions(s),
            Term::Times(a, b) => a.mentions(s) || b.mentions(s),
            Term::Neg(a) => a.mentions(s),
            Term::Recip(a) => a.mentions(s),
            Term::Exp(a) => a.mentions(s),
            Term::Above(a, b) => a.mentions(s) || b.mentions(s),
            Term::Select(a, b, d) => a.mentions(s) || b.mentions(s) || d.mentions(s),
        }
    }

    /// The terms that a term is made of.
    pub open spec fn made_of(self) -> Seq<Term> {
        match self {
            Term::Zero => seq![],
            Term::One => seq![],
            Term::Num(_) => seq![],
            Term::Sym(_) => seq![],
            Term::Plus(a, b) => seq![*a, *b],
            Term::Times(a, b) => seq![*a, *b],
            Term::Neg(a) => seq![*a],
            Term::Recip(a) => seq![*a],
            Term::Exp(a) => seq![*a],
            Term::Above(a, b) => seq![*a, *b],
            Term::Select(a, b, d) => seq![*a, *b, *d],
        }
    }

    /// The symbols of a term, each once.
    pub open spec fn symbols(self) -> Seq<SymbolId>
        decreases self,
    {
        match self {
            Term::Zero => seq![],
            Term::One => seq![],
            Term::Num(_) => seq![],
            Term::Sym(s) => seq![s],
            Term::Plus(a, b) => with_all(a.symbols(), b.symbols()),
            Term::Times(a, b) => with_all(a.symbols(), b.symbols()),
            Term::Neg(a) => a.symbols(),
            Term::Recip(a) => a.symbols(),
            Term::Exp(a) => a.symbols(),
            Term::Above(a, b) => with_all(a.symbols(), b.symbols()),
            Term::Select(a, b, d) => with_all(with_all(a.symbols(), b.symbols()), d.symbols()),
        }
    }

    /// The derivative in a symbol. Jumps have none.
    pub open spec fn slope(self, s: SymbolId) -> Option<Term>
        decreases self,
    {
        if !self.mentions(s) {
            Some(Term::Zero)
        } else {
            match self {
                Term::Sym(_) => Some(Term::One),
                Term::Plus(a, b) => match (a.slope(s), b.slope(s)) {
                    (Some(x), Some(y)) => Some(sum_of(x, y)),
                    _ => None,
                },
                Term::Times(a, b) => match (a.slope(s), b.slope(s)) {
                    (Some(x), Some(y)) => Some(
                        if !b.mentions(s) {
                            product_of(x, *b)
                        } else if !a.mentions(s) {
                            product_of(*a, y)
                        } else {
                            sum_of(product_of(x, *b), product_of(*a, y))
                        },
                    ),
                    _ => None,
                },
                Term::Neg(a) => match a.slope(s) {
                    Some(x) => Some(Term::Neg(Box::new(x))),
                    None => None,
                },
                Term::Recip(a) => match a.slope(s) {
                    Some(x) => Some(Term::Neg(Box::new(product_of(x, product_of(self, self))))),
                    None => None,
                },
                Term::Exp(a) => match a.slope(s) {
                    Some(x) => Some(product_of(x, self)),
                    None => None,
                },
                _ => None,
            }
        }
    }
}

pub open spec fn sum_of(a: Term, b: Term) -> Term {
    Term::Plus(Box::new(a), Box::new(b))
}

pub open spec fn product_of(a: Term, b: Term) -> Term {
    Term::Times(Box::new(a), Box::new(b))
}

/// A list with those of another that it lacks.
pub open spec fn with_all(v: Seq<SymbolId>, w: Seq<SymbolId>) -> Seq<SymbolId>
    decreases w.len(),
{
    if w.len() == 0 {
        v
    } else {
        let before = with_all(v, w.drop_last());
        if before.contains(w.last()) {
            before
        } else {
            before.push(w.last())
        }
    }
}

// ---------------------------------------------------------------------------
// Stores.
// ---------------------------------------------------------------------------
/// A store of terms: each once, behind the terms that it is made of, zero among
/// them, and no more than there are handles.
pub open spec fn closed(st: Seq<Term>) -> bool {
    &&& st.len() <= u64::MAX
    &&& st.no_duplicates()
    &&& st.contains(Term::Zero)
    &&& forall|i: int, k: int|
        0 <= i < st.len() && 0 <= k < st[i].made_of().len() ==> exists|j: int|
            0 <= j < i && st[j] == #[trigger] st[i].made_of()[k]
}

/// The term behind a handle.
pub open spec fn term(st: Seq<Term>, e: ExprId) -> Term {
    st[e.0 as int]
}

pub open spec fn stored(st: Seq<Term>, e: ExprId) -> bool {
    e.0 < st.len()
}

pub open spec fn all_stored(st: Seq<Term>, v: Seq<ExprId>) -> bool {
    forall|k: int| 0 <= k < v.len() ==> stored(st, #[trigger] v[k])
}

pub open spec fn place(st: Seq<Term>, t: Term) -> int {
    choose|i: int| 0 <= i < st.len() && st[i] == t
}

pub open spec fn handle(st: Seq<Term>, t: Term) -> ExprId {
    ExprId(place(st, t) as u64)
}

/// The answer that is a term, where the store has it.
pub open spec fn found(st: Seq<Term>, t: Term) -> AnswerView {
    if st.contains(t) {
        AnswerView::Expr(handle(st, t))
    } else {
        AnswerView::Nothing
    }
}

/// What a substitution puts in place of a symbol: the last one that names it counts.
pub open spec fn image(st: Seq<Term>, s: SymbolId, m: Seq<(SymbolId, ExprId)>) -> Term
    decreases m.len(),
{
    if m.len() == 0 {
        Term::Sym(s)
    } else if m.last().0 == s {
        term(st, m.last().1)
    } else {
        image(st, s, m.drop_last())
    }
}

/// A term with its symbols replaced.
pub open spec fn put(st: Seq<Term>, t: Term, m: Seq<(SymbolId, ExprId)>) -> Term
    decreases t,
{
    match t {
        Term::Zero => t,
        Term::One => t,
        Term::Num(_) => t,
        Term::Sym(s) => image(st, s, m),
        Term::Plus(a, b) => sum_of(put(st, *a, m), put(st, *b, m)),
        Term::Times(a, b) => product_of(put(st, *a, m), put(st, *b, m)),
        Term::Neg(a) => Term::Neg(Box::new(put(st, *a, m))),
        Term::Recip(a) => Term::Recip(Box::new(put(st, *a, m))),
        Term::Exp(a) => Term::Exp(Box::new(put(st, *a, m))),
        Term::Above(a, b) => Term::Above(Box::new(put(st, *a, m)), Box::new(put(st, *b, m))),
        Term::Select(a, b, d) => Term::Select(
            Box::new(put(st, *a, m)),
            Box::new(put(st, *b, m)),
            Box::new(put(st, *d, m)),
        ),
    }
}

/// The sum of a list, term by term.
pub open spec fn summed(st: Seq<Term>, v: Seq<ExprId>) -> Term
    decreases v.len(),
{
    if v.len() == 0 {
        Term::Zero
    } else {
        sum_of(summed(st, v.drop_last()), term(st, v.last()))
    }
}

/// What a store answers: the term asked for, where it has it and all that the
/// question names.
pub open spec fn answer(st: Seq<Term>, names: Seq<Seq<char>>, q: QueryView) -> AnswerView {
    match q {
        QueryView::Number(b) => found(st, Term::Num(b)),
        QueryView::Int(i) => if i == 0 {
            found(st, Term::Zero)
        } else if i == 1 {
            found(st, Term::One)
        } else {
            AnswerView::Nothing
        },
        QueryView::Symbol(n) => if names.contains(n) {
            AnswerView::Symbol(SymbolId((choose|i: int| 0 <= i < names.len() && names[i] == n) as u64))
        } else {
            AnswerView::Nothing
        },
        QueryView::SymbolName(s) => if s.0 < names.len() {
            AnswerView::Text(names[s.0 as int])
        } else {
            AnswerView::Nothing
        },
        QueryView::SymbolExpr(s) => found(st, Term::Sym(s)),
        QueryView::Apply1(f, a) => if !stored(st, a) {
            AnswerView::Nothing
        } else {
            match f {
                Fun1::Neg => found(st, Term::Neg(Box::new(term(st, a)))),
                Fun1::Recip => found(st, Term::Recip(Box::new(term(st, a)))),
                Fun1::Exp => found(st, Term::Exp(Box::new(term(st, a)))),
                _ => AnswerView::Nothing,
            }
        },
        QueryView::Apply2(f, a, b) => if !stored(st, a) || !stored(st, b) {
            AnswerView::Nothing
        } else {
            match f {
                Fun2::Add => found(st, sum_of(term(st, a), term(st, b))),
                Fun2::Sub => found(st, sum_of(term(st, a), Term::Neg(Box::new(term(st, b))))),
                Fun2::Mul => found(st, product_of(term(st, a), term(st, b))),
                Fun2::Div => found(st, product_of(term(st, a), Term::Recip(Box::new(term(st, b))))),
            }
        },
        QueryView::Power(a, n) => if stored(st, a) && n == -1 {
            found(st, Term::Recip(Box::new(term(st, a))))
        } else {
            AnswerView::Nothing
        },
        QueryView::Compare(r, a, b) => if stored(st, a) && stored(st, b) && r == Rel::Gt {
            found(st, Term::Above(Box::new(term(st, a)), Box::new(term(st, b))))
        } else {
            AnswerView::Nothing
        },
        QueryView::Select(a, b, d) => if stored(st, a) && stored(st, b) && stored(st, d) {
            found(st, Term::Select(Box::new(term(st, a)), Box::new(term(st, b)), Box::new(term(st, d))))
        } else {
            AnswerView::Nothing
        },
        QueryView::Sum(v) => if all_stored(st, v) {
            found(st, summed(st, v))
        } else {
            AnswerView::Nothing
        },
        QueryView::IsZero(a) => AnswerView::Truth(stored(st, a) && term(st, a) == Term::Zero),
        QueryView::FreeSymbols(a) => if stored(st, a) {
            AnswerView::Symbols(term(st, a).symbols())
        } else {
            AnswerView::Nothing
        },
        QueryView::Derive(a, s) => if stored(st, a) {
            match term(st, a).slope(s) {
                Some(d) => found(st, d),
                None => AnswerView::Nothing,
            }
        } else {
            AnswerView::Nothing
        },
        QueryView::Substitute(a, m) => if stored(st, a) && (forall|k: int|
            0 <= k < m.len() ==> stored(st, (#[trigger] m[k]).1)) {
            found(st, put(st, term(st, a), m))
        } else {
            AnswerView::Nothing
        },
        QueryView::Parts(a) => if !stored(st, a) {
            AnswerView::Nothing
        } else {
            match term(st, a) {
                Term::Sym(s) => AnswerView::Symbol(s),
                t => AnswerView::Exprs(Seq::new(t.made_of().len(), |k: int| handle(st, t.made_of()[k]))),
            }
        },
        _ => AnswerView::Nothing,
    }
}

/// The graph of a store, with the names of its symbols.
pub open spec fn graph(st: Seq<Term>, names: Seq<Seq<char>>) -> Graph {
    Graph { ask: |q: QueryView| answer(st, names, q) }
}

impl<V> Sense<V> {
    /// Every stored term has its value.
    pub open spec fn meaning(self, st: Seq<Term>) -> Meaning<V> {
        Meaning {
            field: self.field,
            live: |e: ExprId| stored(st, e),
            value: |e: ExprId, env: Env<V>| term(st, e).value(self, env),
            literal: self.literal,
        }
    }
}

// ---------------------------------------------------------------------------
// Handles.
// ---------------------------------------------------------------------------
pub(crate) proof fn found_is(st: Seq<Term>, t: Term)
    requires
        closed(st),
    ensures
        stored(st, crate::symbolic::expr_of(found(st, t))) <==> st.contains(t),
        st.contains(t) ==> term(st, crate::symbolic::expr_of(found(st, t))) == t,
{
    if st.contains(t) {
        let i = choose|i: int| 0 <= i < st.len() && st[i] == t;
        assert(st[i] == t);
    }
}

/// A stored term is made of stored terms, each before it.
proof fn made_of_stored(st: Seq<Term>, e: ExprId, k: int)
    requires
        closed(st),
        stored(st, e),
        0 <= k < term(st, e).made_of().len(),
    ensures
        st.contains(term(st, e).made_of()[k]),
        handle(st, term(st, e).made_of()[k]).0 < e.0,
        term(st, handle(st, term(st, e).made_of()[k])) == term(st, e).made_of()[k],
{
    let i = e.0 as int;
    let t = st[i].made_of()[k];
    let j = choose|j: int| 0 <= j < i && st[j] == st[i].made_of()[k];
    assert(st[j] == t);
    let l = place(st, t);
    assert(0 <= l < st.len() && st[l] == t);
    assert(l == j);
}

proof fn part_is_stored(st: Seq<Term>, t: Term, k: int)
    requires
        closed(st),
        st.contains(t),
        0 <= k < t.made_of().len(),
    ensures
        st.contains(t.made_of()[k]),
{
    let i = choose|i: int| 0 <= i < st.len() && st[i] == t;
    made_of_stored(st, ExprId(i as u64), k);
}

// ---------------------------------------------------------------------------
// Symbols.
// ---------------------------------------------------------------------------
proof fn with_all_holds(v: Seq<SymbolId>, w: Seq<SymbolId>, s: SymbolId)
    ensures
        with_all(v, w).contains(s) <==> v.contains(s) || w.contains(s),
    decreases w.len(),
{
    if w.len() > 0 {
        let less = w.drop_last();
        with_all_holds(v, less, s);
        let before = with_all(v, less);
        let all = with_all(v, w);
        if w.contains(s) {
            let k = choose|k: int| 0 <= k < w.len() && w[k] == s;
            if k < less.len() {
                assert(less[k] == s);
            }
        }
        if less.contains(s) {
            let k = choose|k: int| 0 <= k < less.len() && less[k] == s;
            assert(w[k] == s);
        }
        assert(w[w.len() - 1] == w.last());
        if !before.contains(w.last()) {
            assert(all[before.len() as int] == w.last());
            if before.contains(s) {
                let k = choose|k: int| 0 <= k < before.len() && before[k] == s;
                assert(all[k] == s);
            }
            if all.contains(s) {
                let k = choose|k: int| 0 <= k < all.len() && all[k] == s;
                assert(k < before.len() ==> before[k] == s);
            }
        }
    }
}

proof fn symbols_are_mentioned(t: Term, s: SymbolId)
    ensures
        t.symbols().contains(s) <==> t.mentions(s),
    decreases t,
{
    match t {
        Term::Zero => {},
        Term::One => {},
        Term::Num(_) => {},
        Term::Sym(x) => {
            assert(t.symbols()[0] == x);
        },
        Term::Plus(a, b) => {
            symbols_are_mentioned(*a, s);
            symbols_are_mentioned(*b, s);
            with_all_holds(a.symbols(), b.symbols(), s);
        },
        Term::Times(a, b) => {
            symbols_are_mentioned(*a, s);
            symbols_are_mentioned(*b, s);
            with_all_holds(a.symbols(), b.symbols(), s);
        },
        Term::Neg(a) => {
            symbols_are_mentioned(*a, s);
        },
        Term::Recip(a) => {
            symbols_are_mentioned(*a, s);
        },
        Term::Exp(a) => {
            symbols_are_mentioned(*a, s);
        },
        Term::Above(a, b) => {
            symbols_are_mentioned(*a, s);
            symbols_are_mentioned(*b, s);
            with_all_holds(a.symbols(), b.symbols(), s);
        },
        Term::Select(a, b, d) => {
            symbols_are_mentioned(*a, s);
            symbols_are_mentioned(*b, s);
            symbols_are_mentioned(*d, s);
            with_all_holds(a.symbols(), b.symbols(), s);
            with_all_holds(with_all(a.symbols(), b.symbols()), d.symbols(), s);
        },
    }
}

/// The symbols that the graph names are those that the term mentions.
pub(crate) proof fn free_is_mentioned(st: Seq<Term>, names: Seq<Seq<char>>, e: ExprId, s: SymbolId)
    ensures
        graph(st, names).free(e).contains(s) <==> stored(st, e) && term(st, e).mentions(s),
{
    symbols_are_mentioned(term(st, e), s);
}

// ---------------------------------------------------------------------------
// Values.
// ---------------------------------------------------------------------------
proof fn values_agree<V>(c: Sense<V>, t: Term, a: Env<V>, b: Env<V>)
    requires
        forall|s: SymbolId| t.mentions(s) ==> #[trigger] a(s) == b(s),
    ensures
        t.value(c, a) == t.value(c, b),
    decreases t,
{
    match t {
        Term::Zero => {},
        Term::One => {},
        Term::Num(_) => {},
        Term::Sym(s) => {
            assert(t.mentions(s));
        },
        Term::Plus(x, y) => {
            values_agree(c, *x, a, b);
            values_agree(c, *y, a, b);
        },
        Term::Times(x, y) => {
            values_agree(c, *x, a, b);
            values_agree(c, *y, a, b);
        },
        Term::Neg(x) => {
            values_agree(c, *x, a, b);
        },
        Term::Recip(x) => {
            values_agree(c, *x, a, b);
        },
        Term::Exp(x) => {
            values_agree(c, *x, a, b);
        },
        Term::Above(x, y) => {
            values_agree(c, *x, a, b);
            values_agree(c, *y, a, b);
        },
        Term::Select(x, y, z) => {
            values_agree(c, *x, a, b);
            values_agree(c, *y, a, b);
            values_agree(c, *z, a, b);
        },
    }
}

proof fn image_value<V>(c: Sense<V>, st: Seq<Term>, s: SymbolId, m: Seq<(SymbolId, ExprId)>, env: Env<V>)
    ensures
        image(st, s, m).value(c, env) == c.meaning(st).put(env, m, s),
    decreases m.len(),
{
    if m.len() > 0 && m.last().0 != s {
        image_value(c, st, s, m.drop_last(), env);
    }
}

proof fn put_value<V>(c: Sense<V>, st: Seq<Term>, t: Term, m: Seq<(SymbolId, ExprId)>, env: Env<V>)
    ensures
        put(st, t, m).value(c, env) == t.value(c, c.meaning(st).under(env, m)),
    decreases t,
{
    match t {
        Term::Zero => {},
        Term::One => {},
        Term::Num(_) => {},
        Term::Sym(s) => {
            image_value(c, st, s, m, env);
        },
        Term::Plus(x, y) => {
            put_value(c, st, *x, m, env);
            put_value(c, st, *y, m, env);
        },
        Term::Times(x, y) => {
            put_value(c, st, *x, m, env);
            put_value(c, st, *y, m, env);
        },
        Term::Neg(x) => {
            put_value(c, st, *x, m, env);
        },
        Term::Recip(x) => {
            put_value(c, st, *x, m, env);
        },
        Term::Exp(x) => {
            put_value(c, st, *x, m, env);
        },
        Term::Above(x, y) => {
            put_value(c, st, *x, m, env);
            put_value(c, st, *y, m, env);
        },
        Term::Select(x, y, z) => {
            put_value(c, st, *x, m, env);
            put_value(c, st, *y, m, env);
            put_value(c, st, *z, m, env);
        },
    }
}

proof fn summed_value<V>(c: Sense<V>, st: Seq<Term>, v: Seq<ExprId>, env: Env<V>)
    ensures
        summed(st, v).value(c, env) == c.meaning(st).total(v, env),
    decreases v.len(),
{
    if v.len() > 0 {
        summed_value(c, st, v.drop_last(), env);
    }
}

// ---------------------------------------------------------------------------
// Substitution and derivatives.
// ---------------------------------------------------------------------------
/// One of the pairs names the symbol.
pub open spec fn named(m: Seq<(SymbolId, ExprId)>, s: SymbolId) -> bool {
    exists|k: int| 0 <= k < m.len() && (#[trigger] m[k]).0 == s
}

/// One of the pairs brings the symbol in.
spec fn brought(st: Seq<Term>, m: Seq<(SymbolId, ExprId)>, s: SymbolId) -> bool {
    exists|k: int| 0 <= k < m.len() && term(st, (#[trigger] m[k]).1).mentions(s)
}

proof fn image_mentions(st: Seq<Term>, x: SymbolId, m: Seq<(SymbolId, ExprId)>, s: SymbolId)
    ensures
        image(st, x, m).mentions(s) ==> brought(st, m, s) || !named(m, s),
        !named(m, x) ==> image(st, x, m) == Term::Sym(x),
    decreases m.len(),
{
    if m.len() > 0 {
        let less = m.drop_last();
        assert(m[m.len() - 1] == m.last());
        if m.last().0 != x {
            image_mentions(st, x, less, s);
            if brought(st, less, s) {
                let k = choose|k: int| 0 <= k < less.len() && term(st, (#[trigger] less[k]).1).mentions(s);
                assert(m[k] == less[k]);
            }
            if named(less, x) {
                let k = choose|k: int| 0 <= k < less.len() && (#[trigger] less[k]).0 == x;
                assert(m[k] == less[k]);
            }
            if image(st, x, m).mentions(s) && !brought(st, m, s) && named(m, s) {
                let k = choose|k: int| 0 <= k < m.len() && (#[trigger] m[k]).0 == s;
                if k < less.len() {
                    assert(less[k] == m[k]);
                } else {
                    image_of(st, x, less, s);
                }
            }
        } else {
            assert(named(m, x));
        }
    }
}

/// What an image mentions comes from a pair, or is the symbol itself.
proof fn image_of(st: Seq<Term>, x: SymbolId, m: Seq<(SymbolId, ExprId)>, s: SymbolId)
    ensures
        image(st, x, m).mentions(s) ==> brought(st, m, s) || s == x,
    decreases m.len(),
{
    if m.len() > 0 {
        let less = m.drop_last();
        assert(m[m.len() - 1] == m.last());
        if m.last().0 != x {
            image_of(st, x, less, s);
            if brought(st, less, s) {
                let k = choose|k: int| 0 <= k < less.len() && term(st, (#[trigger] less[k]).1).mentions(s);
                assert(m[k] == less[k]);
            }
        }
    }
}

proof fn put_mentions(st: Seq<Term>, t: Term, m: Seq<(SymbolId, ExprId)>, s: SymbolId)
    ensures
        put(st, t, m).mentions(s) ==> brought(st, m, s) || !named(m, s),
    decreases t,
{
    match t {
        Term::Zero => {},
        Term::One => {},
        Term::Num(_) => {},
        Term::Sym(x) => {
            image_mentions(st, x, m, s);
        },
        Term::Plus(a, b) => {
            put_mentions(st, *a, m, s);
            put_mentions(st, *b, m, s);
        },
        Term::Times(a, b) => {
            put_mentions(st, *a, m, s);
            put_mentions(st, *b, m, s);
        },
        Term::Neg(a) => {
            put_mentions(st, *a, m, s);
        },
        Term::Recip(a) => {
            put_mentions(st, *a, m, s);
        },
        Term::Exp(a) => {
            put_mentions(st, *a, m, s);
        },
        Term::Above(a, b) => {
            put_mentions(st, *a, m, s);
            put_mentions(st, *b, m, s);
        },
        Term::Select(a, b, d) => {
            put_mentions(st, *a, m, s);
            put_mentions(st, *b, m, s);
            put_mentions(st, *d, m, s);
        },
    }
}

/// A derivative mentions what the term mentions.
proof fn slope_mentions(t: Term, s: SymbolId, x: SymbolId)
    ensures
        t.slope(s) is Some && t.slope(s)->0.mentions(x) ==> t.mentions(x),
    decreases t,
{
    reveal_with_fuel(Term::mentions, 5);
    if t.mentions(s) {
        match t {
            Term::Plus(a, b) => {
                slope_mentions(*a, s, x);
                slope_mentions(*b, s, x);
            },
            Term::Times(a, b) => {
                slope_mentions(*a, s, x);
                slope_mentions(*b, s, x);
            },
            Term::Neg(a) => {
                slope_mentions(*a, s, x);
            },
            Term::Recip(a) => {
                slope_mentions(*a, s, x);
            },
            Term::Exp(a) => {
                slope_mentions(*a, s, x);
            },
            _ => {},
        }
    }
}

/// A term whose derivative does not mention the symbol is affine in it.
proof fn affine<V>(c: Sense<V>, t: Term, s: SymbolId, env: Env<V>)
    requires
        c.field.obeys(),
        t.slope(s) is Some,
        !t.slope(s)->0.mentions(s),
    ensures
        t.value(c, env) == (c.field.plus)(
            t.value(c, moved(env, s, c.field.zero)),
            (c.field.times)(t.slope(s)->0.value(c, env), env(s)),
        ),
    decreases t,
{
    let f = c.field;
    let to = moved(env, s, f.zero);
    let e = env(s);
    reveal_with_fuel(Term::mentions, 4);
    reveal_with_fuel(Term::value, 3);
    if !t.mentions(s) {
        values_agree(c, t, env, to);
        f.times_zero(e);
        let x = t.value(c, env);
        f.sums(x, x, x);
    } else {
        match t {
            Term::Sym(_) => {
                f.products(e, f.one, f.one);
                f.sums(e, e, e);
            },
            Term::Plus(a, b) => {
                affine(c, *a, s, env);
                affine(c, *b, s, env);
                let (p, q) = (a.value(c, to), b.value(c, to));
                let (x, y) = (a.slope(s)->0.value(c, env), b.slope(s)->0.value(c, env));
                let (xe, ye) = ((f.times)(x, e), (f.times)(y, e));
                f.products(x, e, e);
                f.products(y, e, e);
                f.products((f.plus)(x, y), e, e);
                f.spreads(e, x, y);
                f.sums(p, xe, (f.plus)(q, ye));
                f.sums(xe, q, ye);
                f.sums(q, xe, ye);
                f.sums(p, q, (f.plus)(xe, ye));
            },
            Term::Times(a, b) => {
                if !b.mentions(s) {
                    affine(c, *a, s, env);
                    values_agree(c, *b, env, to);
                    let (p, v) = (a.value(c, to), b.value(c, env));
                    let x = a.slope(s)->0.value(c, env);
                    let xe = (f.times)(x, e);
                    f.products((f.plus)(p, xe), v, v);
                    f.spreads(v, p, xe);
                    f.products(v, p, p);
                    f.products(v, xe, e);
                    f.products(x, e, v);
                    f.products(x, v, e);
                    f.products(e, v, v);
                } else if !a.mentions(s) {
                    affine(c, *b, s, env);
                    values_agree(c, *a, env, to);
                    let (v, q) = (a.value(c, env), b.value(c, to));
                    let y = b.slope(s)->0.value(c, env);
                    f.spreads(v, q, (f.times)(y, e));
                    f.products(v, y, e);
                }
            },
            Term::Neg(a) => {
                affine(c, *a, s, env);
                let p = a.value(c, to);
                let x = a.slope(s)->0.value(c, env);
                f.negatives(p, (f.times)(x, e));
                f.negatives(x, e);
            },
            _ => {},
        }
    }
}

// ---------------------------------------------------------------------------
// Renaming.
// ---------------------------------------------------------------------------
/// The pairs rename one to one, to symbols that the term does not mention.
spec fn renames(st: Seq<Term>, t: Term, names: Seq<(SymbolId, SymbolId)>, m: Seq<(SymbolId, ExprId)>) -> bool {
    &&& m.len() == names.len()
    &&& forall|k: int|
        0 <= k < names.len() ==> (#[trigger] m[k]).0 == names[k].1 && term(st, m[k].1) == Term::Sym(names[k].0)
    &&& forall|i: int, j: int|
        0 <= i < j < names.len() ==> (#[trigger] names[i]).0 != (#[trigger] names[j]).0 && names[i].1 != names[j].1
    &&& forall|k: int| 0 <= k < names.len() ==> !t.mentions((#[trigger] names[k]).0)
}

proof fn renamed_image(st: Seq<Term>, x: SymbolId, names: Seq<(SymbolId, SymbolId)>, m: Seq<(SymbolId, ExprId)>, k: int)
    requires
        renames(st, Term::Sym(x), names, m),
        0 <= k < names.len(),
    ensures
        names[k].1 == x ==> image(st, x, m) == Term::Sym(names[k].0),
        names[k].1 != x ==> image(st, x, m) != Term::Sym(names[k].0),
        image(st, x, m) is Sym,
    decreases m.len(),
{
    let n = m.len() - 1;
    let less = m.drop_last();
    let rest = names.drop_last();
    assert(m[n] == m.last());
    assert(!Term::Sym(x).mentions(names[k].0));
    assert(term(st, m[n].1) == Term::Sym(names[n].0));
    if m.last().0 != x {
        assert(m[n].0 == names[n].1);
        assert forall|j: int| 0 <= j < rest.len() implies (#[trigger] less[j]).0 == rest[j].1 && term(st, less[j].1)
            == Term::Sym(rest[j].0) by {
            assert(less[j] == m[j]);
        }
        assert forall|i: int, j: int| 0 <= i < j < rest.len() implies (#[trigger] rest[i]).0 != (#[trigger] rest[j]).0
            && rest[i].1 != rest[j].1 by {
            assert(names[i].0 != names[j].0);
        }
        assert forall|j: int| 0 <= j < rest.len() implies !Term::Sym(x).mentions((#[trigger] rest[j]).0) by {
            assert(rest[j] == names[j]);
        }
        assert(renames(st, Term::Sym(x), rest, less));
        if k < n {
            assert(rest[k] == names[k]);
            renamed_image(st, x, rest, less, k);
        } else {
            image_avoids(st, x, rest, less, names[n].0, n);
        }
    } else {
        if k < n {
            assert(names[k].0 != names[n].0);
        }
    }
}

/// An image is no symbol that no pair brings and that is not the symbol itself.
proof fn image_avoids(
    st: Seq<Term>,
    x: SymbolId,
    names: Seq<(SymbolId, SymbolId)>,
    m: Seq<(SymbolId, ExprId)>,
    s: SymbolId,
    n: int,
)
    requires
        n == m.len(),
        m.len() == names.len(),
        s != x,
    ensures
        (forall|k: int|
            0 <= k < m.len() ==> term(st, (#[trigger] m[k]).1) == Term::Sym(names[k].0) && names[k].0 != s) ==> image(
            st,
            x,
            m,
        ) is Sym && image(st, x, m) != Term::Sym(s),
    decreases n,
{
    if n > 0 {
        let less = m.drop_last();
        let rest = names.drop_last();
        image_avoids(st, x, rest, less, s, n - 1);
        if forall|k: int|
            0 <= k < m.len() ==> term(st, (#[trigger] m[k]).1) == Term::Sym(names[k].0) && names[k].0 != s {
            assert(term(st, m[n - 1].1) == Term::Sym(names[n - 1].0));
            assert forall|k: int| 0 <= k < less.len() implies term(st, (#[trigger] less[k]).1) == Term::Sym(rest[k].0)
                && rest[k].0 != s by {
                assert(less[k] == m[k]);
            }
        }
    }
}

/// Renaming takes the derivative along.
proof fn slope_is_renamed(st: Seq<Term>, t: Term, names: Seq<(SymbolId, SymbolId)>, m: Seq<(SymbolId, ExprId)>, k: int)
    requires
        renames(st, t, names, m),
        0 <= k < names.len(),
    ensures
        put(st, t, m).mentions(names[k].0) <==> t.mentions(names[k].1),
        t.slope(names[k].1) is Some <==> put(st, t, m).slope(names[k].0) is Some,
        t.slope(names[k].1) is Some ==> put(st, t, m).slope(names[k].0)->0 == put(st, t.slope(names[k].1)->0, m),
    decreases t,
{
    let parts = t.made_of();
    reveal_with_fuel(put, 5);
    assert forall|j: int| 0 <= j < parts.len() implies renames(st, #[trigger] parts[j], names, m) by {
        assert forall|i: int| 0 <= i < names.len() implies !parts[j].mentions((#[trigger] names[i]).0) by {
            assert(!t.mentions(names[i].0));
        }
    }
    match t {
        Term::Zero => {},
        Term::One => {},
        Term::Num(_) => {},
        Term::Sym(x) => {
            renamed_image(st, x, names, m, k);
        },
        Term::Plus(a, b) => {
            assert(parts[0] == *a && parts[1] == *b);
            slope_is_renamed(st, *a, names, m, k);
            slope_is_renamed(st, *b, names, m, k);
        },
        Term::Times(a, b) => {
            assert(parts[0] == *a && parts[1] == *b);
            slope_is_renamed(st, *a, names, m, k);
            slope_is_renamed(st, *b, names, m, k);
        },
        Term::Neg(a) => {
            assert(parts[0] == *a);
            slope_is_renamed(st, *a, names, m, k);
        },
        Term::Recip(a) => {
            assert(parts[0] == *a);
            slope_is_renamed(st, *a, names, m, k);
        },
        Term::Exp(a) => {
            assert(parts[0] == *a);
            slope_is_renamed(st, *a, names, m, k);
        },
        Term::Above(a, b) => {
            assert(parts[0] == *a && parts[1] == *b);
            slope_is_renamed(st, *a, names, m, k);
            slope_is_renamed(st, *b, names, m, k);
        },
        Term::Select(a, b, d) => {
            assert(parts[0] == *a && parts[1] == *b && parts[2] == *d);
            slope_is_renamed(st, *a, names, m, k);
            slope_is_renamed(st, *b, names, m, k);
            slope_is_renamed(st, *d, names, m, k);
        },
    }
}

// ---------------------------------------------------------------------------
// What a store answers.
// ---------------------------------------------------------------------------
/// The sum, the product and the rest are the terms that they are named after, where
/// the store has them.
pub(crate) proof fn operations(st: Seq<Term>, names: Seq<Seq<char>>, a: ExprId, b: ExprId)
    requires
        closed(st),
    ensures
        ({
            let g = graph(st, names);
            let (x, y) = (term(st, a), term(st, b));
            let (sum, product) = (sum_of(x, y), product_of(x, y));
            let difference = sum_of(x, Term::Neg(Box::new(y)));
            let (neg, recip, exp) = (Term::Neg(Box::new(x)), Term::Recip(Box::new(x)), Term::Exp(Box::new(x)));
            let above = Term::Above(Box::new(x), Box::new(y));
            let both = stored(st, a) && stored(st, b);
            &&& stored(st, g.plus(a, b)) <==> both && st.contains(sum)
            &&& stored(st, g.plus(a, b)) ==> term(st, g.plus(a, b)) == sum
            &&& stored(st, g.minus(a, b)) <==> both && st.contains(difference)
            &&& stored(st, g.minus(a, b)) ==> term(st, g.minus(a, b)) == difference
            &&& stored(st, g.times(a, b)) <==> both && st.contains(product)
            &&& stored(st, g.times(a, b)) ==> term(st, g.times(a, b)) == product
            &&& stored(st, g.neg(a)) <==> stored(st, a) && st.contains(neg)
            &&& stored(st, g.neg(a)) ==> term(st, g.neg(a)) == neg
            &&& stored(st, g.power(a, -1i64)) <==> stored(st, a) && st.contains(recip)
            &&& stored(st, g.power(a, -1i64)) ==> term(st, g.power(a, -1i64)) == recip
            &&& stored(st, g.fun1(Fun1::Exp, a)) <==> stored(st, a) && st.contains(exp)
            &&& stored(st, g.fun1(Fun1::Exp, a)) ==> term(st, g.fun1(Fun1::Exp, a)) == exp
            &&& stored(st, g.compare(Rel::Gt, a, b)) <==> both && st.contains(above)
            &&& stored(st, g.compare(Rel::Gt, a, b)) ==> term(st, g.compare(Rel::Gt, a, b)) == above
        }),
{
    let (x, y) = (term(st, a), term(st, b));
    found_is(st, sum_of(x, y));
    found_is(st, sum_of(x, Term::Neg(Box::new(y))));
    found_is(st, product_of(x, y));
    found_is(st, Term::Neg(Box::new(x)));
    found_is(st, Term::Recip(Box::new(x)));
    found_is(st, Term::Exp(Box::new(x)));
    found_is(st, Term::Above(Box::new(x), Box::new(y)));
}

pub(crate) proof fn leaves(st: Seq<Term>, names: Seq<Seq<char>>, b: u64, s: SymbolId)
    requires
        closed(st),
    ensures
        ({
            let g = graph(st, names);
            &&& stored(st, g.zero()) && term(st, g.zero()) == Term::Zero
            &&& stored(st, g.one()) ==> term(st, g.one()) == Term::One
            &&& stored(st, g.number(b)) <==> st.contains(Term::Num(b))
            &&& stored(st, g.number(b)) ==> term(st, g.number(b)) == Term::Num(b)
            &&& stored(st, g.symbol_expr(s)) <==> st.contains(Term::Sym(s))
            &&& stored(st, g.symbol_expr(s)) ==> term(st, g.symbol_expr(s)) == Term::Sym(s)
        }),
{
    found_is(st, Term::Zero);
    found_is(st, Term::One);
    found_is(st, Term::Num(b));
    found_is(st, Term::Sym(s));
}

pub(crate) proof fn rewritten(st: Seq<Term>, names: Seq<Seq<char>>, e: ExprId, m: Seq<(SymbolId, ExprId)>)
    requires
        closed(st),
    ensures
        ({
            let r = graph(st, names).substitute(e, m);
            &&& stored(st, r) <==> stored(st, e) && (forall|k: int|
                0 <= k < m.len() ==> stored(st, (#[trigger] m[k]).1)) && st.contains(put(st, term(st, e), m))
            &&& stored(st, r) ==> term(st, r) == put(st, term(st, e), m)
        }),
{
    found_is(st, put(st, term(st, e), m));
}

pub(crate) proof fn derived(st: Seq<Term>, names: Seq<Seq<char>>, e: ExprId, s: SymbolId)
    requires
        closed(st),
    ensures
        ({
            let d = graph(st, names).derive(e, s);
            &&& stored(st, d) <==> stored(st, e) && term(st, e).slope(s) is Some && st.contains(term(st, e).slope(s)->0)
            &&& stored(st, d) ==> term(st, d) == term(st, e).slope(s)->0
        }),
{
    if stored(st, e) && term(st, e).slope(s) is Some {
        found_is(st, term(st, e).slope(s)->0);
    }
}

/// The derivatives of the parts are stored where that of a sum or product is.
proof fn derived_parts(st: Seq<Term>, names: Seq<Seq<char>>, a: ExprId, b: ExprId, s: SymbolId)
    requires
        closed(st),
    ensures
        ({
            let g = graph(st, names);
            &&& stored(st, g.derive(g.plus(a, b), s)) ==> stored(st, g.derive(a, s)) && stored(st, g.derive(b, s))
            &&& stored(st, g.derive(g.times(a, b), s)) ==> stored(st, g.derive(a, s)) && stored(st, g.derive(b, s))
        }),
{
    let g = graph(st, names);
    let (x, y) = (term(st, a), term(st, b));
    operations(st, names, a, b);
    derived(st, names, a, s);
    derived(st, names, b, s);
    derived(st, names, g.plus(a, b), s);
    derived(st, names, g.times(a, b), s);
    if stored(st, g.derive(g.plus(a, b), s)) && sum_of(x, y).mentions(s) {
        let d = sum_of(x, y).slope(s)->0;
        assert(d.made_of()[0] == x.slope(s)->0 && d.made_of()[1] == y.slope(s)->0);
        part_is_stored(st, d, 0);
        part_is_stored(st, d, 1);
    }
    if stored(st, g.derive(g.times(a, b), s)) && product_of(x, y).mentions(s) {
        let d = product_of(x, y).slope(s)->0;
        if !y.mentions(s) {
            assert(d.made_of()[0] == x.slope(s)->0);
            part_is_stored(st, d, 0);
        } else if !x.mentions(s) {
            assert(d.made_of()[1] == y.slope(s)->0);
            part_is_stored(st, d, 1);
        } else {
            let (p, q) = (product_of(x.slope(s)->0, y), product_of(x, y.slope(s)->0));
            assert(d.made_of()[0] == p && d.made_of()[1] == q);
            part_is_stored(st, d, 0);
            part_is_stored(st, d, 1);
            assert(p.made_of()[0] == x.slope(s)->0 && q.made_of()[1] == y.slope(s)->0);
            part_is_stored(st, p, 0);
            part_is_stored(st, q, 1);
        }
    }
}

/// A store means what its terms say.
pub proof fn terms_are_sound<V>(c: Sense<V>, st: Seq<Term>, names: Seq<Seq<char>>)
    requires
        closed(st),
        c.field.obeys(),
    ensures
        c.meaning(st).sound(graph(st, names)),
{
    let g = graph(st, names);
    let m = c.meaning(st);
    let f = c.field;
    leaves(st, names, 0, SymbolId(0));
    assert forall|b: u64, env: Env<V>| m.lives(g.number(b)) implies #[trigger] m.at(g.number(b), env) == (m.literal)(
        b,
    ) by {
        leaves(st, names, b, SymbolId(0));
    }
    assert forall|s: SymbolId, env: Env<V>| m.lives(g.symbol_expr(s)) implies #[trigger] m.at(g.symbol_expr(s), env)
        == env(s) by {
        leaves(st, names, 0, s);
    }
    assert forall|a: ExprId, b: ExprId| #[trigger] m.lives(g.plus(a, b)) implies m.lives(a) && m.lives(b) by {
        operations(st, names, a, b);
    }
    assert forall|a: ExprId, b: ExprId, env: Env<V>| m.lives(g.plus(a, b)) implies #[trigger] m.at(g.plus(a, b), env)
        == (f.plus)(m.at(a, env), m.at(b, env)) by {
        operations(st, names, a, b);
    }
    assert forall|a: ExprId, b: ExprId| #[trigger] m.lives(g.times(a, b)) implies m.lives(a) && m.lives(b) by {
        operations(st, names, a, b);
    }
    assert forall|a: ExprId, b: ExprId, env: Env<V>| m.lives(g.times(a, b)) implies #[trigger] m.at(
        g.times(a, b),
        env,
    ) == (f.times)(m.at(a, env), m.at(b, env)) by {
        operations(st, names, a, b);
    }
    assert forall|a: ExprId| #[trigger] m.lives(g.neg(a)) implies m.lives(a) by {
        operations(st, names, a, a);
    }
    assert forall|a: ExprId, env: Env<V>| m.lives(g.neg(a)) implies #[trigger] m.at(g.neg(a), env) == (f.neg)(
        m.at(a, env),
    ) by {
        operations(st, names, a, a);
    }
    assert forall|a: ExprId| #[trigger] m.lives(g.power(a, -1i64)) implies m.lives(a) by {
        operations(st, names, a, a);
    }
    assert forall|a: ExprId, env: Env<V>|
        m.lives(g.power(a, -1i64)) && m.at(a, env) != f.zero implies #[trigger] m.at(g.power(a, -1i64), env) == (
    f.recip)(m.at(a, env)) by {
        operations(st, names, a, a);
    }
    assert forall|v: Seq<ExprId>| #[trigger] m.lives(g.sum(v)) implies m.all_live(v) by {
        found_is(st, summed(st, v));
    }
    assert forall|v: Seq<ExprId>, env: Env<V>| m.lives(g.sum(v)) implies #[trigger] m.at(g.sum(v), env) == m.total(
        v,
        env,
    ) by {
        found_is(st, summed(st, v));
        summed_value(c, st, v, env);
    }
    assert forall|e: ExprId, n: Seq<(SymbolId, ExprId)>| #[trigger] m.lives(g.substitute(e, n)) implies m.lives(e) && (
    forall|k: int| 0 <= k < n.len() ==> m.lives((#[trigger] n[k]).1)) by {
        rewritten(st, names, e, n);
    }
    assert forall|e: ExprId, n: Seq<(SymbolId, ExprId)>, env: Env<V>|
        m.lives(g.substitute(e, n)) implies #[trigger] m.at(g.substitute(e, n), env) == m.at(e, m.under(env, n)) by {
        rewritten(st, names, e, n);
        put_value(c, st, term(st, e), n, env);
    }
    assert forall|e: ExprId, s: SymbolId| #[trigger] m.lives(g.derive(e, s)) implies m.lives(e) by {
        derived(st, names, e, s);
    }
    assert forall|e: ExprId, a: Env<V>, b: Env<V>| #![trigger m.at(e, a), m.at(e, b)]
        m.lives(e) && (forall|s: SymbolId| g.free(e).contains(s) ==> #[trigger] a(s) == b(s)) implies m.at(e, a) == m.at(
        e,
        b,
    ) by {
        assert forall|s: SymbolId| term(st, e).mentions(s) implies #[trigger] a(s) == b(s) by {
            free_is_mentioned(st, names, e, s);
        }
        values_agree(c, term(st, e), a, b);
    }
    reveal(Meaning::sound);
}

/// A store differentiates by the rules.
pub proof fn terms_differentiate<V>(c: Sense<V>, st: Seq<Term>, names: Seq<Seq<char>>)
    requires
        closed(st),
        c.field.obeys(),
    ensures
        c.meaning(st).differentiates(graph(st, names)),
        c.meaning(st).smooth(graph(st, names)),
{
    let g = graph(st, names);
    let m = c.meaning(st);
    let f = c.field;
    leaves(st, names, 0, SymbolId(0));
    assert forall|a: ExprId, b: ExprId, s: SymbolId| #[trigger] m.lives(g.derive(g.plus(a, b), s)) implies m.lives(
        g.derive(a, s),
    ) && m.lives(g.derive(b, s)) by {
        derived_parts(st, names, a, b, s);
    }
    assert forall|a: ExprId, b: ExprId, s: SymbolId, env: Env<V>|
        m.lives(g.derive(g.plus(a, b), s)) implies #[trigger] m.at(g.derive(g.plus(a, b), s), env) == (f.plus)(
        m.at(g.derive(a, s), env),
        m.at(g.derive(b, s), env),
    ) by {
        derived_parts(st, names, a, b, s);
        derived(st, names, g.plus(a, b), s);
        derived(st, names, a, s);
        derived(st, names, b, s);
        operations(st, names, a, b);
        f.sums(f.zero, f.zero, f.zero);
    }
    assert forall|a: ExprId, b: ExprId, s: SymbolId| #[trigger] m.lives(g.derive(g.times(a, b), s)) implies m.lives(
        g.derive(a, s),
    ) && m.lives(g.derive(b, s)) by {
        derived_parts(st, names, a, b, s);
    }
    assert forall|a: ExprId, b: ExprId, s: SymbolId, env: Env<V>|
        m.lives(g.derive(g.times(a, b), s)) implies #[trigger] m.at(g.derive(g.times(a, b), s), env) == (f.plus)(
        (f.times)(m.at(g.derive(a, s), env), m.at(b, env)),
        (f.times)(m.at(a, env), m.at(g.derive(b, s), env)),
    ) by {
        derived_parts(st, names, a, b, s);
        derived(st, names, g.times(a, b), s);
        derived(st, names, a, s);
        derived(st, names, b, s);
        operations(st, names, a, b);
        reveal_with_fuel(Term::value, 3);
        let (x, y) = (m.at(a, env), m.at(b, env));
        let (dx, dy) = (m.at(g.derive(a, s), env), m.at(g.derive(b, s), env));
        f.times_zero(x);
        f.times_zero(y);
        let (p, q) = ((f.times)(dx, y), (f.times)(x, dy));
        f.sums(p, p, p);
        f.sums(q, q, q);
        f.sums(f.zero, q, q);
    }
    assert forall|t: SymbolId, s: SymbolId, env: Env<V>|
        m.lives(g.derive(g.symbol_expr(t), s)) implies #[trigger] m.at(g.derive(g.symbol_expr(t), s), env) == (if s
        == t {
        f.one
    } else {
        f.zero
    }) by {
        derived(st, names, g.symbol_expr(t), s);
        leaves(st, names, 0, t);
    }
    assert forall|e: ExprId, s: SymbolId, env: Env<V>| #![trigger m.at(g.derive(e, s), env)]
        m.lives(g.derive(e, s)) && !g.free(e).contains(s) implies m.at(g.derive(e, s), env) == f.zero by {
        derived(st, names, e, s);
        free_is_mentioned(st, names, e, s);
    }
    assert forall|t: SymbolId, s: SymbolId|
        m.lives(g.symbol_expr(t)) && #[trigger] g.free(g.symbol_expr(t)).contains(s) implies s == t by {
        free_is_mentioned(st, names, g.symbol_expr(t), s);
        leaves(st, names, 0, t);
    }
    assert forall|e: ExprId, n: Seq<(SymbolId, ExprId)>, s: SymbolId|
        m.lives(g.substitute(e, n)) && #[trigger] g.free(g.substitute(e, n)).contains(s) implies (exists|k: int|
        0 <= k < n.len() && g.free((#[trigger] n[k]).1).contains(s)) || !(exists|k: int|
        0 <= k < n.len() && (#[trigger] n[k]).0 == s) by {
        rewritten_mentions(st, names, e, n, s);
    }
    assert(m.differentiates(g)) by {
        reveal(Meaning::differentiates);
    }
    assert forall|e: ExprId, s: SymbolId, env: Env<V>| #![trigger m.at(g.derive(e, s), env)]
        m.lives(g.derive(e, s)) && !g.free(g.derive(e, s)).contains(s) implies m.at(e, env) == (f.plus)(
        m.at(e, moved(env, s, f.zero)),
        (f.times)(m.at(g.derive(e, s), env), env(s)),
    ) by {
        derived(st, names, e, s);
        free_is_mentioned(st, names, g.derive(e, s), s);
        affine(c, term(st, e), s, env);
    }
    assert forall|e: ExprId, s: SymbolId| #[trigger] m.smooth_in(g, e, s) by {}
}

proof fn rewritten_mentions(
    st: Seq<Term>,
    names: Seq<Seq<char>>,
    e: ExprId,
    n: Seq<(SymbolId, ExprId)>,
    s: SymbolId,
)
    requires
        closed(st),
        stored(st, graph(st, names).substitute(e, n)),
        graph(st, names).free(graph(st, names).substitute(e, n)).contains(s),
    ensures
        (exists|k: int| 0 <= k < n.len() && graph(st, names).free((#[trigger] n[k]).1).contains(s)) || !(exists|k: int|
            0 <= k < n.len() && (#[trigger] n[k]).0 == s),
{
    let g = graph(st, names);
    rewritten(st, names, e, n);
    free_is_mentioned(st, names, g.substitute(e, n), s);
    put_mentions(st, term(st, e), n, s);
    if brought(st, n, s) {
        let k = choose|k: int| 0 <= k < n.len() && term(st, (#[trigger] n[k]).1).mentions(s);
        free_is_mentioned(st, names, n[k].1, s);
        assert(g.free(n[k].1).contains(s));
    }
}

/// A store takes derivatives along with a renaming, and has its terms made of
/// earlier ones.
pub proof fn terms_follow_renaming<V>(c: Sense<V>, st: Seq<Term>, names: Seq<Seq<char>>)
    requires
        closed(st),
    ensures
        c.meaning(st).follows_renaming(graph(st, names)),
        structural(graph(st, names)),
{
    let g = graph(st, names);
    let m = c.meaning(st);
    assert forall|e: ExprId, pairs: Seq<(SymbolId, SymbolId)>, k: int, env: Env<V>|
        0 <= k < pairs.len() && one_to_one(g, pairs, e) && m.lives(
            g.derive(g.substitute(e, forth(g, pairs)), pairs[k].0),
        ) && m.lives(g.derive(e, pairs[k].1)) implies #[trigger] m.at(
        g.derive(g.substitute(e, forth(g, pairs)), pairs[k].0),
        env,
    ) == m.at(g.derive(e, pairs[k].1), m.under(env, forth(g, pairs))) by {
        let n = forth(g, pairs);
        let t = term(st, e);
        derived(st, names, g.substitute(e, n), pairs[k].0);
        derived(st, names, e, pairs[k].1);
        rewritten(st, names, e, n);
        assert forall|j: int| 0 <= j < pairs.len() implies (#[trigger] n[j]).0 == pairs[j].1 && term(st, n[j].1)
            == Term::Sym(pairs[j].0) by {
            leaves(st, names, 0, pairs[j].0);
        }
        assert forall|j: int| 0 <= j < pairs.len() implies !t.mentions((#[trigger] pairs[j]).0) by {
            free_is_mentioned(st, names, e, pairs[j].0);
        }
        slope_is_renamed(st, t, pairs, n, k);
        put_value(c, st, t.slope(pairs[k].1)->0, n, env);
    }
    assert forall|e: ExprId, s: SymbolId, x: SymbolId|
        m.lives(g.derive(e, s)) && #[trigger] g.free(g.derive(e, s)).contains(x) implies g.free(e).contains(x) by {
        derived(st, names, e, s);
        free_is_mentioned(st, names, g.derive(e, s), x);
        free_is_mentioned(st, names, e, x);
        slope_mentions(term(st, e), s, x);
    }
    assert forall|e: ExprId, s: SymbolId| #[trigger] g.free(e).contains(s) implies match g.as_symbol(e) {
        Some(t) => s == t,
        None => exists|k: int|
            0 <= k < g.parts(e).len() && (#[trigger] g.parts(e)[k]).0 < e.0 && g.free(g.parts(e)[k]).contains(s),
    } by {
        free_is_mentioned(st, names, e, s);
        let t = term(st, e);
        if !(t is Sym) {
            let k = mentioned_in(t, s);
            made_of_stored(st, e, k);
            assert(g.parts(e)[k] == handle(st, t.made_of()[k]));
            free_is_mentioned(st, names, g.parts(e)[k], s);
        }
    }
}

/// A term that is no symbol mentions what one of its parts mentions.
proof fn mentioned_in(t: Term, s: SymbolId) -> (k: int)
    requires
        t.mentions(s),
        !(t is Sym),
    ensures
        0 <= k < t.made_of().len(),
        t.made_of()[k].mentions(s),
{
    let v = t.made_of();
    if v[0].mentions(s) {
        0
    } else if v.len() > 1 && v[1].mentions(s) {
        1
    } else {
        2
    }
}

/// Differences, exponentials and choices of a store mean what they say.
pub proof fn terms_are_elementary<V>(c: Sense<V>, st: Seq<Term>, names: Seq<Seq<char>>)
    requires
        closed(st),
        c.field.obeys(),
    ensures
        c.meaning(st).elementary(graph(st, names), c.exp, c.above),
{
    let g = graph(st, names);
    let m = c.meaning(st);
    let f = c.field;
    leaves(st, names, 0, SymbolId(0));
    assert forall|a: ExprId, b: ExprId| #[trigger] m.lives(g.minus(a, b)) implies m.lives(a) && m.lives(b) by {
        operations(st, names, a, b);
    }
    assert forall|a: ExprId, b: ExprId, env: Env<V>| m.lives(g.minus(a, b)) implies #[trigger] m.at(
        g.minus(a, b),
        env,
    ) == (f.plus)(m.at(a, env), (f.neg)(m.at(b, env))) by {
        operations(st, names, a, b);
        reveal_with_fuel(Term::value, 3);
    }
    assert forall|a: ExprId| #[trigger] m.lives(g.fun1(Fun1::Exp, a)) implies m.lives(a) by {
        operations(st, names, a, a);
    }
    assert forall|a: ExprId, env: Env<V>| m.lives(g.fun1(Fun1::Exp, a)) implies #[trigger] m.at(
        g.fun1(Fun1::Exp, a),
        env,
    ) == (c.exp)(m.at(a, env)) by {
        operations(st, names, a, a);
    }
    assert forall|a: ExprId, b: ExprId, x: ExprId, y: ExprId| #[trigger]
        m.lives(g.select(g.compare(Rel::Gt, a, b), x, y)) implies m.lives(a) && m.lives(b) && m.lives(x) && m.lives(
        y,
    ) by {
        operations(st, names, a, b);
        found_is(
            st,
            Term::Select(
                Box::new(term(st, g.compare(Rel::Gt, a, b))),
                Box::new(term(st, x)),
                Box::new(term(st, y)),
            ),
        );
    }
    assert forall|a: ExprId, b: ExprId, x: ExprId, y: ExprId, env: Env<V>|
        m.lives(g.select(g.compare(Rel::Gt, a, b), x, y)) implies #[trigger] m.at(
        g.select(g.compare(Rel::Gt, a, b), x, y),
        env,
    ) == (if (c.above)(m.at(a, env), m.at(b, env)) {
        m.at(x, env)
    } else {
        m.at(y, env)
    }) by {
        operations(st, names, a, b);
        found_is(
            st,
            Term::Select(
                Box::new(term(st, g.compare(Rel::Gt, a, b))),
                Box::new(term(st, x)),
                Box::new(term(st, y)),
            ),
        );
        reveal_with_fuel(Term::value, 3);
        reveal(Field::obeys);
    }
}

proof fn sums_tell(st: Seq<Term>, names: Seq<Seq<char>>, a: ExprId, b: ExprId, q: SymbolId, s: SymbolId)
    requires
        closed(st),
    ensures
        ({
            let g = graph(st, names);
            let d = g.derive(g.plus(a, b), q);
            stored(st, d) && g.free(d).contains(s) ==> g.free(g.derive(a, q)).contains(s) || g.free(
                g.derive(b, q),
            ).contains(s)
        }),
{
    let g = graph(st, names);
    derived_parts(st, names, a, b, q);
    derived(st, names, g.plus(a, b), q);
    derived(st, names, a, q);
    derived(st, names, b, q);
    operations(st, names, a, b);
    free_is_mentioned(st, names, g.derive(g.plus(a, b), q), s);
    free_is_mentioned(st, names, g.derive(a, q), s);
    free_is_mentioned(st, names, g.derive(b, q), s);
}

proof fn products_tell(st: Seq<Term>, names: Seq<Seq<char>>, a: ExprId, t: SymbolId, q: SymbolId, s: SymbolId)
    requires
        closed(st),
    ensures
        ({
            let g = graph(st, names);
            let p = g.times(a, g.symbol_expr(t));
            let d = g.derive(p, q);
            &&& stored(st, d) && g.free(d).contains(s) && !g.free(a).contains(q) ==> g.free(a).contains(s)
            &&& stored(st, p) ==> g.free(p).contains(t)
        }),
{
    let g = graph(st, names);
    let x = g.symbol_expr(t);
    derived(st, names, g.times(a, x), q);
    operations(st, names, a, x);
    leaves(st, names, 0, t);
    free_is_mentioned(st, names, g.derive(g.times(a, x), q), s);
    free_is_mentioned(st, names, g.times(a, x), t);
    free_is_mentioned(st, names, a, q);
    free_is_mentioned(st, names, a, s);
    reveal_with_fuel(Term::mentions, 3);
    reveal_with_fuel(Term::slope, 3);
}

/// A store tells which symbols its terms mention.
pub proof fn terms_tell_symbols<V>(c: Sense<V>, st: Seq<Term>, names: Seq<Seq<char>>)
    requires
        closed(st),
    ensures
        tells_symbols(graph(st, names), c.meaning(st).live),
{
    let g = graph(st, names);
    let live = c.meaning(st).live;
    leaves(st, names, 0, SymbolId(0));
    assert forall|s: SymbolId| !(#[trigger] g.free(g.zero()).contains(s)) by {
        free_is_mentioned(st, names, g.zero(), s);
    }
    assert forall|b: u64, s: SymbolId| lives(live, g.number(b)) implies !(#[trigger] g.free(g.number(b)).contains(
        s,
    )) by {
        leaves(st, names, b, s);
        free_is_mentioned(st, names, g.number(b), s);
    }
    assert forall|t: SymbolId, s: SymbolId|
        lives(live, g.symbol_expr(t)) implies (#[trigger] g.free(g.symbol_expr(t)).contains(s) <==> s == t) by {
        leaves(st, names, 0, t);
        free_is_mentioned(st, names, g.symbol_expr(t), s);
    }
    assert forall|a: ExprId, b: ExprId| #[trigger] lives(live, g.times(a, b)) implies lives(live, a) && lives(
        live,
        b,
    ) by {
        operations(st, names, a, b);
    }
    assert forall|a: ExprId, b: ExprId, s: SymbolId|
        lives(live, g.times(a, b)) && #[trigger] g.free(g.times(a, b)).contains(s) implies g.free(a).contains(s)
        || g.free(b).contains(s) by {
        operations(st, names, a, b);
        free_is_mentioned(st, names, g.times(a, b), s);
        free_is_mentioned(st, names, a, s);
        free_is_mentioned(st, names, b, s);
    }
    assert forall|e: ExprId, n: Seq<(SymbolId, ExprId)>| #[trigger] lives(live, g.substitute(e, n)) implies forall|
        k: int,
    | 0 <= k < n.len() ==> lives(live, (#[trigger] n[k]).1) by {
        rewritten(st, names, e, n);
    }
    assert forall|e: ExprId, n: Seq<(SymbolId, ExprId)>, s: SymbolId|
        lives(live, g.substitute(e, n)) && #[trigger] g.free(g.substitute(e, n)).contains(s) implies (exists|k: int|
        0 <= k < n.len() && g.free((#[trigger] n[k]).1).contains(s)) || !(exists|k: int|
        0 <= k < n.len() && (#[trigger] n[k]).0 == s) by {
        rewritten_mentions(st, names, e, n, s);
    }
    assert forall|e: ExprId, s: SymbolId| #[trigger] lives(live, g.derive(e, s)) implies lives(live, e) by {
        derived(st, names, e, s);
    }
    assert forall|q: SymbolId, s: SymbolId|
        lives(live, g.derive(g.zero(), q)) implies !(#[trigger] g.free(g.derive(g.zero(), q)).contains(s)) by {
        derived(st, names, g.zero(), q);
        free_is_mentioned(st, names, g.derive(g.zero(), q), s);
    }
    assert forall|a: ExprId, b: ExprId, q: SymbolId| #[trigger] lives(live, g.derive(g.plus(a, b), q)) implies lives(
        live,
        g.derive(a, q),
    ) && lives(live, g.derive(b, q)) by {
        derived_parts(st, names, a, b, q);
    }
    assert forall|a: ExprId, b: ExprId, q: SymbolId, s: SymbolId|
        lives(live, g.derive(g.plus(a, b), q)) && #[trigger] g.free(g.derive(g.plus(a, b), q)).contains(s) implies g.free(
        g.derive(a, q),
    ).contains(s) || g.free(g.derive(b, q)).contains(s) by {
        sums_tell(st, names, a, b, q, s);
    }
    assert forall|a: ExprId, t: SymbolId, q: SymbolId, s: SymbolId|
        lives(live, g.derive(g.times(a, g.symbol_expr(t)), q)) && #[trigger] g.free(
            g.derive(g.times(a, g.symbol_expr(t)), q),
        ).contains(s) && !g.free(a).contains(q) implies g.free(a).contains(s) by {
        products_tell(st, names, a, t, q, s);
    }
    assert forall|a: ExprId, t: SymbolId| #![trigger g.times(a, g.symbol_expr(t))]
        lives(live, g.times(a, g.symbol_expr(t))) && !g.is_zero(g.times(a, g.symbol_expr(t))) && !g.free(a).contains(
            t,
        ) implies g.free(g.times(a, g.symbol_expr(t))).contains(t) by {
        products_tell(st, names, a, t, t, t);
    }
    assert(tells_symbols(g, live)) by {
        reveal(tells_symbols);
    }
}

} // verus!

//! What the blocks of a Jacobian mean: each entry is the slope of its row.
use crate::dae::jacobian::{column_of, Entry};
use crate::dae::linearize::running_sum;
use crate::dae::meaning::{Env, Field, Meaning};
use crate::dae::system::{of_row, Stamp};
use crate::dae::templates::{
    ascending, back, block, block_is_sparse, canonical, cells, encounter, forth, gathered, joined, names_of, nonzero, renamed,
    stamp_entries, walked, walked_parts, Walk,
};
use crate::symbolic::{ExprId, Graph, SymbolId};
use vstd::prelude::*;

verus! {

// ---------------------------------------------------------------------------
// Encountered symbols.
// ---------------------------------------------------------------------------
/// An expression is made of earlier ones, and depends on what they depend on.
pub open spec fn structural(g: Graph) -> bool {
    forall|e: ExprId, s: SymbolId| #[trigger]
        g.free(e).contains(s) ==> match g.as_symbol(e) {
            Some(t) => s == t,
            None => exists|k: int|
                0 <= k < g.parts(e).len() && (#[trigger] g.parts(e)[k]).0 < e.0 && g.free(g.parts(e)[k]).contains(s),
        }
}

/// The symbols of every expression below `b` that was entered have been noted.
spec fn noted_below(g: Graph, w: Walk, b: int) -> bool {
    forall|e: ExprId, s: SymbolId|
        w.seen.contains(e.0) && e.0 < b && #[trigger] g.free(e).contains(s) ==> w.order.contains(s)
}

spec fn grown(v: Walk, w: Walk, top: int) -> bool {
    &&& forall|s: SymbolId| #[trigger] v.order.contains(s) ==> w.order.contains(s)
    &&& forall|k: u64| #[trigger] w.seen.contains(k) ==> v.seen.contains(k) || k <= top
    &&& v.order.no_duplicates() ==> w.order.no_duplicates()
}

proof fn walk_notes(g: Graph, e: ExprId, w: Walk, b: int)
    requires
        structural(g),
        noted_below(g, w, b),
        e.0 < b,
    ensures
        noted_below(g, walked(g, e, w), b),
        grown(w, walked(g, e, w), e.0 as int),
        forall|s: SymbolId| #[trigger] g.free(e).contains(s) ==> walked(g, e, w).order.contains(s),
    decreases e.0, 1int, 0int,
{
    let r = walked(g, e, w);
    if !w.seen.contains(e.0) {
        let inner = Walk { seen: w.seen.insert(e.0), order: w.order };
        match g.as_symbol(e) {
            Some(s) => {
                if !w.order.contains(s) {
                    assert(r.order == w.order.push(s));
                    assert(r.order[w.order.len() as int] == s);
                    assert forall|x: SymbolId| #[trigger] w.order.contains(x) implies r.order.contains(x) by {
                        let k = choose|k: int| 0 <= k < w.order.len() && w.order[k] == x;
                        assert(r.order[k] == x);
                    }
                }
                assert(r.order.contains(s));
                assert forall|f: ExprId, x: SymbolId|
                    r.seen.contains(f.0) && f.0 < b && #[trigger] g.free(f).contains(x) implies r.order.contains(x) by {
                    if f.0 != e.0 {
                        assert(w.seen.contains(f.0));
                    } else {
                        assert(f == e);
                    }
                }
            },
            None => {
                assert forall|f: ExprId, x: SymbolId|
                    inner.seen.contains(f.0) && f.0 < e.0 && #[trigger] g.free(f).contains(x) implies inner.order.contains(
                    x,
                ) by {
                    assert(w.seen.contains(f.0));
                }
                parts_note(g, e, g.parts(e), 0, inner);
                assert forall|x: SymbolId| #[trigger] g.free(e).contains(x) implies r.order.contains(x) by {
                    let k = choose|k: int|
                        0 <= k < g.parts(e).len() && (#[trigger] g.parts(e)[k]).0 < e.0 && g.free(g.parts(e)[k]).contains(x);
                    assert(g.free(g.parts(e)[k]).contains(x));
                }
                assert forall|f: ExprId, x: SymbolId|
                    r.seen.contains(f.0) && f.0 < b && #[trigger] g.free(f).contains(x) implies r.order.contains(x) by {
                    if f.0 > e.0 {
                        assert(inner.seen.contains(f.0));
                        assert(w.seen.contains(f.0));
                    } else if f.0 == e.0 {
                        assert(f == e);
                    }
                }
                assert forall|k: u64| #[trigger] r.seen.contains(k) implies w.seen.contains(k) || k <= e.0 by {
                    assert(inner.seen.contains(k) || k <= e.0);
                }
            },
        }
    }
}

proof fn parts_note(g: Graph, e: ExprId, v: Seq<ExprId>, k: int, w: Walk)
    requires
        structural(g),
        noted_below(g, w, e.0 as int),
        0 <= k,
    ensures
        noted_below(g, walked_parts(g, e, v, k, w), e.0 as int),
        grown(w, walked_parts(g, e, v, k, w), e.0 as int),
        forall|j: int, s: SymbolId|
            k <= j < v.len() && v[j].0 < e.0 && #[trigger] g.free(v[j]).contains(s) ==> walked_parts(
                g,
                e,
                v,
                k,
                w,
            ).order.contains(s),
    decreases e.0, 0int, v.len() - k,
{
    if k < v.len() {
        if v[k].0 < e.0 {
            let next = walked(g, v[k], w);
            walk_notes(g, v[k], w, e.0 as int);
            parts_note(g, e, v, k + 1, next);
            let r = walked_parts(g, e, v, k, w);
            assert forall|x: u64| #[trigger] r.seen.contains(x) implies w.seen.contains(x) || x <= e.0 by {
                assert(next.seen.contains(x) || x <= e.0);
            }
        } else {
            parts_note(g, e, v, k + 1, w);
        }
    }
}

/// Every symbol that an expression depends on is met, and none is noted twice.
pub proof fn encounter_is_complete(g: Graph, e: ExprId)
    requires
        structural(g),
    ensures
        forall|s: SymbolId| #[trigger] g.free(e).contains(s) ==> encounter(g, e).contains(s),
        encounter(g, e).no_duplicates(),
{
    let w = Walk { seen: Set::empty(), order: seq![] };
    walk_notes(g, e, w, e.0 + 1);
}

proof fn renamed_names(
    g: Graph,
    t: SymbolId,
    vars: Seq<SymbolId>,
    order: Seq<SymbolId>,
    k: int,
    np: nat,
    nq: nat,
    s: SymbolId,
)
    requires
        order.no_duplicates(),
        0 <= k <= order.len(),
        s != t,
    ensures
        ({
            let n = renamed(g, t, vars, order, k, np, nq);
            &&& forall|j: int| 0 <= j < n.len() ==> exists|i: int| k <= i < order.len() && order[i] == (#[trigger] n[j]).1
            &&& (exists|i: int| k <= i < order.len() && order[i] == s) ==> exists|j: int|
                0 <= j < n.len() && (#[trigger] n[j]).1 == s
            &&& forall|i: int, j: int| 0 <= i < j < n.len() ==> (#[trigger] n[i]).1 != (#[trigger] n[j]).1
        }),
    decreases order.len() - k,
{
    let n = renamed(g, t, vars, order, k, np, nq);
    if k < order.len() {
        if order[k] == t {
            renamed_names(g, t, vars, order, k + 1, np, nq, s);
        } else {
            let var = vars.contains(order[k]);
            let (np1, nq1) = if var {
                (np + 1, nq)
            } else {
                (np, nq + 1)
            };
            let rest = renamed(g, t, vars, order, k + 1, np1, nq1);
            renamed_names(g, t, vars, order, k + 1, np1, nq1, s);
            assert(n[0].1 == order[k]);
            assert forall|j: int| 0 <= j < n.len() implies exists|i: int|
                k <= i < order.len() && order[i] == (#[trigger] n[j]).1 by {
                if j > 0 {
                    assert(n[j] == rest[j - 1]);
                }
            }
            assert forall|i: int, j: int| 0 <= i < j < n.len() implies (#[trigger] n[i]).1 != (#[trigger] n[j]).1 by {
                assert(n[j] == rest[j - 1]);
                if i > 0 {
                    assert(n[i] == rest[i - 1]);
                }
            }
            if exists|i: int| k + 1 <= i < order.len() && order[i] == s {
                let j = choose|j: int| 0 <= j < rest.len() && (#[trigger] rest[j]).1 == s;
                assert(n[j + 1] == rest[j]);
            }
        }
    }
}

// ---------------------------------------------------------------------------
// Cells.
// ---------------------------------------------------------------------------
/// No placeholder stands for two symbols, is the time, or occurs in the contribution
/// itself.
pub open spec fn placeholders_apart(g: Graph, t: SymbolId, vars: Seq<SymbolId>, e: ExprId) -> bool {
    let names = names_of(g, t, vars, e);
    &&& forall|i: int, j: int| 0 <= i < j < names.len() ==> (#[trigger] names[i]).0 != (#[trigger] names[j]).0
    &&& forall|k: int| 0 <= k < names.len() ==> (#[trigger] names[k]).0 != t && !g.free(e).contains(names[k].0)
}

/// The slope of a contribution in its symbol `k`, by way of the canonical form.
pub open spec fn template(g: Graph, t: SymbolId, vars: Seq<SymbolId>, e: ExprId, k: int) -> ExprId {
    let names = names_of(g, t, vars, e);
    g.substitute(g.derive(canonical(g, t, vars, e), names[k].0), back(g, names))
}

/// The pairs rename one to one, to symbols that the expression does not mention.
pub open spec fn one_to_one(g: Graph, names: Seq<(SymbolId, SymbolId)>, e: ExprId) -> bool {
    &&& forall|i: int, j: int|
        0 <= i < j < names.len() ==> (#[trigger] names[i]).0 != (#[trigger] names[j]).0 && names[i].1 != names[j].1
    &&& forall|k: int| 0 <= k < names.len() ==> !g.free(e).contains((#[trigger] names[k]).0)
}

impl<V> Meaning<V> {
    /// Differentiation follows a renaming, and brings in no symbol.
    pub open spec fn follows_renaming(self, g: Graph) -> bool {
        &&& forall|e: ExprId, names: Seq<(SymbolId, SymbolId)>, k: int, env: Env<V>|
            0 <= k < names.len() && one_to_one(g, names, e) && self.lives(
                g.derive(g.substitute(e, forth(g, names)), names[k].0),
            ) && self.lives(g.derive(e, names[k].1)) ==> #[trigger] self.at(
                g.derive(g.substitute(e, forth(g, names)), names[k].0),
                env,
            ) == self.at(g.derive(e, names[k].1), self.under(env, forth(g, names)))
        &&& forall|e: ExprId, s: SymbolId, x: SymbolId|
            self.lives(g.derive(e, s)) && #[trigger] g.free(g.derive(e, s)).contains(x) ==> g.free(e).contains(x)
    }

    /// A symbol that the pairs name once takes the value they give it.
    proof fn put_once(self, m: Seq<(SymbolId, ExprId)>, env: Env<V>, k: int)
        requires
            0 <= k < m.len(),
            forall|i: int, j: int| 0 <= i < j < m.len() ==> (#[trigger] m[i]).0 != (#[trigger] m[j]).0,
        ensures
            self.put(env, m, m[k].0) == self.at(m[k].1, env),
        decreases m.len(),
    {
        if k < m.len() - 1 {
            let less = m.drop_last();
            assert(m[k].0 != m[m.len() - 1].0);
            assert forall|i: int, j: int| 0 <= i < j < less.len() implies (#[trigger] less[i]).0 != (#[trigger] less[j]).0 by {
                assert(m[i].0 != m[j].0);
            }
            self.put_once(less, env, k);
            assert(less[k] == m[k]);
        }
    }

    /// A symbol that the pairs do not name keeps its value.
    proof fn put_never(self, m: Seq<(SymbolId, ExprId)>, env: Env<V>, s: SymbolId)
        requires
            forall|i: int| 0 <= i < m.len() ==> (#[trigger] m[i]).0 != s,
        ensures
            self.put(env, m, s) == env(s),
        decreases m.len(),
    {
        if m.len() > 0 {
            let less = m.drop_last();
            assert(m[m.len() - 1].0 != s);
            assert forall|i: int| 0 <= i < less.len() implies (#[trigger] less[i]).0 != s by {
                assert(m[i].0 != s);
            }
            self.put_never(less, env, s);
        }
    }

    /// There and back again, every symbol of the contribution has its value.
    proof fn round_trip(self, g: Graph, t: SymbolId, names: Seq<(SymbolId, SymbolId)>, env: Env<V>, s: SymbolId)
        requires
            self.sound(g),
            forall|i: int, j: int|
                0 <= i < j < names.len() ==> (#[trigger] names[i]).0 != (#[trigger] names[j]).0 && names[i].1
                    != names[j].1,
            forall|k: int| 0 <= k < names.len() ==> (#[trigger] names[k]).0 != t && names[k].1 != t,
            s == t || exists|j: int| 0 <= j < names.len() && (#[trigger] names[j]).1 == s,
            forall|k: int|
                0 <= k < names.len() ==> self.lives(g.symbol_expr((#[trigger] names[k]).0)) && self.lives(
                    g.symbol_expr(names[k].1),
                ),
        ensures
            self.under(self.under(env, back(g, names)), forth(g, names))(s) == env(s),
    {
        let (f, b) = (forth(g, names), back(g, names));
        let mid = self.under(env, b);
        assert forall|i: int, j: int| 0 <= i < j < f.len() implies (#[trigger] f[i]).0 != (#[trigger] f[j]).0 by {
            assert(names[i].1 != names[j].1);
        }
        assert forall|i: int, j: int| 0 <= i < j < b.len() implies (#[trigger] b[i]).0 != (#[trigger] b[j]).0 by {
            assert(names[i].0 != names[j].0);
        }
        if s == t {
            assert forall|i: int| 0 <= i < f.len() implies (#[trigger] f[i]).0 != t by {
                assert(names[i].1 != t);
            }
            assert forall|i: int| 0 <= i < b.len() implies (#[trigger] b[i]).0 != t by {
                assert(names[i].0 != t);
            }
            self.put_never(f, mid, t);
            self.put_never(b, env, t);
        } else {
            let j = choose|j: int| 0 <= j < names.len() && (#[trigger] names[j]).1 == s;
            self.put_once(f, mid, j);
            self.put_once(b, env, j);
            assert(f[j] == (s, g.symbol_expr(names[j].0)));
            assert(b[j] == (names[j].0, g.symbol_expr(s)));
            reveal(Meaning::sound);
        }
    }

    /// Putting the symbols back into a slope of the canonical form gives the slope
    /// of the contribution, for every symbol that was renamed.
    pub proof fn templates_differentiate(
        self,
        g: Graph,
        t: SymbolId,
        vars: Seq<SymbolId>,
        e: ExprId,
        k: int,
        env: Env<V>,
    )
        requires
            self.sound(g),
            self.follows_renaming(g),
            structural(g),
            placeholders_apart(g, t, vars, e),
            0 <= k < names_of(g, t, vars, e).len(),
            self.lives(template(g, t, vars, e, k)),
            self.lives(g.derive(e, names_of(g, t, vars, e)[k].1)),
        ensures
            ({
                let names = names_of(g, t, vars, e);
                self.at(template(g, t, vars, e, k), env) == self.at(g.derive(e, names[k].1), env)
            }),
    {
        let names = names_of(g, t, vars, e);
        assert forall|i: int| 0 <= i < names.len() implies self.lives(g.symbol_expr((#[trigger] names[i]).0))
            && self.lives(g.symbol_expr(names[i].1)) by {
            reveal(Meaning::sound);
            assert(self.lives(g.derive(canonical(g, t, vars, e), names[k].0)));
            assert(self.lives(back(g, names)[i].1));
            assert(self.lives(forth(g, names)[i].1));
        }
        assert(self.lives(g.derive(canonical(g, t, vars, e), names[k].0))) by {
            reveal(Meaning::sound);
        }
        let order = encounter(g, e);
        encounter_is_complete(g, e);
        names_skip_the_time(g, t, vars, order, 0, 0, 0);
        assert(names[k].1 != t);
        renamed_names(g, t, vars, order, 0, 0, 0, names[k].1);
        assert(one_to_one(g, names, e)) by {
            assert forall|i: int, j: int| 0 <= i < j < names.len() implies (#[trigger] names[i]).0 != (#[trigger] names[j]).0
                && names[i].1 != names[j].1 by {}
        }
        let d = g.derive(e, names[k].1);
        let mid = self.under(env, back(g, names));
        let there = self.under(mid, forth(g, names));
        assert forall|s: SymbolId| g.free(d).contains(s) implies #[trigger] there(s) == env(s) by {
            assert(g.free(e).contains(s));
            assert(order.contains(s));
            if s != t {
                renamed_names(g, t, vars, order, 0, 0, 0, s);
                let i = choose|i: int| 0 <= i < order.len() && order[i] == s;
                assert(order[i] == s);
            }
            self.round_trip(g, t, names, env, s);
        }
        self.agreement(g, d, there, env);
        let slope = g.derive(canonical(g, t, vars, e), names[k].0);
        assert(self.at(slope, mid) == self.at(d, there));
        assert(self.at(g.substitute(slope, back(g, names)), env) == self.at(slope, mid)) by {
            reveal(Meaning::sound);
        }
    }
}

/// The time is not renamed.
proof fn names_skip_the_time(
    g: Graph,
    t: SymbolId,
    vars: Seq<SymbolId>,
    order: Seq<SymbolId>,
    k: int,
    np: nat,
    nq: nat,
)
    requires
        0 <= k <= order.len(),
    ensures
        forall|j: int|
            0 <= j < renamed(g, t, vars, order, k, np, nq).len() ==> (#[trigger] renamed(
                g,
                t,
                vars,
                order,
                k,
                np,
                nq,
            )[j]).1 != t,
    decreases order.len() - k,
{
    if k < order.len() {
        if order[k] == t {
            names_skip_the_time(g, t, vars, order, k + 1, np, nq);
            assert(renamed(g, t, vars, order, k, np, nq) == renamed(g, t, vars, order, k + 1, np, nq));
        } else {
            let (np1, nq1) = if vars.contains(order[k]) {
                (np + 1, nq)
            } else {
                (np, nq + 1)
            };
            names_skip_the_time(g, t, vars, order, k + 1, np1, nq1);
            let n = renamed(g, t, vars, order, k, np, nq);
            let rest = renamed(g, t, vars, order, k + 1, np1, nq1);
            assert(n[0].1 == order[k]);
            assert forall|j: int| 0 <= j < n.len() implies (#[trigger] n[j]).1 != t by {
                if j > 0 {
                    assert(n[j] == rest[j - 1]);
                }
            }
        }
    } else {
        assert(renamed(g, t, vars, order, k, np, nq).len() == 0);
    }
}

impl<V> Meaning<V> {
    /// What an entry adds to a cell.
    spec fn share(self, e: Entry, row: usize, col: usize, env: Env<V>) -> V {
        if e.0 == row && e.1 == col {
            self.at(e.2, env)
        } else {
            self.field.zero
        }
    }

    /// What a list of entries adds to a cell.
    spec fn cell(self, v: Seq<Entry>, row: usize, col: usize, env: Env<V>) -> V
        decreases v.len(),
    {
        if v.len() == 0 {
            self.field.zero
        } else {
            (self.field.plus)(self.cell(v.drop_last(), row, col, env), self.share(v.last(), row, col, env))
        }
    }

    proof fn cell_concat(self, g: Graph, a: Seq<Entry>, b: Seq<Entry>, row: usize, col: usize, env: Env<V>)
        requires
            self.sound(g),
        ensures
            self.cell(a + b, row, col, env) == (self.field.plus)(
                self.cell(a, row, col, env),
                self.cell(b, row, col, env),
            ),
        decreases b.len(),
    {
        self.arithmetic(g);
        let x = self.cell(a, row, col, env);
        if b.len() == 0 {
            assert(a + b =~= a);
            self.field.sums(x, x, x);
        } else {
            assert((a + b).drop_last() =~= a + b.drop_last());
            self.cell_concat(g, a, b.drop_last(), row, col, env);
            self.field.sums(x, self.cell(b.drop_last(), row, col, env), self.share(b.last(), row, col, env));
        }
    }

    proof fn cell_one(self, g: Graph, e: Entry, row: usize, col: usize, env: Env<V>)
        requires
            self.sound(g),
        ensures
            self.cell(seq![e], row, col, env) == self.share(e, row, col, env),
    {
        self.arithmetic(g);
        let one = seq![e];
        assert(one.drop_last().len() == 0);
        assert(self.cell(one.drop_last(), row, col, env) == self.field.zero);
        let x = self.share(e, row, col, env);
        self.field.sums(x, x, x);
    }

    /// A list with one entry in the middle.
    proof fn cell_around(self, g: Graph, a: Seq<Entry>, e: Entry, b: Seq<Entry>, row: usize, col: usize, env: Env<V>)
        requires
            self.sound(g),
        ensures
            self.cell(a + seq![e] + b, row, col, env) == (self.field.plus)(
                self.cell(a + b, row, col, env),
                self.share(e, row, col, env),
            ),
    {
        self.arithmetic(g);
        self.cell_concat(g, a + seq![e], b, row, col, env);
        self.cell_concat(g, a, seq![e], row, col, env);
        self.cell_concat(g, a, b, row, col, env);
        self.cell_one(g, e, row, col, env);
        let (x, y, z) = (
            self.cell(a, row, col, env),
            self.share(e, row, col, env),
            self.cell(b, row, col, env),
        );
        self.field.swaps(x, y, z);
    }

    /// The entries of a list are expressions of the graph.
    pub open spec fn entries_live(self, v: Seq<Entry>) -> bool {
        forall|k: int| 0 <= k < v.len() ==> self.lives((#[trigger] v[k]).2)
    }

    /// What was added to is an expression where the outcome is one.
    proof fn joined_live(self, g: Graph, acc: Seq<Entry>, e: Entry, i: int)
        requires
            self.sound(g),
            0 <= i <= acc.len(),
            self.entries_live(joined(g, acc, e, i)),
        ensures
            self.entries_live(acc),
            self.lives(e.2),
        decreases i,
    {
        let r = joined(g, acc, e, i);
        if i <= 0 || !(acc[i - 1].0 == e.0 && acc[i - 1].1 == e.1) && crate::dae::templates::earlier(acc[i - 1], e) {
            assert(r == acc.insert(i, e));
            assert(r[i] == e);
            assert forall|k: int| 0 <= k < acc.len() implies self.lives((#[trigger] acc[k]).2) by {
                if k < i {
                    assert(r[k] == acc[k]);
                } else {
                    assert(r[k + 1] == acc[k]);
                }
            }
        } else if acc[i - 1].0 == e.0 && acc[i - 1].1 == e.1 {
            let last = acc[i - 1];
            assert(r[i - 1].2 == g.plus(last.2, e.2));
            assert(self.lives(last.2) && self.lives(e.2)) by {
                reveal(Meaning::sound);
            }
            assert forall|k: int| 0 <= k < acc.len() implies self.lives((#[trigger] acc[k]).2) by {
                assert(k != i - 1 ==> r[k] == acc[k]);
            }
        } else {
            self.joined_live(g, acc, e, i - 1);
        }
    }

    proof fn gathered_live(self, g: Graph, acc: Seq<Entry>, v: Seq<Entry>, k: int)
        requires
            self.sound(g),
            0 <= k <= v.len(),
            self.entries_live(gathered(g, acc, v, k)),
        ensures
            self.entries_live(acc),
        decreases v.len() - k,
    {
        if k < v.len() {
            self.gathered_live(g, joined(g, acc, v[k], acc.len() as int), v, k + 1);
            self.joined_live(g, acc, v[k], acc.len() as int);
        }
    }

    proof fn cell_joined(self, g: Graph, acc: Seq<Entry>, e: Entry, i: int, row: usize, col: usize, env: Env<V>)
        requires
            self.sound(g),
            0 <= i <= acc.len(),
            self.entries_live(joined(g, acc, e, i)),
        ensures
            self.cell(joined(g, acc, e, i), row, col, env) == (self.field.plus)(
                self.cell(acc, row, col, env),
                self.share(e, row, col, env),
            ),
        decreases i,
    {
        self.arithmetic(g);
        let a = acc.take(i);
        let b = acc.skip(i);
        assert(acc.insert(i, e) =~= a + seq![e] + b);
        assert(a + b =~= acc);
        self.cell_around(g, a, e, b, row, col, env);
        if i > 0 {
            let last = acc[i - 1];
            if last.0 == e.0 && last.1 == e.1 {
                let both: Entry = (e.0, e.1, g.plus(last.2, e.2));
                let c = acc.take(i - 1);
                assert(acc =~= c + seq![last] + b);
                assert(acc.update(i - 1, both) =~= c + seq![both] + b);
                assert(joined(g, acc, e, i)[i - 1] == both);
                self.cell_around(g, c, last, b, row, col, env);
                self.cell_around(g, c, both, b, row, col, env);
                assert(self.at(both.2, env) == (self.field.plus)(self.at(last.2, env), self.at(e.2, env))) by {
                    reveal(Meaning::sound);
                }
                let z = self.field.zero;
                self.field.sums(z, z, z);
                self.field.sums(
                    self.cell(c + b, row, col, env),
                    self.share(last, row, col, env),
                    self.share(e, row, col, env),
                );
            } else if !crate::dae::templates::earlier(last, e) {
                self.cell_joined(g, acc, e, i - 1, row, col, env);
            }
        }
    }

    proof fn cell_gathered(self, g: Graph, acc: Seq<Entry>, v: Seq<Entry>, k: int, row: usize, col: usize, env: Env<V>)
        requires
            self.sound(g),
            0 <= k <= v.len(),
            self.entries_live(gathered(g, acc, v, k)),
        ensures
            self.cell(gathered(g, acc, v, k), row, col, env) == (self.field.plus)(
                self.cell(acc, row, col, env),
                self.cell(v.skip(k), row, col, env),
            ),
        decreases v.len() - k,
    {
        self.arithmetic(g);
        let x = self.cell(acc, row, col, env);
        if k == v.len() {
            assert(v.skip(k) =~= seq![]);
            self.field.sums(x, x, x);
        } else {
            let next = joined(g, acc, v[k], acc.len() as int);
            self.cell_gathered(g, next, v, k + 1, row, col, env);
            self.gathered_live(g, next, v, k + 1);
            self.cell_joined(g, acc, v[k], acc.len() as int, row, col, env);
            assert(v.skip(k) =~= seq![v[k]] + v.skip(k + 1));
            self.cell_concat(g, seq![v[k]], v.skip(k + 1), row, col, env);
            self.cell_one(g, v[k], row, col, env);
            self.field.sums(x, self.share(v[k], row, col, env), self.cell(v.skip(k + 1), row, col, env));
        }
    }

    proof fn cell_nonzero(self, g: Graph, v: Seq<Entry>, k: int, row: usize, col: usize, env: Env<V>)
        requires
            self.sound(g),
            0 <= k <= v.len(),
            self.entries_live(v),
        ensures
            self.cell(nonzero(g, v, k), row, col, env) == self.cell(v.skip(k), row, col, env),
        decreases v.len() - k,
    {
        self.arithmetic(g);
        if k == v.len() {
            assert(v.skip(k) =~= seq![]);
        } else {
            self.cell_nonzero(g, v, k + 1, row, col, env);
            assert(v.skip(k) =~= seq![v[k]] + v.skip(k + 1));
            self.cell_concat(g, seq![v[k]], v.skip(k + 1), row, col, env);
            self.cell_concat(g, seq![v[k]], nonzero(g, v, k + 1), row, col, env);
            self.cell_one(g, v[k], row, col, env);
            if g.is_zero(v[k].2) {
                assert(self.lives(v[k].2));
                assert(self.at(v[k].2, env) == self.field.zero) by {
                    reveal(Meaning::sound);
                }
                let y = self.cell(v.skip(k + 1), row, col, env);
                self.field.sums(y, y, y);
            }
        }
    }

    /// The entries of one stamp add the slope of the stamp.
    proof fn cell_of_stamp(
        self,
        g: Graph,
        own_row: usize,
        e: ExprId,
        canon: ExprId,
        names: Seq<(SymbolId, SymbolId)>,
        slots: Seq<Option<SymbolId>>,
        k: int,
        row: usize,
        col: usize,
        s: SymbolId,
        env: Env<V>,
    )
        requires
            self.sound(g),
            slots.len() <= usize::MAX,
            column_of(slots, s) == Some(col),
            forall|i: int, j: int| 0 <= i < j < names.len() ==> (#[trigger] names[i]).1 != (#[trigger] names[j]).1,
            forall|j: int|
                0 <= j < names.len() && column_of(slots, names[j].1) is Some ==> self.lives(
                    g.substitute(g.derive(canon, (#[trigger] names[j]).0), back(g, names)),
                ),
            forall|j: int, f: Env<V>|
                0 <= j < names.len() && column_of(slots, names[j].1) is Some ==> #[trigger] self.at(
                    g.substitute(g.derive(canon, names[j].0), back(g, names)),
                    f,
                ) == self.at(g.derive(e, names[j].1), f),
            0 <= k <= names.len(),
        ensures
            self.cell(stamp_entries(g, own_row, canon, names, slots, k), row, col, env) == (if own_row == row && (exists|
                j: int,
            | k <= j < names.len() && (#[trigger] names[j]).1 == s) {
                self.at(g.derive(e, s), env)
            } else {
                self.field.zero
            }),
        decreases names.len() - k,
    {
        self.arithmetic(g);
        if k < names.len() {
            self.cell_of_stamp(g, own_row, e, canon, names, slots, k + 1, row, col, s, env);
            let rest = stamp_entries(g, own_row, canon, names, slots, k + 1);
            let all = stamp_entries(g, own_row, canon, names, slots, k);
            let d = g.derive(canon, names[k].0);
            let own = g.substitute(d, back(g, names));
            let y = self.cell(rest, row, col, env);
            self.field.sums(y, y, y);
            let z = self.field.zero;
            column_back(slots, names[k].1, slots.len() as int);
            column_back(slots, s, slots.len() as int);
            if let Some(c) = column_of(slots, names[k].1) {
                assert(self.lives(g.substitute(g.derive(canon, names[k].0), back(g, names))));
                assert(self.at(own, env) == self.at(g.derive(e, names[k].1), env));
                assert(g.is_zero(d) || g.is_zero(own) ==> self.at(own, env) == z) by {
                    reveal(Meaning::sound);
                }
                assert(c == col <==> names[k].1 == s);
                if !(g.is_zero(d) || g.is_zero(own)) {
                    let one: Entry = (own_row, c, own);
                    self.cell_concat(g, seq![one], rest, row, col, env);
                    self.cell_one(g, one, row, col, env);
                }
                if names[k].1 == s {
                    // No later name is this symbol.
                    assert forall|j: int| k + 1 <= j < names.len() implies (#[trigger] names[j]).1 != s by {
                        assert(names[k].1 != names[j].1);
                    }
                    let x = self.at(own, env);
                    self.field.sums(x, x, x);
                }
            }
        }
    }

    /// The slopes of every stamp in the symbols that have columns, directly and by
    /// way of the templates, are expressions of the graph.
    pub open spec fn templates_live(
        self,
        g: Graph,
        t: SymbolId,
        vars: Seq<SymbolId>,
        stamps: Seq<Stamp>,
        slots: Seq<Option<SymbolId>>,
    ) -> bool {
        forall|i: int, k: int| #![trigger names_of(g, t, vars, stamps[i].expr)[k]]
            0 <= i < stamps.len() && 0 <= k < names_of(g, t, vars, stamps[i].expr).len() && column_of(
                slots,
                names_of(g, t, vars, stamps[i].expr)[k].1,
            ) is Some ==> self.lives(template(g, t, vars, stamps[i].expr, k)) && self.lives(
                g.derive(stamps[i].expr, names_of(g, t, vars, stamps[i].expr)[k].1),
            )
    }

    proof fn cell_of_stamps(
        self,
        g: Graph,
        t: SymbolId,
        vars: Seq<SymbolId>,
        stamps: Seq<Stamp>,
        slots: Seq<Option<SymbolId>>,
        n: int,
        row: usize,
        col: usize,
        s: SymbolId,
        env: Env<V>,
    )
        requires
            self.sound(g),
            self.differentiates(g),
            structural(g),
            slots.len() <= usize::MAX,
            column_of(slots, s) == Some(col),
            s != t,
            self.follows_renaming(g),
            forall|i: int| 0 <= i < stamps.len() ==> placeholders_apart(g, t, vars, (#[trigger] stamps[i]).expr),
            0 <= n <= stamps.len(),
            self.templates_live(g, t, vars, stamps, slots),
            self.entries_live(cells(g, t, vars, stamps, slots, n)),
            self.slopes_live(g, of_row(stamps.take(n), row), s),
        ensures
            self.cell(cells(g, t, vars, stamps, slots, n), row, col, env) == self.slopes(
                g,
                of_row(stamps.take(n), row),
                s,
                env,
            ),
        decreases n,
    {
        self.arithmetic(g);
        if n == 0 {
            assert(stamps.take(n).len() == 0);
            assert(of_row(stamps.take(n), row).len() == 0);
        } else {
            let st = stamps[n - 1];
            let e = st.expr;
            let names = names_of(g, t, vars, e);
            let canon = canonical(g, t, vars, e);
            let own = stamp_entries(g, st.row, canon, names, slots, 0);
            let acc = cells(g, t, vars, stamps, slots, n - 1);
            let before = of_row(stamps.take(n - 1), row);
            let all = of_row(stamps.take(n), row);
            assert(stamps.take(n).drop_last() =~= stamps.take(n - 1));
            assert(stamps.take(n).last() == st);
            assert forall|k: int| 0 <= k < before.len() implies self.lives(g.derive(#[trigger] before[k], s)) by {
                assert(all[k] == before[k]);
            }
            self.gathered_live(g, acc, own, 0);
            self.cell_of_stamps(g, t, vars, stamps, slots, n - 1, row, col, s, env);
            self.cell_gathered(g, acc, own, 0, row, col, env);
            assert(own.skip(0) =~= own);
            encounter_is_complete(g, e);
            renamed_names(g, t, vars, encounter(g, e), 0, 0, 0, s);
            assert(placeholders_apart(g, t, vars, stamps[n - 1].expr));
            assert forall|j: int| 0 <= j < names.len() && column_of(slots, names[j].1) is Some implies self.lives(
                g.substitute(g.derive(canon, (#[trigger] names[j]).0), back(g, names)),
            ) && self.lives(g.derive(e, names[j].1)) by {
                assert(column_of(slots, names_of(g, t, vars, stamps[n - 1].expr)[j].1) is Some);
                assert(self.lives(template(g, t, vars, stamps[n - 1].expr, j)));
            }
            assert forall|j: int, f: Env<V>|
                0 <= j < names.len() && column_of(slots, names[j].1) is Some implies #[trigger] self.at(
                g.substitute(g.derive(canon, names[j].0), back(g, names)),
                f,
            ) == self.at(g.derive(e, names[j].1), f) by {
                assert(self.lives(g.substitute(g.derive(canon, names[j].0), back(g, names))));
                self.templates_differentiate(g, t, vars, e, j, f);
            }
            self.cell_of_stamp(g, st.row, e, canon, names, slots, 0, row, col, s, env);
            if st.row == row {
                assert(all == before.push(e));
                assert(all[before.len() as int] == e);
                self.slope_where_absent(g, e, s, env);
            }
            let z = self.field.zero;
            let x = self.slopes(g, before, s, env);
            self.field.sums(x, x, x);
            assert(self.cell(own, row, col, env) == (if st.row == row {
                self.at(g.derive(e, s), env)
            } else {
                z
            })) by {
                if !(exists|j: int| 0 <= j < names.len() && (#[trigger] names[j]).1 == s) {
                    if encounter(g, e).contains(s) {
                        let i = choose|i: int| 0 <= i < encounter(g, e).len() && encounter(g, e)[i] == s;
                        assert(encounter(g, e)[i] == s);
                    }
                    assert(!g.free(e).contains(s));
                }
            }
            if st.row == row {
                assert(all.drop_last() =~= before);
            }
        }
    }

    /// An ascending list holds at most one entry of a cell.
    proof fn cell_is_its_entry(self, g: Graph, v: Seq<Entry>, row: usize, col: usize, env: Env<V>)
        requires
            self.sound(g),
            ascending(v),
        ensures
            forall|i: int|
                0 <= i < v.len() && (#[trigger] v[i]).0 == row && v[i].1 == col ==> self.cell(v, row, col, env) == self.at(
                    v[i].2,
                    env,
                ),
            (forall|i: int| 0 <= i < v.len() ==> !((#[trigger] v[i]).0 == row && v[i].1 == col)) ==> self.cell(
                v,
                row,
                col,
                env,
            ) == self.field.zero,
        decreases v.len(),
    {
        self.arithmetic(g);
        if v.len() > 0 {
            let less = v.drop_last();
            let z = self.field.zero;
            assert forall|i: int, j: int| 0 <= i < j < less.len() implies crate::dae::templates::earlier(
                #[trigger] less[i],
                #[trigger] less[j],
            ) by {
                assert(less[i] == v[i] && less[j] == v[j]);
            }
            self.cell_is_its_entry(g, less, row, col, env);
            let x = self.share(v.last(), row, col, env);
            let y = self.cell(less, row, col, env);
            self.field.sums(x, x, x);
            self.field.sums(y, y, y);
            let n = v.len() - 1;
            if v.last().0 == row && v.last().1 == col {
                assert forall|i: int| 0 <= i < less.len() implies !((#[trigger] less[i]).0 == row && less[i].1 == col) by {
                    assert(crate::dae::templates::earlier(v[i], v[n]));
                }
            }
            assert forall|i: int| 0 <= i < v.len() && (#[trigger] v[i]).0 == row && v[i].1 == col implies self.cell(
                v,
                row,
                col,
                env,
            ) == self.at(v[i].2, env) by {
                if i < n {
                    assert(less[i] == v[i]);
                }
            }
            if forall|i: int| 0 <= i < v.len() ==> !((#[trigger] v[i]).0 == row && v[i].1 == col) {
                assert forall|i: int| 0 <= i < less.len() implies !((#[trigger] less[i]).0 == row && less[i].1 == col) by {
                    assert(less[i] == v[i]);
                }
                assert(v[n] == v.last());
            }
        }
    }

    /// An entry of a block is the slope of its row, the sum of the row's stamps, in
    /// the symbol whose column it stands in; where a block has no entry the slope
    /// vanishes.
    pub proof fn block_entries_are_slopes(
        self,
        g: Graph,
        t: SymbolId,
        vars: Seq<SymbolId>,
        stamps: Seq<Stamp>,
        slots: Seq<Option<SymbolId>>,
        row: usize,
        s: SymbolId,
        env: Env<V>,
    )
        requires
            self.sound(g),
            self.differentiates(g),
            structural(g),
            self.follows_renaming(g),
            forall|i: int| 0 <= i < stamps.len() ==> placeholders_apart(g, t, vars, (#[trigger] stamps[i]).expr),
            slots.len() <= usize::MAX,
            column_of(slots, s) is Some,
            s != t,
            self.templates_live(g, t, vars, stamps, slots),
            self.entries_live(cells(g, t, vars, stamps, slots, stamps.len() as int)),
            self.lives(g.derive(running_sum(g, g.zero(), of_row(stamps, row)), s)),
        ensures
            ({
                let b = block(g, t, vars, stamps, slots);
                let col = column_of(slots, s)->0;
                let slope = self.at(g.derive(running_sum(g, g.zero(), of_row(stamps, row)), s), env);
                &&& forall|i: int|
                    0 <= i < b.len() && (#[trigger] b[i]).0 == row && b[i].1 == col ==> self.at(b[i].2, env) == slope
                &&& (forall|i: int| 0 <= i < b.len() ==> !((#[trigger] b[i]).0 == row && b[i].1 == col)) ==> slope
                    == self.field.zero
            }),
    {
        let col = column_of(slots, s)->0;
        let n = stamps.len() as int;
        let all = cells(g, t, vars, stamps, slots, n);
        assert(stamps.take(n) =~= stamps);
        self.slope_of_sum(g, of_row(stamps, row), s, env);
        self.cell_of_stamps(g, t, vars, stamps, slots, n, row, col, s, env);
        self.cell_nonzero(g, all, 0, row, col, env);
        assert(all.skip(0) =~= all);
        block_is_sparse(g, t, vars, stamps, slots);
        self.cell_is_its_entry(g, block(g, t, vars, stamps, slots), row, col, env);
    }
}

impl<V> Field<V> {
    proof fn swaps(self, x: V, y: V, z: V)
        requires
            self.obeys(),
        ensures
            (self.plus)((self.plus)(x, y), z) == (self.plus)((self.plus)(x, z), y),
    {
        self.sums(x, y, z);
        self.sums(y, z, z);
        self.sums(x, z, y);
    }
}

/// A column holds the symbol whose column it is.
proof fn column_back(slots: Seq<Option<SymbolId>>, s: SymbolId, i: int)
    requires
        slots.len() <= usize::MAX,
    ensures
        crate::dae::jacobian::column(slots, s, i) matches Some(c) ==> slots[c as int] == Some(s),
    decreases i,
{
    if 0 < i <= slots.len() {
        if slots[i - 1] != Some(s) {
            column_back(slots, s, i - 1);
        }
    }
}

} // verus!

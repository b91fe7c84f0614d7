//! Which symbols the transformed systems mention.
use crate::dae::assemble::mentioned;
use crate::dae::jacobian::{
    are_params, coo_entries, delay_times, fold_map, folded, occurs, row_entries, surfaces,
};
use crate::dae::linearize::{
    freeze_map, frozen, linear_form, linear_parts, linear_stamps, linearized, monomial, monomials, rates_from,
    running_sum, Granularity,
};
use crate::dae::meaning::{bias, ports, ports_apart, Env, Meaning};
use crate::dae::system::{of_row, row_stamps, DaeView, Stamp};
use crate::symbolic::{ExprId, Graph, SymbolId};
use vstd::prelude::*;

verus! {

/// Which handles are expressions of a graph.
pub type Live = spec_fn(ExprId) -> bool;

/// The handle is an expression of the graph.
pub open spec fn lives(live: Live, e: ExprId) -> bool {
    live(e)
}

/// The graph names the symbols that its expressions depend on, and keeps products
/// with a symbol simple.
#[verifier::opaque]
pub open spec fn tells_symbols(g: Graph, live: Live) -> bool {
    &&& forall|s: SymbolId| !(#[trigger] g.free(g.zero()).contains(s))
    &&& forall|b: u64, s: SymbolId| lives(live, g.number(b)) ==> !(#[trigger] g.free(g.number(b)).contains(s))
    &&& forall|t: SymbolId, s: SymbolId|
        lives(live, g.symbol_expr(t)) ==> (#[trigger] g.free(g.symbol_expr(t)).contains(s) <==> s == t)
    &&& forall|a: ExprId, b: ExprId| #[trigger] lives(live, g.times(a, b)) ==> lives(live, a) && lives(live, b)
    &&& forall|a: ExprId, b: ExprId, s: SymbolId|
        lives(live, g.times(a, b)) && #[trigger] g.free(g.times(a, b)).contains(s) ==> g.free(a).contains(s)
            || g.free(b).contains(s)
    &&& forall|e: ExprId, m: Seq<(SymbolId, ExprId)>| #[trigger]
        lives(live, g.substitute(e, m)) ==> forall|k: int| 0 <= k < m.len() ==> lives(live, (#[trigger] m[k]).1)
    &&& forall|e: ExprId, m: Seq<(SymbolId, ExprId)>, s: SymbolId|
        lives(live, g.substitute(e, m)) && #[trigger] g.free(g.substitute(e, m)).contains(s) ==> (exists|k: int|
            0 <= k < m.len() && g.free((#[trigger] m[k]).1).contains(s)) || !(exists|k: int|
            0 <= k < m.len() && (#[trigger] m[k]).0 == s)
    // The slopes of sums and of products with a symbol.
    &&& forall|e: ExprId, s: SymbolId| #[trigger] lives(live, g.derive(e, s)) ==> lives(live, e)
    &&& forall|q: SymbolId, s: SymbolId|
        lives(live, g.derive(g.zero(), q)) ==> !(#[trigger] g.free(g.derive(g.zero(), q)).contains(s))
    &&& forall|a: ExprId, b: ExprId, q: SymbolId| #[trigger]
        lives(live, g.derive(g.plus(a, b), q)) ==> lives(live, g.derive(a, q)) && lives(live, g.derive(b, q))
    &&& forall|a: ExprId, b: ExprId, q: SymbolId, s: SymbolId|
        lives(live, g.derive(g.plus(a, b), q)) && #[trigger] g.free(g.derive(g.plus(a, b), q)).contains(s) ==> g.free(
            g.derive(a, q),
        ).contains(s) || g.free(g.derive(b, q)).contains(s)
    &&& forall|a: ExprId, t: SymbolId, q: SymbolId, s: SymbolId|
        lives(live, g.derive(g.times(a, g.symbol_expr(t)), q)) && #[trigger] g.free(
            g.derive(g.times(a, g.symbol_expr(t)), q),
        ).contains(s) && !g.free(a).contains(q) ==> g.free(a).contains(s)
    // A product with a symbol that does not vanish depends on the symbol.
    &&& forall|a: ExprId, t: SymbolId| #![trigger g.times(a, g.symbol_expr(t))]
        lives(live, g.times(a, g.symbol_expr(t))) && !g.is_zero(g.times(a, g.symbol_expr(t))) && !g.free(a).contains(
            t,
        ) ==> g.free(g.times(a, g.symbol_expr(t))).contains(t)
}

// ---------------------------------------------------------------------------
// Folding.
// ---------------------------------------------------------------------------
proof fn substituted_is_gone(g: Graph, live: Live, e: ExprId, fold: Seq<(SymbolId, u64)>, k: int)
    requires
        tells_symbols(g, live),
        0 <= k < fold.len(),
        lives(live, g.substitute(e, fold_map(g, fold))),
    ensures
        !g.free(g.substitute(e, fold_map(g, fold))).contains(fold[k].0),
{
    reveal(tells_symbols);
    let m = fold_map(g, fold);
    assert(m[k].0 == fold[k].0);
    assert forall|l: int| 0 <= l < m.len() implies !g.free((#[trigger] m[l]).1).contains(fold[k].0) by {
        assert(m[l].1 == g.number(fold[l].1));
    }
}

/// What folding rewrites has room in the graph.
pub open spec fn folds(g: Graph, live: Live, d: DaeView, fold: Seq<(SymbolId, u64)>) -> bool {
    let m = fold_map(g, fold);
    &&& forall|i: int| 0 <= i < d.residuals.len() ==> lives(live, g.substitute(#[trigger] d.residuals[i], m))
    &&& forall|i: int| 0 <= i < d.delays.len() ==> lives(live, g.substitute((#[trigger] d.delays[i]).tau, m))
    &&& forall|i: int| 0 <= i < d.events.len() ==> lives(live, g.substitute((#[trigger] d.events[i]).g, m))
}

/// A folded symbol is no parameter of the folded system any more.
pub proof fn folding_removes_the_parameters(
    g: Graph,
    live: Live,
    d: DaeView,
    fold: Seq<(SymbolId, u64)>,
    params: Seq<SymbolId>,
    k: int,
)
    requires
        tells_symbols(g, live),
        are_params(g, folded(g, d, fold), params),
        0 <= k < fold.len(),
        folds(g, live, d, fold),
    ensures
        !occurs(g, folded(g, d, fold), fold[k].0),
        !params.contains(fold[k].0),
{
    let f = folded(g, d, fold);
    let s = fold[k].0;
    let m = fold_map(g, fold);
    assert forall|i: int| 0 <= i < f.residuals.len() implies !g.free(#[trigger] f.residuals[i]).contains(s) by {
        substituted_is_gone(g, live, d.residuals[i], fold, k);
    }
    let times = delay_times(f.delays);
    assert forall|i: int| 0 <= i < times.len() implies !g.free(#[trigger] times[i]).contains(s) by {
        substituted_is_gone(g, live, d.delays[i].tau, fold, k);
        assert(times[i] == g.substitute(d.delays[i].tau, m));
    }
    let walls = surfaces(f.events);
    assert forall|i: int| 0 <= i < walls.len() implies !g.free(#[trigger] walls[i]).contains(s) by {
        substituted_is_gone(g, live, d.events[i].g, fold, k);
        assert(walls[i] == g.substitute(d.events[i].g, m));
    }
    assert(!mentioned(g, f.residuals, s) && !mentioned(g, times, s) && !mentioned(g, walls, s));
}

/// Folding nothing leaves the residuals what they were.
pub proof fn folding_nothing_keeps_the_residuals<V>(m: Meaning<V>, g: Graph, d: DaeView, env: Env<V>, k: int)
    requires
        m.sound(g),
        0 <= k < d.residuals.len(),
        m.lives(folded(g, d, seq![]).residuals[k]),
    ensures
        m.at(folded(g, d, seq![]).residuals[k], env) == m.at(d.residuals[k], env),
{
    m.folding_binds_the_values(g, d, seq![], env, env, k);
}

// ---------------------------------------------------------------------------
// Linearisation.
// ---------------------------------------------------------------------------
proof fn coefficient_holds_no_port(g: Graph, live: Live, d: DaeView, e: ExprId, p: SymbolId)
    requires
        tells_symbols(g, live),
        ports_apart(g, d),
        ports(d).contains(p),
        lives(live, g.substitute(e, freeze_map(g, d))),
    ensures
        !g.free(g.substitute(e, freeze_map(g, d))).contains(p),
{
    reveal(tells_symbols);
    let m = freeze_map(g, d);
    let all = ports(d);
    let j = choose|j: int| 0 <= j < all.len() && all[j] == p;
    assert(m[j] == frozen(g, p));
    assert forall|k: int| 0 <= k < m.len() implies !g.free((#[trigger] m[k]).1).contains(p) by {
        assert(m[k] == frozen(g, all[k]));
        assert(all.contains(all[k]));
        assert(m[k].1 == g.symbol_expr(bias(g, all[k])));
    }
}

/// No slope of the expression in a port depends on a port.
spec fn flat(g: Graph, live: Live, d: DaeView, e: ExprId) -> bool {
    forall|q: SymbolId, p: SymbolId|
        lives(live, g.derive(e, q)) && ports(d).contains(q) && ports(d).contains(p) ==> !(#[trigger] g.free(g.derive(e, q)).contains(p))
}

proof fn monomial_is_flat(g: Graph, live: Live, d: DaeView, e: ExprId, s: SymbolId)
    requires
        tells_symbols(g, live),
        ports_apart(g, d),
    ensures
        flat(g, live, d, monomial(g, freeze_map(g, d), e, s)),
{
    let c = g.substitute(g.derive(e, s), freeze_map(g, d));
    assert forall|q: SymbolId, p: SymbolId|
        lives(live, g.derive(g.times(c, g.symbol_expr(s)), q)) && ports(d).contains(q) && ports(d).contains(p) implies !(
    #[trigger] g.free(g.derive(g.times(c, g.symbol_expr(s)), q)).contains(p)) by {
        assert(lives(live, c)) by {
            reveal(tells_symbols);
        }
        coefficient_holds_no_port(g, live, d, g.derive(e, s), q);
        coefficient_holds_no_port(g, live, d, g.derive(e, s), p);
        reveal(tells_symbols);
    }
}

proof fn monomials_are_flat(g: Graph, live: Live, d: DaeView, e: ExprId, v: Seq<SymbolId>, j: int)
    requires
        tells_symbols(g, live),
        ports_apart(g, d),
        0 <= j,
    ensures
        forall|k: int|
            0 <= k < monomials(g, freeze_map(g, d), e, v, j).len() ==> flat(
                g,
                live,
                d,
                #[trigger] monomials(g, freeze_map(g, d), e, v, j)[k],
            ),
    decreases v.len() - j,
{
    let freeze = freeze_map(g, d);
    let all = monomials(g, freeze, e, v, j);
    if j < v.len() {
        monomials_are_flat(g, live, d, e, v, j + 1);
        monomial_is_flat(g, live, d, e, v[j]);
        let rest = monomials(g, freeze, e, v, j + 1);
        assert forall|k: int| 0 <= k < all.len() implies flat(g, live, d, #[trigger] all[k]) by {
            if all == rest {
                assert(all[k] == rest[k]);
            } else if k > 0 {
                assert(all[k] == rest[k - 1]);
            }
        }
    }
}

proof fn sum_is_flat(g: Graph, live: Live, d: DaeView, v: Seq<ExprId>)
    requires
        tells_symbols(g, live),
        forall|k: int| 0 <= k < v.len() ==> flat(g, live, d, #[trigger] v[k]),
    ensures
        flat(g, live, d, running_sum(g, g.zero(), v)),
    decreases v.len(),
{
    reveal(tells_symbols);
    if v.len() > 0 {
        let less = v.drop_last();
        assert forall|k: int| 0 <= k < less.len() implies flat(g, live, d, #[trigger] less[k]) by {
            assert(less[k] == v[k]);
        }
        sum_is_flat(g, live, d, less);
        assert(flat(g, live, d, v[v.len() - 1]));
    }
}

proof fn parts_are_flat(g: Graph, live: Live, d: DaeView, e: ExprId, gran: Granularity)
    requires
        tells_symbols(g, live),
        ports_apart(g, d),
    ensures
        forall|k: int|
            0 <= k < linear_parts(g, d, e, gran).len() ==> flat(g, live, d, #[trigger] linear_parts(g, d, e, gran)[k]),
{
    let freeze = freeze_map(g, d);
    let rates = rates_from(d.xdot, 0);
    let form = linear_form(g, d, e);
    let own = monomials(g, freeze, e, d.x, 0);
    let others = monomials(g, freeze, e, rates, 0);
    monomials_are_flat(g, live, d, e, d.x, 0);
    monomials_are_flat(g, live, d, e, rates, 0);
    assert forall|k: int| 0 <= k < form.len() implies flat(g, live, d, #[trigger] form[k]) by {
        if k < own.len() {
            assert(form[k] == own[k]);
        } else {
            assert(form[k] == others[k - own.len()]);
        }
    }
    sum_is_flat(g, live, d, form);
}

proof fn stamps_are_flat(g: Graph, live: Live, d: DaeView, gran: Granularity, n: int)
    requires
        tells_symbols(g, live),
        ports_apart(g, d),
        0 <= n <= d.stamps.len(),
    ensures
        forall|k: int|
            0 <= k < linear_stamps(g, d, gran, n).len() ==> flat(
                g,
                live,
                d,
                (#[trigger] linear_stamps(g, d, gran, n)[k]).expr,
            ),
    decreases n,
{
    let all = linear_stamps(g, d, gran, n);
    if n > 0 {
        let s = d.stamps[n - 1];
        let parts = linear_parts(g, d, s.expr, gran);
        let own = row_stamps(s.row, parts);
        let before = linear_stamps(g, d, gran, n - 1);
        stamps_are_flat(g, live, d, gran, n - 1);
        parts_are_flat(g, live, d, s.expr, gran);
        assert(all == before + own);
        assert forall|k: int| 0 <= k < all.len() implies flat(g, live, d, (#[trigger] all[k]).expr) by {
            if k < before.len() {
                assert(all[k] == before[k]);
            } else {
                assert(all[k] == own[k - before.len()]);
                assert(flat(g, live, d, parts[k - before.len()]));
            }
        }
    }
}

proof fn row_is_flat(g: Graph, live: Live, d: DaeView, stamps: Seq<Stamp>, row: usize)
    requires
        forall|k: int| 0 <= k < stamps.len() ==> flat(g, live, d, (#[trigger] stamps[k]).expr),
    ensures
        forall|k: int| 0 <= k < of_row(stamps, row).len() ==> flat(g, live, d, #[trigger] of_row(stamps, row)[k]),
    decreases stamps.len(),
{
    if stamps.len() > 0 {
        let less = stamps.drop_last();
        assert forall|k: int| 0 <= k < less.len() implies flat(g, live, d, (#[trigger] less[k]).expr) by {
            assert(less[k] == stamps[k]);
        }
        row_is_flat(g, live, d, less, row);
        let all = of_row(stamps, row);
        let rest = of_row(less, row);
        assert(flat(g, live, d, stamps[stamps.len() - 1].expr));
        assert forall|k: int| 0 <= k < all.len() implies flat(g, live, d, #[trigger] all[k]) by {
            if k < rest.len() {
                assert(all[k] == rest[k]);
            }
        }
    }
}

/// The linearised system is linear: the slope of a row in an unknown or a
/// derivative depends on no unknown and on no derivative.
pub proof fn linearised_slopes_hold_no_port(
    g: Graph,
    live: Live,
    d: DaeView,
    gran: Granularity,
    i: int,
    q: SymbolId,
    p: SymbolId,
)
    requires
        tells_symbols(g, live),
        ports_apart(g, d),
        0 <= i < d.residuals.len(),
        ports(d).contains(q),
        ports(d).contains(p),
        lives(live, g.derive(linearized(g, d, gran).residuals[i], q)),
    ensures
        !g.free(g.derive(linearized(g, d, gran).residuals[i], q)).contains(p),
{
    let l = linearized(g, d, gran);
    stamps_are_flat(g, live, d, gran, d.stamps.len() as int);
    row_is_flat(g, live, d, l.stamps, i as usize);
    sum_is_flat(g, live, d, of_row(l.stamps, i as usize));
    assert(flat(g, live, d, l.residuals[i]));
}

proof fn entry_of_row(
    g: Graph,
    slots: Seq<Option<SymbolId>>,
    i: usize,
    r: ExprId,
    free: Seq<SymbolId>,
    k: int,
    l: int,
) -> (q: SymbolId)
    requires
        0 <= k,
        0 <= l < row_entries(g, slots, i, r, free, k).len(),
    ensures
        row_entries(g, slots, i, r, free, k)[l].2 == g.derive(r, q),
        slots.contains(Some(q)),
    decreases free.len() - k,
{
    let all = row_entries(g, slots, i, r, free, k);
    let rest = row_entries(g, slots, i, r, free, k + 1);
    column_holds(slots, free[k], slots.len() as int);
    if all == rest {
        entry_of_row(g, slots, i, r, free, k + 1, l)
    } else if l > 0 {
        assert(all[l] == rest[l - 1]);
        entry_of_row(g, slots, i, r, free, k + 1, l - 1)
    } else {
        free[k]
    }
}

proof fn column_holds(slots: Seq<Option<SymbolId>>, s: SymbolId, i: int)
    ensures
        crate::dae::jacobian::column(slots, s, i) is Some ==> slots.contains(Some(s)),
    decreases i,
{
    if 0 < i <= slots.len() {
        if slots[i - 1] != Some(s) {
            column_holds(slots, s, i - 1);
        }
    }
}

/// Every entry of a sparse Jacobian is the slope of some row in a column's symbol.
proof fn entry_is_slope(g: Graph, rows: Seq<ExprId>, slots: Seq<Option<SymbolId>>, i: int, l: int) -> (r: (int, SymbolId))
    requires
        0 <= i,
        0 <= l < coo_entries(g, rows, slots, i).len(),
    ensures
        0 <= r.0 < rows.len(),
        coo_entries(g, rows, slots, i)[l].2 == g.derive(rows[r.0], r.1),
        slots.contains(Some(r.1)),
    decreases rows.len() - i,
{
    let own = row_entries(g, slots, i as usize, rows[i], g.free(rows[i]), 0);
    let rest = coo_entries(g, rows, slots, i + 1);
    let all = coo_entries(g, rows, slots, i);
    assert(all == own + rest);
    if l < own.len() {
        assert(all[l] == own[l]);
        (i, entry_of_row(g, slots, i as usize, rows[i], g.free(rows[i]), 0, l))
    } else {
        assert(all[l] == rest[l - own.len()]);
        entry_is_slope(g, rows, slots, i + 1, l - own.len())
    }
}

/// No entry of a Jacobian of the linearised system, in the unknowns or in the
/// derivatives, depends on an unknown or on a derivative.
pub proof fn linearised_jacobians_are_constant(
    g: Graph,
    live: Live,
    d: DaeView,
    gran: Granularity,
    slots: Seq<Option<SymbolId>>,
    l: int,
    p: SymbolId,
)
    requires
        tells_symbols(g, live),
        ports_apart(g, d),
        forall|q: SymbolId| #[trigger] slots.contains(Some(q)) ==> ports(d).contains(q),
        0 <= l < coo_entries(g, linearized(g, d, gran).residuals, slots, 0).len(),
        lives(live, coo_entries(g, linearized(g, d, gran).residuals, slots, 0)[l].2),
        ports(d).contains(p),
    ensures
        !g.free(coo_entries(g, linearized(g, d, gran).residuals, slots, 0)[l].2).contains(p),
{
    let rows = linearized(g, d, gran).residuals;
    let (i, q) = entry_is_slope(g, rows, slots, 0, l);
    linearised_slopes_hold_no_port(g, live, d, gran, i, q, p);
}

/// The columns of both Jacobians are ports.
pub proof fn columns_are_ports(d: DaeView, q: SymbolId)
    ensures
        crate::dae::jacobian::filled(d.x).contains(Some(q)) ==> ports(d).contains(q),
        d.xdot.contains(Some(q)) ==> ports(d).contains(q),
{
    let f = crate::dae::jacobian::filled(d.x);
    if f.contains(Some(q)) {
        let j = choose|j: int| 0 <= j < f.len() && f[j] == Some(q);
        assert(ports(d)[j] == q);
    }
    if d.xdot.contains(Some(q)) {
        let j = choose|j: int| 0 <= j < d.xdot.len() && d.xdot[j] == Some(q);
        crate::dae::meaning::rate_is_port(d, 0, j);
    }
}

/// With canonical granularity every stamp mentions exactly one of the unknowns and
/// derivatives.
pub proof fn canonical_stamps_mention_one_port(g: Graph, live: Live, d: DaeView, i: int) -> (s: SymbolId)
    requires
        tells_symbols(g, live),
        ports_apart(g, d),
        0 <= i < linearized(g, d, Granularity::Canonical).stamps.len(),
        lives(live, linearized(g, d, Granularity::Canonical).stamps[i].expr),
    ensures
        ports(d).contains(s),
        forall|p: SymbolId| #[trigger]
            ports(d).contains(p) ==> (g.free(linearized(g, d, Granularity::Canonical).stamps[i].expr).contains(p)
                <==> p == s),
{
    let freeze = freeze_map(g, d);
    crate::dae::linearize::canonical_from(g, d, d.stamps.len() as int, i);
    let x = linearized(g, d, Granularity::Canonical).stamps[i].expr;
    let (e, s) = choose|e: ExprId, s: SymbolId|
        x == #[trigger] monomial(g, freeze, e, s) && !g.is_zero(x) && (d.x.contains(s) || d.xdot.contains(Some(s)));
    columns_are_ports(d, s);
    if d.x.contains(s) {
        let j = choose|j: int| 0 <= j < d.x.len() && d.x[j] == s;
        assert(ports(d)[j] == s);
    }
    let c = g.substitute(g.derive(e, s), freeze);
    assert forall|p: SymbolId| #[trigger] ports(d).contains(p) implies (g.free(x).contains(p) <==> p == s) by {
        assert(lives(live, c) && lives(live, g.symbol_expr(s))) by {
            reveal(tells_symbols);
        }
        coefficient_holds_no_port(g, live, d, g.derive(e, s), p);
        reveal(tells_symbols);
    }
    s
}

/// Linearisation keeps the unknowns, their kinds, their symbols and the time, and
/// still has one row per unknown.
pub proof fn linearisation_keeps_the_unknowns(g: Graph, d: DaeView, gran: Granularity)
    ensures
        linearized(g, d, gran).residuals.len() == d.residuals.len(),
        linearized(g, d, gran).unknowns == d.unknowns,
        linearized(g, d, gran).kinds == d.kinds,
        linearized(g, d, gran).x == d.x,
        linearized(g, d, gran).xdot == d.xdot,
        linearized(g, d, gran).t == d.t,
        linearized(g, d, gran).n_nodes == d.n_nodes,
{
}

} // verus!

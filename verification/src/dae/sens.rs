//! Exact symbolic sensitivities: directional derivatives, forward-sensitivity
//! augmentation, second-order blocks via the Lagrangian, and the total
//! derivatives of the small-signal matrices. All of it is differentiation; there
//! are no finite differences.
use crate::dae::jacobian::{
    coo, coo_entries, copy_events, copy_op_vars, copy_shapes, entries_in_range, fill, filled, holds,
    holds_symbol, Entry, SparseBlock,
};
use crate::dae::merge::{Core, CoreVecs};
use crate::dae::system::{
    copy_delays, copy_kinds, copy_seeds, copy_slots, copy_symbols, stamps_from_residuals,
    stamps_have_rows, stamps_of, Dae, DaeView,
};
use crate::device::UnknownKind;
use crate::numerics::{apply1, apply2, compares, Answers, Ask, Host, Op1, Op2, Rel, Reply, ONE, ZERO};
use crate::symbolic::{copy_exprs, Algebra, Answer, ExprId, Graph, Query, SymbolId};
use crate::table::symbol_table_clone;
use crate::text::{concat2, concat3, copy_texts, decimal, decimal_text, texts};
use vstd::prelude::*;

verus! {

// ---------------------------------------------------------------------------
// Directional derivatives.
// ---------------------------------------------------------------------------
/// The change along the first `k` unknowns.
pub open spec fn along(g: Graph, h: Answers, e: ExprId, dx: Seq<u64>, x: Seq<SymbolId>, k: int) -> ExprId
    decreases k,
{
    if k <= 0 {
        g.zero()
    } else {
        let before = along(g, h, e, dx, x, k - 1);
        let d = g.derive(e, x[k - 1]);
        if compares(h, Rel::Ne, dx[k - 1], ZERO) && g.free(e).contains(x[k - 1]) && !g.is_zero(d) {
            g.plus(before, g.times(g.number(dx[k - 1]), d))
        } else {
            before
        }
    }
}

/// The derivative along the direction in which the unknowns move by `dx` and the
/// parameter by one.
pub open spec fn directed(g: Graph, h: Answers, e: ExprId, dx: Seq<u64>, x: Seq<SymbolId>, p: SymbolId) -> ExprId {
    let a = along(g, h, e, dx, x, x.len() as int);
    if g.free(e).contains(p) {
        g.plus(a, g.derive(e, p))
    } else {
        a
    }
}

pub open spec fn all_directed(
    g: Graph,
    h: Answers,
    v: Seq<ExprId>,
    dx: Seq<u64>,
    x: Seq<SymbolId>,
    p: SymbolId,
) -> Seq<ExprId> {
    v.map_values(|e: ExprId| directed(g, h, e, dx, x, p))
}

/// Directional derivative `sum_l dx[l]*de/dx_l + de/dp`: the unknowns move along
/// the numeric vector `dx`, and the parameter by one. The direction is baked in as
/// constants, so nesting gives exact higher derivatives.
pub fn directional<F: Fn(Ask) -> Reply, G: Fn(Query) -> Answer>(
    host: &Host<F>,
    al: &Algebra<G>,
    e: ExprId,
    dx: &Vec<u64>,
    x: &Vec<SymbolId>,
    p: SymbolId,
) -> (r: ExprId)
    requires
        x@.len() <= dx@.len(),
    ensures
        r == directed(al.graph(), host.answers(), e, dx@, x@, p),
{
    let ghost g = al.graph();
    let ghost h = host.answers();
    let free = al.free_symbols(e);
    let mut acc = al.zero();
    for l in 0..x.len()
        invariant
            g == al.graph(),
            h == host.answers(),
            x@.len() <= dx@.len(),
            free@ == g.free(e),
            acc == along(g, h, e, dx@, x@, l as int),
    {
        if host.compares(Rel::Ne, dx[l], ZERO) && holds_symbol(&free, x[l]) {
            let d = al.derive(e, x[l]);
            if !al.is_zero(d) {
                let term = al.times(al.number(dx[l]), d);
                acc = al.plus(acc, term);
            }
        }
    }
    if holds_symbol(&free, p) {
        let d = al.derive(e, p);
        acc = al.plus(acc, d);
    }
    acc
}

fn direct_all<F: Fn(Ask) -> Reply, G: Fn(Query) -> Answer>(
    host: &Host<F>,
    al: &Algebra<G>,
    v: &Vec<ExprId>,
    dx: &Vec<u64>,
    x: &Vec<SymbolId>,
    p: SymbolId,
) -> (r: Vec<ExprId>)
    requires
        x@.len() <= dx@.len(),
    ensures
        r@ == all_directed(al.graph(), host.answers(), v@, dx@, x@, p),
{
    let ghost all = all_directed(al.graph(), host.answers(), v@, dx@, x@, p);
    let mut out: Vec<ExprId> = Vec::new();
    for i in 0..v.len()
        invariant
            x@.len() <= dx@.len(),
            all == all_directed(al.graph(), host.answers(), v@, dx@, x@, p),
            out@ =~= all.take(i as int),
    {
        out.push(directional(host, al, v[i], dx, x, p));
    }
    assert(all.take(all.len() as int) =~= all);
    out
}

// ---------------------------------------------------------------------------
// Hessian.
// ---------------------------------------------------------------------------
/// The sum of the first `k` products.
pub open spec fn dot(h: Answers, a: Seq<u64>, b: Seq<u64>, k: int) -> u64
    decreases k,
{
    if k <= 0 {
        ZERO
    } else {
        apply2(h, Op2::Add, dot(h, a, b, k - 1), apply2(h, Op2::Mul, a[k - 1], b[k - 1]))
    }
}

pub open spec fn shorter(a: nat, b: nat) -> int {
    if a <= b {
        a as int
    } else {
        b as int
    }
}

/// The second-order adjoint: `-lambda . D_i D_j F` at the operating point.
pub open spec fn curvature(
    g: Graph,
    h: Answers,
    d: DaeView,
    lambda: Seq<u64>,
    subset: Seq<(SymbolId, Vec<u64>)>,
    env: Seq<(SymbolId, u64)>,
    i: int,
    j: int,
) -> u64 {
    let first = all_directed(g, h, d.residuals, subset[i].1@, d.x, subset[i].0);
    let second = all_directed(g, h, first, subset[j].1@, d.x, subset[j].0);
    let vals = g.eval(second, env);
    apply1(h, Op1::Neg, dot(h, lambda, vals, shorter(lambda.len(), vals.len())))
}

/// Entry of the symmetric matrix: the upper triangle is computed.
pub open spec fn curvature_at(
    g: Graph,
    h: Answers,
    d: DaeView,
    lambda: Seq<u64>,
    subset: Seq<(SymbolId, Vec<u64>)>,
    env: Seq<(SymbolId, u64)>,
    i: int,
    j: int,
) -> u64 {
    if i <= j {
        curvature(g, h, d, lambda, subset, env, i, j)
    } else {
        curvature(g, h, d, lambda, subset, env, j, i)
    }
}

/// Exact second-order sensitivity of `y = c^T x` with respect to a subset of the
/// parameters: `H_ij = -lambda^T D_i D_j F`, where `D_k` is the directional
/// derivative along `(s_k, e_k)` and `(dF/dx)^T lambda = c`. `subset` pairs each
/// parameter with its state sensitivity. Returns the dense symmetric matrix.
pub fn hessian<F: Fn(Ask) -> Reply, G: Fn(Query) -> Answer>(
    host: &Host<F>,
    al: &Algebra<G>,
    dae: &Dae,
    lambda: &Vec<u64>,
    subset: &Vec<(SymbolId, Vec<u64>)>,
    env: &Vec<(SymbolId, u64)>,
) -> (r: Vec<Vec<u64>>)
    requires
        forall|i: int| 0 <= i < subset@.len() ==> dae@.x.len() <= (#[trigger] subset@[i]).1@.len(),
    ensures
        r@.len() == subset@.len(),
        forall|i: int| 0 <= i < r@.len() ==> (#[trigger] r@[i])@.len() == subset@.len(),
        forall|i: int, j: int|
            0 <= i < r@.len() && 0 <= j < r@.len() ==> #[trigger] r@[i]@[j] == curvature_at(
                al.graph(),
                host.answers(),
                dae@,
                lambda@,
                subset@,
                env@,
                i,
                j,
            ),
{
    let ghost g = al.graph();
    let ghost hs = host.answers();
    let ghost d = dae@;
    let k: usize = subset.len();
    let mut out: Vec<Vec<u64>> = Vec::new();
    for i in 0..k
        invariant
            g == al.graph(),
            hs == host.answers(),
            d == dae@,
            k == subset@.len(),
            forall|i: int| 0 <= i < subset@.len() ==> d.x.len() <= (#[trigger] subset@[i]).1@.len(),
            out@.len() == i,
            forall|a: int| 0 <= a < i ==> (#[trigger] out@[a])@.len() == k,
            forall|a: int, b: int|
                0 <= a < i && 0 <= b < k ==> #[trigger] out@[a]@[b] == curvature_at(
                    g,
                    hs,
                    d,
                    lambda@,
                    subset@,
                    env@,
                    a,
                    b,
                ),
    {
        let first = direct_all(host, al, &dae.residuals, &subset[i].1, &dae.x, subset[i].0);
        let mut row: Vec<u64> = Vec::new();
        for j in 0..k
            invariant
                g == al.graph(),
                hs == host.answers(),
                d == dae@,
                k == subset@.len(),
                i < k,
                forall|i: int| 0 <= i < subset@.len() ==> d.x.len() <= (#[trigger] subset@[i]).1@.len(),
                out@.len() == i,
                forall|a: int| 0 <= a < i ==> (#[trigger] out@[a])@.len() == k,
                forall|a: int, b: int|
                    0 <= a < i && 0 <= b < k ==> #[trigger] out@[a]@[b] == curvature_at(
                        g,
                        hs,
                        d,
                        lambda@,
                        subset@,
                        env@,
                        a,
                        b,
                    ),
                first@ == all_directed(g, hs, d.residuals, subset@[i as int].1@, d.x, subset@[i as int].0),
                row@.len() == j,
                forall|b: int|
                    0 <= b < j ==> #[trigger] row@[b] == curvature_at(
                        g,
                        hs,
                        d,
                        lambda@,
                        subset@,
                        env@,
                        i as int,
                        b,
                    ),
        {
            if j < i {
                let above = &out[j];
                assert(out@[j as int]@[i as int] == curvature_at(
                    g,
                    hs,
                    d,
                    lambda@,
                    subset@,
                    env@,
                    j as int,
                    i as int,
                ));
                row.push(above[i]);
            } else {
                let second = direct_all(host, al, &first, &subset[j].1, &dae.x, subset[j].0);
                let vals = al.eval(&second, env);
                let mut sum: u64 = ZERO;
                let n: usize = if lambda.len() <= vals.len() {
                    lambda.len()
                } else {
                    vals.len()
                };
                for l in 0..n
                    invariant
                        hs == host.answers(),
                        n <= lambda@.len(),
                        n <= vals@.len(),
                        sum == dot(hs, lambda@, vals@, l as int),
                {
                    let p = host.apply2(Op2::Mul, lambda[l], vals[l]);
                    sum = host.apply2(Op2::Add, sum, p);
                }
                row.push(host.apply1(Op1::Neg, sum));
            }
        }
        out.push(row);
    }
    out
}

/// The matrix of second-order sensitivities is symmetric.
pub proof fn hessian_is_symmetric(
    g: Graph,
    h: Answers,
    d: DaeView,
    lambda: Seq<u64>,
    subset: Seq<(SymbolId, Vec<u64>)>,
    env: Seq<(SymbolId, u64)>,
    i: int,
    j: int,
)
    ensures
        curvature_at(g, h, d, lambda, subset, env, i, j) == curvature_at(g, h, d, lambda, subset, env, j, i),
{
}

// ---------------------------------------------------------------------------
// Forward sensitivities.
// ---------------------------------------------------------------------------
/// The sum of the first `k` entries of a row, each times the unknown of its
/// column.
pub open spec fn row_sum(g: Graph, e: Seq<Entry>, s: Seq<ExprId>, i: int, from: ExprId, k: int) -> ExprId
    decreases k,
{
    if k <= 0 {
        from
    } else {
        let before = row_sum(g, e, s, i, from, k - 1);
        if e[k - 1].0 == i {
            g.plus(before, g.times(e[k - 1].2, s[e[k - 1].1 as int]))
        } else {
            before
        }
    }
}

pub open spec fn state_name(p: Seq<char>, j: int) -> Seq<char> {
    "S["@ + p + "]"@ + decimal(j as nat)
}

pub open spec fn rate_name(p: Seq<char>, j: int) -> Seq<char> {
    "Sdot["@ + p + "]"@ + decimal(j as nat)
}

/// What one parameter appends: for each unknown a sensitivity, with a derivative
/// exactly where the unknown has one.
pub open spec fn extension(g: Graph, d: DaeView, p: SymbolId, scale: u64) -> Core {
    let pn = g.symbol_name(p);
    let n = d.x.len();
    let jx = coo_entries(g, d.residuals, filled(d.x), 0);
    let jd = coo_entries(g, d.residuals, d.xdot, 0);
    let s = Seq::new(n, |j: int| g.sym(state_name(pn, j)));
    let sd = Seq::new(
        n,
        |j: int|
            if d.xdot[j] is Some {
                g.sym(rate_name(pn, j))
            } else {
                g.zero()
            },
    );
    Core {
        residuals: Seq::new(
            n,
            |i: int|
                g.plus(
                    row_sum(
                        g,
                        jd,
                        sd,
                        i,
                        row_sum(g, jx, s, i, g.zero(), jx.len() as int),
                        jd.len() as int,
                    ),
                    g.times(g.number(scale), g.derive(d.residuals[i], p)),
                ),
        ),
        unknowns: Seq::new(n, |j: int| "d("@ + d.unknowns[j] + ")/d("@ + pn + ")"@),
        kinds: Seq::new(n, |j: int| UnknownKind::DeviceState),
        x: Seq::new(n, |j: int| g.symbol(state_name(pn, j))),
        xdot: Seq::new(
            n,
            |j: int|
                if d.xdot[j] is Some {
                    Some(g.symbol(rate_name(pn, j)))
                } else {
                    None
                },
        ),
        n_nodes: d.n_nodes,
    }
}

/// The layout with the first `k` parameters appended.
pub open spec fn extended(g: Graph, d: DaeView, params: Seq<(SymbolId, u64)>, k: int) -> Core
    decreases k,
{
    if k <= 0 {
        Core {
            residuals: d.residuals,
            unknowns: d.unknowns,
            kinds: d.kinds,
            x: d.x,
            xdot: d.xdot,
            n_nodes: d.n_nodes,
        }
    } else {
        let c = extended(g, d, params, k - 1);
        let e = extension(g, d, params[k - 1].0, params[k - 1].1);
        Core {
            residuals: c.residuals + e.residuals,
            unknowns: c.unknowns + e.unknowns,
            kinds: c.kinds + e.kinds,
            x: c.x + e.x,
            xdot: c.xdot + e.xdot,
            n_nodes: d.n_nodes,
        }
    }
}

/// The augmented system.
pub open spec fn augmented(g: Graph, d: DaeView, params: Seq<(SymbolId, u64)>) -> DaeView {
    let c = extended(g, d, params, params.len() as int);
    DaeView {
        residuals: c.residuals,
        unknowns: c.unknowns,
        kinds: c.kinds,
        x: c.x,
        xdot: c.xdot,
        stamps: stamps_of(g, c.residuals, 0),
        companion: seq![],
        noise_sources: seq![],
        limits: seq![],
        ..d
    }
}

/// Each parameter appends as many unknowns as there are, and the leading ones are
/// those of the system itself; what comes out is well formed.
pub proof fn augmentation_appends(g: Graph, d: DaeView, params: Seq<(SymbolId, u64)>, k: int)
    requires
        d.wf(),
        0 <= k <= params.len(),
    ensures
        extended(g, d, params, k).wf(),
        extended(g, d, params, k).x.len() == d.x.len() * (k + 1),
        extended(g, d, params, k).residuals.len() == d.x.len() * (k + 1),
        extended(g, d, params, k).x.take(d.x.len() as int) == d.x,
        extended(g, d, params, k).residuals.take(d.x.len() as int) == d.residuals,
    decreases k,
{
    let n = d.x.len() as int;
    if k > 0 {
        augmentation_appends(g, d, params, k - 1);
        let c = extended(g, d, params, k - 1);
        let e = extension(g, d, params[k - 1].0, params[k - 1].1);
        assert(n * (k + 1) == n * k + n) by (nonlinear_arith);
        assert(n * k >= n) by (nonlinear_arith)
            requires
                n >= 0,
                k >= 1,
        ;
        assert((c.x + e.x).take(n) =~= c.x.take(n));
        assert((c.residuals + e.residuals).take(n) =~= c.residuals.take(n));
    } else {
        assert(d.x.take(n) =~= d.x);
        assert(d.residuals.take(n) =~= d.residuals);
    }
}

fn add_block<G: Fn(Query) -> Answer>(
    al: &Algebra<G>,
    b: &SparseBlock,
    s: &Vec<ExprId>,
    res: &mut Vec<ExprId>,
    Ghost(e): Ghost<Seq<Entry>>,
)
    requires
        holds(*b, e),
        forall|k: int|
            0 <= k < e.len() ==> (#[trigger] e[k]).0 < old(res)@.len() && e[k].1 < s@.len(),
    ensures
        final(res)@.len() == old(res)@.len(),
        forall|i: int|
            0 <= i < final(res)@.len() ==> #[trigger] final(res)@[i] == row_sum(
                al.graph(),
                e,
                s@,
                i,
                old(res)@[i],
                e.len() as int,
            ),
{
    let ghost g = al.graph();
    let ghost start = res@;
    for k in 0..b.0.len()
        invariant
            g == al.graph(),
            holds(*b, e),
            start == old(res)@,
            forall|k: int| 0 <= k < e.len() ==> (#[trigger] e[k]).0 < start.len() && e[k].1 < s@.len(),
            res@.len() == start.len(),
            forall|i: int|
                0 <= i < res@.len() ==> #[trigger] res@[i] == row_sum(g, e, s@, i, start[i], k as int),
    {
        assert(b.0@[k as int] == e[k as int].0);
        assert(b.1@[k as int] == e[k as int].1);
        assert(b.2@[k as int] == e[k as int].2);
        let row = b.0[k];
        let term = al.times(b.2[k], s[b.1[k]]);
        let sum = al.plus(res[row], term);
        res.set(row, sum);
    }
}

/// The two Jacobians of a system in sparse form.
struct Slopes {
    x: SparseBlock,
    xdot: SparseBlock,
}

impl Slopes {
    spec fn of(self, g: Graph, d: DaeView) -> bool {
        &&& holds(self.x, coo_entries(g, d.residuals, filled(d.x), 0))
        &&& holds(self.xdot, coo_entries(g, d.residuals, d.xdot, 0))
    }
}

fn extend<G: Fn(Query) -> Answer>(al: &Algebra<G>, dae: &Dae, sl: &Slopes, p: SymbolId, scale: u64) -> (r: CoreVecs)
    requires
        dae@.wf(),
        sl.of(al.graph(), dae@),
    ensures
        r@ == extension(al.graph(), dae@, p, scale),
{
    let ghost g = al.graph();
    let ghost d = dae@;
    let ghost goal = extension(g, d, p, scale);
    let n: usize = dae.x.len();
    let name = al.symbol_name(p);
    let ghost pn = name@;
    let zero = al.zero();
    let ghost s_all = Seq::new(n as nat, |j: int| g.sym(state_name(pn, j)));
    let ghost sd_all = Seq::new(
        n as nat,
        |j: int|
            if d.xdot[j] is Some {
                g.sym(rate_name(pn, j))
            } else {
                g.zero()
            },
    );
    let mut s: Vec<ExprId> = Vec::new();
    let mut sd: Vec<ExprId> = Vec::new();
    let mut x: Vec<SymbolId> = Vec::new();
    let mut xdot: Vec<Option<SymbolId>> = Vec::new();
    let mut unknowns: Vec<String> = Vec::new();
    let mut kinds: Vec<UnknownKind> = Vec::new();
    let mut res: Vec<ExprId> = Vec::new();
    for j in 0..n
        invariant
            g == al.graph(),
            d == dae@,
            d.wf(),
            n == d.x.len(),
            pn == name@,
            zero == g.zero(),
            goal == extension(g, d, p, scale),
            pn == g.symbol_name(p),
            s_all == Seq::new(n as nat, |j: int| g.sym(state_name(pn, j))),
            sd_all == Seq::new(
                n as nat,
                |j: int|
                    if d.xdot[j] is Some {
                        g.sym(rate_name(pn, j))
                    } else {
                        g.zero()
                    },
            ),
            s@ =~= s_all.take(j as int),
            sd@ =~= sd_all.take(j as int),
            x@ =~= goal.x.take(j as int),
            xdot@ =~= goal.xdot.take(j as int),
            texts(unknowns@) =~= goal.unknowns.take(j as int),
            kinds@ =~= goal.kinds.take(j as int),
            res@ =~= Seq::new(j as nat, |k: int| zero),
    {
        let label = concat2(&concat3("S[", &name, "]"), &decimal_text(j as u64));
        assert(label@ =~= state_name(pn, j as int));
        let sy = al.symbol(&label);
        s.push(al.symbol_expr(sy));
        x.push(sy);
        let unk = concat2(&concat3("d(", &dae.unknowns[j], ")/d("), &concat2(&name, ")"));
        let ghost before = texts(unknowns@);
        proof {
            assert(unk@ =~= goal.unknowns[j as int]);
        }
        unknowns.push(unk);
        assert(texts(unknowns@) =~= before.push(goal.unknowns[j as int]));
        kinds.push(UnknownKind::DeviceState);
        if dae.xdot[j].is_some() {
            let label = concat2(&concat3("Sdot[", &name, "]"), &decimal_text(j as u64));
            assert(label@ =~= rate_name(pn, j as int));
            let dy = al.symbol(&label);
            sd.push(al.symbol_expr(dy));
            xdot.push(Some(dy));
        } else {
            sd.push(zero);
            xdot.push(None);
        }
        res.push(zero);
    }
    let ghost jx = coo_entries(g, d.residuals, filled(d.x), 0);
    let ghost jd = coo_entries(g, d.residuals, d.xdot, 0);
    proof {
        assert(s_all.take(n as int) =~= s_all);
        assert(sd_all.take(n as int) =~= sd_all);
        entries_in_range(g, d.residuals, filled(d.x), 0);
        entries_in_range(g, d.residuals, d.xdot, 0);
    }
    add_block(al, &sl.x, &s, &mut res, Ghost(jx));
    let ghost mid = res@;
    assert forall|i: int| 0 <= i < n implies #[trigger] mid[i] == row_sum(
        g,
        jx,
        s_all,
        i,
        g.zero(),
        jx.len() as int,
    ) by {}
    add_block(al, &sl.xdot, &sd, &mut res, Ghost(jd));
    let ghost late = res@;
    let k = al.number(scale);
    for i in 0..n
        invariant
            g == al.graph(),
            d == dae@,
            d.wf(),
            n == d.x.len(),
            k == g.number(scale),
            goal == extension(g, d, p, scale),
            pn == g.symbol_name(p),
            s_all == Seq::new(n as nat, |j: int| g.sym(state_name(pn, j))),
            sd_all == Seq::new(
                n as nat,
                |j: int|
                    if d.xdot[j] is Some {
                        g.sym(rate_name(pn, j))
                    } else {
                        g.zero()
                    },
            ),
            jx == coo_entries(g, d.residuals, filled(d.x), 0),
            jd == coo_entries(g, d.residuals, d.xdot, 0),
            res@.len() == n,
            late.len() == n,
            forall|i: int|
                0 <= i < n ==> #[trigger] late[i] == row_sum(
                    g,
                    jd,
                    sd_all,
                    i,
                    row_sum(g, jx, s_all, i, g.zero(), jx.len() as int),
                    jd.len() as int,
                ),
            forall|j: int| i <= j < n ==> res@[j] == late[j],
            forall|j: int| 0 <= j < i ==> #[trigger] res@[j] == goal.residuals[j],
    {
        let dp = al.derive(dae.residuals[i], p);
        let term = al.times(k, dp);
        assert(res@[i as int] == late[i as int]);
        let sum = al.plus(res[i], term);
        assert(sum == goal.residuals[i as int]);
        res.set(i, sum);
    }
    let r = CoreVecs { residuals: res, unknowns, kinds, x, xdot, n_nodes: dae.n_nodes };
    proof {
        let m = n as int;
        assert(r@.residuals =~= goal.residuals);
        assert(r@.unknowns =~= goal.unknowns);
        assert(r@.kinds =~= goal.kinds);
        assert(r@.x =~= goal.x);
        assert(r@.xdot =~= goal.xdot);
    }
    r
}

/// Append the forward-sensitivity system of each parameter: for every unknown its
/// sensitivity `s = dx/dp`, with the residual `G s + C s' + dF/dp = 0`.
pub fn augment_with_sensitivities<G: Fn(Query) -> Answer>(al: &Algebra<G>, dae: &Dae, params: &Vec<SymbolId>) -> (r: Dae)
    requires
        dae@.wf(),
    ensures
        r@ == augmented(al.graph(), dae@, params@.map_values(|p: SymbolId| (p, ONE))),
        r@.wf(),
{
    let ghost goal = params@.map_values(|p: SymbolId| (p, ONE));
    let mut pairs: Vec<(SymbolId, u64)> = Vec::new();
    for i in 0..params.len()
        invariant
            goal == params@.map_values(|p: SymbolId| (p, ONE)),
            pairs@ =~= goal.take(i as int),
    {
        pairs.push((params[i], ONE));
    }
    assert(goal.take(goal.len() as int) =~= goal);
    augment_with_scaled_sensitivities(al, dae, &pairs)
}

/// [`augment_with_sensitivities`] with a scale per parameter: appends
/// `u = k * dx/dp`, with the residual `G u + C u' + k * dF/dp = 0`.
pub fn augment_with_scaled_sensitivities<G: Fn(Query) -> Answer>(
    al: &Algebra<G>,
    dae: &Dae,
    params: &Vec<(SymbolId, u64)>,
) -> (r: Dae)
    requires
        dae@.wf(),
    ensures
        r@ == augmented(al.graph(), dae@, params@),
        r@.wf(),
{
    let ghost g = al.graph();
    let ghost d = dae@;
    let sl = Slopes { x: dae.jacobian_x_coo(al), xdot: dae.jacobian_xdot_coo(al) };
    let mut c = CoreVecs {
        residuals: copy_exprs(&dae.residuals),
        unknowns: copy_texts(&dae.unknowns),
        kinds: copy_kinds(&dae.kinds),
        x: copy_symbols(&dae.x),
        xdot: copy_slots(&dae.xdot),
        n_nodes: dae.n_nodes,
    };
    for k in 0..params.len()
        invariant
            g == al.graph(),
            d == dae@,
            d.wf(),
            sl.of(g, d),
            c@ == extended(g, d, params@, k as int),
    {
        let ghost before = c@;
        let mut e = extend(al, dae, &sl, params[k].0, params[k].1);
        let ghost ev = e@;
        let ghost cn = c.unknowns@;
        let ghost en = e.unknowns@;
        c.residuals.append(&mut e.residuals);
        c.unknowns.append(&mut e.unknowns);
        c.kinds.append(&mut e.kinds);
        c.x.append(&mut e.x);
        c.xdot.append(&mut e.xdot);
        proof {
            let next = extended(g, d, params@, k + 1);
            assert(texts(cn + en) =~= texts(cn) + texts(en));
            assert(c@.residuals =~= next.residuals);
            assert(c@.unknowns =~= next.unknowns);
            assert(c@.kinds =~= next.kinds);
            assert(c@.x =~= next.x);
            assert(c@.xdot =~= next.xdot);
        }
    }
    let ghost goal = augmented(g, d, params@);
    let stamps = stamps_from_residuals(al, &c.residuals);
    let total: usize = c.residuals.len();
    let r = Dae {
        residuals: c.residuals,
        unknowns: c.unknowns,
        kinds: c.kinds,
        x: c.x,
        xdot: c.xdot,
        t: dae.t,
        n_nodes: dae.n_nodes,
        param_defaults: symbol_table_clone(&dae.param_defaults),
        events: copy_events(&dae.events),
        delays: copy_delays(&dae.delays),
        stamps,
        companion: Vec::new(),
        noise_sources: Vec::new(),
        op_vars: copy_op_vars(&dae.op_vars),
        dc_seeds: copy_seeds(&dae.dc_seeds),
        limits: Vec::new(),
        sources: copy_shapes(&dae.sources),
        source_names: copy_texts(&dae.source_names),
    };
    proof {
        augmentation_appends(g, d, params@, params@.len() as int);
        assert(goal.residuals.len() == total);
        stamps_have_rows(g, goal.residuals, 0);
        assert(r@.companion =~= goal.companion);
        assert(r@.noise_sources =~= goal.noise_sources);
        assert(r@.limits =~= goal.limits);
    }
    r
}

// ---------------------------------------------------------------------------
// Small-signal matrices.
// ---------------------------------------------------------------------------
/// The value that the last of the first `k` entries gives a cell, zero where none
/// does.
pub open spec fn cell(e: Seq<Entry>, vals: Seq<u64>, row: int, col: int, k: int) -> u64
    decreases k,
{
    if k <= 0 {
        ZERO
    } else if e[k - 1].0 == row && e[k - 1].1 == col {
        vals[k - 1]
    } else {
        cell(e, vals, row, col, k - 1)
    }
}

/// The total derivative of a sparse matrix, dense.
pub open spec fn dense_change(
    g: Graph,
    h: Answers,
    d: DaeView,
    e: Seq<Entry>,
    p: SymbolId,
    s: Seq<u64>,
    env: Seq<(SymbolId, u64)>,
    row: int,
    col: int,
) -> u64 {
    let exprs = e.map_values(|t: Entry| t.2);
    cell(e, g.eval(all_directed(g, h, exprs, s, d.x, p), env), row, col, e.len() as int)
}

/// The rows from `i` on that an input drives.
pub open spec fn driven(g: Graph, rows: Seq<ExprId>, input: SymbolId, i: int) -> Seq<Entry>
    decreases rows.len() - i,
{
    if i < 0 || i >= rows.len() {
        seq![]
    } else if g.is_zero(g.derive(rows[i], input)) {
        driven(g, rows, input, i + 1)
    } else {
        seq![(i as usize, 0usize, g.derive(rows[i], input))] + driven(g, rows, input, i + 1)
    }
}

/// The total derivative of the input coupling of a row. A row that the input does
/// not drive has zero.
pub open spec fn coupling_change(
    g: Graph,
    h: Answers,
    d: DaeView,
    input: SymbolId,
    p: SymbolId,
    s: Seq<u64>,
    env: Seq<(SymbolId, u64)>,
    row: int,
) -> u64 {
    let e = driven(g, d.residuals, input, 0);
    let exprs = e.map_values(|t: Entry| t.2);
    let vals = g.eval(all_directed(g, h, exprs, s, d.x, p), env);
    if g.is_zero(g.derive(d.residuals[row], input)) {
        ZERO
    } else {
        apply1(h, Op1::Neg, cell(e, vals, row, 0, e.len() as int))
    }
}

/// The dense matrix of a block's directed values.
fn spread<F: Fn(Ask) -> Reply, G: Fn(Query) -> Answer>(
    host: &Host<F>,
    al: &Algebra<G>,
    dae: &Dae,
    b: &SparseBlock,
    p: SymbolId,
    s: &Vec<u64>,
    env: &Vec<(SymbolId, u64)>,
    Ghost(e): Ghost<Seq<Entry>>,
) -> (r: Vec<Vec<u64>>)
    requires
        holds(*b, e),
        dae@.x.len() <= s@.len(),
        forall|k: int| 0 <= k < e.len() ==> (#[trigger] e[k]).0 < dae@.x.len() && e[k].1 < dae@.x.len(),
    ensures
        r@.len() == dae@.x.len(),
        forall|i: int| 0 <= i < r@.len() ==> (#[trigger] r@[i])@.len() == dae@.x.len(),
        forall|i: int, j: int|
            0 <= i < r@.len() && 0 <= j < r@.len() ==> #[trigger] r@[i]@[j] == dense_change(
                al.graph(),
                host.answers(),
                dae@,
                e,
                p,
                s@,
                env@,
                i,
                j,
            ),
{
    let ghost g = al.graph();
    let ghost h = host.answers();
    let n: usize = dae.x.len();
    let moved = direct_all(host, al, &b.2, s, &dae.x, p);
    let vals = al.eval(&moved, env);
    proof {
        assert(b.2@ == e.map_values(|t: Entry| t.2));
        assert(vals@.len() == moved@.len());
    }
    let mut out: Vec<Vec<u64>> = Vec::new();
    for i in 0..n
        invariant
            out@.len() == i,
            forall|a: int| 0 <= a < i ==> (#[trigger] out@[a])@.len() == n,
            forall|a: int, c: int| 0 <= a < i && 0 <= c < n ==> #[trigger] out@[a]@[c] == ZERO,
    {
        let mut row: Vec<u64> = Vec::new();
        for j in 0..n
            invariant
                row@.len() == j,
                forall|c: int| 0 <= c < j ==> #[trigger] row@[c] == ZERO,
        {
            row.push(ZERO);
        }
        out.push(row);
    }
    for k in 0..b.0.len()
        invariant
            holds(*b, e),
            n == dae@.x.len(),
            vals@.len() == e.len(),
            forall|k: int| 0 <= k < e.len() ==> (#[trigger] e[k]).0 < n && e[k].1 < n,
            out@.len() == n,
            forall|a: int| 0 <= a < n ==> (#[trigger] out@[a])@.len() == n,
            forall|a: int, c: int|
                0 <= a < n && 0 <= c < n ==> #[trigger] out@[a]@[c] == cell(e, vals@, a, c, k as int),
    {
        assert(b.0@[k as int] == e[k as int].0);
        assert(b.1@[k as int] == e[k as int].1);
        let row = b.0[k];
        let col = b.1[k];
        let ghost before = out@;
        let mut line: Vec<u64> = Vec::new();
        std::mem::swap(&mut out[row], &mut line);
        line.set(col, vals[k]);
        out.set(row, line);
        proof {
            assert forall|a: int, c: int| 0 <= a < n && 0 <= c < n implies #[trigger] out@[a]@[c] == cell(
                e,
                vals@,
                a,
                c,
                k + 1,
            ) by {
                assert(before[a]@[c] == cell(e, vals@, a, c, k as int));
            }
        }
    }
    out
}

/// Exact total derivatives of the small-signal matrices with respect to a
/// parameter, including the operating-point shift `s = dx/dp`: each entry of
/// `G = dF/dx`, `C = dF/dx'` and the input coupling `B = -dF/d(input)` is
/// differentiated along `(s, e_p)` and evaluated. Returns `(dG, dC, dB)`, dense.
pub fn ac_param_derivatives<F: Fn(Ask) -> Reply, G: Fn(Query) -> Answer>(
    host: &Host<F>,
    al: &Algebra<G>,
    dae: &Dae,
    input: SymbolId,
    p: SymbolId,
    s: &Vec<u64>,
    env: &Vec<(SymbolId, u64)>,
) -> (r: (Vec<Vec<u64>>, Vec<Vec<u64>>, Vec<u64>))
    requires
        dae@.wf(),
        dae@.x.len() <= s@.len(),
    ensures
        r.0@.len() == dae@.x.len(),
        r.1@.len() == dae@.x.len(),
        r.2@.len() == dae@.x.len(),
        forall|i: int| 0 <= i < r.0@.len() ==> (#[trigger] r.0@[i])@.len() == dae@.x.len(),
        forall|i: int| 0 <= i < r.1@.len() ==> (#[trigger] r.1@[i])@.len() == dae@.x.len(),
        forall|i: int, j: int|
            0 <= i < r.0@.len() && 0 <= j < r.0@.len() ==> #[trigger] r.0@[i]@[j] == dense_change(
                al.graph(),
                host.answers(),
                dae@,
                coo_entries(al.graph(), dae@.residuals, filled(dae@.x), 0),
                p,
                s@,
                env@,
                i,
                j,
            ),
        forall|i: int, j: int|
            0 <= i < r.1@.len() && 0 <= j < r.1@.len() ==> #[trigger] r.1@[i]@[j] == dense_change(
                al.graph(),
                host.answers(),
                dae@,
                coo_entries(al.graph(), dae@.residuals, dae@.xdot, 0),
                p,
                s@,
                env@,
                i,
                j,
            ),
        forall|i: int|
            0 <= i < r.2@.len() ==> #[trigger] r.2@[i] == coupling_change(
                al.graph(),
                host.answers(),
                dae@,
                input,
                p,
                s@,
                env@,
                i,
            ),
{
    let ghost g = al.graph();
    let ghost h = host.answers();
    let ghost d = dae@;
    let n: usize = dae.x.len();
    let bx = dae.jacobian_x_coo(al);
    let bd = dae.jacobian_xdot_coo(al);
    let ghost ex = coo_entries(g, d.residuals, filled(d.x), 0);
    let ghost ed = coo_entries(g, d.residuals, d.xdot, 0);
    proof {
        assert(d.x.len() == n);
        entries_in_range(g, d.residuals, filled(d.x), 0);
        entries_in_range(g, d.residuals, d.xdot, 0);
    }
    let dg = spread(host, al, dae, &bx, p, s, env, Ghost(ex));
    let dc = spread(host, al, dae, &bd, p, s, env, Ghost(ed));
    let db = drive_change(host, al, dae, input, p, s, env);
    (dg, dc, db)
}

proof fn driven_cell(g: Graph, rows: Seq<ExprId>, input: SymbolId, i: int, k: int)
    requires
        0 <= i,
        rows.len() <= usize::MAX,
        0 <= k < driven(g, rows, input, i).len(),
    ensures
        i <= driven(g, rows, input, i)[k].0 < rows.len(),
        driven(g, rows, input, i)[k].1 == 0,
    decreases rows.len() - i,
{
    if i < rows.len() {
        let rest = driven(g, rows, input, i + 1);
        if g.is_zero(g.derive(rows[i], input)) {
            driven_cell(g, rows, input, i + 1, k);
        } else if k > 0 {
            assert(driven(g, rows, input, i)[k] == rest[k - 1]);
            driven_cell(g, rows, input, i + 1, k - 1);
        }
    }
}

fn drive_change<F: Fn(Ask) -> Reply, G: Fn(Query) -> Answer>(
    host: &Host<F>,
    al: &Algebra<G>,
    dae: &Dae,
    input: SymbolId,
    p: SymbolId,
    s: &Vec<u64>,
    env: &Vec<(SymbolId, u64)>,
) -> (r: Vec<u64>)
    requires
        dae@.wf(),
        dae@.x.len() <= s@.len(),
    ensures
        r@.len() == dae@.x.len(),
        forall|i: int|
            0 <= i < r@.len() ==> #[trigger] r@[i] == coupling_change(
                al.graph(),
                host.answers(),
                dae@,
                input,
                p,
                s@,
                env@,
                i,
            ),
{
    let ghost g = al.graph();
    let ghost h = host.answers();
    let ghost d = dae@;
    let n: usize = dae.residuals.len();
    let ghost goal = driven(g, d.residuals, input, 0);
    let mut list: Vec<Entry> = Vec::new();
    let mut exprs: Vec<ExprId> = Vec::new();
    let mut idle: Vec<bool> = Vec::new();
    assert(list@ + goal =~= goal);
    assert(exprs@ =~= list@.map_values(|t: Entry| t.2));
    for i in 0..n
        invariant
            g == al.graph(),
            d == dae@,
            n == d.residuals.len(),
            list@ + driven(g, d.residuals, input, i as int) == goal,
            exprs@ == list@.map_values(|t: Entry| t.2),
            idle@.len() == i,
            forall|k: int| 0 <= k < i ==> #[trigger] idle@[k] == g.is_zero(g.derive(d.residuals[k], input)),
    {
        let e = al.derive(dae.residuals[i], input);
        let z = al.is_zero(e);
        idle.push(z);
        if !z {
            let ghost before = list@;
            list.push((i, 0, e));
            exprs.push(e);
            proof {
                let rest = driven(g, d.residuals, input, i + 1);
                assert(list@ + rest =~= before + (seq![(i, 0usize, e)] + rest));
                assert(exprs@ =~= list@.map_values(|t: Entry| t.2));
            }
        }
    }
    assert(list@ + seq![] =~= list@);
    let moved = direct_all(host, al, &exprs, s, &dae.x, p);
    let vals = al.eval(&moved, env);
    assert(vals@.len() == list@.len());
    let mut out: Vec<u64> = Vec::new();
    for i in 0..n
        invariant
            out@.len() == i,
            forall|k: int| 0 <= k < i ==> #[trigger] out@[k] == ZERO,
    {
        out.push(ZERO);
    }
    let mut raw: Vec<u64> = Vec::new();
    for i in 0..n
        invariant
            raw@.len() == i,
            forall|k: int| 0 <= k < i ==> #[trigger] raw@[k] == ZERO,
    {
        raw.push(ZERO);
    }
    for k in 0..list.len()
        invariant
            n == d.residuals.len(),
            list@ == driven(g, d.residuals, input, 0),
            vals@.len() == list@.len(),
            raw@.len() == n,
            forall|a: int| 0 <= a < n ==> #[trigger] raw@[a] == cell(list@, vals@, a, 0, k as int),
    {
        proof {
            driven_cell(g, d.residuals, input, 0, k as int);
        }
        raw.set(list[k].0, vals[k]);
    }
    for i in 0..n
        invariant
            g == al.graph(),
            h == host.answers(),
            d == dae@,
            n == d.residuals.len(),
            out@.len() == n,
            raw@.len() == n,
            idle@.len() == n,
            list@ == driven(g, d.residuals, input, 0),
            vals@ == g.eval(all_directed(g, h, list@.map_values(|t: Entry| t.2), s@, d.x, p), env@),
            forall|k: int| 0 <= k < n ==> #[trigger] idle@[k] == g.is_zero(g.derive(d.residuals[k], input)),
            forall|a: int| 0 <= a < n ==> #[trigger] raw@[a] == cell(list@, vals@, a, 0, list@.len() as int),
            forall|k: int| i <= k < n ==> out@[k] == ZERO,
            forall|k: int|
                0 <= k < i ==> #[trigger] out@[k] == coupling_change(g, h, d, input, p, s@, env@, k),
    {
        if !idle[i] {
            let v = host.apply1(Op1::Neg, raw[i]);
            out.set(i, v);
        }
    }
    out
}

// ---------------------------------------------------------------------------
// The Lagrangian.
// ---------------------------------------------------------------------------
/// The symbolic second-derivative blocks of the Lagrangian `L = sum_r lambda_r
/// F_r`, with the multipliers as fresh symbols. They depend only on the system's
/// structure, so they are built once.
#[derive(Debug)]
pub struct HessianSym {
    /// The multiplier symbols, one per residual.
    pub lambda: Vec<SymbolId>,
    /// State and state.
    pub xx: SparseBlock,
    /// State and parameter.
    pub xp: SparseBlock,
    /// Parameter and parameter.
    pub pp: SparseBlock,
    /// Rate and rate, both by state index.
    pub xdxd: SparseBlock,
    /// State and rate.
    pub xxd: SparseBlock,
    /// Rate and parameter.
    pub xdp: SparseBlock,
}

pub open spec fn multiplier(g: Graph, r: int) -> SymbolId {
    g.symbol("__lam"@ + decimal(r as nat))
}

/// The sum of the residuals, each times its multiplier.
pub open spec fn lagrangian(g: Graph, d: DaeView) -> ExprId {
    g.sum(
        Seq::new(d.residuals.len(), |r: int| g.times(g.symbol_expr(multiplier(g, r)), d.residuals[r])),
    )
}

/// The gradient with respect to the slots; an empty one gives zero.
pub open spec fn gradient(g: Graph, l: ExprId, slots: Seq<Option<SymbolId>>) -> Seq<ExprId> {
    slots.map_values(
        |o: Option<SymbolId>|
            match o {
                Some(s) => g.derive(l, s),
                None => g.zero(),
            },
    )
}

fn differentiate_all<G: Fn(Query) -> Answer>(al: &Algebra<G>, l: ExprId, slots: &Vec<Option<SymbolId>>) -> (r: Vec<ExprId>)
    ensures
        r@ == gradient(al.graph(), l, slots@),
{
    let ghost all = gradient(al.graph(), l, slots@);
    let mut out: Vec<ExprId> = Vec::new();
    for i in 0..slots.len()
        invariant
            all == gradient(al.graph(), l, slots@),
            out@ =~= all.take(i as int),
    {
        let e = match slots[i] {
            Some(s) => al.derive(l, s),
            None => al.zero(),
        };
        assert(e == all[i as int]);
        out.push(e);
    }
    assert(all.take(all.len() as int) =~= all);
    out
}

/// Build the blocks of [`HessianSym`] for a parameter set.
pub fn lagrangian_hessian<G: Fn(Query) -> Answer>(al: &Algebra<G>, dae: &Dae, params: &Vec<SymbolId>) -> (r: HessianSym)
    ensures
        r.lambda@ == Seq::new(dae@.residuals.len(), |k: int| multiplier(al.graph(), k)),
        ({
            let g = al.graph();
            let l = lagrangian(g, dae@);
            let x = filled(dae@.x);
            let p = filled(params@);
            &&& holds(r.xx, coo_entries(g, gradient(g, l, x), x, 0))
            &&& holds(r.xp, coo_entries(g, gradient(g, l, x), p, 0))
            &&& holds(r.pp, coo_entries(g, gradient(g, l, p), p, 0))
            &&& holds(r.xdxd, coo_entries(g, gradient(g, l, dae@.xdot), dae@.xdot, 0))
            &&& holds(r.xxd, coo_entries(g, gradient(g, l, x), dae@.xdot, 0))
            &&& holds(r.xdp, coo_entries(g, gradient(g, l, dae@.xdot), p, 0))
        }),
{
    let ghost g = al.graph();
    let ghost d = dae@;
    let ghost marks = Seq::new(d.residuals.len(), |k: int| multiplier(g, k));
    let ghost terms_all = Seq::new(
        d.residuals.len(),
        |r: int| g.times(g.symbol_expr(multiplier(g, r)), d.residuals[r]),
    );
    let mut lambda: Vec<SymbolId> = Vec::new();
    let mut terms: Vec<ExprId> = Vec::new();
    for r in 0..dae.residuals.len()
        invariant
            g == al.graph(),
            d == dae@,
            marks == Seq::new(d.residuals.len(), |k: int| multiplier(g, k)),
            terms_all == Seq::new(
                d.residuals.len(),
                |r: int| g.times(g.symbol_expr(multiplier(g, r)), d.residuals[r]),
            ),
            lambda@ =~= marks.take(r as int),
            terms@ =~= terms_all.take(r as int),
    {
        let s = al.symbol(&concat2("__lam", &decimal_text(r as u64)));
        lambda.push(s);
        terms.push(al.times(al.symbol_expr(s), dae.residuals[r]));
    }
    proof {
        assert(marks.take(marks.len() as int) =~= marks);
        assert(terms_all.take(terms_all.len() as int) =~= terms_all);
    }
    let l = al.sum(&terms);
    let x = fill(&dae.x);
    let p = fill(params);
    let gx = differentiate_all(al, l, &x);
    let gd = differentiate_all(al, l, &dae.xdot);
    let gp = differentiate_all(al, l, &p);
    HessianSym {
        lambda,
        xx: coo(al, &gx, &x),
        xp: coo(al, &gx, &p),
        pp: coo(al, &gp, &p),
        xdxd: coo(al, &gd, &dae.xdot),
        xxd: coo(al, &gx, &dae.xdot),
        xdp: coo(al, &gd, &p),
    }
}

} // verus!

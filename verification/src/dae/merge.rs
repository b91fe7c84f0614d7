//! Shorting nodes together: a graph transformation that shrinks the system.
use crate::dae::jacobian::{replaced, substitute_all};
use crate::dae::system::{
    copy_seeds, stamps_from_residuals, stamps_of, summands, summands_of, Dae, DaeView,
};
use crate::device::UnknownKind;
use crate::forest::{label, label_is_connectivity, linked};
use crate::symbolic::{Algebra, Answer, ExprId, Graph, Query, SymbolId};
use crate::table::symbol_table_clone;
use crate::text::texts;
use vstd::prelude::*;

verus! {

/// The part of a system that a graph transformation rewrites.
pub struct Core {
    pub residuals: Seq<ExprId>,
    pub unknowns: Seq<Seq<char>>,
    pub kinds: Seq<UnknownKind>,
    pub x: Seq<SymbolId>,
    pub xdot: Seq<Option<SymbolId>>,
    pub n_nodes: usize,
}

/// The executable form of [`Core`].
pub struct CoreVecs {
    pub residuals: Vec<ExprId>,
    pub unknowns: Vec<String>,
    pub kinds: Vec<UnknownKind>,
    pub x: Vec<SymbolId>,
    pub xdot: Vec<Option<SymbolId>>,
    pub n_nodes: usize,
}

impl View for CoreVecs {
    type V = Core;

    open spec fn view(&self) -> Core {
        Core {
            residuals: self.residuals@,
            unknowns: texts(self.unknowns@),
            kinds: self.kinds@,
            x: self.x@,
            xdot: self.xdot@,
            n_nodes: self.n_nodes,
        }
    }
}

impl Core {
    pub open spec fn wf(self) -> bool {
        &&& self.residuals.len() == self.x.len()
        &&& self.unknowns.len() == self.x.len()
        &&& self.kinds.len() == self.x.len()
        &&& self.xdot.len() == self.x.len()
        &&& self.n_nodes <= self.x.len()
    }
}

/// A system over a rewritten layout, with the stamps rebuilt from the new
/// residuals. The registries that a graph transformation cannot keep are
/// cleared; the time symbol, the parameter defaults and the starting values
/// (which are found by name) carry over.
pub open spec fn transformed(g: Graph, d: DaeView, c: Core) -> DaeView {
    DaeView {
        residuals: c.residuals,
        unknowns: c.unknowns,
        kinds: c.kinds,
        x: c.x,
        xdot: c.xdot,
        t: d.t,
        n_nodes: c.n_nodes,
        param_defaults: d.param_defaults,
        events: seq![],
        delays: seq![],
        stamps: stamps_of(g, c.residuals, 0),
        companion: seq![],
        noise_sources: seq![],
        op_vars: seq![],
        dc_seeds: d.dc_seeds,
        limits: seq![],
        sources: seq![],
        source_names: seq![],
    }
}

impl Dae {
    /// A transformed copy of this system over a rewritten unknown layout.
    pub fn transformed<G: Fn(Query) -> Answer>(&self, al: &Algebra<G>, c: CoreVecs) -> (r: Dae)
        ensures
            r@ == transformed(al.graph(), self@, c@),
    {
        let ghost goal = transformed(al.graph(), self@, c@);
        let stamps = stamps_from_residuals(al, &c.residuals);
        let r = Dae {
            residuals: c.residuals,
            unknowns: c.unknowns,
            kinds: c.kinds,
            x: c.x,
            xdot: c.xdot,
            t: self.t,
            n_nodes: c.n_nodes,
            param_defaults: symbol_table_clone(&self.param_defaults),
            events: Vec::new(),
            delays: Vec::new(),
            stamps,
            companion: Vec::new(),
            noise_sources: Vec::new(),
            op_vars: Vec::new(),
            dc_seeds: copy_seeds(&self.dc_seeds),
            limits: Vec::new(),
            sources: Vec::new(),
            source_names: Vec::new(),
        };
        proof {
            assert(r@.events =~= goal.events);
            assert(r@.delays =~= goal.delays);
            assert(r@.companion =~= goal.companion);
            assert(r@.noise_sources =~= goal.noise_sources);
            assert(r@.op_vars =~= goal.op_vars);
            assert(r@.limits =~= goal.limits);
            assert(r@.sources =~= goal.sources);
            assert(r@.source_names =~= goal.source_names);
        }
        r
    }
}

/// A transformed system is well formed wherever its layout is.
pub proof fn transformed_is_well_formed(g: Graph, d: DaeView, c: Core)
    requires
        c.wf(),
        c.x.len() <= usize::MAX,
    ensures
        transformed(g, d, c).wf(),
{
    let t = transformed(g, d, c);
    assert forall|i: int| 0 <= i < t.stamps.len() implies (#[trigger] t.stamps[i]).row < t.x.len() by {
        crate::dae::system::stamps_have_rows(g, c.residuals, 0);
    }
}

// ---------------------------------------------------------------------------
// The classes of shorted nodes.
// ---------------------------------------------------------------------------
pub open spec fn smaller(a: int, b: int) -> int {
    if a <= b {
        a
    } else {
        b
    }
}

pub open spec fn larger(a: int, b: int) -> int {
    if a <= b {
        b
    } else {
        a
    }
}

/// Which index stands for `x` once the first `k` pairs have been shorted: of two
/// classes that meet, the smaller representative stays. A pair that reaches
/// beyond the first `nn` indices shorts nothing.
pub open spec fn survivor(pairs: Seq<(usize, usize)>, nn: int, k: int, x: int) -> int
    decreases k,
{
    if k <= 0 {
        x
    } else {
        let before = survivor(pairs, nn, k - 1, x);
        let (a, b) = pairs[k - 1];
        if a < nn && b < nn {
            let ra = survivor(pairs, nn, k - 1, a as int);
            let rb = survivor(pairs, nn, k - 1, b as int);
            if before == larger(ra, rb) {
                smaller(ra, rb)
            } else {
                before
            }
        } else {
            before
        }
    }
}

/// The shorting pairs among the first `k` as edges.
pub open spec fn shorts(pairs: Seq<(usize, usize)>, nn: int, k: int) -> Seq<(int, int)>
    decreases k,
{
    if k <= 0 {
        seq![]
    } else {
        let (a, b) = pairs[k - 1];
        if a < nn && b < nn {
            shorts(pairs, nn, k - 1).push((a as int, b as int))
        } else {
            shorts(pairs, nn, k - 1)
        }
    }
}

proof fn survivor_is_label(pairs: Seq<(usize, usize)>, nn: int, k: int, x: int, y: int)
    requires
        0 <= k <= pairs.len(),
    ensures
        (survivor(pairs, nn, k, x) == survivor(pairs, nn, k, y)) <==> (label(shorts(pairs, nn, k), x) == label(
            shorts(pairs, nn, k),
            y,
        )),
    decreases k,
{
    if k > 0 {
        let (a, b) = pairs[k - 1];
        survivor_is_label(pairs, nn, k - 1, x, y);
        if a < nn && b < nn {
            let e = shorts(pairs, nn, k - 1);
            assert(e.push((a as int, b as int)).drop_last() =~= e);
            survivor_is_label(pairs, nn, k - 1, x, a as int);
            survivor_is_label(pairs, nn, k - 1, x, b as int);
            survivor_is_label(pairs, nn, k - 1, y, a as int);
            survivor_is_label(pairs, nn, k - 1, y, b as int);
        }
    }
}

proof fn survivor_stands(pairs: Seq<(usize, usize)>, nn: int, k: int, x: int)
    requires
        0 <= k <= pairs.len(),
        0 <= x,
    ensures
        0 <= survivor(pairs, nn, k, x) <= x,
        survivor(pairs, nn, k, survivor(pairs, nn, k, x)) == survivor(pairs, nn, k, x),
        x >= nn ==> survivor(pairs, nn, k, x) == x,
    decreases k,
{
    if k > 0 {
        let (a, b) = pairs[k - 1];
        survivor_stands(pairs, nn, k - 1, x);
        survivor_stands(pairs, nn, k - 1, a as int);
        survivor_stands(pairs, nn, k - 1, b as int);
    }
}

/// The classes are the connected groups of shorted nodes, and each is named by
/// its smallest index.
pub proof fn survivor_is_the_least_linked(pairs: Seq<(usize, usize)>, nn: int, x: int, y: int)
    requires
        0 <= x,
        0 <= y,
    ensures
        ({
            let k = pairs.len() as int;
            let e = shorts(pairs, nn, k);
            &&& linked(e, x, survivor(pairs, nn, k, x))
            &&& (linked(e, x, y) ==> survivor(pairs, nn, k, x) <= y)
            &&& (linked(e, x, y) <==> survivor(pairs, nn, k, x) == survivor(pairs, nn, k, y))
        }),
{
    let k = pairs.len() as int;
    let e = shorts(pairs, nn, k);
    let s = survivor(pairs, nn, k, x);
    survivor_stands(pairs, nn, k, x);
    survivor_stands(pairs, nn, k, y);
    survivor_is_label(pairs, nn, k, x, s);
    label_is_connectivity(e, x, s);
    survivor_is_label(pairs, nn, k, x, y);
    label_is_connectivity(e, x, y);
}

/// The representative of every unknown.
pub open spec fn reps(pairs: Seq<(usize, usize)>, nn: int, m: nat) -> Seq<usize> {
    Seq::new(m, |i: int| survivor(pairs, nn, pairs.len() as int, i) as usize)
}

fn classes(pairs: &Vec<(usize, usize)>, nn: usize, m: usize) -> (rep: Vec<usize>)
    requires
        nn <= m,
    ensures
        rep@ == reps(pairs@, nn as int, m as nat),
{
    let mut rep: Vec<usize> = Vec::new();
    for i in 0..m
        invariant
            rep@.len() == i,
            forall|j: int| 0 <= j < i ==> #[trigger] rep@[j] == j,
    {
        rep.push(i);
    }
    for k in 0..pairs.len()
        invariant
            nn <= m,
            rep@.len() == m,
            forall|j: int| 0 <= j < m ==> #[trigger] rep@[j] == survivor(pairs@, nn as int, k as int, j),
    {
        let a = pairs[k].0;
        let b = pairs[k].1;
        if a < nn && b < nn {
            let ra = rep[a];
            let rb = rep[b];
            let (keep, gone): (usize, usize) = if ra <= rb {
                (ra, rb)
            } else {
                (rb, ra)
            };
            let ghost before = rep@;
            for i in 0..m
                invariant
                    a < nn,
                    b < nn,
                    nn <= m,
                    k < pairs@.len(),
                    pairs@[k as int] == (a, b),
                    before.len() == m,
                    rep@.len() == m,
                    ra == before[a as int],
                    rb == before[b as int],
                    keep == smaller(ra as int, rb as int),
                    gone == larger(ra as int, rb as int),
                    forall|j: int| 0 <= j < m ==> #[trigger] before[j] == survivor(pairs@, nn as int, k as int, j),
                    forall|j: int| i <= j < m ==> rep@[j] == before[j],
                    forall|j: int|
                        0 <= j < i ==> #[trigger] rep@[j] == survivor(pairs@, nn as int, k + 1, j),
            {
                assert(rep@[i as int] == before[i as int]);
                if rep[i] == gone {
                    rep.set(i, keep);
                }
            }
        }
    }
    proof {
        assert forall|j: int| 0 <= j < m implies #[trigger] rep@[j] == reps(pairs@, nn as int, m as nat)[j] by {
            survivor_stands(pairs@, nn as int, pairs@.len() as int, j);
        }
        assert(rep@ =~= reps(pairs@, nn as int, m as nat));
    }
    rep
}

// ---------------------------------------------------------------------------
// Merging.
// ---------------------------------------------------------------------------
/// What the symbols of the shorted nodes from `i` on become.
pub open spec fn merge_map(g: Graph, d: DaeView, rep: Seq<usize>, i: int) -> Seq<(SymbolId, ExprId)>
    decreases d.n_nodes - i,
{
    if i < 0 || i >= d.n_nodes {
        seq![]
    } else {
        let r = rep[i] as int;
        let rest = merge_map(g, d, rep, i + 1);
        if r == i {
            rest
        } else {
            let own = seq![(d.x[i], g.symbol_expr(d.x[r]))];
            match (d.xdot[i], d.xdot[r]) {
                (Some(si), Some(sr)) => own.push((si, g.symbol_expr(sr))) + rest,
                _ => own + rest,
            }
        }
    }
}

/// The summands of every node from `j` on that node `i` stands for.
pub open spec fn fused(g: Graph, rows: Seq<ExprId>, rep: Seq<usize>, nn: int, i: int, j: int) -> Seq<ExprId>
    decreases nn - j,
{
    if j < 0 || j >= nn {
        seq![]
    } else {
        let rest = fused(g, rows, rep, nn, i, j + 1);
        if rep[j] == i {
            summands(g, rows[j]) + rest
        } else {
            rest
        }
    }
}

/// The unknowns from `i` on that stay: the representatives among the nodes, and
/// everything that is no node.
pub open spec fn staying(rep: Seq<usize>, nn: int, i: int) -> Seq<usize>
    decreases rep.len() - i,
{
    if i < 0 || i >= rep.len() {
        seq![]
    } else if i >= nn || rep[i] == i {
        seq![i as usize] + staying(rep, nn, i + 1)
    } else {
        staying(rep, nn, i + 1)
    }
}

/// How many of the unknowns from `i` on are nodes that stay.
pub open spec fn staying_nodes(rep: Seq<usize>, nn: int, i: int) -> nat
    decreases nn - i,
{
    if i < 0 || i >= nn {
        0
    } else if rep[i] == i {
        1 + staying_nodes(rep, nn, i + 1)
    } else {
        staying_nodes(rep, nn, i + 1)
    }
}

/// The residual of a staying unknown: the current laws of its class fused into
/// one, or its own residual where it is no node.
pub open spec fn merged_row(g: Graph, rows: Seq<ExprId>, rep: Seq<usize>, nn: int, i: int) -> ExprId {
    if i < nn {
        g.sum(fused(g, rows, rep, nn, i, 0))
    } else {
        rows[i]
    }
}

/// The layout after merging.
pub open spec fn merged_core(g: Graph, d: DaeView, rep: Seq<usize>) -> Core {
    let nn = d.n_nodes as int;
    let rows = replaced(g, d.residuals, merge_map(g, d, rep, 0));
    let stay = staying(rep, nn, 0);
    Core {
        residuals: stay.map_values(|i: usize| merged_row(g, rows, rep, nn, i as int)),
        unknowns: stay.map_values(|i: usize| d.unknowns[i as int]),
        kinds: stay.map_values(|i: usize| d.kinds[i as int]),
        x: stay.map_values(|i: usize| d.x[i as int]),
        xdot: stay.map_values(|i: usize| d.xdot[i as int]),
        n_nodes: staying_nodes(rep, nn, 0) as usize,
    }
}

/// The merged system and, for each of its unknowns, the index it had before.
pub open spec fn merged(g: Graph, d: DaeView, pairs: Seq<(usize, usize)>) -> (DaeView, Seq<usize>) {
    let rep = reps(pairs, d.n_nodes as int, d.x.len());
    (transformed(g, d, merged_core(g, d, rep)), staying(rep, d.n_nodes as int, 0))
}

proof fn staying_in_range(rep: Seq<usize>, nn: int, i: int)
    requires
        0 <= i,
        rep.len() <= usize::MAX,
    ensures
        forall|k: int|
            0 <= k < staying(rep, nn, i).len() ==> i <= (#[trigger] staying(rep, nn, i)[k]) < rep.len(),
        forall|k: int, l: int|
            0 <= k < l < staying(rep, nn, i).len() ==> (#[trigger] staying(rep, nn, i)[k]) < (
            #[trigger] staying(rep, nn, i)[l]),
    decreases rep.len() - i,
{
    if i < rep.len() {
        staying_in_range(rep, nn, i + 1);
        if i >= nn || rep[i] == i {
            let rest = staying(rep, nn, i + 1);
            let all = staying(rep, nn, i);
            assert(all =~= seq![i as usize] + rest);
            assert forall|k: int| 0 <= k < all.len() implies i <= (#[trigger] all[k]) < rep.len() by {
                if k > 0 {
                    assert(all[k] == rest[k - 1]);
                }
            }
            assert forall|k: int, l: int| 0 <= k < l < all.len() implies (#[trigger] all[k]) < (
            #[trigger] all[l]) by {
                assert(all[l] == rest[l - 1]);
                if k > 0 {
                    assert(all[k] == rest[k - 1]);
                }
            }
        } else {
            assert(staying(rep, nn, i) == staying(rep, nn, i + 1));
        }
    } else {
        assert(staying(rep, nn, i).len() == 0);
    }
}

proof fn staying_count(rep: Seq<usize>, nn: int, i: int)
    requires
        0 <= i,
        nn <= rep.len(),
    ensures
        staying_nodes(rep, nn, i) <= staying(rep, nn, i).len(),
        staying(rep, nn, i).len() <= rep.len() - i || i >= rep.len(),
        staying_nodes(rep, nn, i) <= nn - i || i >= nn,
    decreases rep.len() - i,
{
    if i < rep.len() {
        staying_count(rep, nn, i + 1);
    }
}

/// Merging never grows the system, keeps the order of what stays, and gives a
/// well formed system again.
pub proof fn merging_shrinks(g: Graph, d: DaeView, pairs: Seq<(usize, usize)>)
    requires
        d.wf(),
        d.x.len() <= usize::MAX,
    ensures
        merged(g, d, pairs).0.wf(),
        merged(g, d, pairs).0.x.len() == merged(g, d, pairs).1.len(),
        merged(g, d, pairs).0.x.len() <= d.x.len(),
        forall|k: int, l: int|
            0 <= k < l < merged(g, d, pairs).1.len() ==> (#[trigger] merged(g, d, pairs).1[k]) < (
            #[trigger] merged(g, d, pairs).1[l]),
        forall|k: int|
            0 <= k < merged(g, d, pairs).1.len() ==> (#[trigger] merged(g, d, pairs).1[k]) < d.x.len()
                && merged(g, d, pairs).0.unknowns[k] == d.unknowns[merged(g, d, pairs).1[k] as int],
{
    let rep = reps(pairs, d.n_nodes as int, d.x.len());
    staying_in_range(rep, d.n_nodes as int, 0);
    staying_count(rep, d.n_nodes as int, 0);
    transformed_is_well_formed(g, d, merged_core(g, d, rep));
}

fn build_map<G: Fn(Query) -> Answer>(al: &Algebra<G>, dae: &Dae, rep: &Vec<usize>) -> (r: Vec<(SymbolId, ExprId)>)
    requires
        dae@.wf(),
        rep@.len() == dae@.x.len(),
        forall|i: int| 0 <= i < rep@.len() ==> (#[trigger] rep@[i]) < rep@.len(),
    ensures
        r@ == merge_map(al.graph(), dae@, rep@, 0),
{
    let ghost g = al.graph();
    let ghost d = dae@;
    let ghost goal = merge_map(g, d, rep@, 0);
    let mut out: Vec<(SymbolId, ExprId)> = Vec::new();
    assert(out@ + goal =~= goal);
    for i in 0..dae.n_nodes
        invariant
            g == al.graph(),
            d == dae@,
            d.wf(),
            rep@.len() == d.x.len(),
            forall|i: int| 0 <= i < rep@.len() ==> (#[trigger] rep@[i]) < rep@.len(),
            out@ + merge_map(g, d, rep@, i as int) == goal,
    {
        let r = rep[i];
        let ghost before = out@;
        let ghost rest = merge_map(g, d, rep@, i + 1);
        if r != i {
            let e = al.symbol_expr(dae.x[r]);
            let ghost own = seq![(d.x[i as int], e)];
            out.push((dae.x[i], e));
            assert(out@ =~= before + own);
            match (dae.xdot[i], dae.xdot[r]) {
                (Some(si), Some(sr)) => {
                    let f = al.symbol_expr(sr);
                    out.push((si, f));
                    proof {
                        assert(out@ =~= before + own.push((si, f)));
                        assert(before + (own.push((si, f)) + rest) =~= out@ + rest);
                    }
                },
                _ => {
                    assert(before + (own + rest) =~= out@ + rest);
                },
            }
        }
    }
    assert(out@ + seq![] =~= out@);
    out
}

fn fuse<G: Fn(Query) -> Answer>(al: &Algebra<G>, rows: &Vec<ExprId>, rep: &Vec<usize>, nn: usize, i: usize) -> (r: Vec<
    ExprId,
>)
    requires
        nn <= rows@.len(),
        nn <= rep@.len(),
    ensures
        r@ == fused(al.graph(), rows@, rep@, nn as int, i as int, 0),
{
    let ghost g = al.graph();
    let ghost goal = fused(g, rows@, rep@, nn as int, i as int, 0);
    let mut out: Vec<ExprId> = Vec::new();
    assert(out@ + goal =~= goal);
    for j in 0..nn
        invariant
            g == al.graph(),
            nn <= rows@.len(),
            nn <= rep@.len(),
            out@ + fused(g, rows@, rep@, nn as int, i as int, j as int) == goal,
    {
        if rep[j] == i {
            let ghost before = out@;
            let mut own = summands_of(al, rows[j]);
            let ghost o = own@;
            out.append(&mut own);
            proof {
                let rest = fused(g, rows@, rep@, nn as int, i as int, j + 1);
                assert(before + (o + rest) =~= (before + o) + rest);
            }
        }
    }
    assert(out@ + seq![] =~= out@);
    out
}

fn list_staying(rep: &Vec<usize>, nn: usize) -> (r: (Vec<usize>, usize))
    requires
        nn <= rep@.len(),
    ensures
        r.0@ == staying(rep@, nn as int, 0),
        r.1 == staying_nodes(rep@, nn as int, 0),
{
    let n: usize = rep.len();
    let mut out: Vec<usize> = Vec::new();
    let mut nodes: usize = 0;
    let ghost goal = staying(rep@, nn as int, 0);
    let ghost total = staying_nodes(rep@, nn as int, 0);
    assert(out@ + goal =~= goal);
    for i in 0..n
        invariant
            n == rep@.len(),
            nn <= n,
            nodes <= i,
            nodes + staying_nodes(rep@, nn as int, i as int) == total,
            out@ + staying(rep@, nn as int, i as int) == goal,
    {
        if i >= nn || rep[i] == i {
            let ghost before = out@;
            out.push(i);
            proof {
                let rest = staying(rep@, nn as int, i + 1);
                assert(before.push(i) + rest =~= before + (seq![i] + rest));
            }
            if i < nn {
                nodes = nodes + 1;
            }
        }
    }
    assert(out@ + seq![] =~= out@);
    (out, nodes)
}

/// Merge node-voltage unknowns by shorting them together: of the nodes that the
/// pairs connect, the lowest index stays. The eliminated nodes' voltage and
/// derivative symbols are replaced by the survivor's everywhere, the current laws
/// of a class are fused, and the eliminated unknowns are dropped. Returns also
/// the index that each remaining unknown had before.
pub fn merge_nodes<G: Fn(Query) -> Answer>(al: &Algebra<G>, dae: &Dae, pairs: &Vec<(usize, usize)>) -> (r: (
    Dae,
    Vec<usize>,
))
    requires
        dae@.wf(),
    ensures
        (r.0@, r.1@) == merged(al.graph(), dae@, pairs@),
        r.0@.wf(),
{
    let ghost g = al.graph();
    let ghost d = dae@;
    let nn = dae.n_nodes;
    let m: usize = dae.x.len();
    let rep = classes(pairs, nn, m);
    proof {
        assert forall|i: int| 0 <= i < rep@.len() implies (#[trigger] rep@[i]) < rep@.len() by {
            survivor_stands(pairs@, nn as int, pairs@.len() as int, i);
        }
    }
    let map = build_map(al, dae, &rep);
    let rows = substitute_all(al, &dae.residuals, &map);
    let (stay, nodes) = list_staying(&rep, nn);
    proof {
        staying_in_range(rep@, nn as int, 0);
    }
    let ghost core = merged_core(g, d, rep@);
    let mut residuals: Vec<ExprId> = Vec::new();
    let mut unknowns: Vec<String> = Vec::new();
    let mut kinds: Vec<UnknownKind> = Vec::new();
    let mut x: Vec<SymbolId> = Vec::new();
    let mut xdot: Vec<Option<SymbolId>> = Vec::new();
    for k in 0..stay.len()
        invariant
            g == al.graph(),
            d == dae@,
            d.wf(),
            nn == d.n_nodes,
            m == d.x.len(),
            rep@.len() == m,
            core == merged_core(g, d, rep@),
            rows@ == replaced(g, d.residuals, merge_map(g, d, rep@, 0)),
            stay@ == staying(rep@, nn as int, 0),
            forall|k: int| 0 <= k < stay@.len() ==> (#[trigger] stay@[k]) < m,
            residuals@ =~= core.residuals.take(k as int),
            texts(unknowns@) =~= core.unknowns.take(k as int),
            kinds@ =~= core.kinds.take(k as int),
            x@ =~= core.x.take(k as int),
            xdot@ =~= core.xdot.take(k as int),
    {
        let i = stay[k];
        let row = if i < nn {
            let v = fuse(al, &rows, &rep, nn, i);
            al.sum(&v)
        } else {
            rows[i]
        };
        assert(row == core.residuals[k as int]);
        residuals.push(row);
        let ghost names = texts(unknowns@);
        unknowns.push(dae.unknowns[i].clone());
        assert(texts(unknowns@) =~= names.push(d.unknowns[i as int]));
        kinds.push(dae.kinds[i]);
        x.push(dae.x[i]);
        xdot.push(dae.xdot[i]);
    }
    let c = CoreVecs { residuals, unknowns, kinds, x, xdot, n_nodes: nodes };
    proof {
        let n = stay@.len() as int;
        assert(core.residuals.take(n) =~= core.residuals);
        assert(core.unknowns.take(n) =~= core.unknowns);
        assert(core.kinds.take(n) =~= core.kinds);
        assert(core.x.take(n) =~= core.x);
        assert(core.xdot.take(n) =~= core.xdot);
        assert(c@ == core);
    }
    proof {
        merging_shrinks(g, d, pairs@);
    }
    let r = dae.transformed(al, c);
    (r, stay)
}

} // verus!

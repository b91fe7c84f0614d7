//! Operating-point-guided graph reduction: negligible branches are opened, and
//! the two nodes of a near-wire branch are merged.
use crate::dae::eliminate::{core_of, touch, touches};
use crate::dae::jacobian::{column_in_range, column_of, fill, filled, find_column, holds_symbol};
use crate::dae::linearize::{list_rates, rates_from};
use crate::dae::merge::{merge_nodes, merged, merging_shrinks, transformed, transformed_is_well_formed, Core, CoreVecs};
use crate::dae::system::{copy_kinds, copy_slots, copy_symbols, Dae, DaeView};
use crate::numerics::{apply1, apply2, compares, Answers, Ask, Host, Op1, Op2, Rel, Reply, ZERO};
use crate::symbolic::{Algebra, Answer, ExprId, Graph, Query, SymbolId};
use crate::text::{copy_texts, join, join_texts, same, texts};
use vstd::prelude::*;

verus! {

/// Below this a scale counts as this.
pub const TINY: u64 = 0x01a5_6e1f_c2f8_f359;

/// The weight of a branch term at the operating point.
#[derive(Clone, Copy, Debug, PartialEq, Eq, Structural)]
pub struct Weight {
    /// The current that it carries.
    pub i: u64,
    /// Its small-signal conductance.
    pub g: u64,
    /// Its capacitance.
    pub c: u64,
}

/// One summand of one residual row.
#[derive(Clone, Copy, Debug, PartialEq, Eq, Structural)]
pub struct Branch {
    pub row: usize,
    pub term: ExprId,
    pub weight: Weight,
}

/// The point at which a system is weighed, and how finely.
pub struct Point {
    pub g: Graph,
    pub h: Answers,
    pub d: DaeView,
    /// The values of the symbols (a later one replaces an earlier one).
    pub env: Seq<(SymbolId, u64)>,
    /// The angular frequencies that matter.
    pub omegas: Seq<u64>,
    pub rel_tol: u64,
}

// ---------------------------------------------------------------------------
// The operating point.
// ---------------------------------------------------------------------------
/// The evaluation environment: each unknown at its value (zero where none is
/// given), every derivative and the time at zero, and the given parameters.
pub open spec fn op_env(d: DaeView, x_op: Seq<u64>, p: Seq<(SymbolId, u64)>) -> Seq<(SymbolId, u64)> {
    Seq::new(
        d.x.len(),
        |i: int| (d.x[i], value_at(x_op, i)),
    ) + rates_from(d.xdot, 0).map_values(|s: SymbolId| (s, ZERO)) + p + seq![(d.t, ZERO)]
}

pub open spec fn value_at(v: Seq<u64>, i: int) -> u64 {
    if i < v.len() {
        v[i]
    } else {
        ZERO
    }
}

fn dc_op_env(dae: &Dae, x_op: &Vec<u64>, p: &Vec<(SymbolId, u64)>) -> (r: Vec<(SymbolId, u64)>)
    ensures
        r@ == op_env(dae@, x_op@, p@),
{
    let mut env: Vec<(SymbolId, u64)> = Vec::new();
    let ghost first = Seq::new(dae@.x.len(), |i: int| (dae@.x[i], value_at(x_op@, i)));
    for i in 0..dae.x.len()
        invariant
            first == Seq::new(dae@.x.len(), |i: int| (dae@.x[i], value_at(x_op@, i))),
            env@ =~= first.take(i as int),
    {
        let v: u64 = if i < x_op.len() {
            x_op[i]
        } else {
            ZERO
        };
        env.push((dae.x[i], v));
    }
    assert(first.take(first.len() as int) =~= first);
    let rates = list_rates(&dae.xdot);
    let ghost second = rates@.map_values(|s: SymbolId| (s, ZERO));
    for i in 0..rates.len()
        invariant
            second == rates@.map_values(|s: SymbolId| (s, ZERO)),
            env@ =~= first + second.take(i as int),
    {
        env.push((rates[i], ZERO));
    }
    assert(second.take(second.len() as int) =~= second);
    for i in 0..p.len()
        invariant
            env@ =~= first + second + p@.take(i as int),
    {
        env.push(p[i]);
    }
    assert(p@.take(p@.len() as int) =~= p@);
    env.push((dae.t, ZERO));
    assert(env@ =~= op_env(dae@, x_op@, p@));
    env
}

// ---------------------------------------------------------------------------
// Weights.
// ---------------------------------------------------------------------------
/// A symbol by which a term is differentiated: a conductance for a voltage, a
/// capacitance for its derivative.
pub open spec fn slopes(v: Seq<SymbolId>, rates: Seq<SymbolId>, free: Seq<SymbolId>, k: int) -> Seq<(SymbolId, bool)>
    decreases free.len() - k,
{
    if k < 0 || k >= free.len() {
        seq![]
    } else {
        let rest = slopes(v, rates, free, k + 1);
        if v.contains(free[k]) {
            seq![(free[k], true)] + rest
        } else if rates.contains(free[k]) {
            seq![(free[k], false)] + rest
        } else {
            rest
        }
    }
}

/// The running sum of the magnitudes of the first `k` slopes of one sort.
pub open spec fn total(h: Answers, vals: Seq<u64>, parts: Seq<(SymbolId, bool)>, sort: bool, k: int) -> u64
    decreases k,
{
    if k <= 0 {
        ZERO
    } else if parts[k - 1].1 == sort {
        apply2(h, Op2::Add, total(h, vals, parts, sort, k - 1), apply1(h, Op1::Abs, vals[k]))
    } else {
        total(h, vals, parts, sort, k - 1)
    }
}

/// The weight of a term: its current, and the summed magnitudes of its slopes in
/// the voltages and in their derivatives.
pub open spec fn weight(
    g: Graph,
    h: Answers,
    t: ExprId,
    v: Seq<SymbolId>,
    rates: Seq<SymbolId>,
    env: Seq<(SymbolId, u64)>,
) -> Weight {
    let parts = slopes(v, rates, g.free(t), 0);
    let roots = seq![t] + parts.map_values(|p: (SymbolId, bool)| g.derive(t, p.0));
    let vals = g.eval(roots, env);
    Weight {
        i: apply1(h, Op1::Abs, vals[0]),
        g: total(h, vals, parts, true, parts.len() as int),
        c: total(h, vals, parts, false, parts.len() as int),
    }
}

fn term_importance<F: Fn(Ask) -> Reply, G: Fn(Query) -> Answer>(
    host: &Host<F>,
    al: &Algebra<G>,
    t: ExprId,
    v: &Vec<SymbolId>,
    rates: &Vec<SymbolId>,
    env: &Vec<(SymbolId, u64)>,
) -> (r: Weight)
    ensures
        r == weight(al.graph(), host.answers(), t, v@, rates@, env@),
{
    let ghost gr = al.graph();
    let ghost h = host.answers();
    let free = al.free_symbols(t);
    let ghost parts = slopes(v@, rates@, free@, 0);
    let ghost goal = seq![t] + parts.map_values(|p: (SymbolId, bool)| gr.derive(t, p.0));
    let mut roots: Vec<ExprId> = Vec::new();
    let mut sorts: Vec<bool> = Vec::new();
    let ghost mut done: Seq<(SymbolId, bool)> = seq![];
    roots.push(t);
    proof {
        assert(done + parts =~= parts);
        assert(roots@ =~= seq![t] + done.map_values(|p: (SymbolId, bool)| gr.derive(t, p.0)));
        assert(sorts@ =~= done.map_values(|p: (SymbolId, bool)| p.1));
    }
    for k in 0..free.len()
        invariant
            gr == al.graph(),
            parts == slopes(v@, rates@, free@, 0),
            done + slopes(v@, rates@, free@, k as int) == parts,
            roots@ == seq![t] + done.map_values(|p: (SymbolId, bool)| gr.derive(t, p.0)),
            sorts@ == done.map_values(|p: (SymbolId, bool)| p.1),
    {
        let s = free[k];
        let cond = holds_symbol(v, s);
        if cond || holds_symbol(rates, s) {
            roots.push(al.derive(t, s));
            sorts.push(cond);
            proof {
                let next = done.push((s, cond));
                let rest = slopes(v@, rates@, free@, k + 1);
                assert(done + (seq![(s, cond)] + rest) =~= next + rest);
                assert(roots@ =~= seq![t] + next.map_values(|p: (SymbolId, bool)| gr.derive(t, p.0)));
                assert(sorts@ =~= next.map_values(|p: (SymbolId, bool)| p.1));
                done = next;
            }
        }
    }
    proof {
        assert(done + seq![] =~= done);
        assert(roots@ == goal);
    }
    let vals = al.eval(&roots, env);
    assert(vals@.len() == roots@.len());
    let i: u64 = host.apply1(Op1::Abs, vals[0]);
    let mut g: u64 = ZERO;
    let mut c: u64 = ZERO;
    for k in 0..sorts.len()
        invariant
            h == host.answers(),
            vals@.len() == sorts@.len() + 1,
            sorts@ == parts.map_values(|p: (SymbolId, bool)| p.1),
            g == total(h, vals@, parts, true, k as int),
            c == total(h, vals@, parts, false, k as int),
    {
        let v = host.apply1(Op1::Abs, vals[k + 1]);
        assert(sorts@[k as int] == parts[k as int].1);
        if sorts[k] {
            g = host.apply2(Op2::Add, g, v);
        } else {
            c = host.apply2(Op2::Add, c, v);
        }
    }
    Weight { i, g, c }
}

/// The magnitude of an admittance `g + j*om*c`.
pub open spec fn admittance(h: Answers, w: Weight, om: u64) -> u64 {
    let oc = apply2(h, Op2::Mul, om, w.c);
    apply1(
        h,
        Op1::Sqrt,
        apply2(h, Op2::Add, apply2(h, Op2::Mul, w.g, w.g), apply2(h, Op2::Mul, oc, oc)),
    )
}

fn adm<F: Fn(Ask) -> Reply>(host: &Host<F>, w: Weight, om: u64) -> (r: u64)
    ensures
        r == admittance(host.answers(), w, om),
{
    let oc = host.apply2(Op2::Mul, om, w.c);
    let a = host.apply2(Op2::Mul, w.g, w.g);
    let b = host.apply2(Op2::Mul, oc, oc);
    host.apply1(Op1::Sqrt, host.apply2(Op2::Add, a, b))
}

impl Point {
    /// The node voltages.
    pub open spec fn volts(self) -> Seq<SymbolId> {
        self.d.x.take(self.d.n_nodes as int)
    }

    /// The derivatives of the node voltages.
    pub open spec fn rates(self) -> Seq<SymbolId> {
        rates_from(self.d.xdot.take(self.d.n_nodes as int), 0)
    }

    pub open spec fn weigh(self, t: ExprId) -> Weight {
        weight(self.g, self.h, t, self.volts(), self.rates(), self.env)
    }

    pub open spec fn row_branches(self, row: usize, ts: Seq<ExprId>) -> Seq<Branch> {
        ts.map_values(|t: ExprId| Branch { row, term: t, weight: self.weigh(t) })
    }

    /// The branches of the summed rows from `i` to `n`.
    pub open spec fn branches(self, n: int, i: int) -> Seq<Branch>
        decreases n - i,
    {
        if i < 0 || i >= n {
            seq![]
        } else {
            match self.g.terms(self.d.residuals[i]) {
                Some(ts) => self.row_branches(i as usize, ts) + self.branches(n, i + 1),
                None => self.branches(n, i + 1),
            }
        }
    }

    /// The symbols of a term that are no unknown, derivative or time: its element
    /// parameters, by name.
    pub open spec fn element_names(self, free: Seq<SymbolId>, k: int) -> Seq<Seq<char>>
        decreases free.len() - k,
    {
        if k < 0 || k >= free.len() {
            seq![]
        } else {
            let rest = self.element_names(free, k + 1);
            let s = free[k];
            if self.d.x.contains(s) || rates_from(self.d.xdot, 0).contains(s) || s == self.d.t {
                rest
            } else {
                seq![self.g.symbol_name(s)] + rest
            }
        }
    }
}

/// The largest current of a row's branches among the first `k`.
pub open spec fn current_scale(h: Answers, br: Seq<Branch>, row: int, k: int) -> u64
    decreases k,
{
    if k <= 0 {
        ZERO
    } else if br[k - 1].row == row {
        apply2(h, Op2::Max, current_scale(h, br, row, k - 1), br[k - 1].weight.i)
    } else {
        current_scale(h, br, row, k - 1)
    }
}

/// The largest admittance of a row's branches among the first `k`.
pub open spec fn admittance_scale(h: Answers, br: Seq<Branch>, row: int, om: u64, k: int) -> u64
    decreases k,
{
    if k <= 0 {
        ZERO
    } else if br[k - 1].row == row {
        apply2(h, Op2::Max, admittance_scale(h, br, row, om, k - 1), admittance(h, br[k - 1].weight, om))
    } else {
        admittance_scale(h, br, row, om, k - 1)
    }
}

/// The row of the last of the first `k` branches with a given term.
pub open spec fn row_of(br: Seq<Branch>, t: ExprId, k: int) -> Option<usize>
    decreases k,
{
    if k <= 0 {
        None
    } else if br[k - 1].term == t {
        Some(br[k - 1].row)
    } else {
        row_of(br, t, k - 1)
    }
}

/// The other row that a branch couples: the one that holds its negation.
pub open spec fn partner(g: Graph, br: Seq<Branch>, b: Branch) -> Option<usize> {
    match row_of(br, g.neg(b.term), br.len() as int) {
        Some(j) if j != b.row => Some(j),
        _ => None,
    }
}

pub open spec fn share(h: Answers, part: u64, scale: u64) -> u64 {
    apply2(h, Op2::Div, part, apply2(h, Op2::Max, scale, TINY))
}

/// The peak relative importance of a branch, at both of its rows: of its current,
/// and of its admittance over the first `w` frequencies.
pub open spec fn relevance(p: Point, br: Seq<Branch>, b: Branch, w: int) -> u64
    decreases w,
{
    let n = br.len() as int;
    let other = partner(p.g, br, b);
    if w <= 0 {
        let own = share(p.h, b.weight.i, current_scale(p.h, br, b.row as int, n));
        match other {
            Some(j) => apply2(p.h, Op2::Max, own, share(p.h, b.weight.i, current_scale(p.h, br, j as int, n))),
            None => own,
        }
    } else {
        let om = p.omegas[w - 1];
        let a = admittance(p.h, b.weight, om);
        let own = share(p.h, a, admittance_scale(p.h, br, b.row as int, om, n));
        let rel = match other {
            Some(j) => apply2(p.h, Op2::Max, own, share(p.h, a, admittance_scale(p.h, br, j as int, om, n))),
            None => own,
        };
        apply2(p.h, Op2::Max, relevance(p, br, b, w - 1), rel)
    }
}

/// A branch is negligible when it matters less than the tolerance in every
/// regime at every row it couples, and it carries no branch-current unknown.
pub open spec fn negligible(p: Point, br: Seq<Branch>, b: Branch) -> bool {
    &&& compares(p.h, Rel::Lt, relevance(p, br, b, p.omegas.len() as int), p.rel_tol)
    &&& !touches(p.g, b.term, p.d.x.skip(p.d.n_nodes as int))
}

/// What the first `k` branches drop: a negligible branch leaves both rows that it
/// couples.
pub open spec fn dropped(p: Point, br: Seq<Branch>, k: int) -> Seq<(usize, ExprId)>
    decreases k,
{
    if k <= 0 {
        seq![]
    } else {
        let b = br[k - 1];
        let before = dropped(p, br, k - 1);
        if negligible(p, br, b) {
            match partner(p.g, br, b) {
                Some(j) => before.push((b.row, b.term)).push((j, p.g.neg(b.term))),
                None => before.push((b.row, b.term)),
            }
        } else {
            before
        }
    }
}

/// The element that a branch belongs to.
pub open spec fn element_of(p: Point, b: Branch) -> Seq<char> {
    let names = p.element_names(p.g.free(b.term), 0);
    if names.len() == 0 {
        "?"@
    } else {
        join(names, "+"@)
    }
}

/// A list of names with values, the smallest value of each name.
pub open spec fn noted(h: Answers, v: Seq<(Seq<char>, u64)>, name: Seq<char>, val: u64, i: int) -> Seq<(Seq<char>, u64)>
    decreases v.len() - i,
{
    if i < 0 || i >= v.len() {
        v.push((name, val))
    } else if v[i].0 == name {
        v.update(i, (name, apply2(h, Op2::Min, v[i].1, val)))
    } else {
        noted(h, v, name, val, i + 1)
    }
}

/// The opened elements among the first `k` branches, each with the smallest
/// relevance of its branches, in the order they are met.
pub open spec fn opened(p: Point, br: Seq<Branch>, k: int) -> Seq<(Seq<char>, u64)>
    decreases k,
{
    if k <= 0 {
        seq![]
    } else {
        let b = br[k - 1];
        let before = opened(p, br, k - 1);
        if negligible(p, br, b) {
            noted(p.h, before, element_of(p, b), relevance(p, br, b, p.omegas.len() as int), 0)
        } else {
            before
        }
    }
}

/// Where a value belongs in a ranked list: behind all that are not larger.
pub open spec fn place_of(h: Answers, v: Seq<(Seq<char>, u64)>, val: u64, i: int) -> int
    decreases i,
{
    if i <= 0 || i > v.len() {
        0
    } else if compares(h, Rel::Lt, val, v[i - 1].1) {
        place_of(h, v, val, i - 1)
    } else {
        i
    }
}

/// The first `k` entries ranked by value, smallest first; equal ones keep their
/// order.
pub open spec fn ranked(h: Answers, v: Seq<(Seq<char>, u64)>, k: int) -> Seq<(Seq<char>, u64)>
    decreases k,
{
    if k <= 0 {
        seq![]
    } else {
        let before = ranked(h, v, k - 1);
        before.insert(place_of(h, before, v[k - 1].1, before.len() as int), v[k - 1])
    }
}

/// The terms that stay in a row.
pub open spec fn kept_terms(drops: Seq<(usize, ExprId)>, row: usize, ts: Seq<ExprId>, k: int) -> Seq<ExprId>
    decreases ts.len() - k,
{
    if k < 0 || k >= ts.len() {
        seq![]
    } else if drops.contains((row, ts[k])) {
        kept_terms(drops, row, ts, k + 1)
    } else {
        seq![ts[k]] + kept_terms(drops, row, ts, k + 1)
    }
}

/// A row without its dropped branches.
pub open spec fn pruned_row(g: Graph, drops: Seq<(usize, ExprId)>, row: usize, e: ExprId) -> ExprId {
    match g.terms(e) {
        Some(ts) => g.sum(kept_terms(drops, row, ts, 0)),
        None => e,
    }
}

/// The system with its negligible branches opened, and the opened elements with
/// their relevance, least relevant first.
pub open spec fn pruned(p: Point) -> (DaeView, Seq<(Seq<char>, u64)>) {
    let n = p.d.residuals.len() as int;
    let br = p.branches(n, 0);
    let drops = dropped(p, br, br.len() as int);
    let list = opened(p, br, br.len() as int);
    let core = Core {
        residuals: Seq::new(p.d.residuals.len(), |i: int| pruned_row(p.g, drops, i as usize, p.d.residuals[i])),
        ..core_of(p.d)
    };
    (transformed(p.g, p.d, core), ranked(p.h, list, list.len() as int))
}

/// A branch that is opened leaves both of the rows it couples, so that current is
/// conserved.
pub proof fn opening_keeps_the_balance(p: Point, br: Seq<Branch>, k: int)
    requires
        0 <= k < br.len(),
        negligible(p, br, br[k]),
    ensures
        dropped(p, br, br.len() as int).contains((br[k].row, br[k].term)),
        partner(p.g, br, br[k]) is Some ==> dropped(p, br, br.len() as int).contains(
            (partner(p.g, br, br[k])->0, p.g.neg(br[k].term)),
        ),
{
    let here = dropped(p, br, k + 1);
    match partner(p.g, br, br[k]) {
        Some(j) => {
            assert(here[here.len() - 1] == (j, p.g.neg(br[k].term)));
            assert(here[here.len() - 2] == (br[k].row, br[k].term));
        },
        None => {
            assert(here[here.len() - 1] == (br[k].row, br[k].term));
        },
    }
    dropped_grows(p, br, k + 1, br.len() as int);
}

proof fn dropped_grows(p: Point, br: Seq<Branch>, k: int, n: int)
    requires
        0 <= k <= n <= br.len(),
    ensures
        forall|e: (usize, ExprId)|
            dropped(p, br, k).contains(e) ==> #[trigger] dropped(p, br, n).contains(e),
    decreases n - k,
{
    if k < n {
        dropped_grows(p, br, k, n - 1);
        let a = dropped(p, br, n - 1);
        let b = dropped(p, br, n);
        assert forall|e: (usize, ExprId)| dropped(p, br, k).contains(e) implies #[trigger] b.contains(e) by {
            assert(a.contains(e));
            let i = choose|i: int| 0 <= i < a.len() && a[i] == e;
            assert(b[i] == e);
        }
    }
}

/// Opening keeps the unknowns, and a well formed system well formed.
pub proof fn opening_keeps_the_layout(p: Point)
    requires
        p.d.wf(),
        p.d.x.len() <= usize::MAX,
    ensures
        pruned(p).0.wf(),
        pruned(p).0.x == p.d.x,
        pruned(p).0.unknowns == p.d.unknowns,
{
    let n = p.d.residuals.len() as int;
    let br = p.branches(n, 0);
    let drops = dropped(p, br, br.len() as int);
    let core = Core {
        residuals: Seq::new(p.d.residuals.len(), |i: int| pruned_row(p.g, drops, i as usize, p.d.residuals[i])),
        ..core_of(p.d)
    };
    transformed_is_well_formed(p.g, p.d, core);
}

// ---------------------------------------------------------------------------
// Opening.
// ---------------------------------------------------------------------------
/// What the passes over one system share.
struct Probe {
    env: Vec<(SymbolId, u64)>,
    volts: Vec<SymbolId>,
    rates: Vec<SymbolId>,
    all_rates: Vec<SymbolId>,
    omegas: Vec<u64>,
    rel_tol: u64,
}

impl Probe {
    spec fn at(self, p: Point) -> bool {
        &&& self.env@ == p.env
        &&& self.volts@ == p.volts()
        &&& self.rates@ == p.rates()
        &&& self.all_rates@ == rates_from(p.d.xdot, 0)
        &&& self.omegas@ == p.omegas
        &&& self.rel_tol == p.rel_tol
        &&& p.d.wf()
    }

    fn new(dae: &Dae, x_op: &Vec<u64>, params: &Vec<(SymbolId, u64)>, omegas: &Vec<u64>, rel_tol: u64, Ghost(p): Ghost<
        Point,
    >) -> (r: Probe)
        requires
            p.d == dae@,
            p.d.wf(),
            p.env == op_env(dae@, x_op@, params@),
            p.omegas == omegas@,
            p.rel_tol == rel_tol,
        ensures
            r.at(p),
    {
        let env = dc_op_env(dae, x_op, params);
        let mut volts: Vec<SymbolId> = Vec::new();
        let mut slots: Vec<Option<SymbolId>> = Vec::new();
        for i in 0..dae.n_nodes
            invariant
                p.d == dae@,
                p.d.wf(),
                volts@ =~= dae@.x.take(i as int),
                slots@ =~= dae@.xdot.take(i as int),
        {
            volts.push(dae.x[i]);
            slots.push(dae.xdot[i]);
        }
        let mut freqs: Vec<u64> = Vec::new();
        for i in 0..omegas.len()
            invariant
                freqs@ =~= omegas@.take(i as int),
        {
            freqs.push(omegas[i]);
        }
        assert(omegas@.take(omegas@.len() as int) =~= omegas@);
        Probe {
            env,
            volts,
            rates: list_rates(&slots),
            all_rates: list_rates(&dae.xdot),
            omegas: freqs,
            rel_tol,
        }
    }
}

fn list_branches<F: Fn(Ask) -> Reply, G: Fn(Query) -> Answer>(
    host: &Host<F>,
    al: &Algebra<G>,
    dae: &Dae,
    pr: &Probe,
    n: usize,
    Ghost(p): Ghost<Point>,
) -> (r: Vec<Branch>)
    requires
        p.g == al.graph(),
        p.h == host.answers(),
        p.d == dae@,
        pr.at(p),
        n <= dae@.residuals.len(),
    ensures
        r@ == p.branches(n as int, 0),
{
    let ghost goal = p.branches(n as int, 0);
    let mut out: Vec<Branch> = Vec::new();
    assert(out@ + goal =~= goal);
    for i in 0..n
        invariant
            p.g == al.graph(),
            p.h == host.answers(),
            p.d == dae@,
            pr.at(p),
            n <= dae@.residuals.len(),
            out@ + p.branches(n as int, i as int) == goal,
    {
        let ghost rest = p.branches(n as int, i + 1);
        if let Some(ts) = al.terms(dae.residuals[i]) {
            let ghost before = out@;
            let ghost own = p.row_branches(i, ts@);
            for k in 0..ts.len()
                invariant
                    p.g == al.graph(),
                    p.h == host.answers(),
                    p.d == dae@,
                    pr.at(p),
                    own == p.row_branches(i, ts@),
                    out@ =~= before + own.take(k as int),
            {
                let w = term_importance(host, al, ts[k], &pr.volts, &pr.rates, &pr.env);
                out.push(Branch { row: i, term: ts[k], weight: w });
            }
            proof {
                assert(own.take(own.len() as int) =~= own);
                assert(before + (own + rest) =~= (before + own) + rest);
            }
        }
    }
    assert(out@ + seq![] =~= out@);
    out
}

fn scale_i<F: Fn(Ask) -> Reply>(host: &Host<F>, br: &Vec<Branch>, row: usize) -> (r: u64)
    ensures
        r == current_scale(host.answers(), br@, row as int, br@.len() as int),
{
    let mut s: u64 = ZERO;
    for k in 0..br.len()
        invariant
            s == current_scale(host.answers(), br@, row as int, k as int),
    {
        if br[k].row == row {
            s = host.apply2(Op2::Max, s, br[k].weight.i);
        }
    }
    s
}

fn scale_y<F: Fn(Ask) -> Reply>(host: &Host<F>, br: &Vec<Branch>, row: usize, om: u64) -> (r: u64)
    ensures
        r == admittance_scale(host.answers(), br@, row as int, om, br@.len() as int),
{
    let mut s: u64 = ZERO;
    for k in 0..br.len()
        invariant
            s == admittance_scale(host.answers(), br@, row as int, om, k as int),
    {
        if br[k].row == row {
            let a = adm(host, br[k].weight, om);
            s = host.apply2(Op2::Max, s, a);
        }
    }
    s
}

fn find_partner<G: Fn(Query) -> Answer>(al: &Algebra<G>, br: &Vec<Branch>, b: Branch) -> (r: Option<usize>)
    ensures
        r == partner(al.graph(), br@, b),
{
    let t = al.neg(b.term);
    let ghost goal = row_of(br@, t, br@.len() as int);
    let mut k: usize = br.len();
    while k > 0
        invariant
            k <= br@.len(),
            goal == row_of(br@, t, br@.len() as int),
            row_of(br@, t, k as int) == goal,
            t == al.graph().neg(b.term),
        decreases k,
    {
        k = k - 1;
        if br[k].term == t {
            let j = br[k].row;
            return if j != b.row {
                Some(j)
            } else {
                None
            };
        }
    }
    None
}

fn part_of<F: Fn(Ask) -> Reply>(host: &Host<F>, part: u64, scale: u64) -> (r: u64)
    ensures
        r == share(host.answers(), part, scale),
{
    host.apply2(Op2::Div, part, host.apply2(Op2::Max, scale, TINY))
}

/// The scales of every row: of the currents, and of the admittances at each
/// frequency.
struct Scales {
    currents: Vec<u64>,
    admittances: Vec<Vec<u64>>,
}

impl Scales {
    spec fn of(self, p: Point, br: Seq<Branch>) -> bool {
        &&& self.currents@.len() == p.d.residuals.len()
        &&& self.admittances@.len() == p.d.residuals.len()
        &&& forall|i: int|
            0 <= i < self.currents@.len() ==> #[trigger] self.currents@[i] == current_scale(
                p.h,
                br,
                i,
                br.len() as int,
            )
        &&& forall|i: int|
            0 <= i < self.admittances@.len() ==> (#[trigger] self.admittances@[i])@ == p.omegas.map_values(
                |om: u64| admittance_scale(p.h, br, i, om, br.len() as int),
            )
    }

    fn new<F: Fn(Ask) -> Reply>(host: &Host<F>, br: &Vec<Branch>, n: usize, omegas: &Vec<u64>, Ghost(p): Ghost<Point>) -> (r:
        Scales)
        requires
            p.h == host.answers(),
            n == p.d.residuals.len(),
            omegas@ == p.omegas,
        ensures
            r.of(p, br@),
    {
        let mut currents: Vec<u64> = Vec::new();
        let mut admittances: Vec<Vec<u64>> = Vec::new();
        for i in 0..n
            invariant
                p.h == host.answers(),
                omegas@ == p.omegas,
                currents@.len() == i,
                admittances@.len() == i,
                forall|j: int|
                    0 <= j < i ==> #[trigger] currents@[j] == current_scale(p.h, br@, j, br@.len() as int),
                forall|j: int|
                    0 <= j < i ==> (#[trigger] admittances@[j])@ == p.omegas.map_values(
                        |om: u64| admittance_scale(p.h, br@, j, om, br@.len() as int),
                    ),
        {
            currents.push(scale_i(host, br, i));
            let mut row: Vec<u64> = Vec::new();
            let ghost all = p.omegas.map_values(
                |om: u64| admittance_scale(p.h, br@, i as int, om, br@.len() as int),
            );
            for w in 0..omegas.len()
                invariant
                    p.h == host.answers(),
                    omegas@ == p.omegas,
                    all == p.omegas.map_values(
                        |om: u64| admittance_scale(p.h, br@, i as int, om, br@.len() as int),
                    ),
                    row@ =~= all.take(w as int),
            {
                row.push(scale_y(host, br, i, omegas[w]));
            }
            assert(all.take(all.len() as int) =~= all);
            admittances.push(row);
        }
        Scales { currents, admittances }
    }
}

proof fn branch_rows(p: Point, n: int, i: int)
    requires
        0 <= i,
        n <= usize::MAX,
    ensures
        forall|k: int| 0 <= k < p.branches(n, i).len() ==> (#[trigger] p.branches(n, i)[k]).row < n,
    decreases n - i,
{
    if i < n {
        branch_rows(p, n, i + 1);
        let rest = p.branches(n, i + 1);
        if let Some(ts) = p.g.terms(p.d.residuals[i]) {
            let own = p.row_branches(i as usize, ts);
            assert(p.branches(n, i) == own + rest);
            assert forall|k: int| 0 <= k < (own + rest).len() implies (#[trigger] (own + rest)[k]).row < n by {
                if k < own.len() {
                    assert((own + rest)[k] == own[k]);
                } else {
                    assert((own + rest)[k] == rest[k - own.len()]);
                }
            }
        }
    }
}

proof fn partner_in_range(g: Graph, br: Seq<Branch>, b: Branch, n: int, k: int)
    requires
        0 <= k <= br.len(),
        forall|k: int| 0 <= k < br.len() ==> (#[trigger] br[k]).row < n,
    ensures
        row_of(br, g.neg(b.term), k) matches Some(j) ==> j < n,
    decreases k,
{
    if k > 0 {
        partner_in_range(g, br, b, n, k - 1);
    }
}

fn measure<F: Fn(Ask) -> Reply>(
    host: &Host<F>,
    pr: &Probe,
    sc: &Scales,
    b: Branch,
    other: Option<usize>,
    Ghost(p): Ghost<Point>,
    Ghost(br): Ghost<Seq<Branch>>,
) -> (r: u64)
    requires
        p.h == host.answers(),
        pr.at(p),
        sc.of(p, br),
        b.row < p.d.residuals.len(),
        other == partner(p.g, br, b),
        other matches Some(j) ==> j < p.d.residuals.len(),
    ensures
        r == relevance(p, br, b, p.omegas.len() as int),
{
    let mut rel: u64 = part_of(host, b.weight.i, sc.currents[b.row]);
    if let Some(j) = other {
        let far = part_of(host, b.weight.i, sc.currents[j]);
        rel = host.apply2(Op2::Max, rel, far);
    }
    for w in 0..pr.omegas.len()
        invariant
            p.h == host.answers(),
            pr.at(p),
            sc.of(p, br),
            b.row < p.d.residuals.len(),
            other == partner(p.g, br, b),
            other matches Some(j) ==> j < p.d.residuals.len(),
            rel == relevance(p, br, b, w as int),
    {
        let om = pr.omegas[w];
        let a = adm(host, b.weight, om);
        let own_row = &sc.admittances[b.row];
        assert(own_row@.len() == p.omegas.len());
        let mut here: u64 = part_of(host, a, own_row[w]);
        if let Some(j) = other {
            let far_row = &sc.admittances[j];
            assert(far_row@.len() == p.omegas.len());
            let far = part_of(host, a, far_row[w]);
            here = host.apply2(Op2::Max, here, far);
        }
        rel = host.apply2(Op2::Max, rel, here);
    }
    rel
}

fn names_of<G: Fn(Query) -> Answer>(al: &Algebra<G>, dae: &Dae, pr: &Probe, t: ExprId, Ghost(p): Ghost<Point>) -> (r: Vec<
    String,
>)
    requires
        p.g == al.graph(),
        p.d == dae@,
        pr.at(p),
    ensures
        texts(r@) == p.element_names(p.g.free(t), 0),
{
    let free = al.free_symbols(t);
    let ghost goal = p.element_names(free@, 0);
    let mut out: Vec<String> = Vec::new();
    assert(texts(out@) + goal =~= goal);
    for k in 0..free.len()
        invariant
            p.g == al.graph(),
            p.d == dae@,
            pr.at(p),
            texts(out@) + p.element_names(free@, k as int) == goal,
    {
        let s = free[k];
        if !(holds_symbol(&dae.x, s) || holds_symbol(&pr.all_rates, s) || s == dae.t) {
            let ghost before = texts(out@);
            let name = al.symbol_name(s);
            let ghost nm = name@;
            out.push(name);
            proof {
                assert(texts(out@) =~= before.push(nm));
                let rest = p.element_names(free@, k + 1);
                assert(before.push(nm) + rest =~= before + (seq![nm] + rest));
            }
        }
    }
    assert(texts(out@) + seq![] =~= texts(out@));
    out
}

/// Names with values as mathematical pairs.
pub open spec fn pairs_of(v: Seq<(String, u64)>) -> Seq<(Seq<char>, u64)> {
    v.map_values(|p: (String, u64)| (p.0@, p.1))
}

fn note<F: Fn(Ask) -> Reply>(host: &Host<F>, v: &mut Vec<(String, u64)>, name: String, val: u64)
    ensures
        pairs_of(final(v)@) == noted(host.answers(), pairs_of(old(v)@), name@, val, 0),
{
    let ghost h = host.answers();
    let ghost start = pairs_of(v@);
    let ghost goal = noted(h, start, name@, val, 0);
    let n: usize = v.len();
    for i in 0..n
        invariant
            h == host.answers(),
            n == v@.len(),
            start == pairs_of(v@),
            goal == noted(h, pairs_of(old(v)@), name@, val, 0),
            noted(h, start, name@, val, i as int) == goal,
    {
        assert(start[i as int] == (v@[i as int].0@, v@[i as int].1));
        if same(&v[i].0, &name) {
            let low = host.apply2(Op2::Min, v[i].1, val);
            v.set(i, (name, low));
            assert(pairs_of(v@) =~= goal);
            return;
        }
    }
    v.push((name, val));
    assert(pairs_of(v@) =~= goal);
}

fn rank<F: Fn(Ask) -> Reply>(host: &Host<F>, v: Vec<(String, u64)>) -> (r: Vec<(String, u64)>)
    ensures
        pairs_of(r@) == ranked(host.answers(), pairs_of(v@), v@.len() as int),
{
    let ghost h = host.answers();
    let ghost src = pairs_of(v@);
    let mut out: Vec<(String, u64)> = Vec::new();
    assert(pairs_of(out@) =~= ranked(h, src, 0));
    for k in 0..v.len()
        invariant
            h == host.answers(),
            src == pairs_of(v@),
            pairs_of(out@) == ranked(h, src, k as int),
    {
        let val = v[k].1;
        let ghost before = pairs_of(out@);
        let n: usize = out.len();
        let mut i: usize = n;
        while i > 0 && host.compares(Rel::Lt, val, out[i - 1].1)
            invariant
                h == host.answers(),
                n == out@.len(),
                before == pairs_of(out@),
                i <= n,
                place_of(h, before, val, i as int) == place_of(h, before, val, n as int),
            ensures
                i <= n,
                i == place_of(h, before, val, n as int),
            decreases i,
        {
            assert(before[i - 1] == (out@[i - 1].0@, out@[i - 1].1));
            i = i - 1;
        }
        out.insert(i, (v[k].0.clone(), val));
        proof {
            assert(src[k as int] == (v@[k as int].0@, val));
            assert(pairs_of(out@) =~= before.insert(i as int, src[k as int]));
        }
    }
    out
}

fn keep_terms(drops: &Vec<(usize, ExprId)>, row: usize, ts: &Vec<ExprId>) -> (r: Vec<ExprId>)
    ensures
        r@ == kept_terms(drops@, row, ts@, 0),
{
    let ghost goal = kept_terms(drops@, row, ts@, 0);
    let mut out: Vec<ExprId> = Vec::new();
    assert(out@ + goal =~= goal);
    for k in 0..ts.len()
        invariant
            out@ + kept_terms(drops@, row, ts@, k as int) == goal,
    {
        let t = ts[k];
        let mut gone = false;
        for j in 0..drops.len()
            invariant
                gone == exists|l: int| 0 <= l < j && drops@[l] == (row, t),
        {
            if drops[j].0 == row && drops[j].1 == t {
                assert(drops@[j as int] == (row, t));
                gone = true;
            }
        }
        assert(gone == drops@.contains((row, t)));
        if !gone {
            let ghost before = out@;
            out.push(t);
            proof {
                let rest = kept_terms(drops@, row, ts@, k + 1);
                assert(before.push(t) + rest =~= before + (seq![t] + rest));
            }
        }
    }
    assert(out@ + seq![] =~= out@);
    out
}

fn open_branches<F: Fn(Ask) -> Reply, G: Fn(Query) -> Answer>(
    host: &Host<F>,
    al: &Algebra<G>,
    dae: &Dae,
    pr: &Probe,
    br: &Vec<Branch>,
    Ghost(p): Ghost<Point>,
) -> (r: (Vec<(usize, ExprId)>, Vec<(String, u64)>))
    requires
        p.g == al.graph(),
        p.h == host.answers(),
        p.d == dae@,
        pr.at(p),
        br@ == p.branches(p.d.residuals.len() as int, 0),
    ensures
        r.0@ == dropped(p, br@, br@.len() as int),
        pairs_of(r.1@) == opened(p, br@, br@.len() as int),
{
    let n: usize = dae.residuals.len();
    let m: usize = dae.x.len();
    let nn = dae.n_nodes;
    let sc = Scales::new(host, br, n, &pr.omegas, Ghost(p));
    proof {
        branch_rows(p, n as int, 0);
    }
    let mut drops: Vec<(usize, ExprId)> = Vec::new();
    let mut list: Vec<(String, u64)> = Vec::new();
    assert(drops@ =~= dropped(p, br@, 0));
    assert(pairs_of(list@) =~= opened(p, br@, 0));
    for k in 0..br.len()
        invariant
            p.g == al.graph(),
            p.h == host.answers(),
            p.d == dae@,
            pr.at(p),
            n == p.d.residuals.len(),
            m == p.d.x.len(),
            nn == p.d.n_nodes,
            sc.of(p, br@),
            forall|k: int| 0 <= k < br@.len() ==> (#[trigger] br@[k]).row < n,
            drops@ == dropped(p, br@, k as int),
            pairs_of(list@) == opened(p, br@, k as int),
    {
        let b = br[k];
        let other = find_partner(al, br, b);
        proof {
            partner_in_range(p.g, br@, b, n as int, br@.len() as int);
        }
        let rel = measure(host, pr, &sc, b, other, Ghost(p), Ghost(br@));
        proof {
            assert(dae.x@.subrange(nn as int, m as int) =~= p.d.x.skip(nn as int));
        }
        let structural = touch(al, b.term, &dae.x, nn, m);
        if host.compares(Rel::Lt, rel, pr.rel_tol) && !structural {
            drops.push((b.row, b.term));
            if let Some(j) = other {
                drops.push((j, al.neg(b.term)));
            }
            let elem = names_of(al, dae, pr, b.term, Ghost(p));
            let name = if elem.len() == 0 {
                "?".to_string()
            } else {
                join_texts(&elem, "+")
            };
            note(host, &mut list, name, rel);
        }
    }
    (drops, list)
}

/// Open the negligible branches: each summed residual row is taken apart at the
/// operating point, and a branch that is negligible, relative to the dominant
/// one, in every regime at every row it touches is dropped from both rows that it
/// couples. Returns the reduced system over the same unknowns, and the opened
/// elements with their relative importance, least relevant first.
pub fn prune_graph<F: Fn(Ask) -> Reply, G: Fn(Query) -> Answer>(
    host: &Host<F>,
    al: &Algebra<G>,
    dae: &Dae,
    x_op: &Vec<u64>,
    p: &Vec<(SymbolId, u64)>,
    omegas: &Vec<u64>,
    rel_tol: u64,
) -> (r: (Dae, Vec<(String, u64)>))
    requires
        dae@.wf(),
    ensures
        (r.0@, pairs_of(r.1@)) == pruned(
            (Point {
                g: al.graph(),
                h: host.answers(),
                d: dae@,
                env: op_env(dae@, x_op@, p@),
                omegas: omegas@,
                rel_tol,
            }),
        ),
        r.0@.wf(),
{
    let ghost pt = Point {
        g: al.graph(),
        h: host.answers(),
        d: dae@,
        env: op_env(dae@, x_op@, p@),
        omegas: omegas@,
        rel_tol,
    };
    let pr = Probe::new(dae, x_op, p, omegas, rel_tol, Ghost(pt));
    let n: usize = dae.residuals.len();
    let br = list_branches(host, al, dae, &pr, n, Ghost(pt));
    let (drops, list) = open_branches(host, al, dae, &pr, &br, Ghost(pt));
    let list = rank(host, list);
    let ghost rows = Seq::new(
        pt.d.residuals.len(),
        |i: int| pruned_row(pt.g, drops@, i as usize, pt.d.residuals[i]),
    );
    let mut residuals: Vec<ExprId> = Vec::new();
    for i in 0..n
        invariant
            pt.g == al.graph(),
            pt.d == dae@,
            n == pt.d.residuals.len(),
            rows == Seq::new(
                pt.d.residuals.len(),
                |i: int| pruned_row(pt.g, drops@, i as usize, pt.d.residuals[i]),
            ),
            residuals@ =~= rows.take(i as int),
    {
        let row = match al.terms(dae.residuals[i]) {
            Some(ts) => {
                let kept = keep_terms(&drops, i, &ts);
                al.sum(&kept)
            },
            None => dae.residuals[i],
        };
        assert(row == rows[i as int]);
        residuals.push(row);
    }
    assert(rows.take(rows.len() as int) =~= rows);
    let c = CoreVecs {
        residuals,
        unknowns: copy_texts(&dae.unknowns),
        kinds: copy_kinds(&dae.kinds),
        x: copy_symbols(&dae.x),
        xdot: copy_slots(&dae.xdot),
        n_nodes: dae.n_nodes,
    };
    proof {
        opening_keeps_the_layout(pt);
    }
    let d = dae.transformed(al, c);
    (d, list)
}

// ---------------------------------------------------------------------------
// Shorting.
// ---------------------------------------------------------------------------
/// A linear branch between two nodes, the lower index first.
pub struct Link {
    pub a: usize,
    pub b: usize,
    pub weight: Weight,
    pub name: Seq<char>,
}

/// The executable form of [`Link`].
struct LinkText {
    a: usize,
    b: usize,
    weight: Weight,
    name: String,
}

impl View for LinkText {
    type V = Link;

    closed spec fn view(&self) -> Link {
        Link { a: self.a, b: self.b, weight: self.weight, name: self.name@ }
    }
}

spec fn links_of(v: Seq<LinkText>) -> Seq<Link> {
    v.map_values(|l: LinkText| l@)
}

impl Point {
    /// The nodes among the symbols from `k` on.
    pub open spec fn nodes_in(self, free: Seq<SymbolId>, k: int) -> Seq<usize>
        decreases free.len() - k,
    {
        if k < 0 || k >= free.len() {
            seq![]
        } else {
            match column_of(filled(self.volts()), free[k]) {
                Some(i) => seq![i] + self.nodes_in(free, k + 1),
                None => self.nodes_in(free, k + 1),
            }
        }
    }

    /// The link that a branch is, where it is a linear admittance between two
    /// nodes: its slope depends on no node voltage.
    pub open spec fn link(self, b: Branch) -> Option<Link> {
        let nodes = self.nodes_in(self.g.free(b.term), 0);
        if nodes.len() == 2 && !touches(self.g, self.g.derive(b.term, self.d.x[nodes[0] as int]), self.volts()) {
            Some(
                Link {
                    a: if nodes[0] <= nodes[1] {
                        nodes[0]
                    } else {
                        nodes[1]
                    },
                    b: if nodes[0] <= nodes[1] {
                        nodes[1]
                    } else {
                        nodes[0]
                    },
                    weight: b.weight,
                    name: join(self.element_names(self.g.free(b.term), 0), "+"@),
                },
            )
        } else {
            None
        }
    }

    /// The links among the first `k` branches, one for each pair of nodes and
    /// name.
    pub open spec fn links(self, br: Seq<Branch>, k: int) -> Seq<Link>
        decreases k,
    {
        if k <= 0 {
            seq![]
        } else {
            let before = self.links(br, k - 1);
            match self.link(br[k - 1]) {
                Some(l) if !seen(before, l) => before.push(l),
                _ => before,
            }
        }
    }

    /// A link makes its nodes one: at every frequency among the first `w` its
    /// admittance outweighs all that remains at either node.
    pub open spec fn swamps(self, br: Seq<Branch>, l: Link, w: int) -> bool
        decreases w,
    {
        if w <= 0 {
            true
        } else {
            let om = self.omegas[w - 1];
            let s = apply2(self.h, Op2::Mul, admittance(self.h, l.weight, om), self.rel_tol);
            &&& self.swamps(br, l, w - 1)
            &&& compares(self.h, Rel::Gt, s, load(self.h, br, l.a as int, l.weight, om, 0, false, ZERO))
            &&& compares(self.h, Rel::Gt, s, load(self.h, br, l.b as int, l.weight, om, 0, false, ZERO))
        }
    }

    /// The node pairs to merge among the links from `i` on.
    pub open spec fn short_pairs(self, br: Seq<Branch>, links: Seq<Link>, i: int) -> Seq<(usize, usize)>
        decreases links.len() - i,
    {
        if i < 0 || i >= links.len() {
            seq![]
        } else {
            let rest = self.short_pairs(br, links, i + 1);
            if self.swamps(br, links[i], self.omegas.len() as int) {
                seq![(links[i].a, links[i].b)] + rest
            } else {
                rest
            }
        }
    }

    /// The names of the links to merge from `i` on.
    pub open spec fn short_names(self, br: Seq<Branch>, links: Seq<Link>, i: int) -> Seq<Seq<char>>
        decreases links.len() - i,
    {
        if i < 0 || i >= links.len() {
            seq![]
        } else {
            let rest = self.short_names(br, links, i + 1);
            if self.swamps(br, links[i], self.omegas.len() as int) {
                seq![links[i].name] + rest
            } else {
                rest
            }
        }
    }

    /// The node pairs that are electrically one, and the elements between them.
    pub open spec fn shorts(self) -> (Seq<(usize, usize)>, Seq<Seq<char>>) {
        let br = self.branches(self.d.n_nodes as int, 0);
        let links = self.links(br, br.len() as int);
        (self.short_pairs(br, links, 0), self.short_names(br, links, 0))
    }
}

/// A link between the same nodes and of the same name is there already.
pub open spec fn seen(v: Seq<Link>, l: Link) -> bool {
    exists|k: int| 0 <= k < v.len() && (#[trigger] v[k]).a == l.a && v[k].b == l.b && v[k].name == l.name
}

/// The conductance and the capacitance agree as numbers.
pub open spec fn alike(h: Answers, a: Weight, b: Weight) -> bool {
    compares(h, Rel::Eq, a.g, b.g) && compares(h, Rel::Eq, a.c, b.c)
}

/// The summed admittance of a node's branches from `k` on, onto `sum`, one
/// instance of a given weight left out.
pub open spec fn load(
    h: Answers,
    br: Seq<Branch>,
    node: int,
    own: Weight,
    om: u64,
    k: int,
    removed: bool,
    sum: u64,
) -> u64
    decreases br.len() - k,
{
    if k < 0 || k >= br.len() {
        sum
    } else if br[k].row != node {
        load(h, br, node, own, om, k + 1, removed, sum)
    } else if !removed && alike(h, br[k].weight, own) {
        load(h, br, node, own, om, k + 1, true, sum)
    } else {
        load(h, br, node, own, om, k + 1, removed, apply2(h, Op2::Add, sum, admittance(h, br[k].weight, om)))
    }
}

fn node_other_sum<F: Fn(Ask) -> Reply>(host: &Host<F>, br: &Vec<Branch>, node: usize, own: Weight, om: u64) -> (r: u64)
    ensures
        r == load(host.answers(), br@, node as int, own, om, 0, false, ZERO),
{
    let ghost h = host.answers();
    let ghost goal = load(h, br@, node as int, own, om, 0, false, ZERO);
    let mut removed = false;
    let mut sum: u64 = ZERO;
    for k in 0..br.len()
        invariant
            h == host.answers(),
            load(h, br@, node as int, own, om, k as int, removed, sum) == goal,
    {
        let b = br[k];
        if b.row == node {
            if !removed && host.compares(Rel::Eq, b.weight.g, own.g) && host.compares(Rel::Eq, b.weight.c, own.c) {
                removed = true;
            } else {
                sum = host.apply2(Op2::Add, sum, adm(host, b.weight, om));
            }
        }
    }
    sum
}

fn list_nodes<G: Fn(Query) -> Answer>(al: &Algebra<G>, slots: &Vec<Option<SymbolId>>, t: ExprId, Ghost(p): Ghost<Point>) -> (r:
    Vec<usize>)
    requires
        p.g == al.graph(),
        slots@ == filled(p.volts()),
    ensures
        r@ == p.nodes_in(p.g.free(t), 0),
{
    let free = al.free_symbols(t);
    let ghost goal = p.nodes_in(free@, 0);
    let mut out: Vec<usize> = Vec::new();
    assert(out@ + goal =~= goal);
    for k in 0..free.len()
        invariant
            slots@ == filled(p.volts()),
            out@ + p.nodes_in(free@, k as int) == goal,
    {
        if let Some(i) = find_column(slots, free[k]) {
            let ghost before = out@;
            out.push(i);
            proof {
                let rest = p.nodes_in(free@, k + 1);
                assert(before.push(i) + rest =~= before + (seq![i] + rest));
            }
        }
    }
    assert(out@ + seq![] =~= out@);
    out
}

proof fn node_in_range(p: Point, free: Seq<SymbolId>, k: int)
    requires
        p.d.wf(),
        p.d.x.len() <= usize::MAX,
        0 <= k,
    ensures
        forall|i: int| 0 <= i < p.nodes_in(free, k).len() ==> (#[trigger] p.nodes_in(free, k)[i]) < p.d.n_nodes,
    decreases free.len() - k,
{
    if k < free.len() {
        node_in_range(p, free, k + 1);
        let rest = p.nodes_in(free, k + 1);
        column_in_range(filled(p.volts()), free[k], p.volts().len() as int);
        match column_of(filled(p.volts()), free[k]) {
            Some(c) => {
                let all = p.nodes_in(free, k);
                assert(all =~= seq![c] + rest);
                assert forall|i: int| 0 <= i < all.len() implies (#[trigger] all[i]) < p.d.n_nodes by {
                    if i > 0 {
                        assert(all[i] == rest[i - 1]);
                    }
                }
            },
            None => {
                assert(p.nodes_in(free, k) == rest);
            },
        }
    } else {
        assert(p.nodes_in(free, k).len() == 0);
    }
}

fn find_link<G: Fn(Query) -> Answer>(
    al: &Algebra<G>,
    dae: &Dae,
    pr: &Probe,
    slots: &Vec<Option<SymbolId>>,
    b: Branch,
    Ghost(p): Ghost<Point>,
) -> (r: Option<LinkText>)
    requires
        p.g == al.graph(),
        p.d == dae@,
        pr.at(p),
        slots@ == filled(p.volts()),
    ensures
        match (r, p.link(b)) {
            (Some(l), Some(m)) => l@ == m,
            (None, None) => true,
            _ => false,
        },
{
    let nodes = list_nodes(al, slots, b.term, Ghost(p));
    let m: usize = dae.x.len();
    if nodes.len() != 2 {
        return None;
    }
    proof {
        node_in_range(p, p.g.free(b.term), 0);
        assert(pr.volts@.subrange(0, pr.volts@.len() as int) =~= p.volts());
    }
    assert(nodes@[0] < m);
    let d = al.derive(b.term, dae.x[nodes[0]]);
    if touch(al, d, &pr.volts, 0, pr.volts.len()) {
        return None;
    }
    let names = names_of(al, dae, pr, b.term, Ghost(p));
    let name = join_texts(&names, "+");
    let (lo, hi): (usize, usize) = if nodes[0] <= nodes[1] {
        (nodes[0], nodes[1])
    } else {
        (nodes[1], nodes[0])
    };
    Some(LinkText { a: lo, b: hi, weight: b.weight, name })
}

fn list_links<G: Fn(Query) -> Answer>(al: &Algebra<G>, dae: &Dae, pr: &Probe, br: &Vec<Branch>, Ghost(p): Ghost<Point>) -> (r:
    Vec<LinkText>)
    requires
        p.g == al.graph(),
        p.d == dae@,
        pr.at(p),
    ensures
        links_of(r@) == p.links(br@, br@.len() as int),
{
    let slots = fill(&pr.volts);
    let mut out: Vec<LinkText> = Vec::new();
    assert(links_of(out@) =~= p.links(br@, 0));
    for k in 0..br.len()
        invariant
            p.g == al.graph(),
            p.d == dae@,
            pr.at(p),
            slots@ == filled(p.volts()),
            links_of(out@) == p.links(br@, k as int),
    {
        if let Some(l) = find_link(al, dae, pr, &slots, br[k], Ghost(p)) {
            let ghost before = links_of(out@);
            let mut there = false;
            for j in 0..out.len()
                invariant
                    before == links_of(out@),
                    there == exists|i: int|
                        0 <= i < j && (#[trigger] before[i]).a == l.a && before[i].b == l.b && before[i].name
                            == l.name@,
            {
                assert(before[j as int] == out@[j as int]@);
                if out[j].a == l.a && out[j].b == l.b && same(&out[j].name, &l.name) {
                    there = true;
                }
            }
            assert(there == seen(before, l@));
            if !there {
                let ghost lv = l@;
                out.push(l);
                assert(links_of(out@) =~= before.push(lv));
            }
        }
    }
    out
}

/// The node pairs to merge, and the names of the elements between them. A linear
/// branch makes its nodes one when its admittance swamps the total remaining
/// admittance of both, at every frequency, so that the voltage across it stays
/// negligible.
fn detect_shorts<F: Fn(Ask) -> Reply, G: Fn(Query) -> Answer>(
    host: &Host<F>,
    al: &Algebra<G>,
    dae: &Dae,
    pr: &Probe,
    Ghost(p): Ghost<Point>,
) -> (r: (Vec<(usize, usize)>, Vec<String>))
    requires
        p.g == al.graph(),
        p.h == host.answers(),
        p.d == dae@,
        pr.at(p),
    ensures
        (r.0@, texts(r.1@)) == p.shorts(),
{
    let br = list_branches(host, al, dae, pr, dae.n_nodes, Ghost(p));
    let found = list_links(al, dae, pr, &br, Ghost(p));
    let ghost links = links_of(found@);
    let ghost goal = p.shorts();
    let mut pairs: Vec<(usize, usize)> = Vec::new();
    let mut names: Vec<String> = Vec::new();
    proof {
        assert(pairs@ + goal.0 =~= goal.0);
        assert(texts(names@) + goal.1 =~= goal.1);
    }
    for i in 0..found.len()
        invariant
            p.h == host.answers(),
            pr.at(p),
            links == links_of(found@),
            pairs@ + p.short_pairs(br@, links, i as int) == goal.0,
            texts(names@) + p.short_names(br@, links, i as int) == goal.1,
    {
        let l = &found[i];
        assert(links[i as int] == l@);
        let mut all = true;
        for w in 0..pr.omegas.len()
            invariant
                p.h == host.answers(),
                pr.at(p),
                all == p.swamps(br@, l@, w as int),
        {
            let om = pr.omegas[w];
            let s = host.apply2(Op2::Mul, adm(host, l.weight, om), pr.rel_tol);
            let la = node_other_sum(host, &br, l.a, l.weight, om);
            let lb = node_other_sum(host, &br, l.b, l.weight, om);
            let over = host.compares(Rel::Gt, s, la) && host.compares(Rel::Gt, s, lb);
            all = all && over;
        }
        if all {
            let ghost pb = pairs@;
            let ghost nb = texts(names@);
            pairs.push((l.a, l.b));
            names.push(l.name.clone());
            proof {
                let rp = p.short_pairs(br@, links, i + 1);
                let rn = p.short_names(br@, links, i + 1);
                assert(pb.push((l.a, l.b)) + rp =~= pb + (seq![(l.a, l.b)] + rp));
                assert(texts(names@) =~= nb.push(l.name@));
                assert(nb.push(l.name@) + rn =~= nb + (seq![l.name@] + rn));
            }
        }
    }
    proof {
        assert(pairs@ + seq![] =~= pairs@);
        assert(texts(names@) + seq![] =~= texts(names@));
    }
    (pairs, names)
}

// ---------------------------------------------------------------------------
// Both.
// ---------------------------------------------------------------------------
/// The merged system at the same operating point.
pub open spec fn after_merge(p: Point, x_op: Seq<u64>, params: Seq<(SymbolId, u64)>) -> Point {
    let (d, stay) = merged(p.g, p.d, p.shorts().0);
    Point { d, env: op_env(d, stay.map_values(|i: usize| value_at(x_op, i as int)), params), ..p }
}

/// The operations of a list of elements, by name.
pub open spec fn labelled(names: Seq<Seq<char>>, what: Seq<char>) -> Seq<(Seq<char>, Seq<char>)> {
    names.map_values(|n: Seq<char>| (n, what))
}

/// The reduced system and what was done to which element. Near-wire branches are
/// shorted before negligible branches are opened, so that the admittances left to
/// compare are sane; the list names the opened branches first, in order of
/// importance, and then the shorted ones.
pub open spec fn reduced_graph(p: Point, x_op: Seq<u64>, params: Seq<(SymbolId, u64)>) -> (
    DaeView,
    Seq<(Seq<char>, Seq<char>)>,
) {
    let q = after_merge(p, x_op, params);
    (
        pruned(q).0,
        labelled(pruned(q).1.map_values(|e: (Seq<char>, u64)| e.0), "open"@) + labelled(
            p.shorts().1,
            "short"@,
        ),
    )
}

/// Pairs of texts as mathematical pairs.
pub open spec fn text_pairs(v: Seq<(String, String)>) -> Seq<(Seq<char>, Seq<char>)> {
    v.map_values(|p: (String, String)| (p.0@, p.1@))
}

/// The full operating-point-guided graph transformation: short near-wire branches
/// (merge their nodes) and open negligible branches (drop their terms). Returns
/// the reduced system and the `(element, operation)` list: opens first, in order
/// of importance, then shorts.
pub fn reduce_graph<F: Fn(Ask) -> Reply, G: Fn(Query) -> Answer>(
    host: &Host<F>,
    al: &Algebra<G>,
    dae: &Dae,
    x_op: &Vec<u64>,
    p: &Vec<(SymbolId, u64)>,
    omegas: &Vec<u64>,
    rel_tol: u64,
) -> (r: (Dae, Vec<(String, String)>))
    requires
        dae@.wf(),
    ensures
        (r.0@, text_pairs(r.1@)) == reduced_graph(
            (Point {
                g: al.graph(),
                h: host.answers(),
                d: dae@,
                env: op_env(dae@, x_op@, p@),
                omegas: omegas@,
                rel_tol,
            }),
            x_op@,
            p@,
        ),
        r.0@.wf(),
{
    let ghost pt = Point {
        g: al.graph(),
        h: host.answers(),
        d: dae@,
        env: op_env(dae@, x_op@, p@),
        omegas: omegas@,
        rel_tol,
    };
    let total: usize = dae.x.len();
    let pr = Probe::new(dae, x_op, p, omegas, rel_tol, Ghost(pt));
    let (pairs, names) = detect_shorts(host, al, dae, &pr, Ghost(pt));
    let (small, stay) = merge_nodes(al, dae, &pairs);
    let ghost at = stay@.map_values(|i: usize| value_at(x_op@, i as int));
    let mut x_small: Vec<u64> = Vec::new();
    for k in 0..stay.len()
        invariant
            at == stay@.map_values(|i: usize| value_at(x_op@, i as int)),
            x_small@ =~= at.take(k as int),
    {
        let i = stay[k];
        let v: u64 = if i < x_op.len() {
            x_op[i]
        } else {
            ZERO
        };
        x_small.push(v);
    }
    proof {
        assert(at.take(at.len() as int) =~= at);
        assert(dae@.x.len() == total);
        merging_shrinks(pt.g, pt.d, pairs@);
    }
    let ghost q = after_merge(pt, x_op@, p@);
    let (d, list) = prune_graph(host, al, &small, &x_small, p, omegas, rel_tol);
    assert((d@, pairs_of(list@)) == pruned(q));
    let mut out: Vec<(String, String)> = Vec::new();
    let ghost first = labelled(pairs_of(list@).map_values(|e: (Seq<char>, u64)| e.0), "open"@);
    let ghost second = labelled(texts(names@), "short"@);
    for k in 0..list.len()
        invariant
            first == labelled(pairs_of(list@).map_values(|e: (Seq<char>, u64)| e.0), "open"@),
            text_pairs(out@) =~= first.take(k as int),
    {
        let ghost before = text_pairs(out@);
        out.push((list[k].0.clone(), "open".to_string()));
        assert(text_pairs(out@) =~= before.push(first[k as int]));
    }
    assert(first.take(first.len() as int) =~= first);
    for k in 0..names.len()
        invariant
            second == labelled(texts(names@), "short"@),
            text_pairs(out@) =~= first + second.take(k as int),
    {
        let ghost before = text_pairs(out@);
        out.push((names[k].clone(), "short".to_string()));
        assert(text_pairs(out@) =~= before.push(second[k as int]));
    }
    assert(second.take(second.len() as int) =~= second);
    (d, out)
}

} // verus!

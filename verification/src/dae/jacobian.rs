//! Jacobians of a system, its parameters, and its small-signal form.
use crate::dae::assemble::mentioned;
use crate::dae::system::{
    copy_kinds, copy_noise, copy_seeds, copy_slots, copy_symbols, event_views, noise_views,
    op_var_with, op_views, shape_views, Dae, DaeView, DelaySpec, EventSpec, EventView, Limit, NoiseView,
    OpVarView, Stamp,
};
use crate::device::{NoiseSource, OpVar, UnknownKind};
use crate::source_fn::SourceFn;
use crate::symbolic::{
    copy_exprs, copy_rows, rows_of, Algebra, Answer, ExprId, Graph, Nonlinearity, Query, SymbolId,
};
use crate::table::symbol_table_clone;
use crate::text::{copy_texts, same, texts};
use vstd::prelude::*;

verus! {

/// One sparse block as rows, columns and expressions.
pub type SparseBlock = (Vec<usize>, Vec<usize>, Vec<ExprId>);

/// An entry of a sparse block.
pub type Entry = (usize, usize, ExprId);

/// A block holds the given entries, in order.
pub open spec fn holds(b: SparseBlock, e: Seq<Entry>) -> bool {
    &&& b.0@ == e.map_values(|t: Entry| t.0)
    &&& b.1@ == e.map_values(|t: Entry| t.1)
    &&& b.2@ == e.map_values(|t: Entry| t.2)
}

pub(crate) fn push_entry(b: &mut SparseBlock, row: usize, col: usize, expr: ExprId, Ghost(e): Ghost<Seq<Entry>>)
    requires
        holds(*old(b), e),
    ensures
        holds(*final(b), e.push((row, col, expr))),
{
    b.0.push(row);
    b.1.push(col);
    b.2.push(expr);
    let ghost f = e.push((row, col, expr));
    assert(b.0@ =~= f.map_values(|t: Entry| t.0));
    assert(b.1@ =~= f.map_values(|t: Entry| t.1));
    assert(b.2@ =~= f.map_values(|t: Entry| t.2));
}

// ---------------------------------------------------------------------------
// Columns.
// ---------------------------------------------------------------------------
/// Columns by symbol: the last slot that holds a symbol is its column.
pub open spec fn column(slots: Seq<Option<SymbolId>>, s: SymbolId, i: int) -> Option<usize>
    decreases i,
{
    if i <= 0 || i > slots.len() {
        None
    } else if slots[i - 1] == Some(s) {
        Some((i - 1) as usize)
    } else {
        column(slots, s, i - 1)
    }
}

pub open spec fn column_of(slots: Seq<Option<SymbolId>>, s: SymbolId) -> Option<usize> {
    column(slots, s, slots.len() as int)
}

pub fn find_column(slots: &Vec<Option<SymbolId>>, s: SymbolId) -> (r: Option<usize>)
    ensures
        r == column_of(slots@, s),
{
    let n: usize = slots.len();
    let mut i: usize = n;
    while i > 0
        invariant
            i <= n,
            n == slots@.len(),
            column(slots@, s, i as int) == column(slots@, s, n as int),
        decreases i,
    {
        i -= 1;
        if let Some(x) = slots[i] {
            if x == s {
                return Some(i);
            }
        }
    }
    None
}

/// A column lies within the slots.
pub proof fn column_in_range(slots: Seq<Option<SymbolId>>, s: SymbolId, i: int)
    requires
        i <= slots.len() <= usize::MAX,
    ensures
        column(slots, s, i) matches Some(c) ==> c < slots.len(),
    decreases i,
{
    if i > 0 {
        column_in_range(slots, s, i - 1);
    }
}

/// Symbols as columns.
pub open spec fn filled(v: Seq<SymbolId>) -> Seq<Option<SymbolId>> {
    v.map_values(|s: SymbolId| Some(s))
}

pub fn fill(v: &Vec<SymbolId>) -> (r: Vec<Option<SymbolId>>)
    ensures
        r@ == filled(v@),
{
    let mut out: Vec<Option<SymbolId>> = Vec::new();
    let ghost all = filled(v@);
    for i in 0..v.len()
        invariant
            all == filled(v@),
            out@ =~= all.take(i as int),
    {
        out.push(Some(v[i]));
    }
    assert(all.take(all.len() as int) =~= all);
    out
}

// ---------------------------------------------------------------------------
// Sparse Jacobians.
// ---------------------------------------------------------------------------
/// The entries of row `i` from its free symbol `k` on.
pub open spec fn row_entries(g: Graph, slots: Seq<Option<SymbolId>>, i: usize, r: ExprId, free: Seq<SymbolId>, k: int) -> Seq<
    Entry,
>
    decreases free.len() - k,
{
    if k < 0 || k >= free.len() {
        seq![]
    } else {
        let rest = row_entries(g, slots, i, r, free, k + 1);
        match column_of(slots, free[k]) {
            Some(c) => if g.is_zero(g.derive(r, free[k])) {
                rest
            } else {
                seq![(i, c, g.derive(r, free[k]))] + rest
            },
            None => rest,
        }
    }
}

/// The entries of the rows from `i` on: the nonzero derivatives with respect to
/// the symbols that a row depends on and that are columns.
pub open spec fn coo_entries(g: Graph, rows: Seq<ExprId>, slots: Seq<Option<SymbolId>>, i: int) -> Seq<Entry>
    decreases rows.len() - i,
{
    if i < 0 || i >= rows.len() {
        seq![]
    } else {
        row_entries(g, slots, i as usize, rows[i], g.free(rows[i]), 0) + coo_entries(g, rows, slots, i + 1)
    }
}

proof fn row_entries_in_range(g: Graph, slots: Seq<Option<SymbolId>>, i: usize, r: ExprId, free: Seq<SymbolId>, k: int)
    requires
        0 <= k,
        slots.len() <= usize::MAX,
    ensures
        forall|l: int|
            0 <= l < row_entries(g, slots, i, r, free, k).len() ==> (#[trigger] row_entries(g, slots, i, r, free, k)[l]).0
                == i && row_entries(g, slots, i, r, free, k)[l].1 < slots.len(),
    decreases free.len() - k,
{
    if k < free.len() {
        row_entries_in_range(g, slots, i, r, free, k + 1);
        column_in_range(slots, free[k], slots.len() as int);
        let rest = row_entries(g, slots, i, r, free, k + 1);
        let all = row_entries(g, slots, i, r, free, k);
        assert forall|l: int| 0 <= l < all.len() implies (#[trigger] all[l]).0 == i && all[l].1 < slots.len() by {
            if all == rest {
                assert(all[l] == rest[l]);
            } else if l > 0 {
                assert(all[l] == rest[l - 1]);
            }
        }
    } else {
        assert(row_entries(g, slots, i, r, free, k).len() == 0);
    }
}

/// Every entry of a sparse Jacobian names a row and a column that there are.
pub proof fn entries_in_range(g: Graph, rows: Seq<ExprId>, slots: Seq<Option<SymbolId>>, i: int)
    requires
        0 <= i,
        rows.len() <= usize::MAX,
        slots.len() <= usize::MAX,
    ensures
        forall|l: int|
            0 <= l < coo_entries(g, rows, slots, i).len() ==> (#[trigger] coo_entries(g, rows, slots, i)[l]).0
                < rows.len() && coo_entries(g, rows, slots, i)[l].1 < slots.len(),
    decreases rows.len() - i,
{
    if i < rows.len() {
        entries_in_range(g, rows, slots, i + 1);
        row_entries_in_range(g, slots, i as usize, rows[i], g.free(rows[i]), 0);
        let own = row_entries(g, slots, i as usize, rows[i], g.free(rows[i]), 0);
        let rest = coo_entries(g, rows, slots, i + 1);
        let all = coo_entries(g, rows, slots, i);
        assert(all == own + rest);
        assert forall|l: int| 0 <= l < all.len() implies (#[trigger] all[l]).0 < rows.len() && all[l].1
            < slots.len() by {
            if l < own.len() {
                assert(all[l] == own[l]);
            } else {
                assert(all[l] == rest[l - own.len()]);
            }
        }
    } else {
        assert(coo_entries(g, rows, slots, i).len() == 0);
    }
}

/// Sparse symbolic Jacobian: each row is differentiated only with respect to the
/// columns whose symbol appears in it.
pub fn coo<G: Fn(Query) -> Answer>(al: &Algebra<G>, rows: &Vec<ExprId>, slots: &Vec<Option<SymbolId>>) -> (r: SparseBlock)
    ensures
        holds(r, coo_entries(al.graph(), rows@, slots@, 0)),
{
    let ghost g = al.graph();
    let mut out: SparseBlock = (Vec::new(), Vec::new(), Vec::new());
    let ghost mut done: Seq<Entry> = seq![];
    assert(out.0@ =~= done.map_values(|t: Entry| t.0));
    assert(out.1@ =~= done.map_values(|t: Entry| t.1));
    assert(out.2@ =~= done.map_values(|t: Entry| t.2));
    assert(done + coo_entries(g, rows@, slots@, 0) =~= coo_entries(g, rows@, slots@, 0));
    for i in 0..rows.len()
        invariant
            g == al.graph(),
            holds(out, done),
            done + coo_entries(g, rows@, slots@, i as int) == coo_entries(g, rows@, slots@, 0),
    {
        let r = rows[i];
        let free = al.free_symbols(r);
        let ghost before = done;
        let ghost all = row_entries(g, slots@, i, r, free@, 0);
        assert(done + all =~= before + all);
        for k in 0..free.len()
            invariant
                g == al.graph(),
                holds(out, done),
                all == row_entries(g, slots@, i, r, free@, 0),
                done + row_entries(g, slots@, i, r, free@, k as int) == before + all,
        {
            let ghost was = done;
            if let Some(c) = find_column(slots, free[k]) {
                let d = al.derive(r, free[k]);
                if !al.is_zero(d) {
                    push_entry(&mut out, i, c, d, Ghost(done));
                    proof {
                        done = done.push((i, c, d));
                        let rest = row_entries(g, slots@, i, r, free@, k + 1);
                        assert(was.push((i, c, d)) + rest =~= was + (seq![(i, c, d)] + rest));
                    }
                }
            }
        }
        proof {
            assert(done + seq![] =~= done);
            let rest = coo_entries(g, rows@, slots@, i + 1);
            assert(before + (all + rest) =~= (before + all) + rest);
        }
    }
    assert(done + seq![] =~= done);
    out
}

// ---------------------------------------------------------------------------
// Dense Jacobians.
// ---------------------------------------------------------------------------
/// A derivative; zero where the expression does not depend on the symbol.
pub open spec fn slope(g: Graph, e: ExprId, s: SymbolId) -> ExprId {
    if g.free(e).contains(s) {
        g.derive(e, s)
    } else {
        g.zero()
    }
}

/// A derivative with respect to a slot; an empty slot has none.
pub open spec fn slot_slope(g: Graph, e: ExprId, s: Option<SymbolId>) -> ExprId {
    match s {
        Some(x) => g.derive(e, x),
        None => g.zero(),
    }
}

pub open spec fn dense_x(g: Graph, d: DaeView) -> Seq<Seq<ExprId>> {
    d.residuals.map_values(|r: ExprId| d.x.map_values(|s: SymbolId| slope(g, r, s)))
}

pub open spec fn dense_xdot(g: Graph, d: DaeView) -> Seq<Seq<ExprId>> {
    d.residuals.map_values(|r: ExprId| d.xdot.map_values(|s: Option<SymbolId>| slot_slope(g, r, s)))
}

pub(crate) fn holds_symbol(v: &Vec<SymbolId>, s: SymbolId) -> (r: bool)
    ensures
        r == v@.contains(s),
{
    for i in 0..v.len()
        invariant
            forall|k: int| 0 <= k < i ==> v@[k] != s,
    {
        if v[i] == s {
            assert(v@.contains(s));
            return true;
        }
    }
    false
}

pub(crate) fn holds_slot(v: &Vec<Option<SymbolId>>, s: SymbolId) -> (r: bool)
    ensures
        r == v@.contains(Some(s)),
{
    for i in 0..v.len()
        invariant
            forall|k: int| 0 <= k < i ==> v@[k] != Some(s),
    {
        if let Some(x) = v[i] {
            if x == s {
                assert(v@[i as int] == Some(s));
                return true;
            }
        }
    }
    false
}

// ---------------------------------------------------------------------------
// Parameters.
// ---------------------------------------------------------------------------
/// Symbols in ascending order, each once.
pub open spec fn ascending_symbols(v: Seq<SymbolId>) -> bool {
    forall|i: int, j: int| 0 <= i < j < v.len() ==> (#[trigger] v[i]).0 < (#[trigger] v[j]).0
}

/// A symbol on which a residual, a delay or a switching surface depends.
pub open spec fn occurs(g: Graph, d: DaeView, s: SymbolId) -> bool {
    ||| mentioned(g, d.residuals, s)
    ||| mentioned(g, delay_times(d.delays), s)
    ||| mentioned(g, surfaces(d.events), s)
}

pub open spec fn delay_times(v: Seq<DelaySpec>) -> Seq<ExprId> {
    v.map_values(|l: DelaySpec| l.tau)
}

pub open spec fn surfaces(v: Seq<EventView>) -> Seq<ExprId> {
    v.map_values(|e: EventView| e.g)
}

pub open spec fn histories(v: Seq<DelaySpec>) -> Seq<SymbolId> {
    v.map_values(|l: DelaySpec| l.hist)
}

/// A symbol that is no parameter: an unknown, a derivative, the time, or a
/// history input.
pub open spec fn reserved_symbol(d: DaeView, s: SymbolId) -> bool {
    d.x.contains(s) || d.xdot.contains(Some(s)) || s == d.t || histories(d.delays).contains(s)
}

/// The parameters of a system, in ascending order: the symbols that occur and
/// are not reserved.
pub open spec fn are_params(g: Graph, d: DaeView, v: Seq<SymbolId>) -> bool {
    &&& ascending_symbols(v)
    &&& forall|s: SymbolId| #[trigger] v.contains(s) <==> occurs(g, d, s) && !reserved_symbol(d, s)
}

/// The unknowns and their derivatives, in ascending order.
pub open spec fn are_variables(d: DaeView, v: Seq<SymbolId>) -> bool {
    &&& ascending_symbols(v)
    &&& forall|s: SymbolId| #[trigger] v.contains(s) <==> d.x.contains(s) || d.xdot.contains(Some(s))
}

proof fn pushed_contains<T>(p: Seq<T>, x: T)
    ensures
        forall|y: T| #[trigger] p.push(x).contains(y) <==> p.contains(y) || y == x,
{
    assert forall|y: T| #[trigger] p.push(x).contains(y) == (p.contains(y) || y == x) by {
        if p.contains(y) {
            let k = choose|k: int| 0 <= k < p.len() && p[k] == y;
            assert(p.push(x)[k] == y);
        }
        if y == x {
            assert(p.push(x)[p.len() as int] == y);
        }
    }
}

/// Put a symbol into an ascending list.
fn insert_symbol(v: &mut Vec<SymbolId>, s: SymbolId)
    requires
        ascending_symbols(old(v)@),
    ensures
        ascending_symbols(final(v)@),
        forall|x: SymbolId| #[trigger] final(v)@.contains(x) <==> old(v)@.contains(x) || x == s,
{
    let ghost before = v@;
    let mut i: usize = 0;
    while i < v.len() && v[i].0 < s.0
        invariant
            i <= v@.len(),
            v@ == before,
            forall|k: int| 0 <= k < i ==> (#[trigger] v@[k]).0 < s.0,
        decreases v@.len() - i,
    {
        i += 1;
    }
    if i < v.len() && v[i].0 == s.0 {
        assert(v@[i as int] == s);
        assert(v@.contains(s));
        return;
    }
    v.insert(i, s);
    proof {
        let after = before.insert(i as int, s);
        assert(v@ == after);
        assert forall|a: int, b: int| 0 <= a < b < after.len() implies (#[trigger] after[a]).0 < (
        #[trigger] after[b]).0 by {
            if a < i && b == i {
                assert(after[a] == before[a]);
            } else if a == i && b > i {
                assert(after[b] == before[b - 1]);
                assert(before[i as int].0 > s.0);
                if b - 1 > i {
                    assert(before[i as int].0 < before[b - 1].0);
                }
            } else if a < i && b > i {
                assert(after[a] == before[a] && after[b] == before[b - 1]);
            } else if a > i {
                assert(after[a] == before[a - 1] && after[b] == before[b - 1]);
            } else {
                assert(after[a] == before[a] && after[b] == before[b]);
            }
        }
        assert forall|x: SymbolId| #[trigger] after.contains(x) <==> before.contains(x) || x == s by {
            if before.contains(x) {
                let k = choose|k: int| 0 <= k < before.len() && before[k] == x;
                if k < i {
                    assert(after[k] == x);
                } else {
                    assert(after[k + 1] == x);
                }
            }
            if x == s {
                assert(after[i as int] == s);
            }
            if after.contains(x) && x != s {
                let k = choose|k: int| 0 <= k < after.len() && after[k] == x;
                if k < i {
                    assert(before[k] == x);
                } else {
                    assert(before[k - 1] == x);
                }
            }
        }
    }
}

/// Put every symbol that the expressions depend on, and that is not reserved,
/// into an ascending list.
fn gather<G: Fn(Query) -> Answer>(al: &Algebra<G>, dae: &Dae, exprs: &Vec<ExprId>, out: &mut Vec<SymbolId>)
    requires
        ascending_symbols(old(out)@),
    ensures
        ascending_symbols(final(out)@),
        forall|s: SymbolId| #[trigger]
            final(out)@.contains(s) <==> old(out)@.contains(s) || (mentioned(al.graph(), exprs@, s)
                && !reserved_symbol(dae@, s)),
{
    let ghost g = al.graph();
    let ghost start = out@;
    for i in 0..exprs.len()
        invariant
            g == al.graph(),
            ascending_symbols(out@),
            forall|s: SymbolId| #[trigger]
                out@.contains(s) <==> start.contains(s) || (mentioned(g, exprs@.take(i as int), s)
                    && !reserved_symbol(dae@, s)),
    {
        let free = al.free_symbols(exprs[i]);
        let ghost mid = out@;
        for k in 0..free.len()
            invariant
                ascending_symbols(out@),
                forall|s: SymbolId| #[trigger]
                    out@.contains(s) <==> mid.contains(s) || (free@.take(k as int).contains(s) && !reserved_symbol(
                        dae@,
                        s,
                    )),
        {
            let s = free[k];
            let ghost was = out@;
            if !reserved(dae, s) {
                insert_symbol(out, s);
            }
            proof {
                let part = free@.take(k as int);
                let more = free@.take(k + 1);
                assert(more =~= part.push(s));
                assert forall|x: SymbolId| #[trigger] out@.contains(x) <==> mid.contains(x) || (more.contains(x)
                    && !reserved_symbol(dae@, x)) by {
                    assert(more.contains(x) <==> part.contains(x) || x == s) by {
                        if part.contains(x) {
                            let j = choose|j: int| 0 <= j < part.len() && part[j] == x;
                            assert(more[j] == x);
                        }
                        if x == s {
                            assert(more[k as int] == x);
                        }
                        if more.contains(x) && x != s {
                            let j = choose|j: int| 0 <= j < more.len() && more[j] == x;
                            assert(part[j] == x);
                        }
                    }
                    assert(was.contains(x) <==> mid.contains(x) || (part.contains(x) && !reserved_symbol(dae@, x)));
                }
            }
        }
        proof {
            assert(free@.take(free@.len() as int) =~= free@);
            let part = exprs@.take(i as int);
            let more = exprs@.take(i + 1);
            assert forall|s: SymbolId| #[trigger] out@.contains(s) <==> start.contains(s) || (mentioned(g, more, s)
                && !reserved_symbol(dae@, s)) by {
                assert(mentioned(g, more, s) <==> mentioned(g, part, s) || free@.contains(s)) by {
                    if mentioned(g, part, s) {
                        let j = choose|j: int| 0 <= j < part.len() && g.free(#[trigger] part[j]).contains(s);
                        assert(more[j] == part[j]);
                    }
                    if free@.contains(s) {
                        assert(more[i as int] == exprs@[i as int]);
                    }
                    if mentioned(g, more, s) {
                        let j = choose|j: int| 0 <= j < more.len() && g.free(#[trigger] more[j]).contains(s);
                        if j < i {
                            assert(part[j] == more[j]);
                        }
                    }
                }
                assert(mid.contains(s) <==> start.contains(s) || (mentioned(g, part, s) && !reserved_symbol(
                    dae@,
                    s,
                )));
            }
        }
    }
    assert(exprs@.take(exprs@.len() as int) =~= exprs@);
}

fn reserved(dae: &Dae, s: SymbolId) -> (r: bool)
    ensures
        r == reserved_symbol(dae@, s),
{
    if holds_symbol(&dae.x, s) || holds_slot(&dae.xdot, s) || s == dae.t {
        return true;
    }
    let ghost hs = histories(dae.delays@);
    for i in 0..dae.delays.len()
        invariant
            hs == histories(dae.delays@),
            forall|k: int| 0 <= k < i ==> hs[k] != s,
    {
        assert(hs[i as int] == dae.delays@[i as int].hist);
        if dae.delays[i].hist == s {
            assert(hs.contains(s));
            return true;
        }
    }
    false
}

impl Dae {
    /// What every unknown physically is.
    pub fn unknown_kinds(&self) -> (r: Vec<UnknownKind>)
        ensures
            r@ == self@.kinds,
    {
        copy_kinds(&self.kinds)
    }

    pub fn dim(&self) -> (r: usize)
        ensures
            r == self@.residuals.len(),
    {
        self.residuals.len()
    }

    /// Jacobian `dF/dx`, dense (zero where a residual does not depend on an
    /// unknown).
    pub fn jacobian_x<G: Fn(Query) -> Answer>(&self, al: &Algebra<G>) -> (r: Vec<Vec<ExprId>>)
        ensures
            rows_of(r@) == dense_x(al.graph(), self@),
    {
        let ghost g = al.graph();
        let ghost all = dense_x(g, self@);
        let zero = al.zero();
        let mut out: Vec<Vec<ExprId>> = Vec::new();
        for i in 0..self.residuals.len()
            invariant
                g == al.graph(),
                all == dense_x(g, self@),
                zero == g.zero(),
                rows_of(out@) =~= all.take(i as int),
        {
            let r = self.residuals[i];
            let free = al.free_symbols(r);
            let mut row: Vec<ExprId> = Vec::new();
            for j in 0..self.x.len()
                invariant
                    g == al.graph(),
                    zero == g.zero(),
                    free@ == g.free(r),
                    all == dense_x(g, self@),
                    0 <= i < self.residuals@.len(),
                    r == self.residuals@[i as int],
                    row@ =~= all[i as int].take(j as int),
            {
                if holds_symbol(&free, self.x[j]) {
                    row.push(al.derive(r, self.x[j]));
                } else {
                    row.push(zero);
                }
            }
            assert(all[i as int].take(self.x@.len() as int) =~= all[i as int]);
            let ghost before = rows_of(out@);
            out.push(row);
            assert(rows_of(out@) =~= before.push(all[i as int]));
        }
        assert(all.take(all.len() as int) =~= all);
        out
    }

    /// Jacobian `dF/dx'` (zero columns for algebraic unknowns).
    pub fn jacobian_xdot<G: Fn(Query) -> Answer>(&self, al: &Algebra<G>) -> (r: Vec<Vec<ExprId>>)
        ensures
            rows_of(r@) == dense_xdot(al.graph(), self@),
    {
        let ghost g = al.graph();
        let ghost all = dense_xdot(g, self@);
        let zero = al.zero();
        let mut out: Vec<Vec<ExprId>> = Vec::new();
        for i in 0..self.residuals.len()
            invariant
                g == al.graph(),
                all == dense_xdot(g, self@),
                zero == g.zero(),
                rows_of(out@) =~= all.take(i as int),
        {
            let r = self.residuals[i];
            let mut row: Vec<ExprId> = Vec::new();
            for j in 0..self.xdot.len()
                invariant
                    g == al.graph(),
                    zero == g.zero(),
                    all == dense_xdot(g, self@),
                    0 <= i < self.residuals@.len(),
                    r == self.residuals@[i as int],
                    row@ =~= all[i as int].take(j as int),
            {
                match self.xdot[j] {
                    Some(s) => row.push(al.derive(r, s)),
                    None => row.push(zero),
                }
            }
            assert(all[i as int].take(self.xdot@.len() as int) =~= all[i as int]);
            let ghost before = rows_of(out@);
            out.push(row);
            assert(rows_of(out@) =~= before.push(all[i as int]));
        }
        assert(all.take(all.len() as int) =~= all);
        out
    }

    /// Sparse `dF/dx` as `(rows, cols, exprs)`.
    pub fn jacobian_x_coo<G: Fn(Query) -> Answer>(&self, al: &Algebra<G>) -> (r: SparseBlock)
        ensures
            holds(r, coo_entries(al.graph(), self@.residuals, filled(self@.x), 0)),
    {
        coo(al, &self.residuals, &fill(&self.x))
    }

    /// Sparse `dF/dx'` (columns indexed like `x`; only differential unknowns
    /// contribute).
    pub fn jacobian_xdot_coo<G: Fn(Query) -> Answer>(&self, al: &Algebra<G>) -> (r: SparseBlock)
        ensures
            holds(r, coo_entries(al.graph(), self@.residuals, self@.xdot, 0)),
    {
        coo(al, &self.residuals, &self.xdot)
    }

    /// Sparse `dF/dhist`, columns indexed like `delays`.
    pub fn jacobian_hist_coo<G: Fn(Query) -> Answer>(&self, al: &Algebra<G>) -> (r: SparseBlock)
        ensures
            holds(r, coo_entries(al.graph(), self@.residuals, filled(histories(self@.delays)), 0)),
    {
        let mut hs: Vec<SymbolId> = Vec::new();
        let ghost all = histories(self.delays@);
        for i in 0..self.delays.len()
            invariant
                all == histories(self.delays@),
                hs@ =~= all.take(i as int),
        {
            hs.push(self.delays[i].hist);
        }
        assert(all.take(all.len() as int) =~= all);
        coo(al, &self.residuals, &fill(&hs))
    }

    /// Sparse `dF/dp`, columns indexed like `params`.
    pub fn jacobian_p_coo<G: Fn(Query) -> Answer>(&self, al: &Algebra<G>, params: &Vec<SymbolId>) -> (r: SparseBlock)
        ensures
            holds(r, coo_entries(al.graph(), self@.residuals, filled(params@), 0)),
    {
        coo(al, &self.residuals, &fill(params))
    }

    /// Classify how nonlinear the residuals are in the unknowns and their
    /// derivatives. The bodies of the functions that the residuals call count with
    /// them: their parameters stand for the unknowns of the instances.
    pub fn nonlinearity<G: Fn(Query) -> Answer>(&self, al: &Algebra<G>) -> (r: Nonlinearity)
        ensures
            exists|vars: Seq<SymbolId>| #[trigger]
                are_variables(self@, vars) && r == al.graph().nonlinearity(
                    self@.residuals + al.graph().bodies(self@.residuals),
                    vars,
                ),
    {
        let mut vars: Vec<SymbolId> = Vec::new();
        for i in 0..self.x.len()
            invariant
                ascending_symbols(vars@),
                forall|s: SymbolId| #[trigger] vars@.contains(s) <==> self.x@.take(i as int).contains(s),
        {
            insert_symbol(&mut vars, self.x[i]);
            proof {
                let p = self.x@.take(i as int);
                assert(self.x@.take(i + 1) =~= p.push(self.x@[i as int]));
                pushed_contains(p, self.x@[i as int]);
            }
        }
        assert(self.x@.take(self.x@.len() as int) =~= self.x@);
        for i in 0..self.xdot.len()
            invariant
                ascending_symbols(vars@),
                forall|s: SymbolId| #[trigger]
                    vars@.contains(s) <==> self.x@.contains(s) || self.xdot@.take(i as int).contains(Some(s)),
        {
            let ghost p = self.xdot@.take(i as int);
            proof {
                assert(self.xdot@.take(i + 1) =~= p.push(self.xdot@[i as int]));
                pushed_contains(p, self.xdot@[i as int]);
            }
            if let Some(s) = self.xdot[i] {
                insert_symbol(&mut vars, s);
            }
        }
        assert(self.xdot@.take(self.xdot@.len() as int) =~= self.xdot@);
        let mut roots = copy_exprs(&self.residuals);
        let mut called = al.bodies(&self.residuals);
        let ghost all = self@.residuals + al.graph().bodies(self@.residuals);
        roots.append(&mut called);
        assert(roots@ =~= all);
        assert(are_variables(self@, vars@));
        al.nonlinearity(roots, vars)
    }

    /// Parameter symbols: free symbols that are neither unknowns nor derivatives
    /// nor time nor history inputs, sorted by id.
    pub fn params<G: Fn(Query) -> Answer>(&self, al: &Algebra<G>) -> (r: Vec<SymbolId>)
        ensures
            are_params(al.graph(), self@, r@),
    {
        let mut out: Vec<SymbolId> = Vec::new();
        let mut taus: Vec<ExprId> = Vec::new();
        let ghost all = delay_times(self.delays@);
        for i in 0..self.delays.len()
            invariant
                all == delay_times(self.delays@),
                taus@ =~= all.take(i as int),
        {
            taus.push(self.delays[i].tau);
        }
        assert(all.take(all.len() as int) =~= all);
        let mut gs: Vec<ExprId> = Vec::new();
        let ghost evs = surfaces(event_views(self.events@));
        for i in 0..self.events.len()
            invariant
                evs == surfaces(event_views(self.events@)),
                gs@ =~= evs.take(i as int),
        {
            assert(evs[i as int] == self.events@[i as int].g);
            gs.push(self.events[i].g);
        }
        assert(evs.take(evs.len() as int) =~= evs);
        gather(al, self, &self.residuals, &mut out);
        gather(al, self, &taus, &mut out);
        gather(al, self, &gs, &mut out);
        out
    }
}

// ---------------------------------------------------------------------------
// Folding parameters.
// ---------------------------------------------------------------------------
/// What parameters become when they are folded to constants.
pub open spec fn fold_map(g: Graph, fold: Seq<(SymbolId, u64)>) -> Seq<(SymbolId, ExprId)> {
    fold.map_values(|p: (SymbolId, u64)| (p.0, g.number(p.1)))
}

pub open spec fn replaced(g: Graph, v: Seq<ExprId>, m: Seq<(SymbolId, ExprId)>) -> Seq<ExprId> {
    v.map_values(|e: ExprId| g.substitute(e, m))
}

/// A system with constants in place of parameters: every expression is
/// rewritten, the unknowns and the numeric registries stay.
pub open spec fn folded(g: Graph, d: DaeView, fold: Seq<(SymbolId, u64)>) -> DaeView {
    let m = fold_map(g, fold);
    DaeView {
        residuals: replaced(g, d.residuals, m),
        stamps: d.stamps.map_values(|s: Stamp| Stamp { row: s.row, expr: g.substitute(s.expr, m) }),
        noise_sources: d.noise_sources.map_values(
            |n: NoiseView|
                NoiseView {
                    psd: g.substitute(n.psd, m),
                    flicker_exp: g.substitute(n.flicker_exp, m),
                    ..n
                },
        ),
        op_vars: d.op_vars.map_values(|o: OpVarView| OpVarView { value: g.substitute(o.value, m), ..o }),
        events: d.events.map_values(|e: EventView| EventView { g: g.substitute(e.g, m), ..e }),
        delays: d.delays.map_values(|l: DelaySpec| DelaySpec { tau: g.substitute(l.tau, m), ..l }),
        ..d
    }
}

pub fn substitute_all<G: Fn(Query) -> Answer>(al: &Algebra<G>, v: &Vec<ExprId>, m: &Vec<(SymbolId, ExprId)>) -> (r: Vec<
    ExprId,
>)
    ensures
        r@ == replaced(al.graph(), v@, m@),
{
    let ghost all = replaced(al.graph(), v@, m@);
    let mut out: Vec<ExprId> = Vec::new();
    for i in 0..v.len()
        invariant
            all == replaced(al.graph(), v@, m@),
            out@ =~= all.take(i as int),
    {
        out.push(al.substitute(v[i], m));
    }
    assert(all.take(all.len() as int) =~= all);
    out
}

pub fn copy_limits(v: &Vec<Limit>) -> (r: Vec<Limit>)
    ensures
        r@ == v@,
{
    let mut out: Vec<Limit> = Vec::new();
    for i in 0..v.len()
        invariant
            out@ =~= v@.take(i as int),
    {
        out.push(v[i]);
    }
    assert(v@.take(v@.len() as int) =~= v@);
    out
}

pub fn copy_companion(v: &Vec<(usize, usize, u64)>) -> (r: Vec<(usize, usize, u64)>)
    ensures
        r@ == v@,
{
    let mut out: Vec<(usize, usize, u64)> = Vec::new();
    for i in 0..v.len()
        invariant
            out@ =~= v@.take(i as int),
    {
        out.push(v[i]);
    }
    assert(v@.take(v@.len() as int) =~= v@);
    out
}

pub fn copy_shapes(v: &Vec<(String, SourceFn)>) -> (r: Vec<(String, SourceFn)>)
    ensures
        shape_views(r@) == shape_views(v@),
{
    let mut out: Vec<(String, SourceFn)> = Vec::new();
    let ghost all = shape_views(v@);
    for i in 0..v.len()
        invariant
            all == shape_views(v@),
            shape_views(out@) =~= all.take(i as int),
    {
        let ghost before = shape_views(out@);
        let s = v[i].0.clone();
        out.push((s, v[i].1));
        assert(shape_views(out@) =~= before.push(all[i as int]));
    }
    assert(all.take(all.len() as int) =~= all);
    out
}

pub fn copy_op_vars(v: &Vec<OpVar>) -> (r: Vec<OpVar>)
    ensures
        op_views(r@) == op_views(v@),
{
    let mut out: Vec<OpVar> = Vec::new();
    let ghost all = op_views(v@);
    for i in 0..v.len()
        invariant
            all == op_views(v@),
            op_views(out@) =~= all.take(i as int),
    {
        let ghost before = op_views(out@);
        let c = op_var_with(&v[i], v[i].value);
        out.push(c);
        assert(op_views(out@) =~= before.push(all[i as int]));
    }
    assert(all.take(all.len() as int) =~= all);
    out
}

pub fn copy_events(v: &Vec<EventSpec>) -> (r: Vec<EventSpec>)
    ensures
        event_views(r@) == event_views(v@),
{
    let mut out: Vec<EventSpec> = Vec::new();
    let ghost all = event_views(v@);
    for i in 0..v.len()
        invariant
            all == event_views(v@),
            event_views(out@) =~= all.take(i as int),
    {
        let ghost before = event_views(out@);
        let n = v[i].name.clone();
        out.push(EventSpec { g: v[i].g, dir: v[i].dir, name: n });
        assert(event_views(out@) =~= before.push(all[i as int]));
    }
    assert(all.take(all.len() as int) =~= all);
    out
}

fn fold_stamps<G: Fn(Query) -> Answer>(al: &Algebra<G>, v: &Vec<Stamp>, m: &Vec<(SymbolId, ExprId)>) -> (r: Vec<Stamp>)
    ensures
        r@ == v@.map_values(|s: Stamp| Stamp { row: s.row, expr: al.graph().substitute(s.expr, m@) }),
{
    let ghost all = v@.map_values(|s: Stamp| Stamp { row: s.row, expr: al.graph().substitute(s.expr, m@) });
    let mut out: Vec<Stamp> = Vec::new();
    for i in 0..v.len()
        invariant
            all == v@.map_values(|s: Stamp| Stamp { row: s.row, expr: al.graph().substitute(s.expr, m@) }),
            out@ =~= all.take(i as int),
    {
        out.push(Stamp::new(v[i].row, al.substitute(v[i].expr, m)));
    }
    assert(all.take(all.len() as int) =~= all);
    out
}

fn fold_noise<G: Fn(Query) -> Answer>(al: &Algebra<G>, v: &Vec<NoiseSource>, m: &Vec<(SymbolId, ExprId)>) -> (r: Vec<
    NoiseSource,
>)
    ensures
        noise_views(r@) == noise_views(v@).map_values(
            |n: NoiseView|
                NoiseView {
                    psd: al.graph().substitute(n.psd, m@),
                    flicker_exp: al.graph().substitute(n.flicker_exp, m@),
                    ..n
                },
        ),
{
    let ghost f = |n: NoiseView|
        NoiseView {
            psd: al.graph().substitute(n.psd, m@),
            flicker_exp: al.graph().substitute(n.flicker_exp, m@),
            ..n
        };
    let ghost all = noise_views(v@).map_values(f);
    let mut out: Vec<NoiseSource> = Vec::new();
    for i in 0..v.len()
        invariant
            f == (|n: NoiseView|
                NoiseView {
                    psd: al.graph().substitute(n.psd, m@),
                    flicker_exp: al.graph().substitute(n.flicker_exp, m@),
                    ..n
                }),
            all == noise_views(v@).map_values(f),
            noise_views(out@) =~= all.take(i as int),
    {
        let ghost before = noise_views(out@);
        let mut c = copy_noise(&v[i]);
        c.psd = al.substitute(c.psd, m);
        c.flicker_exp = al.substitute(c.flicker_exp, m);
        assert(noise_views(v@)[i as int] == v@[i as int]@);
        assert(c@ == all[i as int]);
        out.push(c);
        assert(noise_views(out@) =~= before.push(all[i as int]));
    }
    assert(all.take(all.len() as int) =~= all);
    out
}

fn fold_op_vars<G: Fn(Query) -> Answer>(al: &Algebra<G>, v: &Vec<OpVar>, m: &Vec<(SymbolId, ExprId)>) -> (r: Vec<OpVar>)
    ensures
        op_views(r@) == op_views(v@).map_values(
            |o: OpVarView| OpVarView { value: al.graph().substitute(o.value, m@), ..o },
        ),
{
    let ghost all = op_views(v@).map_values(
        |o: OpVarView| OpVarView { value: al.graph().substitute(o.value, m@), ..o },
    );
    let mut out: Vec<OpVar> = Vec::new();
    for i in 0..v.len()
        invariant
            all == op_views(v@).map_values(
                |o: OpVarView| OpVarView { value: al.graph().substitute(o.value, m@), ..o },
            ),
            op_views(out@) =~= all.take(i as int),
    {
        let ghost before = op_views(out@);
        let c = op_var_with(&v[i], al.substitute(v[i].value, m));
        assert(op_views(v@)[i as int] == v@[i as int]@);
        assert(c@ == all[i as int]);
        out.push(c);
        assert(op_views(out@) =~= before.push(all[i as int]));
    }
    assert(all.take(all.len() as int) =~= all);
    out
}

fn fold_events<G: Fn(Query) -> Answer>(al: &Algebra<G>, v: &Vec<EventSpec>, m: &Vec<(SymbolId, ExprId)>) -> (r: Vec<
    EventSpec,
>)
    ensures
        event_views(r@) == event_views(v@).map_values(
            |e: EventView| EventView { g: al.graph().substitute(e.g, m@), ..e },
        ),
{
    let ghost all = event_views(v@).map_values(|e: EventView| EventView { g: al.graph().substitute(e.g, m@), ..e });
    let mut out: Vec<EventSpec> = Vec::new();
    for i in 0..v.len()
        invariant
            all == event_views(v@).map_values(
                |e: EventView| EventView { g: al.graph().substitute(e.g, m@), ..e },
            ),
            event_views(out@) =~= all.take(i as int),
    {
        let ghost before = event_views(out@);
        let n = v[i].name.clone();
        out.push(EventSpec { g: al.substitute(v[i].g, m), dir: v[i].dir, name: n });
        assert(event_views(v@)[i as int] == v@[i as int]@);
        assert(event_views(out@) =~= before.push(all[i as int]));
    }
    assert(all.take(all.len() as int) =~= all);
    out
}

fn fold_delays<G: Fn(Query) -> Answer>(al: &Algebra<G>, v: &Vec<DelaySpec>, m: &Vec<(SymbolId, ExprId)>) -> (r: Vec<
    DelaySpec,
>)
    ensures
        r@ == v@.map_values(|l: DelaySpec| DelaySpec { tau: al.graph().substitute(l.tau, m@), ..l }),
{
    let ghost all = v@.map_values(|l: DelaySpec| DelaySpec { tau: al.graph().substitute(l.tau, m@), ..l });
    let mut out: Vec<DelaySpec> = Vec::new();
    for i in 0..v.len()
        invariant
            all == v@.map_values(|l: DelaySpec| DelaySpec { tau: al.graph().substitute(l.tau, m@), ..l }),
            out@ =~= all.take(i as int),
    {
        let l = v[i];
        out.push(DelaySpec { src: l.src, out: l.out, hist: l.hist, tau: al.substitute(l.tau, m) });
    }
    assert(all.take(all.len() as int) =~= all);
    out
}

impl Dae {
    /// Derive a new system with parameters folded to constants in every residual,
    /// stamp, noise density and registry. The unknown structure and the numeric
    /// companion and limit tables are unchanged.
    pub fn fold_params<G: Fn(Query) -> Answer>(&self, al: &Algebra<G>, fold: &Vec<(SymbolId, u64)>) -> (r: Dae)
        ensures
            r@ == folded(al.graph(), self@, fold@),
    {
        let ghost all = fold_map(al.graph(), fold@);
        let mut m: Vec<(SymbolId, ExprId)> = Vec::new();
        for i in 0..fold.len()
            invariant
                all == fold_map(al.graph(), fold@),
                m@ =~= all.take(i as int),
        {
            m.push((fold[i].0, al.number(fold[i].1)));
        }
        assert(all.take(all.len() as int) =~= all);
        Dae {
            residuals: substitute_all(al, &self.residuals, &m),
            unknowns: copy_texts(&self.unknowns),
            kinds: copy_kinds(&self.kinds),
            x: copy_symbols(&self.x),
            xdot: copy_slots(&self.xdot),
            t: self.t,
            n_nodes: self.n_nodes,
            param_defaults: symbol_table_clone(&self.param_defaults),
            events: fold_events(al, &self.events, &m),
            delays: fold_delays(al, &self.delays, &m),
            stamps: fold_stamps(al, &self.stamps, &m),
            companion: copy_companion(&self.companion),
            noise_sources: fold_noise(al, &self.noise_sources, &m),
            op_vars: fold_op_vars(al, &self.op_vars, &m),
            dc_seeds: copy_seeds(&self.dc_seeds),
            limits: copy_limits(&self.limits),
            sources: copy_shapes(&self.sources),
            source_names: copy_texts(&self.source_names),
        }
    }
}

/// Folding keeps the structure: the unknowns and the numeric registries are the
/// same, and there is still one equation per unknown.
pub proof fn folding_keeps_the_structure(g: Graph, d: DaeView, fold: Seq<(SymbolId, u64)>)
    requires
        d.wf(),
    ensures
        folded(g, d, fold).wf(),
        folded(g, d, fold).x == d.x,
        folded(g, d, fold).xdot == d.xdot,
        folded(g, d, fold).unknowns == d.unknowns,
        folded(g, d, fold).kinds == d.kinds,
        folded(g, d, fold).t == d.t,
        folded(g, d, fold).n_nodes == d.n_nodes,
        folded(g, d, fold).companion == d.companion,
        folded(g, d, fold).limits == d.limits,
{
    let f = folded(g, d, fold);
    assert forall|i: int| 0 <= i < f.stamps.len() implies (#[trigger] f.stamps[i]).row < f.x.len() by {
        assert(d.stamps[i].row < d.x.len());
    }
}

// ---------------------------------------------------------------------------
// Small-signal form.
// ---------------------------------------------------------------------------
/// `A(s) = dF/dx + s dF/dx'`.
pub open spec fn small_signal(g: Graph, d: DaeView) -> Seq<Seq<ExprId>> {
    let n = d.residuals.len();
    let jx = dense_x(g, d);
    let jd = dense_xdot(g, d);
    Seq::new(
        n,
        |i: int| Seq::new(n, |j: int| g.plus(jx[i][j], g.times(g.sym("s"@), jd[i][j]))),
    )
}

/// Small-signal AC system matrix: the Laplace-domain linearisation of the system
/// at its operating point.
pub fn small_signal_matrix<G: Fn(Query) -> Answer>(al: &Algebra<G>, dae: &Dae) -> (r: Vec<Vec<ExprId>>)
    requires
        dae@.wf(),
    ensures
        rows_of(r@) == small_signal(al.graph(), dae@),
{
    let ghost g = al.graph();
    let s = al.sym("s");
    let jx = dae.jacobian_x(al);
    let jd = dae.jacobian_xdot(al);
    let ghost all = small_signal(g, dae@);
    let n: usize = dae.dim();
    assert(rows_of(jx@).len() == jx@.len());
    assert(rows_of(jd@).len() == jd@.len());
    let mut out: Vec<Vec<ExprId>> = Vec::new();
    for i in 0..n
        invariant
            dae@.wf(),
            n == dae@.residuals.len(),
            g == al.graph(),
            s == g.sym("s"@),
            rows_of(jx@) == dense_x(g, dae@),
            rows_of(jd@) == dense_xdot(g, dae@),
            jx@.len() == n,
            jd@.len() == n,
            all == small_signal(g, dae@),
            rows_of(out@) =~= all.take(i as int),
    {
        assert(rows_of(jx@)[i as int] == jx@[i as int]@);
        assert(rows_of(jd@)[i as int] == jd@[i as int]@);
        let mut row: Vec<ExprId> = Vec::new();
        for j in 0..n
            invariant
                dae@.wf(),
                0 <= i < n,
                n == dae@.residuals.len(),
                g == al.graph(),
                s == g.sym("s"@),
                rows_of(jx@) == dense_x(g, dae@),
                rows_of(jd@) == dense_xdot(g, dae@),
                jx@.len() == n,
                jd@.len() == n,
                jx@[i as int]@ == dense_x(g, dae@)[i as int],
                jd@[i as int]@ == dense_xdot(g, dae@)[i as int],
                all == small_signal(g, dae@),
                row@ =~= all[i as int].take(j as int),
        {
            let e = al.plus(jx[i][j], al.times(s, jd[i][j]));
            row.push(e);
        }
        assert(all[i as int].take(n as int) =~= all[i as int]);
        let ghost before = rows_of(out@);
        out.push(row);
        assert(rows_of(out@) =~= before.push(all[i as int]));
    }
    assert(all.take(all.len() as int) =~= all);
    out
}

/// The first name from `i` on that equals another.
pub open spec fn position(names: Seq<Seq<char>>, key: Seq<char>, i: int) -> Option<int>
    decreases names.len() - i,
{
    if i < 0 || i >= names.len() {
        None
    } else if names[i] == key {
        Some(i)
    } else {
        position(names, key, i + 1)
    }
}

/// The matrix with one column replaced by the excitation `-dF/d(input)`.
pub open spec fn excited(g: Graph, d: DaeView, a: Seq<Seq<ExprId>>, input: Seq<char>, col: int) -> Seq<Seq<ExprId>> {
    Seq::new(
        a.len(),
        |i: int| a[i].update(col, g.neg(g.derive(d.residuals[i], g.symbol(input)))),
    )
}

/// Numerator and denominator of the small-signal transfer function from an
/// input to an unknown, by Cramer's rule on `A(s)`.
pub open spec fn transfer(g: Graph, d: DaeView, input: Seq<char>, output: Seq<char>) -> Option<(ExprId, ExprId)> {
    match position(d.unknowns, output, 0) {
        None => None,
        Some(col) => {
            let a = small_signal(g, d);
            Some((g.determinant(excited(g, d, a, input, col)), g.determinant(a)))
        },
    }
}

fn find_text(names: &Vec<String>, key: &str) -> (r: Option<usize>)
    ensures
        match r {
            Some(i) => i < names@.len() && position(texts(names@), key@, 0) == Some(i as int),
            None => position(texts(names@), key@, 0) is None,
        },
{
    let ghost t = texts(names@);
    for i in 0..names.len()
        invariant
            t == texts(names@),
            position(t, key@, i as int) == position(t, key@, 0),
    {
        assert(t[i as int] == names@[i as int]@);
        if same(&names[i], key) {
            return Some(i);
        }
    }
    None
}

/// The numerator and denominator determinants `(N(s), D(s))` of the small-signal
/// transfer function. `None` if the output unknown is not found.
pub fn small_signal_transfer_nd<G: Fn(Query) -> Answer>(al: &Algebra<G>, dae: &Dae, input: &str, output: &str) -> (r: Option<
    (ExprId, ExprId),
>)
    requires
        dae@.wf(),
    ensures
        r == transfer(al.graph(), dae@, input@, output@),
{
    let ghost g = al.graph();
    let col: usize = match find_text(&dae.unknowns, output) {
        None => {
            return None;
        },
        Some(c) => c,
    };
    let input_sym = al.symbol(input);
    let a = small_signal_matrix(al, dae);
    let den = al.determinant(&a);
    let mut b = copy_rows(&a);
    let ghost av = rows_of(a@);
    let ghost goal = excited(g, dae@, av, input@, col as int);
    let n: usize = dae.dim();
    for i in 0..n
        invariant
            dae@.wf(),
            n == dae@.residuals.len(),
            g == al.graph(),
            input_sym == g.symbol(input@),
            av == small_signal(g, dae@),
            av.len() == n,
            col < n,
            b@.len() == n,
            goal == excited(g, dae@, av, input@, col as int),
            forall|k: int| 0 <= k < i ==> (#[trigger] b@[k])@ =~= goal[k],
            forall|k: int| i <= k < n ==> (#[trigger] b@[k])@ =~= av[k],
    {
        let e = al.neg(al.derive(dae.residuals[i], input_sym));
        assert(b@[i as int]@ =~= av[i as int]);
        assert(av[i as int].len() == n);
        b[i].set(col, e);
        assert(b@[i as int]@ =~= goal[i as int]);
    }
    assert(rows_of(b@) =~= goal);
    let num = al.determinant(&b);
    Some((num, den))
}

/// Small-signal transfer function `H(s) = X(output) / In`, where `input` names an
/// independent-source parameter and `output` an unknown. `None` if the output
/// unknown is not found.
pub fn small_signal_transfer<G: Fn(Query) -> Answer>(al: &Algebra<G>, dae: &Dae, input: &str, output: &str) -> (r: Option<
    ExprId,
>)
    requires
        dae@.wf(),
    ensures
        r == match transfer(al.graph(), dae@, input@, output@) {
            Some((n, d)) => Some(al.graph().over(n, d)),
            None => None,
        },
{
    match small_signal_transfer_nd(al, dae, input, output) {
        Some((n, d)) => Some(al.over(n, d)),
        None => None,
    }
}

} // verus!

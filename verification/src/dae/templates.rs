//! Element-stamp templates for assembling the symbolic Jacobian.
//!
//! Every element contributes one or more stamps to the system, and the Jacobian
//! is the sum of the per-stamp local Jacobians. Two stamps that differ only in
//! which symbols they reference share a *template*: the contribution is renamed
//! to a fixed pool of placeholders in structural encounter order, the canonical
//! form is differentiated, and each instance is had back by putting its own
//! symbols in place of the placeholders.
use crate::dae::jacobian::{column_of, fill, filled, find_column, holds, holds_symbol, push_entry, Entry, SparseBlock};
use crate::dae::linearize::{list_rates, rates_from};
use crate::dae::system::{copy_symbols, Dae, DaeView, Stamp};
use crate::symbolic::{Algebra, Answer, ExprId, Graph, Query, SymbolId};
use crate::text::{concat2, decimal, decimal_text};
use std::collections::HashSet;
use vstd::prelude::*;

verus! {

// ---------------------------------------------------------------------------
// Symbols in encounter order.
// ---------------------------------------------------------------------------
/// How far a walk over an expression has come.
pub struct Walk {
    pub seen: Set<u64>,
    pub order: Seq<SymbolId>,
}

/// The walk over one expression: each expression is entered once, and each symbol
/// is noted where it is first met.
pub open spec fn walked(g: Graph, e: ExprId, w: Walk) -> Walk
    decreases e.0, 1int, 0int,
{
    if w.seen.contains(e.0) {
        w
    } else {
        let seen = w.seen.insert(e.0);
        match g.as_symbol(e) {
            Some(s) => Walk {
                seen,
                order: if w.order.contains(s) {
                    w.order
                } else {
                    w.order.push(s)
                },
            },
            None => walked_parts(g, e, g.parts(e), 0, Walk { seen, order: w.order }),
        }
    }
}

/// The walk over the parts of an expression from `k` on. Only earlier expressions
/// are entered.
pub open spec fn walked_parts(g: Graph, e: ExprId, v: Seq<ExprId>, k: int, w: Walk) -> Walk
    decreases e.0, 0int, v.len() - k,
{
    if k < 0 || k >= v.len() {
        w
    } else if v[k].0 < e.0 {
        walked_parts(g, e, v, k + 1, walked(g, v[k], w))
    } else {
        walked_parts(g, e, v, k + 1, w)
    }
}

/// The symbols of an expression in structural first-encounter order.
pub open spec fn encounter(g: Graph, e: ExprId) -> Seq<SymbolId> {
    walked(g, e, Walk { seen: Set::empty(), order: seq![] }).order
}

fn go<G: Fn(Query) -> Answer>(al: &Algebra<G>, e: ExprId, seen: &mut HashSet<u64>, order: &mut Vec<SymbolId>)
    ensures
        (Walk { seen: final(seen)@, order: final(order)@ }) == walked(
            al.graph(),
            e,
            (Walk { seen: old(seen)@, order: old(order)@ }),
        ),
    decreases e.0,
{
    broadcast use vstd::std_specs::hash::group_hash_axioms;

    let ghost g = al.graph();
    let ghost start = Walk { seen: seen@, order: order@ };
    if seen.contains(&e.0) {
        return;
    }
    seen.insert(e.0);
    let (symbol, parts) = al.parts(e);
    if let Some(s) = symbol {
        if !holds_symbol(order, s) {
            order.push(s);
        }
        return;
    }
    let ghost goal = walked(g, e, start);
    for k in 0..parts.len()
        invariant
            g == al.graph(),
            goal == walked_parts(g, e, parts@, k as int, (Walk { seen: seen@, order: order@ })),
        decreases parts.len() - k,
    {
        let p = parts[k];
        if p.0 < e.0 {
            go(al, p, seen, order);
        }
    }
}

/// The symbols of an expression in structural first-encounter order. Two
/// expressions that differ only in their symbols give corresponding orders.
pub fn symbols_in_order<G: Fn(Query) -> Answer>(al: &Algebra<G>, e: ExprId) -> (r: Vec<SymbolId>)
    ensures
        r@ == encounter(al.graph(), e),
{
    let mut seen: HashSet<u64> = HashSet::new();
    let mut order: Vec<SymbolId> = Vec::new();
    proof {
        assert(seen@ =~= Set::empty());
        assert(order@ =~= seq![]);
    }
    go(al, e, &mut seen, &mut order);
    order
}

// ---------------------------------------------------------------------------
// Canonical forms.
// ---------------------------------------------------------------------------
/// The placeholders of the symbols from `k` on, each with the symbol it stands
/// for. Variables and parameters are counted apart; the time keeps its name.
pub open spec fn renamed(
    g: Graph,
    t: SymbolId,
    vars: Seq<SymbolId>,
    order: Seq<SymbolId>,
    k: int,
    np: nat,
    nq: nat,
) -> Seq<(SymbolId, SymbolId)>
    decreases order.len() - k,
{
    if k < 0 || k >= order.len() {
        seq![]
    } else if order[k] == t {
        renamed(g, t, vars, order, k + 1, np, nq)
    } else if vars.contains(order[k]) {
        seq![(g.symbol("$p"@ + decimal(np)), order[k])] + renamed(g, t, vars, order, k + 1, np + 1, nq)
    } else {
        seq![(g.symbol("$q"@ + decimal(nq)), order[k])] + renamed(g, t, vars, order, k + 1, np, nq + 1)
    }
}

/// Symbols to placeholders.
pub open spec fn forth(g: Graph, names: Seq<(SymbolId, SymbolId)>) -> Seq<(SymbolId, ExprId)> {
    names.map_values(|p: (SymbolId, SymbolId)| (p.1, g.symbol_expr(p.0)))
}

/// Placeholders to symbols.
pub open spec fn back(g: Graph, names: Seq<(SymbolId, SymbolId)>) -> Seq<(SymbolId, ExprId)> {
    names.map_values(|p: (SymbolId, SymbolId)| (p.0, g.symbol_expr(p.1)))
}

/// The canonical form of a contribution.
#[derive(Debug)]
pub struct Canon {
    /// The expression over the placeholders.
    pub canon: ExprId,
    /// Every placeholder in encounter order, with the symbol it stands for.
    pub names: Vec<(SymbolId, SymbolId)>,
}

pub open spec fn names_of(g: Graph, t: SymbolId, vars: Seq<SymbolId>, e: ExprId) -> Seq<(SymbolId, SymbolId)> {
    renamed(g, t, vars, encounter(g, e), 0, 0, 0)
}

pub open spec fn canonical(g: Graph, t: SymbolId, vars: Seq<SymbolId>, e: ExprId) -> ExprId {
    g.substitute(e, forth(g, names_of(g, t, vars, e)))
}

/// Rename every symbol but the time to a placeholder, in structural encounter
/// order: a port placeholder for a variable, a parameter placeholder otherwise.
pub fn canonicalize<G: Fn(Query) -> Answer>(al: &Algebra<G>, e: ExprId, t: SymbolId, vars: &Vec<SymbolId>) -> (r: Canon)
    ensures
        r.names@ == names_of(al.graph(), t, vars@, e),
        r.canon == canonical(al.graph(), t, vars@, e),
{
    let ghost g = al.graph();
    let order = symbols_in_order(al, e);
    let ghost goal = renamed(g, t, vars@, order@, 0, 0, 0);
    let mut names: Vec<(SymbolId, SymbolId)> = Vec::new();
    let mut fwd: Vec<(SymbolId, ExprId)> = Vec::new();
    let mut np: u64 = 0;
    let mut nq: u64 = 0;
    proof {
        assert(names@ + goal =~= goal);
        assert(fwd@ =~= forth(g, names@));
    }
    for k in 0..order.len()
        invariant
            g == al.graph(),
            np <= k,
            nq <= k,
            order@.len() <= usize::MAX,
            names@ + renamed(g, t, vars@, order@, k as int, np as nat, nq as nat) == goal,
            fwd@ == forth(g, names@),
    {
        let s = order[k];
        if s != t {
            let var = holds_symbol(vars, s);
            let label = if var {
                concat2("$p", &decimal_text(np))
            } else {
                concat2("$q", &decimal_text(nq))
            };
            let c = al.symbol(&label);
            let ghost before = names@;
            let ghost fb = fwd@;
            names.push((c, s));
            fwd.push((s, al.symbol_expr(c)));
            let ghost rest = if var {
                renamed(g, t, vars@, order@, k + 1, (np + 1) as nat, nq as nat)
            } else {
                renamed(g, t, vars@, order@, k + 1, np as nat, (nq + 1) as nat)
            };
            proof {
                assert(before.push((c, s)) + rest =~= before + (seq![(c, s)] + rest));
                assert(fwd@ =~= forth(g, names@));
            }
            if var {
                np = np + 1;
            } else {
                nq = nq + 1;
            }
        }
    }
    assert(names@ + seq![] =~= names@);
    let canon = al.substitute(e, &fwd);
    Canon { canon, names }
}

// ---------------------------------------------------------------------------
// Blocks.
// ---------------------------------------------------------------------------
/// The entries of one stamp in one block, for the placeholders from `k` on.
pub open spec fn stamp_entries(
    g: Graph,
    row: usize,
    canon: ExprId,
    names: Seq<(SymbolId, SymbolId)>,
    slots: Seq<Option<SymbolId>>,
    k: int,
) -> Seq<Entry>
    decreases names.len() - k,
{
    if k < 0 || k >= names.len() {
        seq![]
    } else {
        let rest = stamp_entries(g, row, canon, names, slots, k + 1);
        match column_of(slots, names[k].1) {
            Some(col) => {
                let d = g.derive(canon, names[k].0);
                let own = g.substitute(d, back(g, names));
                if g.is_zero(d) || g.is_zero(own) {
                    rest
                } else {
                    seq![(row, col, own)] + rest
                }
            },
            None => rest,
        }
    }
}

/// The entries of one stamp by direct differentiation.
pub open spec fn direct_entries(
    g: Graph,
    row: usize,
    e: ExprId,
    names: Seq<(SymbolId, SymbolId)>,
    slots: Seq<Option<SymbolId>>,
    k: int,
) -> Seq<Entry>
    decreases names.len() - k,
{
    if k < 0 || k >= names.len() {
        seq![]
    } else {
        let rest = direct_entries(g, row, e, names, slots, k + 1);
        match column_of(slots, names[k].1) {
            Some(col) => {
                let d = g.derive(e, names[k].1);
                if g.is_zero(d) {
                    rest
                } else {
                    seq![(row, col, d)] + rest
                }
            },
            None => rest,
        }
    }
}

/// Renaming commutes with differentiation: putting the symbols back into a
/// derivative of the canonical form gives the derivative of the original, and a
/// zero comes from a zero.
pub open spec fn commutes(g: Graph, canon: ExprId, e: ExprId, names: Seq<(SymbolId, SymbolId)>) -> bool {
    forall|k: int|
        0 <= k < names.len() ==> {
            let d = g.derive(canon, (#[trigger] names[k]).0);
            &&& g.substitute(d, back(g, names)) == g.derive(e, names[k].1)
            &&& (g.is_zero(d) ==> g.is_zero(g.derive(e, names[k].1)))
        }
}

/// Wherever renaming commutes with differentiation, a template gives exactly the
/// entries of differentiating the contribution itself.
pub proof fn templates_are_exact(
    g: Graph,
    row: usize,
    canon: ExprId,
    e: ExprId,
    names: Seq<(SymbolId, SymbolId)>,
    slots: Seq<Option<SymbolId>>,
    k: int,
)
    requires
        0 <= k,
        commutes(g, canon, e, names),
    ensures
        stamp_entries(g, row, canon, names, slots, k) == direct_entries(g, row, e, names, slots, k),
    decreases names.len() - k,
{
    if k < names.len() {
        templates_are_exact(g, row, canon, e, names, slots, k + 1);
        assert(names[k] == names[k]);
    }
}

/// Row and column in order.
pub open spec fn earlier(a: Entry, b: Entry) -> bool {
    a.0 < b.0 || (a.0 == b.0 && a.1 < b.1)
}

/// An entry added to an ascending list whose first `i` entries are still to be
/// compared: it joins the entry of its cell, or goes in where it belongs.
pub open spec fn joined(g: Graph, acc: Seq<Entry>, e: Entry, i: int) -> Seq<Entry>
    decreases i,
{
    if i <= 0 {
        acc.insert(0, e)
    } else {
        let last = acc[i - 1];
        if last.0 == e.0 && last.1 == e.1 {
            acc.update(i - 1, (e.0, e.1, g.plus(last.2, e.2)))
        } else if earlier(last, e) {
            acc.insert(i, e)
        } else {
            joined(g, acc, e, i - 1)
        }
    }
}

/// The entries added one after the other to a list.
pub open spec fn gathered(g: Graph, acc: Seq<Entry>, v: Seq<Entry>, k: int) -> Seq<Entry>
    decreases v.len() - k,
{
    if k < 0 || k >= v.len() {
        acc
    } else {
        gathered(g, joined(g, acc, v[k], acc.len() as int), v, k + 1)
    }
}

/// The cells of the first `i` stamps.
pub open spec fn cells(
    g: Graph,
    t: SymbolId,
    vars: Seq<SymbolId>,
    stamps: Seq<Stamp>,
    slots: Seq<Option<SymbolId>>,
    i: int,
) -> Seq<Entry>
    decreases i,
{
    if i <= 0 {
        seq![]
    } else {
        let s = stamps[i - 1];
        let own = stamp_entries(
            g,
            s.row,
            canonical(g, t, vars, s.expr),
            names_of(g, t, vars, s.expr),
            slots,
            0,
        );
        gathered(g, cells(g, t, vars, stamps, slots, i - 1), own, 0)
    }
}

/// The entries from `k` on that have not cancelled.
pub open spec fn nonzero(g: Graph, v: Seq<Entry>, k: int) -> Seq<Entry>
    decreases v.len() - k,
{
    if k < 0 || k >= v.len() {
        seq![]
    } else if g.is_zero(v[k].2) {
        nonzero(g, v, k + 1)
    } else {
        seq![v[k]] + nonzero(g, v, k + 1)
    }
}

/// A Jacobian block from the stamps: one entry per cell, by row and column.
pub open spec fn block(
    g: Graph,
    t: SymbolId,
    vars: Seq<SymbolId>,
    stamps: Seq<Stamp>,
    slots: Seq<Option<SymbolId>>,
) -> Seq<Entry> {
    nonzero(g, cells(g, t, vars, stamps, slots, stamps.len() as int), 0)
}

/// The cells of a list ascend.
pub open spec fn ascending(v: Seq<Entry>) -> bool {
    forall|i: int, j: int| 0 <= i < j < v.len() ==> earlier(#[trigger] v[i], #[trigger] v[j])
}

proof fn joined_ascends(g: Graph, acc: Seq<Entry>, e: Entry, i: int)
    requires
        0 <= i <= acc.len(),
        ascending(acc),
        forall|j: int| i <= j < acc.len() ==> earlier(e, #[trigger] acc[j]),
    ensures
        ascending(joined(g, acc, e, i)),
    decreases i,
{
    if i > 0 {
        let last = acc[i - 1];
        if !(last.0 == e.0 && last.1 == e.1) && !earlier(last, e) {
            joined_ascends(g, acc, e, i - 1);
        }
    }
}

proof fn gathered_ascends(g: Graph, acc: Seq<Entry>, v: Seq<Entry>, k: int)
    requires
        0 <= k,
        ascending(acc),
    ensures
        ascending(gathered(g, acc, v, k)),
    decreases v.len() - k,
{
    if k < v.len() {
        joined_ascends(g, acc, v[k], acc.len() as int);
        gathered_ascends(g, joined(g, acc, v[k], acc.len() as int), v, k + 1);
    }
}

proof fn nonzero_ascends(g: Graph, v: Seq<Entry>, k: int)
    requires
        0 <= k,
        ascending(v),
    ensures
        ascending(nonzero(g, v, k)),
        forall|j: int|
            0 <= j < nonzero(g, v, k).len() ==> !g.is_zero((#[trigger] nonzero(g, v, k)[j]).2) && exists|i: int|
                k <= i < v.len() && v[i] == nonzero(g, v, k)[j],
    decreases v.len() - k,
{
    if k < v.len() {
        nonzero_ascends(g, v, k + 1);
        let rest = nonzero(g, v, k + 1);
        if !g.is_zero(v[k].2) {
            let all = nonzero(g, v, k);
            assert(all =~= seq![v[k]] + rest);
            assert forall|i: int, j: int| 0 <= i < j < all.len() implies earlier(#[trigger] all[i], #[trigger] all[j]) by {
                assert(all[j] == rest[j - 1]);
                if i > 0 {
                    assert(all[i] == rest[i - 1]);
                } else {
                    let m = choose|m: int| k + 1 <= m < v.len() && v[m] == rest[j - 1];
                    assert(earlier(v[k], v[m]));
                }
            }
            assert forall|j: int| 0 <= j < all.len() implies !g.is_zero((#[trigger] all[j]).2) && exists|i: int|
                k <= i < v.len() && v[i] == all[j] by {
                if j > 0 {
                    assert(all[j] == rest[j - 1]);
                    let m = choose|m: int| k + 1 <= m < v.len() && v[m] == rest[j - 1];
                    assert(v[m] == all[j]);
                } else {
                    assert(v[k] == all[j]);
                }
            }
        } else {
            assert(nonzero(g, v, k) == rest);
            assert forall|j: int| 0 <= j < rest.len() implies exists|i: int| k <= i < v.len() && v[i]
                == #[trigger] rest[j] by {
                let m = choose|m: int| k + 1 <= m < v.len() && v[m] == rest[j];
                assert(v[m] == rest[j]);
            }
        }
    }
}

proof fn cells_ascend(g: Graph, t: SymbolId, vars: Seq<SymbolId>, stamps: Seq<Stamp>, slots: Seq<Option<SymbolId>>, i: int)
    ensures
        ascending(cells(g, t, vars, stamps, slots, i)),
    decreases i,
{
    if i > 0 {
        cells_ascend(g, t, vars, stamps, slots, i - 1);
        let s = stamps[i - 1];
        let own = stamp_entries(
            g,
            s.row,
            canonical(g, t, vars, s.expr),
            names_of(g, t, vars, s.expr),
            slots,
            0,
        );
        gathered_ascends(g, cells(g, t, vars, stamps, slots, i - 1), own, 0);
    }
}

/// A block names each cell at most once, in order of row and column, and holds no
/// structural zero.
pub proof fn block_is_sparse(
    g: Graph,
    t: SymbolId,
    vars: Seq<SymbolId>,
    stamps: Seq<Stamp>,
    slots: Seq<Option<SymbolId>>,
)
    ensures
        ascending(block(g, t, vars, stamps, slots)),
        forall|j: int|
            0 <= j < block(g, t, vars, stamps, slots).len() ==> !g.is_zero(
                (#[trigger] block(g, t, vars, stamps, slots)[j]).2,
            ),
{
    cells_ascend(g, t, vars, stamps, slots, stamps.len() as int);
    nonzero_ascends(g, cells(g, t, vars, stamps, slots, stamps.len() as int), 0);
}

fn join_entry<G: Fn(Query) -> Answer>(al: &Algebra<G>, acc: &mut Vec<Entry>, e: Entry)
    ensures
        final(acc)@ == joined(al.graph(), old(acc)@, e, old(acc)@.len() as int),
{
    let ghost g = al.graph();
    let ghost start = acc@;
    let ghost goal = joined(g, start, e, start.len() as int);
    let mut i: usize = acc.len();
    while i > 0
        invariant
            g == al.graph(),
            start == old(acc)@,
            goal == joined(g, old(acc)@, e, old(acc)@.len() as int),
            acc@ == start,
            i <= acc@.len(),
            goal == joined(g, start, e, i as int),
        decreases i,
    {
        let last = acc[i - 1];
        if last.0 == e.0 && last.1 == e.1 {
            let sum = al.plus(last.2, e.2);
            acc.set(i - 1, (e.0, e.1, sum));
            return;
        }
        if last.0 < e.0 || (last.0 == e.0 && last.1 < e.1) {
            acc.insert(i, e);
            return;
        }
        i = i - 1;
    }
    acc.insert(0, e);
}

fn add_stamp<G: Fn(Query) -> Answer>(
    al: &Algebra<G>,
    row: usize,
    c: &Canon,
    slots: &Vec<Option<SymbolId>>,
    acc: &mut Vec<Entry>,
)
    ensures
        final(acc)@ == gathered(
            al.graph(),
            old(acc)@,
            stamp_entries(al.graph(), row, c.canon, c.names@, slots@, 0),
            0,
        ),
{
    let ghost g = al.graph();
    let ghost own = stamp_entries(g, row, c.canon, c.names@, slots@, 0);
    let ghost goal = gathered(g, acc@, own, 0);
    let ghost all = back(g, c.names@);
    let mut inst: Vec<(SymbolId, ExprId)> = Vec::new();
    for k in 0..c.names.len()
        invariant
            g == al.graph(),
            all == back(g, c.names@),
            inst@ =~= all.take(k as int),
    {
        inst.push((c.names[k].0, al.symbol_expr(c.names[k].1)));
    }
    assert(all.take(all.len() as int) =~= all);
    let ghost mut done: int = 0;
    assert(own.skip(0) =~= own);
    for k in 0..c.names.len()
        invariant
            g == al.graph(),
            inst@ == back(g, c.names@),
            own == stamp_entries(g, row, c.canon, c.names@, slots@, 0),
            0 <= done <= own.len(),
            own.skip(done) == stamp_entries(g, row, c.canon, c.names@, slots@, k as int),
            gathered(g, acc@, own, done) == goal,
    {
        let (p, s) = c.names[k];
        if let Some(col) = find_column(slots, s) {
            let d = al.derive(c.canon, p);
            if !al.is_zero(d) {
                let e = al.substitute(d, &inst);
                if !al.is_zero(e) {
                    proof {
                        let rest = stamp_entries(g, row, c.canon, c.names@, slots@, k + 1);
                        assert(own.skip(done) == seq![(row, col, e)] + rest);
                        assert(own.skip(done)[0] == own[done]);
                        assert(own.skip(done + 1) =~= own.skip(done).skip(1));
                        assert(own.skip(done).skip(1) =~= rest);
                        done = done + 1;
                    }
                    join_entry(al, acc, (row, col, e));
                }
            }
        }
    }
    proof {
        assert(own.skip(done).len() == 0);
    }
}

fn strip<G: Fn(Query) -> Answer>(al: &Algebra<G>, v: &Vec<Entry>) -> (r: SparseBlock)
    ensures
        holds(r, nonzero(al.graph(), v@, 0)),
{
    let ghost g = al.graph();
    let ghost goal = nonzero(g, v@, 0);
    let mut out: SparseBlock = (Vec::new(), Vec::new(), Vec::new());
    let ghost mut done: Seq<Entry> = seq![];
    proof {
        assert(out.0@ =~= done.map_values(|t: Entry| t.0));
        assert(out.1@ =~= done.map_values(|t: Entry| t.1));
        assert(out.2@ =~= done.map_values(|t: Entry| t.2));
        assert(done + goal =~= goal);
    }
    for k in 0..v.len()
        invariant
            g == al.graph(),
            holds(out, done),
            done + nonzero(g, v@, k as int) == goal,
    {
        let e = v[k];
        if !al.is_zero(e.2) {
            push_entry(&mut out, e.0, e.1, e.2, Ghost(done));
            proof {
                let rest = nonzero(g, v@, k + 1);
                assert(done.push(e) + rest =~= done + (seq![e] + rest));
                done = done.push(e);
            }
        }
    }
    assert(done + seq![] =~= done);
    out
}

/// The canonical forms of a list of stamps.
fn canonicalize_all<G: Fn(Query) -> Answer>(al: &Algebra<G>, stamps: &Vec<Stamp>, t: SymbolId, vars: &Vec<SymbolId>) -> (r:
    Vec<Canon>)
    ensures
        r@.len() == stamps@.len(),
        forall|i: int|
            0 <= i < r@.len() ==> (#[trigger] r@[i]).names@ == names_of(al.graph(), t, vars@, stamps@[i].expr)
                && r@[i].canon == canonical(al.graph(), t, vars@, stamps@[i].expr),
{
    let mut out: Vec<Canon> = Vec::new();
    for i in 0..stamps.len()
        invariant
            out@.len() == i,
            forall|j: int|
                0 <= j < i ==> (#[trigger] out@[j]).names@ == names_of(al.graph(), t, vars@, stamps@[j].expr)
                    && out@[j].canon == canonical(al.graph(), t, vars@, stamps@[j].expr),
    {
        out.push(canonicalize(al, stamps[i].expr, t, vars));
    }
    out
}

/// Assemble one sparse Jacobian block from element stamps via their templates.
/// `vars` tells the differentiation variables from the parameters; `slots` gives
/// the column of each symbol that this block differentiates against. A symbol
/// without a column is skipped, so the same stamps serve every block.
pub fn assemble_jacobian<G: Fn(Query) -> Answer>(
    al: &Algebra<G>,
    stamps: &Vec<Stamp>,
    t: SymbolId,
    vars: &Vec<SymbolId>,
    slots: &Vec<Option<SymbolId>>,
) -> (r: SparseBlock)
    ensures
        holds(r, block(al.graph(), t, vars@, stamps@, slots@)),
{
    let canons = canonicalize_all(al, stamps, t, vars);
    assemble_block(al, stamps, &canons, slots, Ghost(t), Ghost(vars@))
}

fn assemble_block<G: Fn(Query) -> Answer>(
    al: &Algebra<G>,
    stamps: &Vec<Stamp>,
    canons: &Vec<Canon>,
    slots: &Vec<Option<SymbolId>>,
    Ghost(t): Ghost<SymbolId>,
    Ghost(vars): Ghost<Seq<SymbolId>>,
) -> (r: SparseBlock)
    requires
        canons@.len() == stamps@.len(),
        forall|i: int|
            0 <= i < canons@.len() ==> (#[trigger] canons@[i]).names@ == names_of(al.graph(), t, vars, stamps@[i].expr)
                && canons@[i].canon == canonical(al.graph(), t, vars, stamps@[i].expr),
    ensures
        holds(r, block(al.graph(), t, vars, stamps@, slots@)),
{
    let ghost g = al.graph();
    let mut acc: Vec<Entry> = Vec::new();
    assert(acc@ =~= cells(g, t, vars, stamps@, slots@, 0));
    for i in 0..stamps.len()
        invariant
            g == al.graph(),
            canons@.len() == stamps@.len(),
            forall|i: int|
                0 <= i < canons@.len() ==> (#[trigger] canons@[i]).names@ == names_of(g, t, vars, stamps@[i].expr)
                    && canons@[i].canon == canonical(g, t, vars, stamps@[i].expr),
            acc@ == cells(g, t, vars, stamps@, slots@, i as int),
    {
        assert(canons@[i as int].names@ == names_of(g, t, vars, stamps@[i as int].expr));
        add_stamp(al, stamps[i].row, &canons[i], slots, &mut acc);
    }
    strip(al, &acc)
}

/// [`assemble_jacobian`] for several blocks at once: each stamp is brought into
/// canonical form once for all of them.
pub fn assemble_jacobians<G: Fn(Query) -> Answer>(
    al: &Algebra<G>,
    stamps: &Vec<Stamp>,
    t: SymbolId,
    vars: &Vec<SymbolId>,
    blocks: &Vec<Vec<Option<SymbolId>>>,
) -> (r: Vec<SparseBlock>)
    ensures
        r@.len() == blocks@.len(),
        forall|b: int|
            0 <= b < r@.len() ==> holds(#[trigger] r@[b], block(al.graph(), t, vars@, stamps@, blocks@[b]@)),
{
    let canons = canonicalize_all(al, stamps, t, vars);
    let mut out: Vec<SparseBlock> = Vec::new();
    for b in 0..blocks.len()
        invariant
            canons@.len() == stamps@.len(),
            forall|i: int|
                0 <= i < canons@.len() ==> (#[trigger] canons@[i]).names@ == names_of(
                    al.graph(),
                    t,
                    vars@,
                    stamps@[i].expr,
                ) && canons@[i].canon == canonical(al.graph(), t, vars@, stamps@[i].expr),
            out@.len() == b,
            forall|c: int|
                0 <= c < b ==> holds(#[trigger] out@[c], block(al.graph(), t, vars@, stamps@, blocks@[c]@)),
    {
        out.push(assemble_block(al, stamps, &canons, &blocks[b], Ghost(t), Ghost(vars@)));
    }
    out
}

/// The differentiation variables of a system: its unknowns and their derivatives.
pub open spec fn variables(d: DaeView) -> Seq<SymbolId> {
    d.x + rates_from(d.xdot, 0)
}

impl Dae {
    fn var_set(&self) -> (r: Vec<SymbolId>)
        ensures
            r@ == variables(self@),
    {
        let mut v = copy_symbols(&self.x);
        let mut w = list_rates(&self.xdot);
        v.append(&mut w);
        v
    }

    /// Sparse `dF/dx` from the stamp templates; columns index `x`.
    pub fn jacobian_x_coo_templated<G: Fn(Query) -> Answer>(&self, al: &Algebra<G>) -> (r: SparseBlock)
        ensures
            holds(r, block(al.graph(), self@.t, variables(self@), self@.stamps, filled(self@.x))),
    {
        let vars = self.var_set();
        let slots = fill(&self.x);
        assemble_jacobian(al, &self.stamps, self.t, &vars, &slots)
    }

    /// Sparse `dF/dx'` from the stamp templates; columns index `x`, and only
    /// differential unknowns contribute.
    pub fn jacobian_xdot_coo_templated<G: Fn(Query) -> Answer>(&self, al: &Algebra<G>) -> (r: SparseBlock)
        ensures
            holds(r, block(al.graph(), self@.t, variables(self@), self@.stamps, self@.xdot)),
    {
        let vars = self.var_set();
        assemble_jacobian(al, &self.stamps, self.t, &vars, &self.xdot)
    }

    /// Sparse `dF/dp` from the stamp templates; columns index `params`, which may be
    /// a part of the parameters.
    pub fn jacobian_p_coo_templated<G: Fn(Query) -> Answer>(&self, al: &Algebra<G>, params: &Vec<SymbolId>) -> (r:
        SparseBlock)
        ensures
            holds(r, block(al.graph(), self@.t, variables(self@), self@.stamps, filled(params@))),
    {
        let vars = self.var_set();
        let slots = fill(params);
        assemble_jacobian(al, &self.stamps, self.t, &vars, &slots)
    }

    /// `dF/dx` and `dF/dx'` in one pass over the stamps.
    pub fn jacobian_x_xdot_coo_templated<G: Fn(Query) -> Answer>(&self, al: &Algebra<G>) -> (r: (
        SparseBlock,
        SparseBlock,
    ))
        ensures
            holds(r.0, block(al.graph(), self@.t, variables(self@), self@.stamps, filled(self@.x))),
            holds(r.1, block(al.graph(), self@.t, variables(self@), self@.stamps, self@.xdot)),
    {
        let vars = self.var_set();
        let slots = fill(&self.x);
        let canons = canonicalize_all(al, &self.stamps, self.t, &vars);
        let x = assemble_block(al, &self.stamps, &canons, &slots, Ghost(self.t), Ghost(vars@));
        let xd = assemble_block(al, &self.stamps, &canons, &self.xdot, Ghost(self.t), Ghost(vars@));
        (x, xd)
    }
}

} // verus!

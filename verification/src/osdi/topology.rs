//! The node topology of a set-up instance: which nodes the model collapsed, and
//! where its Jacobian entries and noise sources land.
use crate::numerics::{apply2, Answers, Ask, Host, Op2, Reply, ZERO};
use vstd::prelude::*;

verus! {

pub const JACOBIAN_ENTRY_RESIST: u32 = 4;

pub const JACOBIAN_ENTRY_REACT: u32 = 8;

pub const NOISE_TYPE_WHITE: u32 = 0;

pub const NOISE_TYPE_FLICKER: u32 = 1;

pub const NOISE_TYPE_TABLE: u32 = 2;

/// The node number that means ground.
pub const GROUND: u32 = 0xffff_ffff;

/// Two nodes of a module.
#[derive(Clone, Copy, Debug, PartialEq, Eq, Structural)]
pub struct OsdiNodePair {
    pub node_1: u32,
    pub node_2: u32,
}

/// One entry of a module's Jacobian.
#[derive(Clone, Copy, Debug, PartialEq, Eq, Structural)]
pub struct OsdiJacobianEntry {
    pub nodes: OsdiNodePair,
    pub react_ptr_off: u32,
    pub flags: u32,
}

/// A noise source of a module: the nodes it drives, and its type.
#[derive(Clone, Copy, Debug, PartialEq, Eq, Structural)]
pub struct OsdiNoise {
    pub nodes: OsdiNodePair,
    pub ty: u32,
}

/// Where a node landed: its representative, or ground.
#[derive(Clone, Copy, Debug, PartialEq, Eq, Structural)]
pub enum NodeRepr {
    Active(usize),
    Ground,
}

/// What a set-up instance reports of its nodes.
#[derive(Debug)]
pub struct Report {
    pub num_nodes: usize,
    pub num_terminals: usize,
    /// The collapsible pairs, and for each whether it was collapsed.
    pub pairs: Vec<OsdiNodePair>,
    pub collapsed: Vec<bool>,
    pub entries: Vec<OsdiJacobianEntry>,
    pub noise: Vec<OsdiNoise>,
}

/// A Jacobian entry whose nodes are looked at: one that has a part.
pub open spec fn is_read(e: OsdiJacobianEntry) -> bool {
    e.flags & JACOBIAN_ENTRY_RESIST != 0 || e.flags & JACOBIAN_ENTRY_REACT != 0
}

impl Report {
    /// Every node number that is read is in range; only a second node may be
    /// ground.
    pub open spec fn fits(self) -> bool {
        &&& self.num_terminals <= self.num_nodes
        &&& self.collapsed@.len() == self.pairs@.len()
        &&& forall|k: int|
            0 <= k < self.pairs@.len() && self.collapsed@[k] ==> (#[trigger] self.pairs@[k]).node_1 < self.num_nodes
                && (self.pairs@[k].node_2 == GROUND || self.pairs@[k].node_2 < self.num_nodes)
        &&& forall|k: int|
            0 <= k < self.entries@.len() && is_read(#[trigger] self.entries@[k]) ==> self.entries@[k].nodes.node_1
                < self.num_nodes && self.entries@[k].nodes.node_2 < self.num_nodes
        &&& forall|k: int|
            0 <= k < self.noise@.len() ==> (#[trigger] self.noise@[k]).nodes.node_1 == GROUND
                || self.noise@[k].nodes.node_1 < self.num_nodes
        &&& forall|k: int|
            0 <= k < self.noise@.len() ==> (#[trigger] self.noise@[k]).nodes.node_2 == GROUND
                || self.noise@[k].nodes.node_2 < self.num_nodes
    }
}

impl Report {
    /// Whether every node number is in range.
    pub fn is_sound(&self) -> (r: bool)
        ensures
            r == self.fits(),
    {
        let n = self.num_nodes;
        if self.num_terminals > n || self.collapsed.len() != self.pairs.len() {
            return false;
        }
        for k in 0..self.pairs.len()
            invariant
                n == self.num_nodes,
                self.collapsed@.len() == self.pairs@.len(),
                forall|j: int|
                    0 <= j < k && self.collapsed@[j] ==> (#[trigger] self.pairs@[j]).node_1 < n && (
                    self.pairs@[j].node_2 == GROUND || self.pairs@[j].node_2 < n),
        {
            let p = self.pairs[k];
            if self.collapsed[k] && (p.node_1 as usize >= n || (p.node_2 != GROUND && p.node_2 as usize >= n)) {
                assert(self.pairs@[k as int] == p);
                return false;
            }
        }
        for k in 0..self.entries.len()
            invariant
                n == self.num_nodes,
                forall|j: int|
                    0 <= j < k && is_read(#[trigger] self.entries@[j]) ==> self.entries@[j].nodes.node_1 < n
                        && self.entries@[j].nodes.node_2 < n,
        {
            let p = self.entries[k].nodes;
            let flags: u32 = self.entries[k].flags;
            if (flags & JACOBIAN_ENTRY_RESIST != 0 || flags & JACOBIAN_ENTRY_REACT != 0) && (p.node_1 as usize >= n
                || p.node_2 as usize >= n) {
                assert(self.entries@[k as int].nodes == p);
                return false;
            }
        }
        for k in 0..self.noise.len()
            invariant
                n == self.num_nodes,
                forall|j: int|
                    0 <= j < k ==> ((#[trigger] self.noise@[j]).nodes.node_1 == GROUND
                        || self.noise@[j].nodes.node_1 < n) && (self.noise@[j].nodes.node_2 == GROUND
                        || self.noise@[j].nodes.node_2 < n),
        {
            let p = self.noise[k].nodes;
            if (p.node_1 != GROUND && p.node_1 as usize >= n) || (p.node_2 != GROUND && p.node_2 as usize >= n) {
                assert(self.noise@[k as int].nodes == p);
                return false;
            }
        }
        true
    }
}

/// Which of two representatives stays when their nodes merge: a terminal before
/// an internal node, and otherwise the smaller one.
pub open spec fn kept(nt: int, x: usize, y: usize) -> usize {
    if x < nt && y >= nt {
        x
    } else if y < nt && x >= nt {
        y
    } else if x <= y {
        x
    } else {
        y
    }
}

pub open spec fn gone(nt: int, x: usize, y: usize) -> usize {
    if kept(nt, x, y) == x {
        y
    } else {
        x
    }
}

impl Report {
    /// Where node `i` has landed after the first `k` pairs.
    pub open spec fn rep(self, k: int, i: int) -> NodeRepr
        decreases k,
    {
        if k <= 0 {
            NodeRepr::Active(i as usize)
        } else {
            let before = self.rep(k - 1, i);
            if !self.collapsed@[k - 1] {
                before
            } else {
                let p = self.pairs@[k - 1];
                let nt = self.num_terminals as int;
                let far = if p.node_2 == GROUND {
                    NodeRepr::Ground
                } else {
                    self.rep(k - 1, p.node_2 as int)
                };
                match (self.rep(k - 1, p.node_1 as int), far) {
                    (NodeRepr::Active(x), NodeRepr::Active(y)) => if x != y && before == NodeRepr::Active(
                        gone(nt, x, y),
                    ) {
                        NodeRepr::Active(kept(nt, x, y))
                    } else {
                        before
                    },
                    (NodeRepr::Active(x), NodeRepr::Ground) => if before == NodeRepr::Active(x) {
                        NodeRepr::Ground
                    } else {
                        before
                    },
                    (NodeRepr::Ground, NodeRepr::Active(x)) => if before == NodeRepr::Active(x) {
                        NodeRepr::Ground
                    } else {
                        before
                    },
                    _ => before,
                }
            }
        }
    }

    /// The terminals that the first `k` pairs collapsed away, each with the
    /// terminal it was shorted to (`None` is ground).
    pub open spec fn shorts(self, k: int) -> Seq<(usize, Option<usize>)>
        decreases k,
    {
        if k <= 0 {
            seq![]
        } else {
            let before = self.shorts(k - 1);
            if !self.collapsed@[k - 1] {
                before
            } else {
                let p = self.pairs@[k - 1];
                let nt = self.num_terminals;
                let far = if p.node_2 == GROUND {
                    NodeRepr::Ground
                } else {
                    self.rep(k - 1, p.node_2 as int)
                };
                match (self.rep(k - 1, p.node_1 as int), far) {
                    (NodeRepr::Active(x), NodeRepr::Active(y)) => if x != y && x < nt && y < nt {
                        before.push((gone(nt as int, x, y), Some(kept(nt as int, x, y))))
                    } else {
                        before
                    },
                    (NodeRepr::Active(x), NodeRepr::Ground) => if x < nt {
                        before.push((x, None))
                    } else {
                        before
                    },
                    (NodeRepr::Ground, NodeRepr::Active(x)) => if x < nt {
                        before.push((x, None))
                    } else {
                        before
                    },
                    _ => before,
                }
            }
        }
    }

    /// Where every node has landed.
    pub open spec fn reps(self) -> Seq<NodeRepr> {
        Seq::new(self.num_nodes as nat, |i: int| self.rep(self.pairs@.len() as int, i))
    }

    proof fn rep_stands(self, k: int, i: int)
        requires
            self.fits(),
            0 <= k <= self.pairs@.len(),
            0 <= i < self.num_nodes,
        ensures
            self.rep(k, i) matches NodeRepr::Active(r) ==> r < self.num_nodes && self.rep(k, r as int)
                == NodeRepr::Active(r),
        decreases k,
    {
        if k > 0 {
            self.rep_stands(k - 1, i);
            if self.collapsed@[k - 1] {
                let p = self.pairs@[k - 1];
                self.rep_stands(k - 1, p.node_1 as int);
                if p.node_2 != GROUND {
                    self.rep_stands(k - 1, p.node_2 as int);
                }
                if let NodeRepr::Active(r) = self.rep(k, i) {
                    assert(self.rep(k - 1, r as int) == NodeRepr::Active(r));
                    assert(self.rep(k, r as int) == NodeRepr::Active(r));
                }
            }
        }
    }

    proof fn shorts_in_range(self, k: int)
        requires
            self.fits(),
            0 <= k <= self.pairs@.len(),
        ensures
            forall|j: int|
                0 <= j < self.shorts(k).len() ==> (#[trigger] self.shorts(k)[j]).0 < self.num_terminals && (
                self.shorts(k)[j].1 matches Some(t) ==> t < self.num_terminals && t < self.shorts(k)[j].0),
        decreases k,
    {
        if k > 0 {
            self.shorts_in_range(k - 1);
            if self.collapsed@[k - 1] {
                let p = self.pairs@[k - 1];
                self.rep_stands(k - 1, p.node_1 as int);
                if p.node_2 != GROUND {
                    self.rep_stands(k - 1, p.node_2 as int);
                }
            }
        }
    }

    /// A representative stands for itself: following the landing places once is
    /// enough. A terminal is lost only to another terminal or to ground.
    pub proof fn representatives_stand(self, i: int)
        requires
            self.fits(),
            0 <= i < self.num_nodes,
        ensures
            self.reps()[i] matches NodeRepr::Active(r) ==> r < self.num_nodes && self.reps()[r as int]
                == NodeRepr::Active(r),
            i < self.num_terminals ==> (self.reps()[i] matches NodeRepr::Active(r) ==> r < self.num_terminals),
    {
        self.rep_stands(self.pairs@.len() as int, i);
        if i < self.num_terminals {
            self.terminals_stay(self.pairs@.len() as int, i);
        }
    }

    proof fn terminals_stay(self, k: int, i: int)
        requires
            self.fits(),
            0 <= k <= self.pairs@.len(),
            0 <= i < self.num_terminals,
        ensures
            self.rep(k, i) matches NodeRepr::Active(r) ==> r < self.num_terminals,
        decreases k,
    {
        if k > 0 {
            self.terminals_stay(k - 1, i);
        }
    }
}

/// How many of the first `i` nodes are active.
pub open spec fn actives(rep: Seq<NodeRepr>, i: int) -> nat
    decreases i,
{
    if i <= 0 {
        0
    } else if rep[i - 1] == NodeRepr::Active((i - 1) as usize) {
        actives(rep, i - 1) + 1
    } else {
        actives(rep, i - 1)
    }
}

/// The active ones of the first `i` nodes.
pub open spec fn active_nodes(rep: Seq<NodeRepr>, i: int) -> Seq<usize>
    decreases i,
{
    if i <= 0 {
        seq![]
    } else if rep[i - 1] == NodeRepr::Active((i - 1) as usize) {
        active_nodes(rep, i - 1).push((i - 1) as usize)
    } else {
        active_nodes(rep, i - 1)
    }
}

proof fn actives_count(rep: Seq<NodeRepr>, i: int)
    requires
        0 <= i <= rep.len(),
        rep.len() <= usize::MAX,
    ensures
        actives(rep, i) == active_nodes(rep, i).len(),
        actives(rep, i) <= i,
        forall|k: int| 0 <= k < active_nodes(rep, i).len() ==> (#[trigger] active_nodes(rep, i)[k]) < i,
    decreases i,
{
    if i > 0 {
        actives_count(rep, i - 1);
    }
}

proof fn actives_grow(rep: Seq<NodeRepr>, i: int, j: int)
    requires
        0 <= i <= j <= rep.len(),
    ensures
        actives(rep, i) <= actives(rep, j),
        i < j && rep[i] == NodeRepr::Active(i as usize) ==> actives(rep, i) < actives(rep, j),
    decreases j - i,
{
    if i < j {
        actives_grow(rep, i, j - 1);
    }
}

/// An active node stands at its own position in the list of active nodes.
pub proof fn active_position(rep: Seq<NodeRepr>, r: int, n: int)
    requires
        0 <= r < n <= rep.len(),
        rep.len() <= usize::MAX,
        rep[r] == NodeRepr::Active(r as usize),
    ensures
        actives(rep, r) < active_nodes(rep, n).len(),
        active_nodes(rep, n)[actives(rep, r) as int] == r,
    decreases n,
{
    actives_count(rep, r);
    actives_count(rep, n);
    actives_grow(rep, r, n);
    if r < n - 1 {
        active_position(rep, r, n - 1);
        actives_count(rep, n - 1);
    }
}

/// The position of a node's representative among the active ones; `None` is
/// ground.
pub open spec fn position(rep: Seq<NodeRepr>, i: int) -> Option<usize> {
    match rep[i] {
        NodeRepr::Active(r) => Some(actives(rep, r as int) as usize),
        NodeRepr::Ground => None,
    }
}

/// The same for a node number that may mean ground.
pub open spec fn position_of(rep: Seq<NodeRepr>, node: u32) -> Option<usize> {
    if node == GROUND {
        None
    } else {
        position(rep, node as int)
    }
}

// ---------------------------------------------------------------------------
// Jacobian cells.
// ---------------------------------------------------------------------------
/// A cell of the aggregated Jacobian and the entry slots that add up in it.
#[derive(Debug)]
pub struct Cell {
    pub row: usize,
    pub col: usize,
    pub slots: Vec<usize>,
}

pub struct CellView {
    pub row: usize,
    pub col: usize,
    pub slots: Seq<usize>,
}

impl View for Cell {
    type V = CellView;

    open spec fn view(&self) -> CellView {
        CellView { row: self.row, col: self.col, slots: self.slots@ }
    }
}

pub open spec fn cell_views(v: Seq<Cell>) -> Seq<CellView> {
    v.map_values(|c: Cell| c@)
}

/// A slot added to the cell at a position, from cell `i` on.
pub open spec fn slotted(v: Seq<CellView>, row: usize, col: usize, slot: usize, i: int) -> Seq<CellView>
    decreases v.len() - i,
{
    if i < 0 || i >= v.len() {
        v.push(CellView { row, col, slots: seq![slot] })
    } else if v[i].row == row && v[i].col == col {
        v.update(i, CellView { row, col, slots: v[i].slots.push(slot) })
    } else {
        slotted(v, row, col, slot, i + 1)
    }
}

/// How many of the first `k` entries carry a flag: each takes one slot.
pub open spec fn slots_before(e: Seq<OsdiJacobianEntry>, flag: u32, k: int) -> nat
    decreases k,
{
    if k <= 0 {
        0
    } else if e[k - 1].flags & flag != 0 {
        slots_before(e, flag, k - 1) + 1
    } else {
        slots_before(e, flag, k - 1)
    }
}

/// The cells of the first `k` entries that carry a flag. An entry in a ground row
/// or column takes its slot but adds up nowhere.
pub open spec fn cells(rep: Seq<NodeRepr>, e: Seq<OsdiJacobianEntry>, flag: u32, k: int) -> Seq<CellView>
    decreases k,
{
    if k <= 0 {
        seq![]
    } else {
        let before = cells(rep, e, flag, k - 1);
        let n = e[k - 1].nodes;
        if e[k - 1].flags & flag == 0 {
            before
        } else {
            match (position(rep, n.node_1 as int), position(rep, n.node_2 as int)) {
                (Some(r), Some(c)) => slotted(before, r, c, slots_before(e, flag, k - 1) as usize, 0),
                _ => before,
            }
        }
    }
}

/// No two cells stand at the same position.
pub open spec fn cells_apart(v: Seq<CellView>) -> bool {
    forall|i: int, j: int|
        0 <= i < j < v.len() ==> (#[trigger] v[i]).row != (#[trigger] v[j]).row || v[i].col != v[j].col
}

proof fn slotted_apart(v: Seq<CellView>, row: usize, col: usize, slot: usize, i: int)
    requires
        0 <= i <= v.len(),
        cells_apart(v),
        forall|j: int| 0 <= j < i ==> (#[trigger] v[j]).row != row || v[j].col != col,
    ensures
        cells_apart(slotted(v, row, col, slot, i)),
    decreases v.len() - i,
{
    if i < v.len() {
        if v[i].row == row && v[i].col == col {
            let w = slotted(v, row, col, slot, i);
            assert forall|a: int, b: int| 0 <= a < b < w.len() implies (#[trigger] w[a]).row != (
            #[trigger] w[b]).row || w[a].col != w[b].col by {
                assert(v[a].row != v[b].row || v[a].col != v[b].col);
            }
        } else {
            slotted_apart(v, row, col, slot, i + 1);
        }
    }
}

/// The aggregated cells stand at distinct positions.
pub proof fn cells_are_distinct(rep: Seq<NodeRepr>, e: Seq<OsdiJacobianEntry>, flag: u32, k: int)
    ensures
        cells_apart(cells(rep, e, flag, k)),
    decreases k,
{
    if k > 0 {
        cells_are_distinct(rep, e, flag, k - 1);
        let n = e[k - 1].nodes;
        match (position(rep, n.node_1 as int), position(rep, n.node_2 as int)) {
            (Some(r), Some(c)) => {
                slotted_apart(
                    cells(rep, e, flag, k - 1),
                    r,
                    c,
                    slots_before(e, flag, k - 1) as usize,
                    0,
                );
            },
            _ => {},
        }
    }
}

/// Every slot of a list of cells is below a bound.
pub open spec fn slots_below(v: Seq<CellView>, n: int) -> bool {
    forall|i: int, j: int| 0 <= i < v.len() && 0 <= j < v[i].slots.len() ==> (#[trigger] v[i].slots[j]) < n
}

proof fn slotted_below(v: Seq<CellView>, row: usize, col: usize, slot: usize, i: int, n: int)
    requires
        0 <= i <= v.len(),
        slots_below(v, n),
        slot < n,
    ensures
        slots_below(slotted(v, row, col, slot, i), n),
    decreases v.len() - i,
{
    if i < v.len() && !(v[i].row == row && v[i].col == col) {
        slotted_below(v, row, col, slot, i + 1, n);
    } else {
        let w = slotted(v, row, col, slot, i);
        assert forall|a: int, b: int| 0 <= a < w.len() && 0 <= b < w[a].slots.len() implies (
        #[trigger] w[a].slots[b]) < n by {
            if a < v.len() && b < v[a].slots.len() {
                assert(w[a].slots[b] == v[a].slots[b]);
            }
        }
    }
}

/// Every cell adds up slots that the model writes.
pub proof fn slots_in_range(rep: Seq<NodeRepr>, e: Seq<OsdiJacobianEntry>, flag: u32, k: int)
    requires
        0 <= k <= e.len(),
        e.len() <= usize::MAX,
    ensures
        slots_below(cells(rep, e, flag, k), slots_before(e, flag, k) as int),
        slots_before(e, flag, k) <= k,
    decreases k,
{
    if k > 0 {
        slots_in_range(rep, e, flag, k - 1);
        let n = e[k - 1].nodes;
        let before = cells(rep, e, flag, k - 1);
        let m = slots_before(e, flag, k) as int;
        assert(slots_below(before, m));
        match (position(rep, n.node_1 as int), position(rep, n.node_2 as int)) {
            (Some(r), Some(c)) => {
                if e[k - 1].flags & flag != 0 {
                    slotted_below(before, r, c, slots_before(e, flag, k - 1) as usize, 0, m);
                }
            },
            _ => {},
        }
    }
}

fn add_slot(v: &mut Vec<Cell>, row: usize, col: usize, slot: usize)
    ensures
        cell_views(final(v)@) == slotted(cell_views(old(v)@), row, col, slot, 0),
{
    let ghost start = cell_views(v@);
    let ghost goal = slotted(start, row, col, slot, 0);
    let n: usize = v.len();
    for i in 0..n
        invariant
            n == v@.len(),
            start == cell_views(v@),
            goal == slotted(cell_views(old(v)@), row, col, slot, 0),
            slotted(start, row, col, slot, i as int) == goal,
    {
        assert(start[i as int] == v@[i as int]@);
        if v[i].row == row && v[i].col == col {
            let mut slots: Vec<usize> = Vec::new();
            std::mem::swap(&mut v[i].slots, &mut slots);
            slots.push(slot);
            v.set(i, Cell { row, col, slots });
            assert(cell_views(v@) =~= goal);
            return;
        }
    }
    let mut slots: Vec<usize> = Vec::new();
    slots.push(slot);
    assert(slots@ =~= seq![slot]);
    v.push(Cell { row, col, slots });
    assert(cell_views(v@) =~= goal);
}

fn place(pos: &Vec<Option<usize>>, node: u32, Ghost(rep): Ghost<Seq<NodeRepr>>) -> (r: Option<usize>)
    requires
        node < pos@.len(),
        pos@.len() == rep.len(),
        forall|i: int| 0 <= i < rep.len() ==> #[trigger] pos@[i] == position(rep, i),
    ensures
        r == position(rep, node as int),
{
    pos[node as usize]
}

fn gather(pos: &Vec<Option<usize>>, e: &Vec<OsdiJacobianEntry>, flag: u32, Ghost(rep): Ghost<Seq<NodeRepr>>) -> (r: (
    Vec<Cell>,
    usize,
))
    requires
        pos@.len() == rep.len(),
        forall|i: int| 0 <= i < rep.len() ==> #[trigger] pos@[i] == position(rep, i),
        forall|k: int|
            0 <= k < e@.len() && (#[trigger] e@[k]).flags & flag != 0 ==> e@[k].nodes.node_1 < rep.len()
                    && e@[k].nodes.node_2 < rep.len(),
    ensures
        cell_views(r.0@) == cells(rep, e@, flag, e@.len() as int),
        r.1 == slots_before(e@, flag, e@.len() as int),
{
    let mut out: Vec<Cell> = Vec::new();
    let mut slot: usize = 0;
    assert(cell_views(out@) =~= cells(rep, e@, flag, 0));
    for k in 0..e.len()
        invariant
            pos@.len() == rep.len(),
            forall|i: int| 0 <= i < rep.len() ==> #[trigger] pos@[i] == position(rep, i),
            forall|k: int|
                0 <= k < e@.len() && (#[trigger] e@[k]).flags & flag != 0 ==> e@[k].nodes.node_1 < rep.len()
                    && e@[k].nodes.node_2 < rep.len(),
            slot <= k,
            slot == slots_before(e@, flag, k as int),
            cell_views(out@) == cells(rep, e@, flag, k as int),
    {
        let n = e[k].nodes;
        if e[k].flags & flag != 0 {
            let row = place(pos, n.node_1, Ghost(rep));
            let col = place(pos, n.node_2, Ghost(rep));
            if let (Some(r), Some(c)) = (row, col) {
                add_slot(&mut out, r, c, slot);
            }
            slot = slot + 1;
        }
    }
    (out, slot)
}

// ---------------------------------------------------------------------------
// The topology.
// ---------------------------------------------------------------------------
/// The collapse-resolved topology of an instance.
#[derive(Debug)]
pub struct Topology {
    /// The nodes that stand for themselves: terminals first, then the surviving
    /// internal ones. This is the argument order of the device function.
    pub active: Vec<usize>,
    /// For each node the slot its voltage is read from; ground reads the slot
    /// behind the active ones.
    pub mapping: Vec<usize>,
    pub terminal_shorts: Vec<(usize, Option<usize>)>,
    pub jr_cells: Vec<Cell>,
    pub jq_cells: Vec<Cell>,
    /// How many resistive and reactive entries the model writes.
    pub jr_slots: usize,
    pub jq_slots: usize,
    /// Noise sources between active nodes (`None` is ground), with their type.
    pub noise: Vec<(Option<usize>, Option<usize>, u32)>,
}

impl Report {
    pub open spec fn active(self) -> Seq<usize> {
        active_nodes(self.reps(), self.num_nodes as int)
    }

    pub open spec fn mapping(self) -> Seq<usize> {
        Seq::new(
            self.num_nodes as nat,
            |i: int|
                match position(self.reps(), i) {
                    Some(p) => p,
                    None => self.active().len() as usize,
                },
        )
    }

    pub open spec fn noise_map(self) -> Seq<(Option<usize>, Option<usize>, u32)> {
        self.noise@.map_values(
            |s: OsdiNoise|
                (position_of(self.reps(), s.nodes.node_1), position_of(self.reps(), s.nodes.node_2), s.ty),
        )
    }
}

impl Topology {
    /// The topology that a report resolves to.
    pub open spec fn of(self, r: Report) -> bool {
        let n = r.entries@.len() as int;
        &&& self.active@ == r.active()
        &&& self.mapping@ == r.mapping()
        &&& self.terminal_shorts@ == r.shorts(r.pairs@.len() as int)
        &&& cell_views(self.jr_cells@) == cells(r.reps(), r.entries@, JACOBIAN_ENTRY_RESIST, n)
        &&& cell_views(self.jq_cells@) == cells(r.reps(), r.entries@, JACOBIAN_ENTRY_REACT, n)
        &&& self.jr_slots == slots_before(r.entries@, JACOBIAN_ENTRY_RESIST, n)
        &&& self.jq_slots == slots_before(r.entries@, JACOBIAN_ENTRY_REACT, n)
        &&& self.noise@ == r.noise_map()
    }

    /// Every index is in range.
    pub open spec fn wf(self, num_nodes: int, nt: int) -> bool {
        &&& forall|k: int| 0 <= k < self.active@.len() ==> (#[trigger] self.active@[k]) < num_nodes
        &&& forall|k: int|
            0 <= k < self.terminal_shorts@.len() ==> (#[trigger] self.terminal_shorts@[k]).0 < nt && (
            self.terminal_shorts@[k].1 matches Some(t) ==> t < nt)
        &&& forall|k: int|
            0 <= k < self.noise@.len() ==> ((#[trigger] self.noise@[k]).0 matches Some(i) ==> i < self.active@.len())
        &&& forall|k: int|
            0 <= k < self.noise@.len() ==> ((#[trigger] self.noise@[k]).1 matches Some(i) ==> i < self.active@.len())
        &&& slots_below(cell_views(self.jr_cells@), self.jr_slots as int)
        &&& slots_below(cell_views(self.jq_cells@), self.jq_slots as int)
    }
}

impl Report {
    proof fn position_in_range(self, i: int)
        requires
            self.fits(),
            0 <= i < self.num_nodes,
        ensures
            position(self.reps(), i) matches Some(p) ==> p < self.active().len(),
            self.reps()[i] matches NodeRepr::Active(r) ==> actives(self.reps(), r as int) <= usize::MAX,
    {
        self.rep_stands(self.pairs@.len() as int, i);
        match self.reps()[i] {
            NodeRepr::Active(r) => {
                assert(self.reps()[r as int] == NodeRepr::Active(r));
                active_position(self.reps(), r as int, self.num_nodes as int);
                actives_count(self.reps(), r as int);
            },
            NodeRepr::Ground => {},
        }
    }

    fn collapse(&self) -> (r: (Vec<NodeRepr>, Vec<(usize, Option<usize>)>))
        requires
            self.fits(),
        ensures
            r.0@ == self.reps(),
            r.1@ == self.shorts(self.pairs@.len() as int),
    {
        let n = self.num_nodes;
        let nt = self.num_terminals;
        let mut rep: Vec<NodeRepr> = Vec::new();
        let mut shorts: Vec<(usize, Option<usize>)> = Vec::new();
        for i in 0..n
            invariant
                rep@.len() == i,
                forall|j: int| 0 <= j < i ==> #[trigger] rep@[j] == NodeRepr::Active(j as usize),
        {
            rep.push(NodeRepr::Active(i));
        }
        assert(shorts@ =~= self.shorts(0));
        for k in 0..self.pairs.len()
            invariant
                self.fits(),
                n == self.num_nodes,
                nt == self.num_terminals,
                rep@.len() == n,
                forall|j: int| 0 <= j < n ==> #[trigger] rep@[j] == self.rep(k as int, j),
                shorts@ == self.shorts(k as int),
        {
            if self.collapsed[k] {
                let p = self.pairs[k];
                assert(p.node_1 < n);
                let ra = rep[p.node_1 as usize];
                let rb = if p.node_2 == GROUND {
                    NodeRepr::Ground
                } else {
                    rep[p.node_2 as usize]
                };
                let ghost before = rep@;
                let mut old_rep: NodeRepr = NodeRepr::Ground;
                let mut new_rep: NodeRepr = NodeRepr::Ground;
                match (ra, rb) {
                    (NodeRepr::Active(x), NodeRepr::Active(y)) => {
                        if x != y {
                            let (keep, lost): (usize, usize) = if x < nt && y >= nt {
                                (x, y)
                            } else if y < nt && x >= nt {
                                (y, x)
                            } else if x <= y {
                                (x, y)
                            } else {
                                (y, x)
                            };
                            if x < nt && y < nt {
                                shorts.push((lost, Some(keep)));
                            }
                            old_rep = NodeRepr::Active(lost);
                            new_rep = NodeRepr::Active(keep);
                        }
                    },
                    (NodeRepr::Active(x), NodeRepr::Ground) | (NodeRepr::Ground, NodeRepr::Active(x)) => {
                        if x < nt {
                            shorts.push((x, None));
                        }
                        old_rep = NodeRepr::Active(x);
                    },
                    _ => {},
                }
                assert(shorts@ == self.shorts(k + 1));
                assert(forall|j: int|
                    0 <= j < n ==> #[trigger] self.rep(k + 1, j) == (if before[j] == old_rep {
                        new_rep
                    } else {
                        before[j]
                    }));
                for i in 0..n
                    invariant
                        rep@.len() == n,
                        before.len() == n,
                        forall|j: int| i <= j < n ==> rep@[j] == before[j],
                        forall|j: int|
                            0 <= j < i ==> #[trigger] rep@[j] == (if before[j] == old_rep {
                                new_rep
                            } else {
                                before[j]
                            }),
                {
                    assert(rep@[i as int] == before[i as int]);
                    if rep[i] == old_rep {
                        rep.set(i, new_rep);
                    }
                }
            }
        }
        assert(rep@ =~= self.reps());
        (rep, shorts)
    }

    /// Resolve the collapse decisions of a setup: merged nodes take the place of
    /// their representative, Jacobian entries that fall together are aggregated,
    /// and noise sources are mapped to the nodes that remain.
    pub fn resolve(&self) -> (r: Topology)
        requires
            self.fits(),
        ensures
            r.of(*self),
            r.wf(self.num_nodes as int, self.num_terminals as int),
    {
        let n = self.num_nodes;
        let (rep, shorts) = self.collapse();
        let ghost reps = self.reps();
        let mut active: Vec<usize> = Vec::new();
        let mut before: Vec<usize> = Vec::new();
        assert(active@ =~= active_nodes(reps, 0));
        for i in 0..n
            invariant
                n == reps.len(),
                rep@ == reps,
                active@ == active_nodes(reps, i as int),
                active@.len() <= i,
                before@.len() == i,
                forall|j: int| 0 <= j < i ==> #[trigger] before@[j] == actives(reps, j),
        {
            proof {
                actives_count(reps, i as int);
            }
            before.push(active.len());
            if rep[i] == NodeRepr::Active(i) {
                active.push(i);
            }
        }
        let ground: usize = active.len();
        let mut pos: Vec<Option<usize>> = Vec::new();
        let mut mapping: Vec<usize> = Vec::new();
        let ghost map = self.mapping();
        for i in 0..n
            invariant
                self.fits(),
                n == self.num_nodes,
                reps == self.reps(),
                map == self.mapping(),
                rep@ == reps,
                before@.len() == n,
                forall|j: int| 0 <= j < n ==> #[trigger] before@[j] == actives(reps, j),
                ground == self.active().len(),
                pos@.len() == i,
                forall|j: int| 0 <= j < i ==> #[trigger] pos@[j] == position(reps, j),
                mapping@ =~= map.take(i as int),
        {
            proof {
                self.rep_stands(self.pairs@.len() as int, i as int);
            }
            match rep[i] {
                NodeRepr::Active(r) => {
                    let p = before[r];
                    pos.push(Some(p));
                    mapping.push(p);
                },
                NodeRepr::Ground => {
                    pos.push(None);
                    mapping.push(ground);
                },
            }
        }
        assert(map.take(n as int) =~= map);
        let (jr_cells, jr_slots) = gather(&pos, &self.entries, JACOBIAN_ENTRY_RESIST, Ghost(reps));
        let (jq_cells, jq_slots) = gather(&pos, &self.entries, JACOBIAN_ENTRY_REACT, Ghost(reps));
        let ghost sources = self.noise_map();
        let mut noise: Vec<(Option<usize>, Option<usize>, u32)> = Vec::new();
        for k in 0..self.noise.len()
            invariant
                self.fits(),
                n == self.num_nodes,
                reps == self.reps(),
                pos@.len() == n,
                forall|j: int| 0 <= j < n ==> #[trigger] pos@[j] == position(reps, j),
                sources == self.noise_map(),
                noise@ =~= sources.take(k as int),
        {
            let s = self.noise[k];
            assert(self.noise@[k as int] == s);
            let hi = if s.nodes.node_1 == GROUND {
                None
            } else {
                place(&pos, s.nodes.node_1, Ghost(reps))
            };
            let lo = if s.nodes.node_2 == GROUND {
                None
            } else {
                place(&pos, s.nodes.node_2, Ghost(reps))
            };
            noise.push((hi, lo, s.ty));
        }
        assert(sources.take(sources.len() as int) =~= sources);
        let total: usize = self.entries.len();
        proof {
            slots_in_range(reps, self.entries@, JACOBIAN_ENTRY_RESIST, total as int);
            slots_in_range(reps, self.entries@, JACOBIAN_ENTRY_REACT, total as int);
            actives_count(reps, n as int);
            self.shorts_in_range(self.pairs@.len() as int);
            assert forall|k: int| 0 <= k < noise@.len() implies ((#[trigger] noise@[k]).0 matches Some(i) ==> i
                < active@.len()) by {
                let a = self.noise@[k].nodes.node_1;
                if a != GROUND {
                    self.position_in_range(a as int);
                }
            }
            assert forall|k: int| 0 <= k < noise@.len() implies ((#[trigger] noise@[k]).1 matches Some(i) ==> i
                < active@.len()) by {
                let a = self.noise@[k].nodes.node_2;
                if a != GROUND {
                    self.position_in_range(a as int);
                }
            }
        }
        Topology {
            active,
            mapping,
            terminal_shorts: shorts,
            jr_cells,
            jq_cells,
            jr_slots,
            jq_slots,
            noise,
        }
    }

    /// Every node reads a slot that there is: an active one's, or the ground slot
    /// behind them.
    pub proof fn mapping_in_range(self, i: int)
        requires
            self.fits(),
            0 <= i < self.num_nodes,
        ensures
            self.mapping()[i] <= self.active().len(),
            self.mapping()[i] == self.active().len() <==> self.reps()[i] == NodeRepr::Ground,
    {
        self.position_in_range(i);
        actives_count(self.reps(), self.num_nodes as int);
    }
}

/// The sum of the first `k` slots of a cell.
pub open spec fn slot_sum(h: Answers, buf: Seq<u64>, slots: Seq<usize>, k: int) -> u64
    decreases k,
{
    if k <= 0 {
        ZERO
    } else {
        apply2(h, Op2::Add, slot_sum(h, buf, slots, k - 1), buf[slots[k - 1] as int])
    }
}

/// The values of the cells, from the entries that the model wrote.
pub fn cell_values<F: Fn(Ask) -> Reply>(host: &Host<F>, v: &Vec<Cell>, buf: &Vec<u64>) -> (r: Vec<u64>)
    requires
        slots_below(cell_views(v@), buf@.len() as int),
    ensures
        r@ == v@.map_values(|c: Cell| slot_sum(host.answers(), buf@, c.slots@, c.slots@.len() as int)),
{
    let ghost all = v@.map_values(|c: Cell| slot_sum(host.answers(), buf@, c.slots@, c.slots@.len() as int));
    let mut out: Vec<u64> = Vec::new();
    for i in 0..v.len()
        invariant
            slots_below(cell_views(v@), buf@.len() as int),
            all == v@.map_values(|c: Cell| slot_sum(host.answers(), buf@, c.slots@, c.slots@.len() as int)),
            out@ =~= all.take(i as int),
    {
        let slots = &v[i].slots;
        let mut sum: u64 = ZERO;
        for j in 0..slots.len()
            invariant
                i < v@.len(),
                slots@ == v@[i as int].slots@,
                slots_below(cell_views(v@), buf@.len() as int),
                sum == slot_sum(host.answers(), buf@, slots@, j as int),
        {
            assert(cell_views(v@)[i as int].slots[j as int] < buf@.len());
            sum = host.apply2(Op2::Add, sum, buf[slots[j]]);
        }
        out.push(sum);
    }
    assert(all.take(all.len() as int) =~= all);
    out
}

} // verus!

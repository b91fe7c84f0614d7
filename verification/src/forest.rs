//! Disjoint sets of nodes, grown edge by edge.
use vstd::prelude::*;

verus! {

/// The representative of node `x` once the edges have been drawn in order: each
/// edge `(a, b)` gives all that `a` represents with to `b`'s representative.
pub open spec fn label(edges: Seq<(int, int)>, x: int) -> int
    decreases edges.len(),
{
    if edges.len() == 0 {
        x
    } else {
        let e = edges.drop_last();
        let (a, b) = edges.last();
        if label(e, x) == label(e, a) {
            label(e, b)
        } else {
            label(e, x)
        }
    }
}

/// An edge runs between the two nodes, in either direction.
pub open spec fn joined(edges: Seq<(int, int)>, x: int, y: int) -> bool {
    edges.contains((x, y)) || edges.contains((y, x))
}

/// A walk: each node is joined to the next.
pub open spec fn is_walk(edges: Seq<(int, int)>, w: Seq<int>) -> bool {
    &&& w.len() > 0
    &&& forall|k: int, l: int| #![trigger w[k], w[l]] 0 <= k && l == k + 1 && l < w.len() ==> joined(edges, w[k], w[l])
}

/// A walk leads from one node to the other.
pub open spec fn linked(edges: Seq<(int, int)>, x: int, y: int) -> bool {
    exists|w: Seq<int>| #[trigger] is_walk(edges, w) && w[0] == x && w.last() == y
}

/// Edges within the first `n` nodes.
pub open spec fn edges_fit(edges: Seq<(int, int)>, n: int) -> bool {
    forall|i: int| 0 <= i < edges.len() ==> 0 <= (#[trigger] edges[i]).0 < n && 0 <= edges[i].1 < n
}

// ---------------------------------------------------------------------------
// Laws.
// ---------------------------------------------------------------------------
pub(crate) proof fn linked_self(edges: Seq<(int, int)>, x: int)
    ensures
        linked(edges, x, x),
{
    assert(is_walk(edges, seq![x]));
}

pub(crate) proof fn linked_edge(edges: Seq<(int, int)>, x: int, y: int)
    requires
        joined(edges, x, y),
    ensures
        linked(edges, x, y),
{
    assert(is_walk(edges, seq![x, y]));
}

pub(crate) proof fn linked_reverse(edges: Seq<(int, int)>, x: int, y: int)
    requires
        linked(edges, x, y),
    ensures
        linked(edges, y, x),
{
    let w = choose|w: Seq<int>| #[trigger] is_walk(edges, w) && w[0] == x && w.last() == y;
    let r = w.reverse();
    assert forall|k: int, l: int| #![trigger r[k], r[l]] 0 <= k && l == k + 1 && l < r.len() implies joined(edges, r[k], r[l]) by {
        assert(r[k] == w[w.len() - 1 - k]);
        assert(r[l] == w[w.len() - 1 - l]);
    }
    assert(is_walk(edges, r));
}

pub(crate) proof fn linked_chain(edges: Seq<(int, int)>, x: int, y: int, z: int)
    requires
        linked(edges, x, y),
        linked(edges, y, z),
    ensures
        linked(edges, x, z),
{
    let v = choose|w: Seq<int>| #[trigger] is_walk(edges, w) && w[0] == x && w.last() == y;
    let w = choose|w: Seq<int>| #[trigger] is_walk(edges, w) && w[0] == y && w.last() == z;
    let u = v + w.skip(1);
    assert forall|k: int, l: int| #![trigger u[k], u[l]] 0 <= k && l == k + 1 && l < u.len() implies joined(edges, u[k], u[l]) by {
        if l < v.len() {
            assert(joined(edges, v[k], v[l]));
        } else {
            assert(u[l] == w[l - v.len() + 1]);
            assert(u[k] == w[k - v.len() + 1]);
        }
    }
    assert(is_walk(edges, u));
    if w.len() == 1 {
        assert(u =~= v);
    }
    assert(u.last() == z);
}

proof fn linked_grows(e: Seq<(int, int)>, edges: Seq<(int, int)>, x: int, y: int)
    requires
        edges.len() > 0,
        e == edges.drop_last(),
        linked(e, x, y),
    ensures
        linked(edges, x, y),
{
    let w = choose|w: Seq<int>| #[trigger] is_walk(e, w) && w[0] == x && w.last() == y;
    assert forall|k: int, l: int| #![trigger w[k], w[l]] 0 <= k && l == k + 1 && l < w.len() implies joined(edges, w[k], w[l]) by {
        assert(joined(e, w[k], w[l]));
        if e.contains((w[k], w[l])) {
            let i = choose|i: int| 0 <= i < e.len() && e[i] == (w[k], w[l]);
            assert(edges[i] == (w[k], w[l]));
        } else {
            let i = choose|i: int| 0 <= i < e.len() && e[i] == (w[l], w[k]);
            assert(edges[i] == (w[l], w[k]));
        }
    }
    assert(is_walk(edges, w));
}

proof fn label_is_linked(edges: Seq<(int, int)>, x: int)
    ensures
        linked(edges, x, label(edges, x)),
    decreases edges.len(),
{
    if edges.len() == 0 {
        linked_self(edges, x);
    } else {
        let e = edges.drop_last();
        let (a, b) = edges.last();
        label_is_linked(e, x);
        linked_grows(e, edges, x, label(e, x));
        if label(e, x) == label(e, a) {
            label_is_linked(e, a);
            linked_grows(e, edges, a, label(e, a));
            linked_reverse(edges, a, label(e, a));
            linked_chain(edges, x, label(e, x), a);
            assert(edges[edges.len() - 1] == (a, b));
            linked_edge(edges, a, b);
            linked_chain(edges, x, a, b);
            label_is_linked(e, b);
            linked_grows(e, edges, b, label(e, b));
            linked_chain(edges, x, b, label(e, b));
        }
    }
}

pub(crate) proof fn joined_same_label(edges: Seq<(int, int)>, x: int, y: int)
    requires
        joined(edges, x, y),
    ensures
        label(edges, x) == label(edges, y),
    decreases edges.len(),
{
    let i = if edges.contains((x, y)) {
        choose|i: int| 0 <= i < edges.len() && edges[i] == (x, y)
    } else {
        choose|i: int| 0 <= i < edges.len() && edges[i] == (y, x)
    };
    let e = edges.drop_last();
    if i < edges.len() - 1 {
        assert(e[i] == edges[i]);
        joined_same_label(e, x, y);
    }
}

/// Two nodes have the same representative exactly when a walk along the edges
/// leads from one to the other.
pub proof fn label_is_connectivity(edges: Seq<(int, int)>, x: int, y: int)
    ensures
        label(edges, x) == label(edges, y) <==> linked(edges, x, y),
{
    if label(edges, x) == label(edges, y) {
        label_is_linked(edges, x);
        label_is_linked(edges, y);
        linked_reverse(edges, y, label(edges, y));
        linked_chain(edges, x, label(edges, x), y);
    }
    if linked(edges, x, y) {
        let w = choose|w: Seq<int>| #[trigger] is_walk(edges, w) && w[0] == x && w.last() == y;
        walk_same_label(edges, w, w.len() - 1);
    }
}

pub(crate) proof fn walk_same_label(edges: Seq<(int, int)>, w: Seq<int>, k: int)
    requires
        is_walk(edges, w),
        0 <= k < w.len(),
    ensures
        label(edges, w[0]) == label(edges, w[k]),
    decreases k,
{
    if k > 0 {
        walk_same_label(edges, w, k - 1);
        joined_same_label(edges, w[k - 1], w[k]);
    }
}

pub proof fn label_in_range(edges: Seq<(int, int)>, n: int, x: int)
    requires
        edges_fit(edges, n),
        0 <= x < n,
    ensures
        0 <= label(edges, x) < n,
    decreases edges.len(),
{
    if edges.len() > 0 {
        let e = edges.drop_last();
        assert(edges_fit(e, n)) by {
            assert forall|i: int| 0 <= i < e.len() implies 0 <= (#[trigger] e[i]).0 < n && 0 <= e[i].1 < n by {
                assert(e[i] == edges[i]);
            }
        }
        assert(edges[edges.len() - 1] == edges.last());
        label_in_range(e, n, x);
        label_in_range(e, n, edges.last().1);
    }
}

// ---------------------------------------------------------------------------
// The forest.
// ---------------------------------------------------------------------------
/// Disjoint-set over node indices.
pub struct Forest {
    parent: Vec<usize>,
    edges: Ghost<Seq<(int, int)>>,
    rank: Ghost<Seq<int>>,
    top: Ghost<int>,
}

impl Forest {
    /// The edges drawn so far.
    pub closed spec fn edges(&self) -> Seq<(int, int)> {
        self.edges@
    }

    /// The number of nodes.
    pub closed spec fn size(&self) -> nat {
        self.parent@.len()
    }

    pub closed spec fn wf(&self) -> bool {
        Self::sound(self.parent@, self.edges@, self.rank@, self.top@)
    }

    spec fn sound(parent: Seq<usize>, edges: Seq<(int, int)>, rank: Seq<int>, top: int) -> bool {
        let n = parent.len();
        &&& rank.len() == n
        &&& edges_fit(edges, n as int)
        &&& forall|x: int|
            0 <= x < n ==> {
                let p = #[trigger] parent[x];
                &&& p < n
                &&& label(edges, p as int) == label(edges, x)
                &&& (p == x <==> label(edges, x) == x)
                &&& p != x ==> rank[x] < rank[p as int]
                &&& 0 <= rank[x] <= top
            }
    }

    pub fn new(n: usize) -> (r: Forest)
        ensures
            r.wf(),
            r.size() == n,
            r.edges() == Seq::<(int, int)>::empty(),
    {
        let mut parent: Vec<usize> = Vec::new();
        for i in 0..n
            invariant
                parent@.len() == i,
                forall|x: int| 0 <= x < i ==> parent@[x] == x,
        {
            parent.push(i);
        }
        let ghost rank = Seq::new(n as nat, |i: int| 0int);
        Forest { parent, edges: Ghost(Seq::empty()), rank: Ghost(rank), top: Ghost(0) }
    }

    /// The representative of a node; shortens the way to it.
    pub fn find(&mut self, a: usize) -> (r: usize)
        requires
            old(self).wf(),
            a < old(self).size(),
        ensures
            r == label(old(self).edges(), a as int),
            r < old(self).size(),
            final(self).wf(),
            final(self).edges() == old(self).edges(),
            final(self).size() == old(self).size(),
    {
        let mut x: usize = a;
        let ghost n = self.parent@.len();
        let ghost edges = self.edges@;
        let ghost rank = self.rank@;
        let ghost top = self.top@;
        while self.parent[x] != x
            invariant
                x < n,
                n == self.parent@.len(),
                edges == self.edges@,
                rank == self.rank@,
                top == self.top@,
                self.wf(),
                label(edges, x as int) == label(edges, a as int),
            decreases top - rank[x as int],
        {
            let p: usize = self.parent[x];
            let g: usize = self.parent[p];
            let ghost before = self.parent@;
            assert(rank[x as int] < rank[p as int]);
            assert(before[g as int] < n);
            self.parent.set(x, g);
            assert forall|y: int| 0 <= y < n implies {
                let p = #[trigger] self.parent@[y];
                &&& p < n
                &&& label(edges, p as int) == label(edges, y)
                &&& (p == y <==> label(edges, y) == y)
                &&& p != y ==> rank[y] < rank[p as int]
                &&& 0 <= rank[y] <= top
            } by {
                assert(before[y] < n);
                assert(before[p as int] < n);
            }
            x = g;
        }
        x
    }

    /// Draw an edge. Returns false when the two were already connected (the edge
    /// closes a loop).
    pub fn union(&mut self, a: usize, b: usize) -> (r: bool)
        requires
            old(self).wf(),
            a < old(self).size(),
            b < old(self).size(),
        ensures
            final(self).wf(),
            final(self).edges() == old(self).edges().push((a as int, b as int)),
            final(self).size() == old(self).size(),
            r == (label(old(self).edges(), a as int) != label(old(self).edges(), b as int)),
    {
        let ra: usize = self.find(a);
        let rb: usize = self.find(b);
        let ghost n = self.parent@.len();
        let ghost edges = self.edges@;
        let ghost rank = self.rank@;
        let ghost top = self.top@;
        let ghost drawn = edges.push((a as int, b as int));
        let ghost before = self.parent@;
        proof {
            assert(drawn.drop_last() =~= edges);
            assert(edges_fit(drawn, n as int)) by {
                assert forall|i: int| 0 <= i < drawn.len() implies 0 <= (#[trigger] drawn[i]).0 < n && 0 <= drawn[i].1 < n by {
                    if i < edges.len() {
                        assert(drawn[i] == edges[i]);
                    }
                }
            }
            label_of_label(edges, a as int);
            label_of_label(edges, b as int);
        }
        if ra == rb {
            self.edges = Ghost(drawn);
            assert forall|y: int| 0 <= y < n implies {
                let p = #[trigger] self.parent@[y];
                &&& p < n
                &&& label(drawn, p as int) == label(drawn, y)
                &&& (p == y <==> label(drawn, y) == y)
                &&& p != y ==> rank[y] < rank[p as int]
                &&& 0 <= rank[y] <= top
            } by {
                assert(before[y] < n);
                assert(label(drawn, y) == label(edges, y));
            }
            return false;
        }
        let ghost raised = Seq::new(
            n,
            |x: int|
                if label(edges, x) == rb {
                    rank[x] + top + 1
                } else {
                    rank[x]
                },
        );
        self.parent.set(ra, rb);
        self.edges = Ghost(drawn);
        self.rank = Ghost(raised);
        self.top = Ghost(2 * top + 1);
        assert forall|y: int| 0 <= y < n implies {
            let p = #[trigger] self.parent@[y];
            &&& p < n
            &&& label(drawn, p as int) == label(drawn, y)
            &&& (p == y <==> label(drawn, y) == y)
            &&& p != y ==> raised[y] < raised[p as int]
            &&& 0 <= raised[y] <= 2 * top + 1
        } by {
            assert(before[y] < n);
            assert(before[ra as int] < n);
            assert(before[rb as int] < n);
            label_of_label(edges, y);
        }
        true
    }
}

/// A representative represents itself.
pub proof fn label_of_label(edges: Seq<(int, int)>, x: int)
    ensures
        label(edges, label(edges, x)) == label(edges, x),
    decreases edges.len(),
{
    if edges.len() > 0 {
        let e = edges.drop_last();
        let (a, b) = edges.last();
        label_of_label(e, x);
        label_of_label(e, a);
        label_of_label(e, b);
    }
}

} // verus!

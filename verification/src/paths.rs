//! Shortest paths over an adjacency list (breadth-first search).
use vstd::prelude::*;

verus! {

/// An adjacency list: for each node the neighbours, each with the number of the
/// edge that leads there.
pub type Adjacency = Vec<Vec<(usize, usize)>>;

/// Edge `k` leads from `u` to `v`.
pub open spec fn hop(adj: Seq<Vec<(usize, usize)>>, u: int, v: int, k: int) -> bool {
    &&& 0 <= u < adj.len()
    &&& exists|i: int| 0 <= i < adj[u]@.len() && (#[trigger] adj[u]@[i]).0 == v && adj[u]@[i].1 == k
}

/// The edges `p` lead along the nodes `w`.
pub open spec fn trail(adj: Seq<Vec<(usize, usize)>>, w: Seq<int>, p: Seq<int>) -> bool {
    &&& w.len() == p.len() + 1
    &&& forall|j: int| 0 <= j < p.len() ==> hop(adj, w[j], w[j + 1], #[trigger] p[j])
}

/// The edges `p` lead from one node to the other.
pub open spec fn leads(adj: Seq<Vec<(usize, usize)>>, from: int, to: int, p: Seq<int>) -> bool {
    exists|w: Seq<int>| #[trigger] trail(adj, w, p) && w[0] == from && w.last() == to
}

/// `p` leads from one node to the other, and nothing shorter does.
pub open spec fn shortest(adj: Seq<Vec<(usize, usize)>>, from: int, to: int, p: Seq<int>) -> bool {
    &&& leads(adj, from, to, p)
    &&& forall|q: Seq<int>| #[trigger] leads(adj, from, to, q) ==> p.len() <= q.len()
}

/// Where the two lists first differ, the one has the edge of lower rank.
pub open spec fn sooner(rank: spec_fn(int) -> int, p: Seq<int>, q: Seq<int>) -> bool {
    exists|j: int| #[trigger] differs_at(rank, p, q, j)
}

pub open spec fn differs_at(rank: spec_fn(int) -> int, p: Seq<int>, q: Seq<int>, j: int) -> bool {
    &&& 0 <= j < p.len()
    &&& j < q.len()
    &&& p.take(j) == q.take(j)
    &&& rank(p[j]) < rank(q[j])
}

/// `p` is a shortest path, and the first of them by the ranks of its edges.
pub open spec fn foremost(adj: Seq<Vec<(usize, usize)>>, rank: spec_fn(int) -> int, from: int, to: int, p: Seq<int>) -> bool {
    &&& shortest(adj, from, to, p)
    &&& forall|q: Seq<int>| #[trigger]
        leads(adj, from, to, q) && q.len() == p.len() ==> q == p || sooner(rank, p, q)
}

/// Each edge leads on to one node, each has a rank of its own, and the edges out of
/// a node are listed by rank.
pub open spec fn well_ranked(adj: Seq<Vec<(usize, usize)>>, rank: spec_fn(int) -> int) -> bool {
    &&& forall|u: int, v: int, w: int, k: int| #[trigger] hop(adj, u, v, k) && #[trigger] hop(adj, u, w, k) ==> v == w
    &&& forall|u: int, i: int, j: int|
        0 <= u < adj.len() && 0 <= i < j < adj[u]@.len() ==> rank((#[trigger] adj[u]@[i]).1 as int) <= rank(
            (#[trigger] adj[u]@[j]).1 as int,
        )
    &&& forall|u: int, i: int, j: int|
        0 <= u < adj.len() && 0 <= i < j < adj[u]@.len() && rank((#[trigger] adj[u]@[i]).1 as int) == rank(
            (#[trigger] adj[u]@[j]).1 as int,
        ) ==> adj[u]@[i].1 == adj[u]@[j].1
}

pub open spec fn ints(v: Seq<usize>) -> Seq<int> {
    v.map_values(|k: usize| k as int)
}

/// All neighbours are nodes.
pub open spec fn closed_under(adj: Seq<Vec<(usize, usize)>>) -> bool {
    forall|u: int, i: int|
        0 <= u < adj.len() && 0 <= i < adj[u]@.len() ==> (#[trigger] adj[u]@[i]).0 < adj.len()
}

/// The edges are listed by some rank.
spec fn ranked(adj: Seq<Vec<(usize, usize)>>) -> bool {
    exists|rank: spec_fn(int) -> int| #[trigger] well_ranked(adj, rank)
}

struct Search {
    queue: Vec<usize>,
    seen: Vec<bool>,
    prev: Vec<Option<(usize, usize)>>,
}

impl Search {
    /// `head` nodes of the queue are done; `dist` is the distance of each node
    /// that was seen.
    spec fn sound(self, adj: Seq<Vec<(usize, usize)>>, from: int, dist: Seq<int>) -> bool {
        let n = adj.len();
        let q = self.queue@;
        &&& self.seen@.len() == n
        &&& self.prev@.len() == n
        &&& dist.len() == n
        &&& q.len() > 0
        &&& q[0] == from
        &&& dist[from] == 0
        &&& self.prev@[from] is None
        &&& q.no_duplicates()
        &&& forall|j: int| 0 <= j < q.len() ==> (#[trigger] q[j]) < n && self.seen@[q[j] as int]
        &&& forall|v: int| 0 <= v < n && #[trigger] self.seen@[v] ==> q.contains(v as usize)
        &&& forall|i: int, j: int|
            0 <= i <= j < q.len() ==> dist[#[trigger] q[i] as int] <= dist[#[trigger] q[j] as int]
        &&& forall|v: int|
            0 <= v < n && !(#[trigger] self.seen@[v]) ==> self.prev@[v] is None
        &&& forall|v: int|
            0 <= v < n && v != from && #[trigger] self.seen@[v] ==> {
                &&& self.prev@[v] is Some
                &&& self.prev@[v]->Some_0.0 < n
                &&& self.seen@[self.prev@[v]->Some_0.0 as int]
                &&& hop(adj, self.prev@[v]->Some_0.0 as int, v, self.prev@[v]->Some_0.1 as int)
                &&& dist[v] == dist[self.prev@[v]->Some_0.0 as int] + 1
            }
        &&& forall|v: int| 0 <= v < n && #[trigger] self.seen@[v] ==> 0 <= dist[v]
    }

    /// Every edge out of the first `head` nodes has been followed.
    spec fn done(self, adj: Seq<Vec<(usize, usize)>>, dist: Seq<int>, head: int) -> bool {
        forall|i: int, k: int|
            0 <= i < head && 0 <= k < adj[self.queue@[i] as int]@.len() ==> self.followed(
                adj,
                dist,
                self.queue@[i] as int,
                #[trigger] adj[self.queue@[i] as int]@[k].0 as int,
            )
    }

    spec fn followed(self, adj: Seq<Vec<(usize, usize)>>, dist: Seq<int>, u: int, v: int) -> bool {
        self.seen@[v] && dist[v] <= dist[u] + 1
    }

    /// `tree` is the path that each node was found along. Nodes at one distance
    /// are queued in the order of their paths; each was found from one of the
    /// first `head` nodes, or along one of the first `i` edges of the next.
    #[verifier::opaque]
    spec fn ordered(
        self,
        adj: Seq<Vec<(usize, usize)>>,
        rank: spec_fn(int) -> int,
        from: int,
        dist: Seq<int>,
        tree: Seq<Seq<int>>,
        head: int,
        i: int,
    ) -> bool {
        let n = adj.len();
        let q = self.queue@;
        &&& tree.len() == n
        &&& tree[from].len() == 0
        &&& forall|v: int| 0 <= v < n && #[trigger] self.seen@[v] ==> tree[v].len() == dist[v]
        &&& forall|v: int|
            0 <= v < n && v != from && #[trigger] self.seen@[v] ==> tree[v] == tree[self.prev@[v]->Some_0.0 as int].push(
                self.prev@[v]->Some_0.1 as int,
            ) && self.found_from(adj, head, i, v)
        &&& forall|a: int, b: int|
            0 <= a < b < q.len() && dist[#[trigger] q[a] as int] == dist[#[trigger] q[b] as int] ==> sooner(
                rank,
                tree[q[a] as int],
                tree[q[b] as int],
            )
        &&& forall|a: int, k: int|
            0 <= a < head && 0 <= k < adj[q[a] as int]@.len() ==> self.kept(
                adj,
                rank,
                dist,
                tree,
                q[a] as int,
                #[trigger] adj[q[a] as int]@[k],
            )
        &&& head < q.len() ==> forall|k: int|
            0 <= k < i ==> self.kept(adj, rank, dist, tree, q[head] as int, #[trigger] adj[q[head] as int]@[k])
    }

    /// Whatever the edges are ranked by, the nodes are queued in that order.
    #[verifier::opaque]
    spec fn in_order(
        self,
        adj: Seq<Vec<(usize, usize)>>,
        from: int,
        dist: Seq<int>,
        tree: Seq<Seq<int>>,
        head: int,
        i: int,
    ) -> bool {
        forall|rank: spec_fn(int) -> int| #[trigger]
            well_ranked(adj, rank) ==> self.ordered(adj, rank, from, dist, tree, head, i)
    }

    /// The first `head` nodes are done, and the first `i` edges of the next.
    #[verifier::opaque]
    spec fn stage(
        self,
        adj: Seq<Vec<(usize, usize)>>,
        from: int,
        dist: Seq<int>,
        tree: Seq<Seq<int>>,
        head: int,
        i: int,
    ) -> bool {
        let q = self.queue@;
        &&& closed_under(adj)
        &&& 0 <= from < adj.len()
        &&& 0 <= head <= q.len()
        &&& self.sound(adj, from, dist)
        &&& self.done(adj, dist, head)
        &&& self.in_order(adj, from, dist, tree, head, i)
        &&& head < q.len() ==> forall|j: int|
            0 <= j < q.len() ==> dist[#[trigger] q[j] as int] <= dist[q[head] as int] + 1
        &&& head < q.len() ==> forall|k: int|
            0 <= k < i ==> self.followed(adj, dist, q[head] as int, #[trigger] adj[q[head] as int]@[k].0 as int)
    }

    spec fn found_from(self, adj: Seq<Vec<(usize, usize)>>, head: int, i: int, v: int) -> bool {
        let (u, k) = self.prev@[v]->Some_0;
        ||| exists|a: int| 0 <= a < head && #[trigger] self.queue@[a] == u
        ||| head < self.queue@.len() && self.queue@[head] == u && exists|b: int|
            0 <= b < i && b < adj[u as int]@.len() && (#[trigger] adj[u as int]@[b]) == (v as usize, k)
    }

    /// The edge leads to a node that was found along no later path.
    spec fn kept(
        self,
        adj: Seq<Vec<(usize, usize)>>,
        rank: spec_fn(int) -> int,
        dist: Seq<int>,
        tree: Seq<Seq<int>>,
        u: int,
        edge: (usize, usize),
    ) -> bool {
        let p = tree[u].push(edge.1 as int);
        dist[edge.0 as int] == dist[u] + 1 ==> tree[edge.0 as int] == p || sooner(rank, tree[edge.0 as int], p)
    }
}

/// Of two lists, the order is decided where they first differ, whatever follows.
proof fn sooner_extends(rank: spec_fn(int) -> int, p: Seq<int>, q: Seq<int>, x: int, y: int)
    requires
        p.len() == q.len(),
    ensures
        sooner(rank, p, q) ==> sooner(rank, p.push(x), q.push(y)),
        p == q && rank(x) < rank(y) ==> sooner(rank, p.push(x), q.push(y)),
{
    let (a, b) = (p.push(x), q.push(y));
    if sooner(rank, p, q) {
        let j = choose|j: int| #[trigger] differs_at(rank, p, q, j);
        assert(a.take(j) =~= p.take(j));
        assert(b.take(j) =~= q.take(j));
        assert(differs_at(rank, a, b, j));
    }
    if p == q && rank(x) < rank(y) {
        let j = p.len() as int;
        assert(a.take(j) =~= b.take(j));
        assert(differs_at(rank, a, b, j));
    }
}

proof fn sooner_chains(rank: spec_fn(int) -> int, p: Seq<int>, q: Seq<int>, r: Seq<int>)
    requires
        sooner(rank, p, q),
        sooner(rank, q, r),
    ensures
        sooner(rank, p, r),
{
    let i = choose|j: int| #[trigger] differs_at(rank, p, q, j);
    let j = choose|j: int| #[trigger] differs_at(rank, q, r, j);
    let k = if i < j {
        i
    } else {
        j
    };
    assert(p.take(k) =~= p.take(i).take(k));
    assert(q.take(k) =~= q.take(i).take(k));
    assert(q.take(k) =~= q.take(j).take(k));
    assert(r.take(k) =~= r.take(j).take(k));
    if i < j {
        assert(q[i] == q.take(j)[i]);
        assert(r[i] == r.take(j)[i]);
    } else if j < i {
        assert(p[j] == p.take(i)[j]);
        assert(q[j] == q.take(i)[j]);
    }
    assert(differs_at(rank, p, r, k));
}

/// Of two different lists at most one comes first.
pub proof fn sooner_is_strict(rank: spec_fn(int) -> int, p: Seq<int>, q: Seq<int>)
    ensures
        !(sooner(rank, p, q) && sooner(rank, q, p)),
{
    if sooner(rank, p, q) && sooner(rank, q, p) {
        sooner_chains(rank, p, q, p);
        let j = choose|j: int| #[trigger] differs_at(rank, p, p, j);
    }
}

/// There is one foremost path at most.
pub proof fn foremost_is_one(
    adj: Seq<Vec<(usize, usize)>>,
    rank: spec_fn(int) -> int,
    from: int,
    to: int,
    p: Seq<int>,
    q: Seq<int>,
)
    requires
        foremost(adj, rank, from, to, p),
        foremost(adj, rank, from, to, q),
    ensures
        p == q,
{
    sooner_is_strict(rank, p, q);
}

/// Whatever lies one step beyond node `u` was found no later than along the next
/// edge of `u`.
proof fn arrives_no_later(
    s: Search,
    adj: Seq<Vec<(usize, usize)>>,
    rank: spec_fn(int) -> int,
    from: int,
    dist: Seq<int>,
    tree: Seq<Seq<int>>,
    head: int,
    i: int,
    w: int,
)
    requires
        s.sound(adj, from, dist),
        s.ordered(adj, rank, from, dist, tree, head, i),
        well_ranked(adj, rank),
        0 <= head < s.queue@.len(),
        0 <= i < adj[s.queue@[head] as int]@.len(),
        0 <= w < adj.len(),
        s.seen@[w],
        dist[w] == dist[s.queue@[head] as int] + 1,
    ensures
        ({
            let u = s.queue@[head] as int;
            let x = adj[u]@[i].1;
            ||| s.prev@[w] == Some((u as usize, x)) && tree[w] == tree[u].push(x as int)
            ||| sooner(rank, tree[w], tree[u].push(x as int))
        }),
{
    reveal(Search::ordered);
    let u = s.queue@[head] as int;
    let x = adj[u]@[i].1;
    assert(s.seen@[u]);
    assert(w != from);
    let (o, k) = s.prev@[w]->Some_0;
    assert(s.found_from(adj, head, i, w));
    assert(s.seen@[o as int]);
    if exists|a: int| 0 <= a < head && #[trigger] s.queue@[a] == o {
        let a = choose|a: int| 0 <= a < head && #[trigger] s.queue@[a] == o;
        assert(sooner(rank, tree[s.queue@[a] as int], tree[s.queue@[head] as int]));
        sooner_extends(rank, tree[o as int], tree[u], k as int, x as int);
    } else {
        let b = choose|b: int| 0 <= b < i && b < adj[o as int]@.len() && (#[trigger] adj[o as int]@[b]) == (w as usize, k);
        assert(o as int == u);
        assert(rank(adj[u]@[b].1 as int) <= rank(adj[u]@[i].1 as int));
        if k != x {
            sooner_extends(rank, tree[u], tree[u], k as int, x as int);
        }
    }
}

/// The next edge leads to a node that was seen before.
proof fn seen_again(
    s: Search,
    adj: Seq<Vec<(usize, usize)>>,
    rank: spec_fn(int) -> int,
    from: int,
    dist: Seq<int>,
    tree: Seq<Seq<int>>,
    head: int,
    i: int,
)
    requires
        s.sound(adj, from, dist),
        s.ordered(adj, rank, from, dist, tree, head, i),
        well_ranked(adj, rank),
        closed_under(adj),
        0 <= head < s.queue@.len(),
        0 <= i < adj[s.queue@[head] as int]@.len(),
        s.seen@[adj[s.queue@[head] as int]@[i].0 as int],
    ensures
        s.ordered(adj, rank, from, dist, tree, head, i + 1),
{
    reveal(Search::ordered);
    let u = s.queue@[head] as int;
    let (v, x) = adj[u]@[i];
    assert(v < adj.len());
    if dist[v as int] == dist[u] + 1 {
        arrives_no_later(s, adj, rank, from, dist, tree, head, i, v as int);
    }
    assert forall|w: int| 0 <= w < adj.len() && w != from && #[trigger] s.seen@[w] implies s.found_from(
        adj,
        head,
        i + 1,
        w,
    ) by {
        assert(s.found_from(adj, head, i, w));
    }
    assert(s.kept(adj, rank, dist, tree, u, adj[u]@[i]));
}

/// The next edge leads to a new node.
proof fn seen_first(
    before: Search,
    s: Search,
    adj: Seq<Vec<(usize, usize)>>,
    rank: spec_fn(int) -> int,
    from: int,
    dist: Seq<int>,
    tree: Seq<Seq<int>>,
    head: int,
    i: int,
)
    requires
        before.sound(adj, from, dist),
        before.ordered(adj, rank, from, dist, tree, head, i),
        before.done(adj, dist, head),
        forall|k: int|
            0 <= k < i ==> before.followed(
                adj,
                dist,
                before.queue@[head] as int,
                #[trigger] adj[before.queue@[head] as int]@[k].0 as int,
            ),
        well_ranked(adj, rank),
        closed_under(adj),
        0 <= from < adj.len(),
        0 <= head < before.queue@.len(),
        0 <= i < adj[before.queue@[head] as int]@.len(),
        ({
            let u = before.queue@[head];
            let (v, x) = adj[u as int]@[i];
            &&& !before.seen@[v as int]
            &&& s.queue@ == before.queue@.push(v)
            &&& s.seen@ == before.seen@.update(v as int, true)
            &&& s.prev@ == before.prev@.update(v as int, Some((u, x)))
        }),
    ensures
        ({
            let u = before.queue@[head] as int;
            let (v, x) = adj[u]@[i];
            s.ordered(
                adj,
                rank,
                from,
                dist.update(v as int, dist[u] + 1),
                tree.update(v as int, tree[u].push(x as int)),
                head,
                i + 1,
            )
        }),
{
    reveal(Search::ordered);
    let u = before.queue@[head] as int;
    let (v, x) = adj[u]@[i];
    let n = adj.len();
    let dist1 = dist.update(v as int, dist[u] + 1);
    let tree1 = tree.update(v as int, tree[u].push(x as int));
    let q0 = before.queue@;
    let q = s.queue@;
    assert(v < n);
    assert(before.seen@[u]);
    assert(u != v);
    assert(before.seen@[before.queue@[0] as int]);
    assert(v != from);
    assert(hop(adj, u, v as int, x as int)) by {
        assert(adj[u]@[i].0 == v);
    }
    assert forall|w: int| 0 <= w < n && w != from && #[trigger] s.seen@[w] implies tree1[w] == tree1[s.prev@[w]->Some_0.0 as int].push(
        s.prev@[w]->Some_0.1 as int,
    ) && s.found_from(adj, head, i + 1, w) by {
        if w == v {
            assert(adj[u]@[i] == (w as usize, x));
            assert(q[head] == u as usize);
        } else {
            assert(before.seen@[w]);
            assert(before.found_from(adj, head, i, w));
            let (o, k) = before.prev@[w]->Some_0;
            assert(before.seen@[o as int]);
            if exists|a: int| 0 <= a < head && #[trigger] before.queue@[a] == o {
                let a = choose|a: int| 0 <= a < head && #[trigger] before.queue@[a] == o;
                assert(q[a] == o);
            } else {
                assert(q[head] == o);
            }
        }
    }
    assert forall|a: int| 0 <= a < q0.len() implies (#[trigger] q[a]) == q0[a] && q0[a] != v && q0[a] < n by {
        assert(before.seen@[q0[a] as int]);
    }
    assert forall|a: int, b: int|
        0 <= a < b < q.len() && dist1[#[trigger] q[a] as int] == dist1[#[trigger] q[b] as int] implies sooner(
        rank,
        tree1[q[a] as int],
        tree1[q[b] as int],
    ) by {
        assert(q[a] == q0[a]);
        if b < q0.len() {
            assert(q[b] == q0[b]);
        } else {
            let w = q0[a] as int;
            assert(before.seen@[w]);
            arrives_no_later(before, adj, rank, from, dist, tree, head, i, w);
            if before.prev@[w] == Some((u as usize, x)) {
                assert(w != from);
                assert(hop(adj, u, w, x as int));
                assert(false);
            }
        }
    }
    assert forall|w: int| 0 <= w < n && #[trigger] s.seen@[w] implies tree1[w].len() == dist1[w] by {
        if w != v {
            assert(before.seen@[w]);
        }
    }
    assert forall|a: int, k: int| 0 <= a < head && 0 <= k < adj[q[a] as int]@.len() implies s.kept(
        adj,
        rank,
        dist1,
        tree1,
        q[a] as int,
        #[trigger] adj[q[a] as int]@[k],
    ) by {
        assert(q[a] == q0[a]);
        let edge = adj[q0[a] as int]@[k];
        assert(before.kept(adj, rank, dist, tree, q0[a] as int, adj[q0[a] as int]@[k]));
        assert(before.followed(adj, dist, q0[a] as int, adj[q0[a] as int]@[k].0 as int));
        assert(edge.0 != v);
    }
    assert(q[head] == q0[head]);
    assert forall|k: int| 0 <= k < i + 1 implies s.kept(
        adj,
        rank,
        dist1,
        tree1,
        q[head] as int,
        #[trigger] adj[q[head] as int]@[k],
    ) by {
        if k < i {
            assert(before.kept(adj, rank, dist, tree, u, adj[q0[head] as int]@[k]));
            assert(before.followed(adj, dist, u, adj[u]@[k].0 as int));
        }
    }
}

/// Once all edges of a node are followed, the next one is up.
proof fn next_node(
    s: Search,
    adj: Seq<Vec<(usize, usize)>>,
    rank: spec_fn(int) -> int,
    from: int,
    dist: Seq<int>,
    tree: Seq<Seq<int>>,
    head: int,
)
    requires
        s.sound(adj, from, dist),
        0 <= head < s.queue@.len(),
        s.ordered(adj, rank, from, dist, tree, head, adj[s.queue@[head] as int]@.len() as int),
    ensures
        s.ordered(adj, rank, from, dist, tree, head + 1, 0),
{
    reveal(Search::ordered);
    let q = s.queue@;
    let m = adj[q[head] as int]@.len() as int;
    assert forall|w: int| 0 <= w < adj.len() && w != from && #[trigger] s.seen@[w] implies s.found_from(
        adj,
        head + 1,
        0,
        w,
    ) by {
        assert(s.found_from(adj, head, m, w));
        let (o, k) = s.prev@[w]->Some_0;
        if exists|a: int| 0 <= a < head && #[trigger] s.queue@[a] == o {
            let a = choose|a: int| 0 <= a < head && #[trigger] s.queue@[a] == o;
            assert(s.queue@[a] == o);
        } else {
            assert(s.queue@[head] == o);
        }
    }
    assert forall|a: int, k: int| 0 <= a < head + 1 && 0 <= k < adj[q[a] as int]@.len() implies s.kept(
        adj,
        rank,
        dist,
        tree,
        q[a] as int,
        #[trigger] adj[q[a] as int]@[k],
    ) by {
        if a == head {
            assert(s.kept(adj, rank, dist, tree, q[head] as int, adj[q[head] as int]@[k]));
        }
    }
}

proof fn edge_is_kept(
    s: Search,
    adj: Seq<Vec<(usize, usize)>>,
    rank: spec_fn(int) -> int,
    from: int,
    dist: Seq<int>,
    tree: Seq<Seq<int>>,
    head: int,
    a: int,
    k: int,
)
    requires
        s.ordered(adj, rank, from, dist, tree, head, 0),
        0 <= a < head <= s.queue@.len(),
        0 <= k < adj[s.queue@[a] as int]@.len(),
    ensures
        s.kept(adj, rank, dist, tree, s.queue@[a] as int, adj[s.queue@[a] as int]@[k]),
{
    reveal(Search::ordered);
}

proof fn tree_of(
    s: Search,
    adj: Seq<Vec<(usize, usize)>>,
    rank: spec_fn(int) -> int,
    from: int,
    dist: Seq<int>,
    tree: Seq<Seq<int>>,
    head: int,
    i: int,
    v: int,
)
    requires
        s.ordered(adj, rank, from, dist, tree, head, i),
        0 <= v < adj.len(),
        s.seen@[v],
    ensures
        tree[from].len() == 0,
        tree[v].len() == dist[v],
        v != from ==> tree[v] == tree[s.prev@[v]->Some_0.0 as int].push(s.prev@[v]->Some_0.1 as int),
{
    reveal(Search::ordered);
}

/// A node that is queued for the first time keeps the search sound.
proof fn search_grows(
    before: Search,
    s: Search,
    adj: Seq<Vec<(usize, usize)>>,
    from: int,
    dist0: Seq<int>,
    head: int,
    i: int,
)
    requires
        before.sound(adj, from, dist0),
        before.done(adj, dist0, head),
        forall|k: int|
            0 <= k < i ==> before.followed(
                adj,
                dist0,
                before.queue@[head] as int,
                #[trigger] adj[before.queue@[head] as int]@[k].0 as int,
            ),
        forall|j: int|
            0 <= j < before.queue@.len() ==> dist0[#[trigger] before.queue@[j] as int] <= dist0[before.queue@[head] as int]
                + 1,
        closed_under(adj),
        0 <= from < adj.len(),
        0 <= head < before.queue@.len(),
        0 <= i < adj[before.queue@[head] as int]@.len(),
        ({
            let u = before.queue@[head];
            let (v, x) = adj[u as int]@[i];
            &&& !before.seen@[v as int]
            &&& s.queue@ == before.queue@.push(v)
            &&& s.seen@ == before.seen@.update(v as int, true)
            &&& s.prev@ == before.prev@.update(v as int, Some((u, x)))
        }),
    ensures
        ({
            let u = before.queue@[head] as int;
            let dist = dist0.update(adj[u]@[i].0 as int, dist0[u] + 1);
            &&& s.sound(adj, from, dist)
            &&& s.done(adj, dist, head)
            &&& forall|k: int| 0 <= k < i + 1 ==> s.followed(adj, dist, u, #[trigger] adj[u]@[k].0 as int)
            &&& forall|j: int| 0 <= j < s.queue@.len() ==> dist[#[trigger] s.queue@[j] as int] <= dist[u] + 1
        }),
{
    let u = before.queue@[head];
    let (v, k) = adj[u as int]@[i];
    let n = adj.len();
    let dist = dist0.update(v as int, dist0[u as int] + 1);
    assert(v < n);
    assert(before.seen@[u as int]);
    assert(hop(adj, u as int, v as int, k as int)) by {
        assert(adj[u as int]@[i].0 == v);
    }
    assert(!before.queue@.contains(v)) by {
        if before.queue@.contains(v) {
            let j = choose|j: int| 0 <= j < before.queue@.len() && before.queue@[j] == v;
            assert(before.seen@[before.queue@[j] as int]);
        }
    }
    assert(before.seen@[from]) by {
        assert(before.seen@[before.queue@[0] as int]);
    }
    assert forall|x: int| 0 <= x < n && #[trigger] s.seen@[x] implies s.queue@.contains(x as usize) by {
        if x == v {
            assert(s.queue@[s.queue@.len() - 1] == x as usize);
        } else {
            assert(before.seen@[x]);
            let j = choose|j: int| 0 <= j < before.queue@.len() && before.queue@[j] == x as usize;
            assert(s.queue@[j] == x as usize);
        }
    }
    assert forall|j: int| 0 <= j < s.queue@.len() implies (#[trigger] s.queue@[j]) < n && s.seen@[s.queue@[j] as int] by {
        if j < before.queue@.len() {
            assert(before.queue@[j] < n);
        }
    }
    assert forall|a: int, b: int| 0 <= a <= b < s.queue@.len() implies dist[#[trigger] s.queue@[a] as int]
        <= dist[#[trigger] s.queue@[b] as int] by {
        if b < before.queue@.len() {
            assert(dist0[before.queue@[a] as int] <= dist0[before.queue@[b] as int]);
            assert(before.queue@[a] != v && before.queue@[b] != v);
        } else if a < before.queue@.len() {
            assert(before.queue@[a] != v);
            assert(dist0[before.queue@[a] as int] <= dist0[u as int] + 1);
        }
    }
    assert forall|x: int| 0 <= x < n && x != from && #[trigger] s.seen@[x] implies {
        &&& s.prev@[x] is Some
        &&& s.prev@[x]->Some_0.0 < n
        &&& s.seen@[s.prev@[x]->Some_0.0 as int]
        &&& hop(adj, s.prev@[x]->Some_0.0 as int, x, s.prev@[x]->Some_0.1 as int)
        &&& dist[x] == dist[s.prev@[x]->Some_0.0 as int] + 1
    } by {
        if x != v {
            assert(before.seen@[x]);
        }
    }
    assert(s.sound(adj, from, dist));
    assert forall|a: int, b: int| 0 <= a < head && 0 <= b < adj[s.queue@[a] as int]@.len() implies s.followed(
        adj,
        dist,
        s.queue@[a] as int,
        #[trigger] adj[s.queue@[a] as int]@[b].0 as int,
    ) by {
        assert(before.queue@[a] == s.queue@[a]);
        assert(before.followed(adj, dist0, before.queue@[a] as int, adj[before.queue@[a] as int]@[b].0 as int));
    }
    assert forall|a: int| 0 <= a < i + 1 implies s.followed(adj, dist, u as int, #[trigger] adj[u as int]@[a].0 as int) by {
        if a < i {
            assert(before.followed(adj, dist0, u as int, adj[u as int]@[a].0 as int));
        }
    }
    assert forall|j: int| 0 <= j < s.queue@.len() implies dist[#[trigger] s.queue@[j] as int] <= dist[u as int] + 1 by {
        if j < before.queue@.len() {
            assert(before.queue@[j] != v);
            assert(dist0[before.queue@[j] as int] <= dist0[u as int] + 1);
        }
    }
}

proof fn order_begins(s: Search, adj: Seq<Vec<(usize, usize)>>, from: int, dist: Seq<int>, tree: Seq<Seq<int>>)
    requires
        s.sound(adj, from, dist),
        s.queue@.len() == 1,
        tree.len() == adj.len(),
        0 <= from < adj.len(),
        forall|v: int| 0 <= v < adj.len() ==> (#[trigger] tree[v]).len() == 0,
    ensures
        s.in_order(adj, from, dist, tree, 0, 0),
{
    reveal(Search::in_order);
    reveal(Search::ordered);
    assert forall|v: int| 0 <= v < adj.len() && #[trigger] s.seen@[v] implies v == from by {
        assert(s.queue@.contains(v as usize));
    }
}

proof fn order_seen_again(
    s: Search,
    adj: Seq<Vec<(usize, usize)>>,
    from: int,
    dist: Seq<int>,
    tree: Seq<Seq<int>>,
    head: int,
    i: int,
)
    requires
        s.sound(adj, from, dist),
        s.in_order(adj, from, dist, tree, head, i),
        closed_under(adj),
        0 <= head < s.queue@.len(),
        0 <= i < adj[s.queue@[head] as int]@.len(),
        s.seen@[adj[s.queue@[head] as int]@[i].0 as int],
    ensures
        s.in_order(adj, from, dist, tree, head, i + 1),
{
    reveal(Search::in_order);
    assert forall|rank: spec_fn(int) -> int| #[trigger] well_ranked(adj, rank) implies s.ordered(
        adj,
        rank,
        from,
        dist,
        tree,
        head,
        i + 1,
    ) by {
        seen_again(s, adj, rank, from, dist, tree, head, i);
    }
}

proof fn order_seen_first(
    before: Search,
    s: Search,
    adj: Seq<Vec<(usize, usize)>>,
    from: int,
    dist: Seq<int>,
    tree: Seq<Seq<int>>,
    head: int,
    i: int,
)
    requires
        before.sound(adj, from, dist),
        before.in_order(adj, from, dist, tree, head, i),
        before.done(adj, dist, head),
        forall|k: int|
            0 <= k < i ==> before.followed(
                adj,
                dist,
                before.queue@[head] as int,
                #[trigger] adj[before.queue@[head] as int]@[k].0 as int,
            ),
        closed_under(adj),
        0 <= from < adj.len(),
        0 <= head < before.queue@.len(),
        0 <= i < adj[before.queue@[head] as int]@.len(),
        ({
            let u = before.queue@[head];
            let (v, x) = adj[u as int]@[i];
            &&& !before.seen@[v as int]
            &&& s.queue@ == before.queue@.push(v)
            &&& s.seen@ == before.seen@.update(v as int, true)
            &&& s.prev@ == before.prev@.update(v as int, Some((u, x)))
        }),
    ensures
        ({
            let u = before.queue@[head] as int;
            let (v, x) = adj[u]@[i];
            s.in_order(
                adj,
                from,
                dist.update(v as int, dist[u] + 1),
                tree.update(v as int, tree[u].push(x as int)),
                head,
                i + 1,
            )
        }),
{
    reveal(Search::in_order);
    let u = before.queue@[head] as int;
    let (v, x) = adj[u]@[i];
    assert forall|rank: spec_fn(int) -> int| #[trigger] well_ranked(adj, rank) implies s.ordered(
        adj,
        rank,
        from,
        dist.update(v as int, dist[u] + 1),
        tree.update(v as int, tree[u].push(x as int)),
        head,
        i + 1,
    ) by {
        seen_first(before, s, adj, rank, from, dist, tree, head, i);
    }
}

proof fn order_next_node(
    s: Search,
    adj: Seq<Vec<(usize, usize)>>,
    from: int,
    dist: Seq<int>,
    tree: Seq<Seq<int>>,
    head: int,
)
    requires
        s.sound(adj, from, dist),
        0 <= head < s.queue@.len(),
        s.in_order(adj, from, dist, tree, head, adj[s.queue@[head] as int]@.len() as int),
    ensures
        s.in_order(adj, from, dist, tree, head + 1, 0),
{
    reveal(Search::in_order);
    assert forall|rank: spec_fn(int) -> int| #[trigger] well_ranked(adj, rank) implies s.ordered(
        adj,
        rank,
        from,
        dist,
        tree,
        head + 1,
        0,
    ) by {
        next_node(s, adj, rank, from, dist, tree, head);
    }
}

proof fn stage_bounds(
    s: Search,
    adj: Seq<Vec<(usize, usize)>>,
    from: int,
    dist: Seq<int>,
    tree: Seq<Seq<int>>,
    head: int,
    i: int,
)
    requires
        s.stage(adj, from, dist, tree, head, i),
    ensures
        s.seen@.len() == adj.len(),
        s.prev@.len() == adj.len(),
        s.queue@.len() <= adj.len(),
        forall|j: int| 0 <= j < s.queue@.len() ==> (#[trigger] s.queue@[j]) < adj.len(),
{
    reveal(Search::stage);
    queue_is_bounded(s.queue@, adj.len() as int);
}

proof fn stage_again(
    s: Search,
    adj: Seq<Vec<(usize, usize)>>,
    from: int,
    dist: Seq<int>,
    tree: Seq<Seq<int>>,
    head: int,
    i: int,
)
    requires
        s.stage(adj, from, dist, tree, head, i),
        0 <= head < s.queue@.len(),
        0 <= i < adj[s.queue@[head] as int]@.len(),
        s.seen@[adj[s.queue@[head] as int]@[i].0 as int],
    ensures
        s.stage(adj, from, dist, tree, head, i + 1),
{
    reveal(Search::stage);
    let u = s.queue@[head] as int;
    let v = adj[u]@[i].0;
    order_seen_again(s, adj, from, dist, tree, head, i);
    assert(v < adj.len());
    assert(s.queue@.contains(v));
    let j = choose|j: int| 0 <= j < s.queue@.len() && s.queue@[j] == v;
    assert(dist[s.queue@[j] as int] <= dist[u] + 1);
    assert(s.followed(adj, dist, u, v as int));
}

proof fn stage_first(
    before: Search,
    s: Search,
    adj: Seq<Vec<(usize, usize)>>,
    from: int,
    dist: Seq<int>,
    tree: Seq<Seq<int>>,
    head: int,
    i: int,
)
    requires
        before.stage(adj, from, dist, tree, head, i),
        0 <= head < before.queue@.len(),
        0 <= i < adj[before.queue@[head] as int]@.len(),
        ({
            let u = before.queue@[head];
            let (v, x) = adj[u as int]@[i];
            &&& !before.seen@[v as int]
            &&& s.queue@ == before.queue@.push(v)
            &&& s.seen@ == before.seen@.update(v as int, true)
            &&& s.prev@ == before.prev@.update(v as int, Some((u, x)))
        }),
    ensures
        ({
            let u = before.queue@[head] as int;
            let (v, x) = adj[u]@[i];
            s.stage(
                adj,
                from,
                dist.update(v as int, dist[u] + 1),
                tree.update(v as int, tree[u].push(x as int)),
                head,
                i + 1,
            )
        }),
{
    reveal(Search::stage);
    order_seen_first(before, s, adj, from, dist, tree, head, i);
    search_grows(before, s, adj, from, dist, head, i);
    assert(s.queue@[head] == before.queue@[head]);
}

proof fn stage_next(
    s: Search,
    adj: Seq<Vec<(usize, usize)>>,
    from: int,
    dist: Seq<int>,
    tree: Seq<Seq<int>>,
    head: int,
)
    requires
        0 <= head < s.queue@.len(),
        s.stage(adj, from, dist, tree, head, adj[s.queue@[head] as int]@.len() as int),
    ensures
        s.stage(adj, from, dist, tree, head + 1, 0),
{
    reveal(Search::stage);
    let u = s.queue@[head] as int;
    order_next_node(s, adj, from, dist, tree, head);
    assert forall|a: int, b: int| 0 <= a < head + 1 && 0 <= b < adj[s.queue@[a] as int]@.len() implies s.followed(
        adj,
        dist,
        s.queue@[a] as int,
        #[trigger] adj[s.queue@[a] as int]@[b].0 as int,
    ) by {
        if a == head {
            assert(s.followed(adj, dist, u, adj[u]@[b].0 as int));
        }
    }
    if head + 1 < s.queue@.len() {
        assert(dist[s.queue@[head] as int] <= dist[s.queue@[head + 1] as int]);
    }
}

/// A node that is nearer than the next one up has been done.
proof fn queued_early(
    s: Search,
    adj: Seq<Vec<(usize, usize)>>,
    from: int,
    dist: Seq<int>,
    head: int,
    u: int,
    i: int,
) -> (j: int)
    requires
        s.sound(adj, from, dist),
        s.done(adj, dist, head),
        0 <= head < s.queue@.len(),
        0 <= u < adj.len(),
        s.seen@[u],
        dist[u] < dist[s.queue@[head] as int],
        0 <= i < adj[u]@.len(),
    ensures
        0 <= j < head,
        s.queue@[j] == u,
        dist[adj[u]@[i].0 as int] <= dist[u] + 1,
{
    assert(s.queue@.contains(u as usize));
    let j = choose|j: int| 0 <= j < s.queue@.len() && s.queue@[j] == u as usize;
    if j >= head {
        assert(dist[s.queue@[head] as int] <= dist[s.queue@[j] as int]);
    }
    assert(s.followed(adj, dist, u, adj[s.queue@[j] as int]@[i].0 as int));
    j
}

/// No later than one path, and that no later than another, one step further.
proof fn no_later(rank: spec_fn(int) -> int, a: Seq<int>, b: Seq<int>, c: Seq<int>, x: int)
    requires
        b.len() == c.len(),
        a == b.push(x) || sooner(rank, a, b.push(x)),
        b == c || sooner(rank, b, c),
    ensures
        a == c.push(x) || sooner(rank, a, c.push(x)),
{
    if b != c {
        sooner_extends(rank, b, c, x, x);
        if a != b.push(x) {
            sooner_chains(rank, a, b.push(x), c.push(x));
        }
    }
}

/// Every way to a node is longer than the path it was found along, or no sooner.
#[verifier::rlimit(30)]
proof fn found_along_the_foremost(
    s: Search,
    adj: Seq<Vec<(usize, usize)>>,
    rank: spec_fn(int) -> int,
    from: int,
    dist: Seq<int>,
    tree: Seq<Seq<int>>,
    head: int,
    w: Seq<int>,
    p: Seq<int>,
    k: int,
)
    requires
        s.sound(adj, from, dist),
        s.done(adj, dist, head),
        s.ordered(adj, rank, from, dist, tree, head, 0),
        0 <= head < s.queue@.len(),
        0 <= from < adj.len(),
        closed_under(adj),
        trail(adj, w, p),
        w[0] == from,
        0 <= k <= p.len(),
        k <= dist[s.queue@[head] as int],
    ensures
        0 <= w[k] < adj.len(),
        s.seen@[w[k]],
        dist[w[k]] <= k,
        dist[w[k]] == k ==> tree[w[k]] == p.take(k) || sooner(rank, tree[w[k]], p.take(k)),
    decreases k,
{
    let limit = dist[s.queue@[head] as int];
    trail_is_followed(s, adj, from, dist, head, limit, w, p, k);
    if k == 0 {
        tree_of(s, adj, rank, from, dist, tree, head, 0, from);
        assert(p.take(0) =~= tree[from]);
    } else if dist[w[k]] == k {
        found_along_the_foremost(s, adj, rank, from, dist, tree, head, w, p, k - 1);
        let u = w[k - 1];
        assert(hop(adj, w[k - 1], w[k - 1 + 1], p[k - 1]));
        let i = choose|i: int| 0 <= i < adj[u]@.len() && (#[trigger] adj[u]@[i]).0 == w[k] && adj[u]@[i].1 == p[k - 1];
        let j = queued_early(s, adj, from, dist, head, u, i);
        edge_is_kept(s, adj, rank, from, dist, tree, head, j, i);
        tree_of(s, adj, rank, from, dist, tree, head, 0, u);
        assert(p.take(k) =~= p.take(k - 1).push(p[k - 1]));
        no_later(rank, tree[w[k]], tree[u], p.take(k - 1), p[k - 1]);
    }
}

proof fn queue_is_bounded(q: Seq<usize>, n: int)
    requires
        0 <= n,
        q.no_duplicates(),
        forall|j: int| 0 <= j < q.len() ==> (#[trigger] q[j]) < n,
    ensures
        q.len() <= n,
{
    let s = ints(q);
    assert(s.no_duplicates()) by {
        assert forall|i: int, j: int| 0 <= i < s.len() && 0 <= j < s.len() && i != j implies s[i] != s[j] by {
            assert(q[i] != q[j]);
        }
    }
    s.unique_seq_to_set();
    vstd::set_lib::lemma_int_range(0, n);
    let r = vstd::set_lib::set_int_range(0, n);
    assert(s.to_set().subset_of(r)) by {
        assert forall|x: int| s.to_set().contains(x) implies r.contains(x) by {
            let j = choose|j: int| 0 <= j < s.len() && s[j] == x;
            assert(q[j] < n);
        }
    }
    vstd::set_lib::lemma_len_subset(s.to_set(), r);
}

proof fn trail_is_followed(
    s: Search,
    adj: Seq<Vec<(usize, usize)>>,
    from: int,
    dist: Seq<int>,
    head: int,
    limit: int,
    w: Seq<int>,
    p: Seq<int>,
    k: int,
)
    requires
        s.sound(adj, from, dist),
        s.done(adj, dist, head),
        0 <= head <= s.queue@.len(),
        head < s.queue@.len() ==> limit <= dist[s.queue@[head] as int],
        0 <= from < adj.len(),
        closed_under(adj),
        trail(adj, w, p),
        w[0] == from,
        0 <= k <= p.len(),
        head < s.queue@.len() ==> k <= limit,
    ensures
        0 <= w[k] < adj.len(),
        s.seen@[w[k]],
        dist[w[k]] <= k,
    decreases k,
{
    if k == 0 {
        assert(s.seen@[s.queue@[0] as int]);
    } else {
        trail_is_followed(s, adj, from, dist, head, limit, w, p, k - 1);
        let u = w[k - 1];
        assert(s.queue@.contains(u as usize));
        let j = choose|j: int| 0 <= j < s.queue@.len() && s.queue@[j] == u as usize;
        assert(j < head) by {
            if j >= head {
                assert(dist[s.queue@[head] as int] <= dist[s.queue@[j] as int]);
            }
        }
        assert(hop(adj, w[k - 1], w[k - 1 + 1], p[k - 1]));
        let i = choose|i: int| 0 <= i < adj[u]@.len() && (#[trigger] adj[u]@[i]).0 == w[k] && adj[u]@[i].1 == p[k - 1];
        assert(adj[u]@[i].0 < adj.len());
        assert(s.followed(adj, dist, u, adj[s.queue@[j] as int]@[i].0 as int));
    }
}

/// The edges of a shortest path between two nodes; empty when they are the same or
/// not connected. Where the edges out of every node are listed by rank, it is of the
/// shortest paths the one whose edges rank first.
#[verifier::rlimit(30)]
pub fn path_between(adj: &Adjacency, from: usize, to: usize) -> (r: Vec<usize>)
    requires
        from < adj@.len(),
        to < adj@.len(),
        closed_under(adj@),
    ensures
        (exists|p: Seq<int>| leads(adj@, from as int, to as int, p)) ==> shortest(
            adj@,
            from as int,
            to as int,
            ints(r@),
        ),
        forall|rank: spec_fn(int) -> int|
            (exists|p: Seq<int>| leads(adj@, from as int, to as int, p)) && #[trigger] well_ranked(adj@, rank)
                ==> foremost(adj@, rank, from as int, to as int, ints(r@)),
        r@.len() == 0 <==> from == to || !(exists|p: Seq<int>| leads(adj@, from as int, to as int, p)),
{
    let n: usize = adj.len();
    let mut queue: Vec<usize> = Vec::new();
    let mut seen: Vec<bool> = Vec::new();
    let mut prev: Vec<Option<(usize, usize)>> = Vec::new();
    for i in 0..n
        invariant
            seen@.len() == i,
            prev@.len() == i,
            forall|v: int| 0 <= v < i ==> !(#[trigger] seen@[v]),
            forall|v: int| 0 <= v < i ==> (#[trigger] prev@[v]) is None,
    {
        seen.push(false);
        prev.push(None);
    }
    queue.push(from);
    seen.set(from, true);
    let mut s = Search { queue, seen, prev };
    let ghost mut dist = Seq::new(n as nat, |i: int| 0int);
    let ghost mut tree = Seq::new(n as nat, |i: int| Seq::<int>::empty());
    assert(s.queue@[0] == from);
    proof {
        assert(s.sound(adj@, from as int, dist));
        order_begins(s, adj@, from as int, dist, tree);
        assert(s.stage(adj@, from as int, dist, tree, 0, 0)) by {
            reveal(Search::stage);
        }
    }
    let mut head: usize = 0;
    let mut found: bool = false;
    while head < s.queue.len() && !found
        invariant
            n == adj@.len(),
            from < n,
            to < n,
            closed_under(adj@),
            head <= s.queue@.len(),
            s.stage(adj@, from as int, dist, tree, head as int, 0),
            forall|i: int| 0 <= i < head ==> (#[trigger] s.queue@[i]) != to,
            found ==> head < s.queue@.len() && s.queue@[head as int] == to,
        decreases n - head, !found as int,
    {
        let u: usize = s.queue[head];
        proof {
            stage_bounds(s, adj@, from as int, dist, tree, head as int, 0);
        }
        if u == to {
            found = true;
        } else {
            let m: usize = adj[u].len();
            let ghost qh = s.queue@;
            for i in 0..m
                invariant
                    n == adj@.len(),
                    u < n,
                    m == adj@[u as int]@.len(),
                    closed_under(adj@),
                    head < qh.len() <= s.queue@.len(),
                    qh[head as int] == u,
                    qh == s.queue@.take(qh.len() as int),
                    s.stage(adj@, from as int, dist, tree, head as int, i as int),
            {
                let v: usize = adj[u][i].0;
                let k: usize = adj[u][i].1;
                assert(v < n);
                assert(s.queue@[head as int] == qh[head as int]);
                proof {
                    stage_bounds(s, adj@, from as int, dist, tree, head as int, i as int);
                }
                if !s.seen[v] {
                    let ghost before = s;
                    s.seen.set(v, true);
                    s.prev.set(v, Some((u, k)));
                    s.queue.push(v);
                    proof {
                        stage_first(before, s, adj@, from as int, dist, tree, head as int, i as int);
                        dist = dist.update(v as int, dist[u as int] + 1);
                        tree = tree.update(v as int, tree[u as int].push(k as int));
                        assert(s.queue@.take(qh.len() as int) =~= before.queue@.take(qh.len() as int));
                    }
                } else {
                    proof {
                        stage_again(s, adj@, from as int, dist, tree, head as int, i as int);
                    }
                }
            }
            proof {
                assert forall|a: int| 0 <= a < head + 1 implies (#[trigger] s.queue@[a]) == qh[a] && s.queue@[a] != to by {
                    assert(s.queue@.take(qh.len() as int)[a] == qh[a]);
                }
                stage_next(s, adj@, from as int, dist, tree, head as int);
            }
            head += 1;
        }
    }
    proof {
        reveal(Search::stage);
    }
    proof {
        if found {
            assert forall|p: Seq<int>| #[trigger] leads(adj@, from as int, to as int, p) implies dist[to as int] <= p.len() by {
                let w = choose|w: Seq<int>| #[trigger] trail(adj@, w, p) && w[0] == from as int && w.last() == to as int;
                if p.len() < dist[to as int] {
                    trail_is_followed(s, adj@, from as int, dist, head as int, dist[to as int], w, p, p.len() as int);
                }
            }
            assert forall|rank: spec_fn(int) -> int, p: Seq<int>|
                #[trigger] well_ranked(adj@, rank) && #[trigger] leads(adj@, from as int, to as int, p) && p.len()
                    == dist[to as int] implies p == tree[to as int] || sooner(rank, tree[to as int], p) by {
                let w = choose|w: Seq<int>| #[trigger] trail(adj@, w, p) && w[0] == from as int && w.last() == to as int;
                reveal(Search::in_order);
                found_along_the_foremost(s, adj@, rank, from as int, dist, tree, head as int, w, p, p.len() as int);
                assert(p.take(p.len() as int) =~= p);
            }
        } else {
            assert forall|p: Seq<int>| !#[trigger] leads(adj@, from as int, to as int, p) by {
                if leads(adj@, from as int, to as int, p) {
                    let w = choose|w: Seq<int>| #[trigger] trail(adj@, w, p) && w[0] == from as int && w.last() == to as int;
                    trail_is_followed(s, adj@, from as int, dist, head as int, 0, w, p, p.len() as int);
                    assert(s.queue@.contains(to));
                }
            }
            assert(!s.seen@[to as int]) by {
                if s.seen@[to as int] {
                    assert(s.queue@.contains(to));
                }
            }
        }
    }
    let mut back: Vec<usize> = Vec::new();
    let mut cur: usize = to;
    let ghost mut way: Seq<int> = seq![to as int];
    assert(found ==> s.seen@[to as int]) by {
        if found {
            assert(s.seen@[s.queue@[head as int] as int]);
        }
    }
    assert(trail(adj@, way, ints(back@).reverse())) by {
        assert(ints(back@).reverse() =~= seq![]);
    }
    assert(tree[to as int] =~= tree[to as int] + ints(back@).reverse());
    loop
        invariant
            n == adj@.len(),
            from < n,
            to < n,
            cur < n,
            s.sound(adj@, from as int, dist),
            found ==> s.seen@[cur as int],
            !found ==> back@.len() == 0 && cur == to && !s.seen@[to as int],
            found ==> dist[cur as int] + back@.len() == dist[to as int],
            s.in_order(adj@, from as int, dist, tree, head as int, 0),
            found && ranked(adj@) ==> tree[to as int] == tree[cur as int] + ints(back@).reverse(),
            trail(adj@, way, ints(back@).reverse()),
            way[0] == cur as int,
            way.last() == to as int,
        ensures
            found ==> cur == from,
        decreases dist[cur as int] + (if found { 1int } else { 0 }),
    {
        match s.prev[cur] {
            None => {
                break;
            },
            Some(step) => {
                assert(found);
                assert(cur != from);
                proof {
                    if ranked(adj@) {
                        let rank = choose|rank: spec_fn(int) -> int| #[trigger] well_ranked(adj@, rank);
                        reveal(Search::in_order);
                        tree_of(s, adj@, rank, from as int, dist, tree, head as int, 0, cur as int);
                    }
                }
                let ghost back0 = back@;
                let ghost way0 = way;
                assert(hop(adj@, step.0 as int, cur as int, step.1 as int));
                assert(s.seen@[step.0 as int]);
                back.push(step.1);
                cur = step.0;
                proof {
                    way = seq![cur as int] + way;
                    let p = ints(back@).reverse();
                    assert(p =~= seq![step.1 as int] + ints(back0).reverse());
                    assert(tree[step.0 as int].push(step.1 as int) + ints(back0).reverse() =~= tree[step.0 as int] + p);
                    assert forall|j: int| 0 <= j < p.len() implies hop(adj@, way[j], way[j + 1], #[trigger] p[j]) by {
                        if j > 0 {
                            assert(p[j] == ints(back0).reverse()[j - 1]);
                            assert(way[j] == way0[j - 1]);
                            assert(way[j + 1] == way0[j - 1 + 1]);
                        }
                    }
                }
            },
        }
    }
    let mut out: Vec<usize> = Vec::new();
    let m: usize = back.len();
    for i in 0..m
        invariant
            m == back@.len(),
            out@ =~= back@.reverse().take(i as int),
    {
        out.push(back[m - 1 - i]);
    }
    assert(ints(out@) =~= ints(back@).reverse());
    proof {
        if found {
            assert(leads(adj@, from as int, to as int, ints(out@)));
            assert forall|rank: spec_fn(int) -> int| #[trigger] well_ranked(adj@, rank) implies foremost(
                adj@,
                rank,
                from as int,
                to as int,
                ints(out@),
            ) by {
                reveal(Search::in_order);
                tree_of(s, adj@, rank, from as int, dist, tree, head as int, 0, from as int);
                assert(tree[from as int] + ints(out@) =~= ints(out@));
            }
            if from == to {
                assert(trail(adj@, seq![from as int], seq![]));
                assert(leads(adj@, from as int, to as int, seq![]));
            }
        }
    }
    out
}

} // verus!

//! Topological index detection for charge/flux-oriented nodal analysis.
//!
//! Two topologies push the equations to index 2: a **CV loop** (a loop of
//! capacitors closed by a voltage-defining element) and an **LI cutset** (a
//! cutset of inductors that contains at least one current source). The detector
//! names the elements responsible.
use crate::cutsets::{cutsets_are_found, cutsets_at, find_cutsets, has_li_cutset};
use crate::circuit::{element_views, Circuit, Element, ElementView, Kind};
use crate::forest::{is_walk, joined, label, label_is_connectivity, linked, Forest};
use crate::paths::{
    closed_under, foremost, hop, ints, leads, path_between, sooner, sooner_is_strict, trail, well_ranked, Adjacency,
};
use crate::text::{join, join_texts, same, texts};
use vstd::prelude::*;

verus! {

/// One offending topology: the elements that form it.
#[derive(Debug)]
pub struct Index2Path {
    /// The source that makes it index 2 (voltage source in a CV loop, current
    /// source in an LI cutset).
    pub source: String,
    /// The storage elements completing it (capacitors / inductors), in path
    /// order for a loop, in circuit order for a cutset.
    pub storage: Vec<String>,
}

pub struct PathView {
    pub source: Seq<char>,
    pub storage: Seq<Seq<char>>,
}

impl View for Index2Path {
    type V = PathView;

    open spec fn view(&self) -> PathView {
        PathView { source: self.source@, storage: texts(self.storage@) }
    }
}

pub open spec fn path_views(v: Seq<Index2Path>) -> Seq<PathView> {
    v.map_values(|p: Index2Path| p@)
}

impl PathView {
    /// `"V1-C1-C2"`.
    pub open spec fn described(self) -> Seq<char> {
        join(seq![self.source] + self.storage, "-"@)
    }
}

pub open spec fn descriptions(ps: Seq<PathView>) -> Seq<Seq<char>> {
    ps.map_values(|p: PathView| p.described())
}

impl Index2Path {
    /// `"V1-C1-C2"`, for a diagnostic line.
    pub fn describe(&self) -> (r: String)
        ensures
            r@ == self@.described(),
    {
        let mut parts: Vec<String> = Vec::new();
        parts.push(self.source.clone());
        for i in 0..self.storage.len()
            invariant
                texts(parts@) =~= seq![self.source@] + texts(self.storage@).take(i as int),
        {
            let t = self.storage[i].clone();
            let ghost before = parts@;
            parts.push(t);
            assert(texts(parts@) =~= texts(before).push(t@));
            assert(texts(self.storage@).take(i + 1) =~= texts(self.storage@).take(i as int).push(t@));
        }
        assert(texts(self.storage@).take(self.storage@.len() as int) =~= texts(self.storage@));
        join_texts(&parts, "-")
    }
}

/// What the topology says about the index of the equations.
#[derive(Debug)]
pub struct Index2Report {
    /// Loops of capacitors closed by a voltage source.
    pub cv_loops: Vec<Index2Path>,
    /// Cutsets of inductors that contain at least one current source.
    pub li_cutsets: Vec<Index2Path>,
}

/// The one-line summary of a report.
pub open spec fn summary_of(cv: Seq<PathView>, li: Seq<PathView>) -> Seq<char> {
    let loops = "capacitor/voltage-source loop ("@ + join(descriptions(cv), "; "@) + ")"@;
    let cutsets = "inductor/current-source cutset ("@ + join(descriptions(li), "; "@) + ")"@;
    if cv.len() > 0 && li.len() > 0 {
        loops + ", "@ + cutsets
    } else if cv.len() > 0 {
        loops
    } else if li.len() > 0 {
        cutsets
    } else {
        seq![]
    }
}

impl Index2Report {
    pub fn is_index2(&self) -> (r: bool)
        ensures
            r == (self.cv_loops@.len() > 0 || self.li_cutsets@.len() > 0),
    {
        self.cv_loops.len() > 0 || self.li_cutsets.len() > 0
    }

    /// A one-line summary naming the elements, for a warning.
    pub fn summary(&self) -> (r: String)
        ensures
            r@ == summary_of(path_views(self.cv_loops@), path_views(self.li_cutsets@)),
    {
        let mut out = String::new();
        if self.cv_loops.len() > 0 {
            out = "capacitor/voltage-source loop (".to_owned();
            out.append(&join_paths(&self.cv_loops));
            out.append(")");
        }
        if self.li_cutsets.len() > 0 {
            let mut second = "inductor/current-source cutset (".to_owned();
            second.append(&join_paths(&self.li_cutsets));
            second.append(")");
            if self.cv_loops.len() > 0 {
                out.append(", ");
                out.append(&second);
            } else {
                out = second;
            }
        }
        out
    }
}

fn join_paths(ps: &Vec<Index2Path>) -> (r: String)
    ensures
        r@ == join(descriptions(path_views(ps@)), "; "@),
{
    let mut parts: Vec<String> = Vec::new();
    for i in 0..ps.len()
        invariant
            texts(parts@) =~= descriptions(path_views(ps@)).take(i as int),
    {
        let t = ps[i].describe();
        let ghost before = parts@;
        parts.push(t);
        assert(texts(parts@) =~= texts(before).push(t@));
    }
    assert(descriptions(path_views(ps@)).take(ps@.len() as int) =~= descriptions(path_views(ps@)));
    join_texts(&parts, "; ")
}

// ---------------------------------------------------------------------------
// The topology of a circuit.
// ---------------------------------------------------------------------------
/// Voltage-defining elements: their branch voltage is prescribed, so they close
/// a capacitor loop the same way an independent source does.
pub open spec fn prescribes_voltage(k: Kind) -> bool {
    k == Kind::VoltageSource || k == Kind::Vcvs || k == Kind::Ccvs
}

/// Current-defining elements: dual of the above for cutsets.
pub open spec fn prescribes_current(k: Kind) -> bool {
    k == Kind::CurrentSource || k == Kind::Vccs || k == Kind::Cccs
}

fn defines_voltage(k: Kind) -> (r: bool)
    ensures
        r == prescribes_voltage(k),
{
    k == Kind::VoltageSource || k == Kind::Vcvs || k == Kind::Ccvs
}

pub(crate) fn defines_current(k: Kind) -> (r: bool)
    ensures
        r == prescribes_current(k),
{
    k == Kind::CurrentSource || k == Kind::Vccs || k == Kind::Cccs
}

/// The edges of the elements of a kind, in order.
pub open spec fn edges_of(e: Seq<ElementView>, want: spec_fn(Kind) -> bool) -> Seq<(int, int)>
    decreases e.len(),
{
    if e.len() == 0 {
        seq![]
    } else if want(e.last().kind) {
        edges_of(e.drop_last(), want).push((e.last().a as int, e.last().b as int))
    } else {
        edges_of(e.drop_last(), want)
    }
}

pub open spec fn is_capacitor() -> spec_fn(Kind) -> bool {
    |k: Kind| k == Kind::Capacitor
}

pub open spec fn is_voltage() -> spec_fn(Kind) -> bool {
    |k: Kind| prescribes_voltage(k)
}

/// Neither an inductor nor a prescribed current.
pub open spec fn is_rest() -> spec_fn(Kind) -> bool {
    |k: Kind| k != Kind::Inductor && !prescribes_current(k)
}

/// All capacitors, and the voltage-defining elements before element `i`.
pub open spec fn loop_edges(e: Seq<ElementView>, i: int) -> Seq<(int, int)> {
    edges_of(e, is_capacitor()) + edges_of(e.take(i), is_voltage())
}

/// Element `i` prescribes a voltage between nodes that capacitors and earlier
/// such elements already connect.
pub open spec fn closes(e: Seq<ElementView>, i: int) -> bool {
    &&& prescribes_voltage(e[i].kind)
    &&& label(loop_edges(e, i), e[i].a as int) == label(loop_edges(e, i), e[i].b as int)
}

/// Element `k` may lie on the loop that element `i` closes: a capacitor, or an
/// earlier voltage-defining element that closed no loop itself.
pub open spec fn usable(e: Seq<ElementView>, i: int, k: int) -> bool {
    &&& 0 <= k < e.len()
    &&& e[k].kind == Kind::Capacitor || (k < i && prescribes_voltage(e[k].kind) && !closes(e, k))
}

/// Element `k` runs between the nodes `u` and `v`, in either direction.
pub open spec fn between(e: ElementView, u: int, v: int) -> bool {
    (e.a == u && e.b == v) || (e.b == u && e.a == v)
}

/// The elements `p` form a path along the nodes `w`.
pub open spec fn route_along(e: Seq<ElementView>, i: int, w: Seq<int>, p: Seq<int>) -> bool {
    &&& w.len() == p.len() + 1
    &&& forall|j: int|
        0 <= j < p.len() ==> usable(e, i, #[trigger] p[j]) && between(e[p[j]], w[j], w[j + 1])
}

/// The elements `p` form a path between the ends of element `i`.
pub open spec fn route(e: Seq<ElementView>, i: int, p: Seq<int>) -> bool {
    exists|w: Seq<int>| #[trigger] route_along(e, i, w, p) && w[0] == e[i].a as int && w.last() == e[i].b as int
}

/// `p` is a path between the ends of element `i`, and none is shorter.
pub open spec fn shortest_route(e: Seq<ElementView>, i: int, p: Seq<int>) -> bool {
    &&& route(e, i, p)
    &&& forall|q: Seq<int>| #[trigger] route(e, i, q) ==> p.len() <= q.len()
}

/// The order in which elements are tried: the capacitors first, then the sources.
pub open spec fn rank(e: Seq<ElementView>) -> spec_fn(int) -> int {
    |k: int|
        if e[k].kind == Kind::Capacitor {
            k
        } else {
            e.len() + k
        }
}

/// `p` is a shortest path between the ends of element `i`, and of those the first:
/// where it differs from another it takes the earlier element.
pub open spec fn first_route(e: Seq<ElementView>, i: int, p: Seq<int>) -> bool {
    &&& shortest_route(e, i, p)
    &&& forall|q: Seq<int>| #[trigger]
        route(e, i, q) && q.len() == p.len() ==> q == p || sooner(rank(e), p, q)
}

pub open spec fn names_capacitor(e: Seq<ElementView>, name: Seq<char>) -> bool {
    exists|k: int| 0 <= k < e.len() && (#[trigger] e[k]).kind == Kind::Capacitor && e[k].name == name
}

/// The capacitors along a path, by name.
pub open spec fn capacitors_on(e: Seq<ElementView>, p: Seq<int>) -> Seq<Seq<char>>
    decreases p.len(),
{
    if p.len() == 0 {
        seq![]
    } else if names_capacitor(e, e[p.last()].name) {
        capacitors_on(e, p.drop_last()).push(e[p.last()].name)
    } else {
        capacitors_on(e, p.drop_last())
    }
}

/// The loops that the first `i` elements close, along the given paths. A loop
/// of sources with no capacitor in it is an over-determined circuit, not an
/// index-2 one.
pub open spec fn loops(e: Seq<ElementView>, routes: Seq<Seq<int>>, i: int) -> Seq<PathView>
    decreases i,
{
    if i <= 0 {
        seq![]
    } else {
        let before = loops(e, routes, i - 1);
        let storage = capacitors_on(e, routes[i - 1]);
        if closes(e, i - 1) && storage.len() > 0 {
            before.push(PathView { source: e[i - 1].name, storage })
        } else {
            before
        }
    }
}

/// One path for each element; for a closing one the first of the shortest paths
/// between its ends.
pub open spec fn routes_ok(e: Seq<ElementView>, routes: Seq<Seq<int>>) -> bool {
    &&& routes.len() == e.len()
    &&& forall|i: int| 0 <= i < e.len() && closes(e, i) ==> first_route(e, i, #[trigger] routes[i])
}

/// The loops of a list of elements, each along the first of its shortest paths.
pub open spec fn named_loops(e: Seq<ElementView>) -> Seq<PathView> {
    loops(e, choose|routes: Seq<Seq<int>>| #[trigger] routes_ok(e, routes), e.len() as int)
}

/// The consecutive terminal pairs of a device.
pub open spec fn terminal_edges(t: Seq<usize>) -> Seq<(int, int)> {
    if t.len() < 2 {
        seq![]
    } else {
        Seq::new((t.len() - 1) as nat, |i: int| (t[i] as int, t[i + 1] as int))
    }
}

pub open spec fn device_edges(d: Seq<Vec<usize>>) -> Seq<(int, int)>
    decreases d.len(),
{
    if d.len() == 0 {
        seq![]
    } else {
        device_edges(d.drop_last()) + terminal_edges(d.last()@)
    }
}

/// Everything that is neither an inductor nor a prescribed current, devices
/// included.
pub open spec fn rest_edges(e: Seq<ElementView>, d: Seq<Vec<usize>>) -> Seq<(int, int)> {
    edges_of(e, is_rest()) + device_edges(d)
}

/// An inductor or a prescribed current between two components of the rest.
pub open spec fn bridges(rest: Seq<(int, int)>, e: ElementView) -> bool {
    &&& e.kind == Kind::Inductor || prescribes_current(e.kind)
    &&& label(rest, e.a as int) != label(rest, e.b as int)
}

/// Every terminal of every device lies below the limit.
pub open spec fn terminals_below(d: Seq<Vec<usize>>, n: int) -> bool {
    forall|i: int, j: int| 0 <= i < d.len() && 0 <= j < d[i]@.len() ==> (#[trigger] d[i]@[j]) < n
}


// ---------------------------------------------------------------------------
// Loops.
// ---------------------------------------------------------------------------
/// The edges that capacitors and loop-free voltage-defining elements draw.
spec fn used_edges(e: Seq<ElementView>, i: int) -> Seq<(int, int)>
    decreases i,
{
    if i <= 0 {
        edges_of(e, is_capacitor())
    } else if prescribes_voltage(e[i - 1].kind) && !closes(e, i - 1) {
        used_edges(e, i - 1).push((e[i - 1].a as int, e[i - 1].b as int))
    } else {
        used_edges(e, i - 1)
    }
}

proof fn loop_edges_step(e: Seq<ElementView>, i: int)
    requires
        0 <= i < e.len(),
    ensures
        prescribes_voltage(e[i].kind) ==> loop_edges(e, i + 1) == loop_edges(e, i).push(
            (e[i].a as int, e[i].b as int),
        ),
        !prescribes_voltage(e[i].kind) ==> loop_edges(e, i + 1) == loop_edges(e, i),
{
    assert(e.take(i + 1).drop_last() =~= e.take(i));
    assert(e.take(i + 1).last() == e[i]);
    if prescribes_voltage(e[i].kind) {
        assert(loop_edges(e, i + 1) =~= loop_edges(e, i).push((e[i].a as int, e[i].b as int)));
    }
}

proof fn loop_edges_start(e: Seq<ElementView>)
    ensures
        loop_edges(e, 0) == edges_of(e, is_capacitor()),
{
    assert(e.take(0) =~= seq![]);
    assert(loop_edges(e, 0) =~= edges_of(e, is_capacitor()));
}

/// Leaving out the elements that close a loop connects the same nodes.
proof fn used_edges_connect(e: Seq<ElementView>, i: int, x: int)
    requires
        0 <= i <= e.len(),
    ensures
        label(used_edges(e, i), x) == label(loop_edges(e, i), x),
    decreases i,
{
    if i == 0 {
        loop_edges_start(e);
    } else {
        let j = i - 1;
        loop_edges_step(e, j);
        used_edges_connect(e, j, x);
        if prescribes_voltage(e[j].kind) {
            let (a, b) = (e[j].a as int, e[j].b as int);
            used_edges_connect(e, j, a);
            used_edges_connect(e, j, b);
            assert(loop_edges(e, i).drop_last() =~= loop_edges(e, j));
            if !closes(e, j) {
                assert(used_edges(e, i).drop_last() =~= used_edges(e, j));
            }
        }
    }
}

proof fn edges_come_from_elements(
    e: Seq<ElementView>,
    want: spec_fn(Kind) -> bool,
    edge: (int, int),
) -> (k: int)
    requires
        edges_of(e, want).contains(edge),
    ensures
        0 <= k < e.len(),
        want(e[k].kind),
        edge == (e[k].a as int, e[k].b as int),
    decreases e.len(),
{
    let s = edges_of(e, want);
    let n = choose|n: int| 0 <= n < s.len() && s[n] == edge;
    if want(e.last().kind) {
        if n == s.len() - 1 {
            e.len() - 1
        } else {
            let t = edges_of(e.drop_last(), want);
            assert(t[n] == edge);
            edges_come_from_elements(e.drop_last(), want, edge)
        }
    } else {
        edges_come_from_elements(e.drop_last(), want, edge)
    }
}

proof fn used_edges_are_usable(e: Seq<ElementView>, i: int, edge: (int, int)) -> (k: int)
    requires
        0 <= i <= e.len(),
        used_edges(e, i).contains(edge),
    ensures
        usable(e, i, k),
        edge == (e[k].a as int, e[k].b as int),
    decreases i,
{
    if i == 0 {
        edges_come_from_elements(e, is_capacitor(), edge)
    } else {
        let j = i - 1;
        let s = used_edges(e, i);
        let n = choose|n: int| 0 <= n < s.len() && s[n] == edge;
        if prescribes_voltage(e[j].kind) && !closes(e, j) {
            if n == s.len() - 1 {
                j
            } else {
                assert(used_edges(e, j)[n] == edge);
                used_edges_are_usable(e, j, edge)
            }
        } else {
            used_edges_are_usable(e, j, edge)
        }
    }
}

spec fn step_ok(e: Seq<ElementView>, i: int, u: int, v: int, k: int) -> bool {
    usable(e, i, k) && between(e[k], u, v)
}

spec fn step_pick(e: Seq<ElementView>, i: int, u: int, v: int) -> int {
    choose|k: int| step_ok(e, i, u, v, k)
}

/// A closing element has a path between its ends.
proof fn closing_has_route(e: Seq<ElementView>, i: int) -> (p: Seq<int>)
    requires
        0 <= i < e.len(),
        closes(e, i),
    ensures
        route(e, i, p),
{
    let (a, b) = (e[i].a as int, e[i].b as int);
    used_edges_connect(e, i, a);
    used_edges_connect(e, i, b);
    let used = used_edges(e, i);
    label_is_connectivity(used, a, b);
    let w = choose|w: Seq<int>| #[trigger] is_walk(used, w) && w[0] == a && w.last() == b;
    let p = Seq::new((w.len() - 1) as nat, |j: int| step_pick(e, i, w[j], w[j + 1]));
    assert forall|j: int| 0 <= j < p.len() implies usable(e, i, #[trigger] p[j]) && between(e[p[j]], w[j], w[j + 1]) by {
        let (u, v) = (w[j], w[j + 1]);
        assert(joined(used, u, v));
        let k = if used.contains((u, v)) {
            used_edges_are_usable(e, i, (u, v))
        } else {
            used_edges_are_usable(e, i, (v, u))
        };
        assert(step_ok(e, i, w[j], w[j + 1], k));
    }
    assert(route_along(e, i, w, p));
    p
}

/// The adjacency list holds exactly the elements chosen by `ok`.
spec fn holds(
    adj: Seq<Vec<(usize, usize)>>,
    e: Seq<ElementView>,
    n: int,
    ok: spec_fn(int) -> bool,
) -> bool {
    &&& adj.len() == n
    &&& closed_under(adj)
    &&& forall|u: int, v: int, k: int|
        #[trigger] hop(adj, u, v, k) <==> ok(k) && 0 <= k < e.len() && between(e[k], u, v)
}

/// The elements at each node are listed by rank, none above `top`.
spec fn listed(adj: Seq<Vec<(usize, usize)>>, order: spec_fn(int) -> int, top: int) -> bool {
    &&& forall|u: int, i: int|
        0 <= u < adj.len() && 0 <= i < adj[u]@.len() ==> order((#[trigger] adj[u]@[i]).1 as int) <= top
    &&& forall|u: int, i: int, j: int|
        0 <= u < adj.len() && 0 <= i < j < adj[u]@.len() ==> order((#[trigger] adj[u]@[i]).1 as int) <= order(
            (#[trigger] adj[u]@[j]).1 as int,
        )
}

proof fn listed_further(adj: Seq<Vec<(usize, usize)>>, order: spec_fn(int) -> int, low: int, top: int)
    requires
        listed(adj, order, low),
        low <= top,
    ensures
        listed(adj, order, top),
{
    assert forall|u: int, i: int| 0 <= u < adj.len() && 0 <= i < adj[u]@.len() implies order(
        (#[trigger] adj[u]@[i]).1 as int,
    ) <= top by {}
}

/// The adjacency list of the usable elements ranks its edges.
proof fn holding_is_ranked(adj: Seq<Vec<(usize, usize)>>, e: Seq<ElementView>, n: int, i: int, top: int)
    requires
        holds(adj, e, n, |k: int| usable(e, i, k)),
        listed(adj, rank(e), top),
    ensures
        well_ranked(adj, rank(e)),
{
    assert forall|u: int, v: int, w: int, k: int| #[trigger] hop(adj, u, v, k) && #[trigger] hop(adj, u, w, k) implies v
        == w by {}
    assert forall|u: int, a: int, b: int|
        0 <= u < adj.len() && 0 <= a < b < adj[u]@.len() && rank(e)((#[trigger] adj[u]@[a]).1 as int) == rank(e)(
            (#[trigger] adj[u]@[b]).1 as int,
        ) implies adj[u]@[a].1 == adj[u]@[b].1 by {
        assert(hop(adj, u, adj[u]@[a].0 as int, adj[u]@[a].1 as int));
        assert(hop(adj, u, adj[u]@[b].0 as int, adj[u]@[b].1 as int));
    }
}

fn link(adj: &mut Adjacency, a: usize, b: usize, k: usize, Ghost(order): Ghost<spec_fn(int) -> int>)
    requires
        a < old(adj)@.len(),
        b < old(adj)@.len(),
        closed_under(old(adj)@),
        listed(old(adj)@, order, order(k as int)),
    ensures
        final(adj)@.len() == old(adj)@.len(),
        closed_under(final(adj)@),
        listed(final(adj)@, order, order(k as int)),
        forall|u: int, v: int, x: int|
            #[trigger] hop(final(adj)@, u, v, x) <==> hop(old(adj)@, u, v, x) || (x == k && ((u == a && v
                == b) || (u == b && v == a))),
{
    half_link(adj, a, b, k, Ghost(order));
    half_link(adj, b, a, k, Ghost(order));
}

fn half_link(adj: &mut Adjacency, a: usize, b: usize, k: usize, Ghost(order): Ghost<spec_fn(int) -> int>)
    requires
        a < old(adj)@.len(),
        b < old(adj)@.len(),
        closed_under(old(adj)@),
        listed(old(adj)@, order, order(k as int)),
    ensures
        final(adj)@.len() == old(adj)@.len(),
        closed_under(final(adj)@),
        listed(final(adj)@, order, order(k as int)),
        forall|u: int, v: int, x: int|
            #[trigger] hop(final(adj)@, u, v, x) <==> hop(old(adj)@, u, v, x) || (x == k && u == a && v == b),
{
    let ghost before = adj@;
    adj[a].push((b, k));
    proof {
        let after = adj@;
        assert(after[a as int]@ == before[a as int]@.push((b, k)));
        assert forall|u: int, i: int| 0 <= u < after.len() && 0 <= i < after[u]@.len() implies order(
            (#[trigger] after[u]@[i]).1 as int,
        ) <= order(k as int) by {
            if i < before[u]@.len() {
                assert(after[u]@[i] == before[u]@[i]);
            }
        }
        assert forall|u: int, i: int, j: int| 0 <= u < after.len() && 0 <= i < j < after[u]@.len() implies order(
            (#[trigger] after[u]@[i]).1 as int,
        ) <= order((#[trigger] after[u]@[j]).1 as int) by {
            assert(after[u]@[i] == before[u]@[i]);
            if j < before[u]@.len() {
                assert(after[u]@[j] == before[u]@[j]);
            }
        }
        assert forall|u: int, i: int| 0 <= u < after.len() && 0 <= i < after[u]@.len() implies (
        #[trigger] after[u]@[i]).0 < after.len() by {
            if u == a && i == before[u]@.len() {
            } else {
                assert(before[u]@[i].0 < before.len());
            }
        }
        assert forall|u: int, v: int, x: int| #[trigger] hop(after, u, v, x) implies hop(before, u, v, x) || (x == k && u == a && v == b) by {
            let i = choose|i: int| 0 <= i < after[u]@.len() && (#[trigger] after[u]@[i]).0 == v && after[u]@[i].1 == x;
            if u == a && i == before[u]@.len() {
            } else {
                assert(before[u]@[i] == after[u]@[i]);
            }
        }
        assert forall|u: int, v: int, x: int| hop(before, u, v, x) || (x == k && u == a && v == b) implies #[trigger] hop(after, u, v, x) by {
            if hop(before, u, v, x) {
                let i = choose|i: int| 0 <= i < before[u]@.len() && (#[trigger] before[u]@[i]).0 == v && before[u]@[i].1 == x;
                assert(after[u]@[i] == before[u]@[i]);
            } else {
                let i = before[u]@.len() as int;
                assert(after[u]@[i] == (b, k));
            }
        }
    }
}

/// A path over the adjacency list is a path over the elements.
proof fn leads_is_route(adj: Seq<Vec<(usize, usize)>>, e: Seq<ElementView>, n: int, i: int, p: Seq<int>)
    requires
        0 <= i < e.len(),
        holds(adj, e, n, |k: int| usable(e, i, k)),
    ensures
        leads(adj, e[i].a as int, e[i].b as int, p) <==> route(e, i, p),
{
    let (a, b) = (e[i].a as int, e[i].b as int);
    if leads(adj, a, b, p) {
        let w = choose|w: Seq<int>| #[trigger] trail(adj, w, p) && w[0] == a && w.last() == b;
        assert forall|j: int| 0 <= j < p.len() implies usable(e, i, #[trigger] p[j]) && between(e[p[j]], w[j], w[j + 1]) by {
            assert(hop(adj, w[j], w[j + 1], p[j]));
        }
        assert(route_along(e, i, w, p));
    }
    if route(e, i, p) {
        let w = choose|w: Seq<int>| #[trigger] route_along(e, i, w, p) && w[0] == a && w.last() == b;
        assert forall|j: int| 0 <= j < p.len() implies hop(adj, w[j], w[j + 1], #[trigger] p[j]) by {
            assert(usable(e, i, p[j]) && between(e[p[j]], w[j], w[j + 1]));
        }
        assert(trail(adj, w, p));
    }
}

fn is_capacitor_name(elems: &[Element], name: &str) -> (r: bool)
    ensures
        r == names_capacitor(element_views(elems@), name@),
{
    for i in 0..elems.len()
        invariant
            forall|k: int|
                0 <= k < i ==> !((#[trigger] element_views(elems@)[k]).kind == Kind::Capacitor && element_views(elems@)[k].name == name@),
    {
        if elems[i].kind == Kind::Capacitor && same(&elems[i].name, name) {
            assert(element_views(elems@)[i as int].kind == Kind::Capacitor);
            return true;
        }
    }
    false
}

/// The names of the capacitors along a path.
fn storage_on(elems: &[Element], p: &Vec<usize>) -> (r: Vec<String>)
    requires
        forall|j: int| 0 <= j < p@.len() ==> (#[trigger] p@[j]) < elems@.len(),
    ensures
        texts(r@) == capacitors_on(element_views(elems@), ints(p@)),
{
    let mut out: Vec<String> = Vec::new();
    assert(texts(out@) =~= seq![]);
    assert(ints(p@).take(0) =~= seq![]);
    for j in 0..p.len()
        invariant
            forall|j: int| 0 <= j < p@.len() ==> (#[trigger] p@[j]) < elems@.len(),
            texts(out@) == capacitors_on(element_views(elems@), ints(p@).take(j as int)),
    {
        let k: usize = p[j];
        proof {
            let t = ints(p@).take(j + 1);
            assert(t.drop_last() =~= ints(p@).take(j as int));
            assert(t.last() == k as int);
            assert(element_views(elems@)[k as int].name == elems@[k as int].name@);
        }
        if is_capacitor_name(elems, &elems[k].name) {
            let ghost before = out@;
            let t = elems[k].name.clone();
            out.push(t);
            assert(texts(out@) =~= texts(before).push(t@));
        }
    }
    assert(ints(p@).take(p@.len() as int) =~= ints(p@));
    out
}

proof fn usable_step(e: Seq<ElementView>, i: int, k: int)
    requires
        0 <= i < e.len(),
    ensures
        usable(e, i + 1, k) <==> usable(e, i, k) || (k == i && prescribes_voltage(e[i].kind) && !closes(e, i)),
{
}

/// Loops of capacitors closed by a voltage-defining element: grow a forest of
/// capacitors, then close it with sources. A source that closes no loop joins
/// the forest, so a second one in series with it is judged against the union.
fn find_loops(elems: &[Element], n: usize) -> (out: (Vec<Index2Path>, Ghost<Seq<Seq<int>>>))
    requires
        forall|i: int| 0 <= i < elems@.len() ==> (#[trigger] elems@[i]).a < n && elems@[i].b < n,
    ensures
        routes_ok(element_views(elems@), out.1@),
        path_views(out.0@) == loops(element_views(elems@), out.1@, elems@.len() as int),
{
    let ghost e = element_views(elems@);
    let mut adj: Adjacency = Vec::new();
    for i in 0..n
        invariant
            adj@.len() == i,
            forall|u: int| 0 <= u < i ==> (#[trigger] adj@[u])@.len() == 0,
    {
        adj.push(Vec::new());
    }
    let mut forest = Forest::new(n);
    proof {
        assert(e.take(0) =~= seq![]);
        assert(holds(adj@, e, n as int, |k: int| k < 0 && e[k].kind == Kind::Capacitor)) by {
            assert forall|u: int, v: int, k: int| !(#[trigger] hop(adj@, u, v, k)) by {}
        }
    }
    for i in 0..elems.len()
        invariant
            e == element_views(elems@),
            forall|i: int| 0 <= i < elems@.len() ==> (#[trigger] elems@[i]).a < n && elems@[i].b < n,
            forest.wf(),
            forest.size() == n,
            forest.edges() == edges_of(e.take(i as int), is_capacitor()),
            holds(adj@, e, n as int, |k: int| k < i && e[k].kind == Kind::Capacitor),
            listed(adj@, rank(e), i - 1),
    {
        proof {
            assert(e.take(i + 1).drop_last() =~= e.take(i as int));
            assert(e.take(i + 1).last() == e[i as int]);
            assert(e[i as int] == elems@[i as int]@);
        }
        if elems[i].kind == Kind::Capacitor {
            let (a, b) = (elems[i].a, elems[i].b);
            proof {
                listed_further(adj@, rank(e), i - 1, i as int);
            }
            link(&mut adj, a, b, i, Ghost(rank(e)));
            forest.union(a, b);
        } else {
            proof {
                listed_further(adj@, rank(e), i - 1, i as int);
            }
        }
    }
    proof {
        assert(e.take(e.len() as int) =~= e);
        assert(listed(adj@, rank(e), e.len() - 1));
    }
    let mut out: Vec<Index2Path> = Vec::new();
    let ghost mut routes: Seq<Seq<int>> = seq![];
    proof {
        loop_edges_start(e);
        assert(path_views(out@) =~= seq![]);
        assert(holds(adj@, e, n as int, |k: int| usable(e, 0, k))) by {
            assert forall|u: int, v: int, k: int|
                #[trigger] hop(adj@, u, v, k) <==> usable(e, 0, k) && 0 <= k < e.len() && between(e[k], u, v) by {}
        }
    }
    for i in 0..elems.len()
        invariant
            e == element_views(elems@),
            forall|i: int| 0 <= i < elems@.len() ==> (#[trigger] elems@[i]).a < n && elems@[i].b < n,
            forest.wf(),
            forest.size() == n,
            forest.edges() == loop_edges(e, i as int),
            holds(adj@, e, n as int, |k: int| usable(e, i as int, k)),
            listed(adj@, rank(e), e.len() + i - 1),
            routes.len() == i,
            forall|j: int| 0 <= j < i && closes(e, j) ==> first_route(e, j, #[trigger] routes[j]),
            path_views(out@) == loops(e, routes, i as int),
    {
        let ghost before = routes;
        let ghost mut chosen: Seq<int> = seq![];
        proof {
            loop_edges_step(e, i as int);
            assert(e[i as int] == elems@[i as int]@);
            assert forall|k: int| usable(e, i + 1, k) <==> usable(e, i as int, k) || (k == i
                && prescribes_voltage(e[i as int].kind) && !closes(e, i as int)) by {
                usable_step(e, i as int, k);
            }
        }
        let mut found: Option<Vec<String>> = None;
        if defines_voltage(elems[i].kind) {
            let (a, b) = (elems[i].a, elems[i].b);
            if forest.union(a, b) {
                proof {
                    listed_further(adj@, rank(e), e.len() + i - 1, e.len() + i as int);
                }
                link(&mut adj, a, b, i, Ghost(rank(e)));
            } else {
                proof {
                    holding_is_ranked(adj@, e, n as int, i as int, e.len() + i - 1);
                }
                let p = path_between(&adj, a, b);
                proof {
                    let q = closing_has_route(e, i as int);
                    leads_is_route(adj@, e, n as int, i as int, q);
                    leads_is_route(adj@, e, n as int, i as int, ints(p@));
                    assert(foremost(adj@, rank(e), a as int, b as int, ints(p@)));
                    assert forall|q: Seq<int>| #[trigger] route(e, i as int, q) implies ints(p@).len() <= q.len() by {
                        leads_is_route(adj@, e, n as int, i as int, q);
                        assert(leads(adj@, a as int, b as int, q));
                    }
                    assert forall|q: Seq<int>| #[trigger] route(e, i as int, q) && q.len() == ints(p@).len() implies q == ints(p@)
                        || sooner(rank(e), ints(p@), q) by {
                        leads_is_route(adj@, e, n as int, i as int, q);
                        assert(leads(adj@, a as int, b as int, q));
                    }
                    chosen = ints(p@);
                    let w = choose|w: Seq<int>| #[trigger] route_along(e, i as int, w, chosen) && w[0] == e[i as int].a as int && w.last() == e[i as int].b as int;
                    assert forall|j: int| 0 <= j < p@.len() implies (#[trigger] p@[j]) < elems@.len() by {
                        assert(usable(e, i as int, chosen[j]));
                    }
                }
                found = Some(storage_on(elems, &p));
            }
        }
        proof {
            routes = routes.push(chosen);
            if !(prescribes_voltage(e[i as int].kind) && !closes(e, i as int)) {
                listed_further(adj@, rank(e), e.len() + i - 1, e.len() + i as int);
            }
            loops_ignore_later(e, before, routes, i as int);
            assert forall|j: int| 0 <= j < i + 1 && closes(e, j) implies first_route(e, j, #[trigger] routes[j]) by {
                if j < i {
                    assert(routes[j] == before[j]);
                }
            }
        }
        if let Some(storage) = found {
            if storage.len() > 0 {
                let ghost out0 = out@;
                let item = Index2Path { source: elems[i].name.clone(), storage };
                let ghost view = item@;
                out.push(item);
                assert(path_views(out@) =~= path_views(out0).push(view));
            }
        }
    }
    (out, Ghost(routes))
}

proof fn loops_ignore_later(e: Seq<ElementView>, a: Seq<Seq<int>>, b: Seq<Seq<int>>, i: int)
    requires
        0 <= i <= a.len(),
        i <= b.len(),
        forall|j: int| 0 <= j < i ==> a[j] == b[j],
    ensures
        loops(e, a, i) == loops(e, b, i),
    decreases i,
{
    if i > 0 {
        loops_ignore_later(e, a, b, i - 1);
    }
}


// ---------------------------------------------------------------------------
// Detection.
// ---------------------------------------------------------------------------
/// Detect the index-2 topologies of a circuit.
///
/// `device_terminals` carries the nonlinear devices (transistors, diodes): they
/// live outside the linear element list but are still branches, so they break
/// cutsets.
pub fn detect(circuit: &Circuit, device_terminals: &[Vec<usize>]) -> (report: Index2Report)
    requires
        circuit@.max_node < usize::MAX,
        terminals_below(device_terminals@, usize::MAX as int),
    ensures
        exists|routes: Seq<Seq<int>>| #[trigger]
            routes_ok(circuit@.elements, routes) && path_views(report.cv_loops@) == loops(
                circuit@.elements,
                routes,
                circuit@.elements.len() as int,
            ),
        path_views(report.cv_loops@) == named_loops(circuit@.elements),
        exists|keys: Seq<(int, int)>| #[trigger]
            cutsets_at(
                circuit@.elements,
                rest_edges(circuit@.elements, device_terminals@),
                keys,
                path_views(report.li_cutsets@),
            ),
        report.li_cutsets@.len() > 0 <==> has_li_cutset(
            circuit@.elements,
            rest_edges(circuit@.elements, device_terminals@),
        ),
{
    let mut m: usize = circuit.node_count();
    for i in 0..device_terminals.len()
        invariant
            circuit@.max_node <= m < usize::MAX,
            terminals_below(device_terminals@, usize::MAX as int),
            forall|a: int, b: int|
                0 <= a < i && 0 <= b < device_terminals@[a]@.len() ==> (#[trigger] device_terminals@[a]@[b]) <= m,
    {
        let t = &device_terminals[i];
        for j in 0..t.len()
            invariant
                0 <= i < device_terminals@.len(),
                *t == device_terminals@[i as int],
                circuit@.max_node <= m < usize::MAX,
                terminals_below(device_terminals@, usize::MAX as int),
                forall|a: int, b: int|
                    0 <= a < i && 0 <= b < device_terminals@[a]@.len() ==> (#[trigger] device_terminals@[a]@[b]) <= m,
                forall|b: int| 0 <= b < j ==> (#[trigger] device_terminals@[i as int]@[b]) <= m,
        {
            assert(device_terminals@[i as int]@[j as int] < usize::MAX);
            m = crate::circuit::larger_of(m, t[j]);
        }
    }
    let n: usize = m + 1;
    let elems = circuit.elements();
    proof {
        use_type_invariant(circuit);
        assert forall|i: int| 0 <= i < elems@.len() implies (#[trigger] elems@[i]).a < n && elems@[i].b < n by {
            assert(circuit@.elements[i] == elems@[i]@);
            assert(circuit@.elements[i].fits(circuit@.max_node));
        }
    }
    let (cv_loops, routes) = find_loops(elems, n);
    let li_cutsets = find_cutsets(elems, device_terminals, n);
    assert(routes_ok(circuit@.elements, routes@));
    proof {
        let e = circuit@.elements;
        let chosen = choose|r: Seq<Seq<int>>| #[trigger] routes_ok(e, r);
        named_loops_are_settled(e, routes@, chosen, e.len() as int);
        let rest = rest_edges(circuit@.elements, device_terminals@);
        let keys = choose|keys: Seq<(int, int)>| #[trigger]
            cutsets_at(element_views(elems@), rest, keys, path_views(li_cutsets@));
        assert(cutsets_at(circuit@.elements, rest, keys, path_views(li_cutsets@)));
        cutsets_are_found(circuit@.elements, rest, keys, path_views(li_cutsets@));
    }
    let report = Index2Report { cv_loops, li_cutsets };
    assert(path_views(report.li_cutsets@) == path_views(li_cutsets@));
    report
}

// ---------------------------------------------------------------------------
// Laws.
// ---------------------------------------------------------------------------
/// There is one choice of paths where it matters: the loops that are named are
/// those of the elements alone, and no nonlinear device changes them.
pub proof fn named_loops_are_settled(e: Seq<ElementView>, a: Seq<Seq<int>>, b: Seq<Seq<int>>, i: int)
    requires
        routes_ok(e, a),
        routes_ok(e, b),
        0 <= i <= e.len(),
    ensures
        loops(e, a, i) == loops(e, b, i),
    decreases i,
{
    if i > 0 {
        named_loops_are_settled(e, a, b, i - 1);
        if closes(e, i - 1) {
            let (p, q) = (a[i - 1], b[i - 1]);
            assert(first_route(e, i - 1, p) && first_route(e, i - 1, q));
            sooner_is_strict(rank(e), p, q);
        }
    }
}

/// A voltage-defining element closes a loop exactly when capacitors and earlier
/// voltage-defining elements lead from one of its ends to the other.
pub proof fn closing_is_connectivity(e: Seq<ElementView>, i: int)
    requires
        0 <= i < e.len(),
    ensures
        closes(e, i) <==> prescribes_voltage(e[i].kind) && linked(
            loop_edges(e, i),
            e[i].a as int,
            e[i].b as int,
        ),
{
    label_is_connectivity(loop_edges(e, i), e[i].a as int, e[i].b as int);
}

/// An inductor or prescribed current whose ends the rest of the circuit and the
/// devices connect bridges nothing, so it is in no cutset.
pub proof fn connected_ends_are_no_bridge(e: Seq<ElementView>, d: Seq<Vec<usize>>, x: ElementView)
    ensures
        bridges(rest_edges(e, d), x) <==> (x.kind == Kind::Inductor || prescribes_current(x.kind))
            && !linked(rest_edges(e, d), x.a as int, x.b as int),
{
    label_is_connectivity(rest_edges(e, d), x.a as int, x.b as int);
}

/// Without a capacitor no loop is reported, whatever the paths.
pub proof fn no_capacitor_no_loop(e: Seq<ElementView>, routes: Seq<Seq<int>>, i: int)
    requires
        forall|k: int| 0 <= k < e.len() ==> (#[trigger] e[k]).kind != Kind::Capacitor,
    ensures
        loops(e, routes, i).len() == 0,
    decreases i,
{
    if i > 0 {
        no_capacitor_no_loop(e, routes, i - 1);
        no_capacitor_on(e, routes[i - 1]);
    }
}

proof fn no_capacitor_on(e: Seq<ElementView>, p: Seq<int>)
    requires
        forall|k: int| 0 <= k < e.len() ==> (#[trigger] e[k]).kind != Kind::Capacitor,
    ensures
        capacitors_on(e, p).len() == 0,
    decreases p.len(),
{
    if p.len() > 0 {
        no_capacitor_on(e, p.drop_last());
    }
}

} // verus!

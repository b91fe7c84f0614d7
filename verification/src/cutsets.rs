//! Cutsets of inductors and prescribed currents.
//!
//! Everything that is neither an inductor nor a prescribed current is contracted;
//! what is left is a graph of components, with these elements as its edges. A cut
//! of it is minimal when both its sides hang together. A minimal cut that holds
//! both an inductor and a prescribed current exists exactly when some component
//! has both towards one part of what is left once it is taken out, and those parts
//! are what is looked for.
use crate::circuit::{element_views, Element, ElementView, Kind};
use crate::forest::{
    is_walk, joined, joined_same_label, label, label_is_connectivity, label_of_label, linked, linked_chain,
    linked_edge, linked_reverse, walk_same_label, Forest,
};
use crate::index2::{
    bridges, defines_current, device_edges, edges_of, is_rest, path_views, prescribes_current, rest_edges,
    terminal_edges, terminals_below, Index2Path, PathView,
};
use crate::text::texts;
use vstd::prelude::*;

verus! {

/// An inductor or a prescribed current.
pub open spec fn is_storage(k: Kind) -> bool {
    k == Kind::Inductor || prescribes_current(k)
}

/// A bridging element with one end in component `c`.
pub open spec fn touches(rest: Seq<(int, int)>, x: ElementView, c: int) -> bool {
    bridges(rest, x) && (label(rest, x.a as int) == c || label(rest, x.b as int) == c)
}

/// The component at the other end of an element that touches component `c`.
pub open spec fn far_end(rest: Seq<(int, int)>, x: ElementView, c: int) -> int {
    if label(rest, x.a as int) == c {
        label(rest, x.b as int)
    } else {
        label(rest, x.a as int)
    }
}

/// The edges of the bridging elements that do not touch component `c`.
pub open spec fn untouched(e: Seq<ElementView>, rest: Seq<(int, int)>, c: int) -> Seq<(int, int)>
    decreases e.len(),
{
    if e.len() == 0 {
        seq![]
    } else {
        let before = untouched(e.drop_last(), rest, c);
        let x = e.last();
        if bridges(rest, x) && !touches(rest, x, c) {
            before.push((x.a as int, x.b as int))
        } else {
            before
        }
    }
}

/// What connects the components once component `c` is taken out.
pub open spec fn around(e: Seq<ElementView>, rest: Seq<(int, int)>, c: int) -> Seq<(int, int)> {
    rest + untouched(e, rest, c)
}

/// The node lies in the part that component `q` is in once `c` is taken out.
pub open spec fn in_part(e: Seq<ElementView>, rest: Seq<(int, int)>, c: int, q: int, x: int) -> bool {
    label(around(e, rest, c), x) == label(around(e, rest, c), q)
}

/// An element from component `c` into the part that component `q` is in.
pub open spec fn into_part(e: Seq<ElementView>, rest: Seq<(int, int)>, key: (int, int), x: ElementView) -> bool {
    touches(rest, x, key.0) && in_part(e, rest, key.0, key.1, far_end(rest, x, key.0))
}

/// The names of the inductors (or else the prescribed currents) among the elements
/// `v` that run from a component into a part, in circuit order.
pub open spec fn across(
    v: Seq<ElementView>,
    e: Seq<ElementView>,
    rest: Seq<(int, int)>,
    key: (int, int),
    inductors: bool,
) -> Seq<Seq<char>>
    decreases v.len(),
{
    if v.len() == 0 {
        seq![]
    } else {
        let before = across(v.drop_last(), e, rest, key, inductors);
        let x = v.last();
        if into_part(e, rest, key, x) && (x.kind == Kind::Inductor) == inductors {
            before.push(x.name)
        } else {
            before
        }
    }
}

pub open spec fn inductors_across(e: Seq<ElementView>, rest: Seq<(int, int)>, key: (int, int)) -> Seq<Seq<char>> {
    across(e, e, rest, key, true)
}

pub open spec fn currents_across(e: Seq<ElementView>, rest: Seq<(int, int)>, key: (int, int)) -> Seq<Seq<char>> {
    across(e, e, rest, key, false)
}

pub open spec fn key_less(a: (int, int), b: (int, int)) -> bool {
    a.0 < b.0 || (a.0 == b.0 && a.1 < b.1)
}

/// `q` is the least component that an element from `c` into the part leads to.
pub open spec fn leads_part(e: Seq<ElementView>, rest: Seq<(int, int)>, key: (int, int)) -> bool {
    &&& exists|i: int|
        0 <= i < e.len() && into_part(e, rest, key, #[trigger] e[i]) && far_end(rest, e[i], key.0) == key.1
    &&& forall|i: int|
        0 <= i < e.len() && into_part(e, rest, key, #[trigger] e[i]) ==> key.1 <= far_end(rest, e[i], key.0)
}

/// The same elements were met from the other end already.
pub open spec fn met_before(e: Seq<ElementView>, rest: Seq<(int, int)>, key: (int, int)) -> bool {
    &&& key.1 < key.0
    &&& forall|i: int|
        0 <= i < e.len() ==> (into_part(e, rest, key, #[trigger] e[i]) <==> into_part(e, rest, (key.1, key.0), e[i]))
}

/// An inductor and a prescribed current both run from component `c` into the part
/// that is named by component `q`.
pub open spec fn is_cutset(e: Seq<ElementView>, rest: Seq<(int, int)>, key: (int, int)) -> bool {
    &&& leads_part(e, rest, key)
    &&& inductors_across(e, rest, key).len() > 0
    &&& currents_across(e, rest, key).len() > 0
    &&& !met_before(e, rest, key)
}

/// The cutsets at `keys`, which ascend: each with its first prescribed current and
/// its inductors.
pub open spec fn cutsets_at(
    e: Seq<ElementView>,
    rest: Seq<(int, int)>,
    keys: Seq<(int, int)>,
    cutsets: Seq<PathView>,
) -> bool {
    &&& forall|i: int, j: int| 0 <= i < j < keys.len() ==> key_less(#[trigger] keys[i], #[trigger] keys[j])
    &&& forall|key: (int, int)| #[trigger] keys.contains(key) <==> is_cutset(e, rest, key)
    &&& cutsets.len() == keys.len()
    &&& forall|i: int|
        0 <= i < keys.len() ==> #[trigger] cutsets[i] == (PathView {
            source: currents_across(e, rest, keys[i])[0],
            storage: inductors_across(e, rest, keys[i]),
        })
}

// ---------------------------------------------------------------------------
// Finding them.
// ---------------------------------------------------------------------------
fn rest_forest(elems: &[Element], device_terminals: &[Vec<usize>], n: usize) -> (forest: Forest)
    requires
        forall|i: int| 0 <= i < elems@.len() ==> (#[trigger] elems@[i]).a < n && elems@[i].b < n,
        terminals_below(device_terminals@, n as int),
    ensures
        forest.wf(),
        forest.size() == n,
        forest.edges() == rest_edges(element_views(elems@), device_terminals@),
{
    let ghost e = element_views(elems@);
    let ghost d = device_terminals@;
    let mut forest = Forest::new(n);
    assert(e.take(0) =~= seq![]);
    for i in 0..elems.len()
        invariant
            e == element_views(elems@),
            forall|i: int| 0 <= i < elems@.len() ==> (#[trigger] elems@[i]).a < n && elems@[i].b < n,
            forest.wf(),
            forest.size() == n,
            forest.edges() == edges_of(e.take(i as int), is_rest()),
    {
        proof {
            assert(e.take(i + 1).drop_last() =~= e.take(i as int));
            assert(e.take(i + 1).last() == elems@[i as int]@);
        }
        if elems[i].kind != Kind::Inductor && !defines_current(elems[i].kind) {
            forest.union(elems[i].a, elems[i].b);
        }
    }
    assert(e.take(e.len() as int) =~= e);
    let ghost base = edges_of(e, is_rest());
    assert(d.take(0) =~= seq![]);
    assert(base + device_edges(d.take(0)) =~= base);
    for i in 0..device_terminals.len()
        invariant
            d == device_terminals@,
            terminals_below(device_terminals@, n as int),
            forest.wf(),
            forest.size() == n,
            forest.edges() == base + device_edges(d.take(i as int)),
    {
        let t = &device_terminals[i];
        let ghost here = base + device_edges(d.take(i as int));
        assert(here + terminal_edges(t@).take(0) =~= here);
        if t.len() >= 2 {
            for j in 0..t.len() - 1
                invariant
                    d == device_terminals@,
                    0 <= i < d.len(),
                    *t == d[i as int],
                    t@.len() >= 2,
                    terminals_below(device_terminals@, n as int),
                    forest.wf(),
                    forest.size() == n,
                    forest.edges() == here + terminal_edges(t@).take(j as int),
            {
                assert(d[i as int]@[j as int] < n && d[i as int]@[j + 1] < n);
                forest.union(t[j], t[j + 1]);
                assert((here + terminal_edges(t@).take(j as int)).push((t@[j as int] as int, t@[j + 1] as int))
                    =~= here + terminal_edges(t@).take(j + 1));
            }
        }
        proof {
            assert(terminal_edges(t@).take(terminal_edges(t@).len() as int) =~= terminal_edges(t@));
            assert(d.take(i + 1).drop_last() =~= d.take(i as int));
            assert(d.take(i + 1).last() == *t);
            assert(here + terminal_edges(t@) =~= base + device_edges(d.take(i + 1)));
        }
    }
    assert(d.take(d.len() as int) =~= d);
    forest
}

fn label_all(forest: &mut Forest, n: usize) -> (r: Vec<usize>)
    requires
        old(forest).wf(),
        old(forest).size() == n,
    ensures
        final(forest).wf(),
        final(forest).size() == n,
        final(forest).edges() == old(forest).edges(),
        r@.len() == n,
        forall|x: int| 0 <= x < n ==> (#[trigger] r@[x]) == label(old(forest).edges(), x) && r@[x] < n,
{
    let mut out: Vec<usize> = Vec::new();
    for x in 0..n
        invariant
            forest.wf(),
            forest.size() == n,
            forest.edges() == old(forest).edges(),
            out@.len() == x,
            forall|y: int| 0 <= y < x ==> (#[trigger] out@[y]) == label(old(forest).edges(), y) && out@[y] < n,
    {
        out.push(forest.find(x));
    }
    out
}

/// The circuit as the search sees it.
struct Scene<'a> {
    elems: &'a [Element],
    device_terminals: &'a [Vec<usize>],
    /// The component of each node.
    labels: &'a Vec<usize>,
    n: usize,
}

impl<'a> Scene<'a> {
    spec fn e(self) -> Seq<ElementView> {
        element_views(self.elems@)
    }

    spec fn rest(self) -> Seq<(int, int)> {
        rest_edges(element_views(self.elems@), self.device_terminals@)
    }

    spec fn wf(self) -> bool {
        &&& forall|i: int|
            0 <= i < self.elems@.len() ==> (#[trigger] self.elems@[i]).a < self.n && self.elems@[i].b < self.n
        &&& terminals_below(self.device_terminals@, self.n as int)
        &&& self.labels@.len() == self.n
        &&& forall|x: int|
            0 <= x < self.n ==> (#[trigger] self.labels@[x]) == label(self.rest(), x) && self.labels@[x] < self.n
    }

    /// Where element `i` leads from component `c`, if it touches it.
    fn far(&self, i: usize, c: usize) -> (r: Option<usize>)
        requires
            self.wf(),
            i < self.elems@.len(),
        ensures
            r is Some <==> touches(self.rest(), self.e()[i as int], c as int),
            r matches Some(q) ==> q == far_end(self.rest(), self.e()[i as int], c as int) && q < self.n,
    {
        let x = &self.elems[i];
        assert(self.e()[i as int] == x@);
        let la: usize = self.labels[x.a];
        let lb: usize = self.labels[x.b];
        if !(x.kind == Kind::Inductor || defines_current(x.kind)) || la == lb {
            None
        } else if la == c {
            Some(lb)
        } else if lb == c {
            Some(la)
        } else {
            None
        }
    }

    fn bridging(&self, i: usize) -> (r: bool)
        requires
            self.wf(),
            i < self.elems@.len(),
        ensures
            r == bridges(self.rest(), self.e()[i as int]),
    {
        let x = &self.elems[i];
        assert(self.e()[i as int] == x@);
        let la: usize = self.labels[x.a];
        let lb: usize = self.labels[x.b];
        (x.kind == Kind::Inductor || defines_current(x.kind)) && la != lb
    }

    /// Which elements run from component `c` into the part of component `q`.
    fn marks(&self, c: usize, q: usize) -> (r: Vec<bool>)
        requires
            self.wf(),
            q < self.n,
        ensures
            r@.len() == self.elems@.len(),
            forall|i: int|
                0 <= i < r@.len() ==> #[trigger] r@[i] == into_part(
                    self.e(),
                    self.rest(),
                    (c as int, q as int),
                    self.e()[i],
                ),
    {
        let ghost e = self.e();
        let ghost rest = self.rest();
        let mut forest = rest_forest(self.elems, self.device_terminals, self.n);
        proof {
            assert(e.take(0) =~= seq![]);
            assert(rest + untouched(e.take(0), rest, c as int) =~= rest);
        }
        for i in 0..self.elems.len()
            invariant
                self.wf(),
                e == self.e(),
                rest == self.rest(),
                forest.wf(),
                forest.size() == self.n,
                forest.edges() == rest + untouched(e.take(i as int), rest, c as int),
        {
            proof {
                assert(e.take(i + 1).drop_last() =~= e.take(i as int));
                assert(e.take(i + 1).last() == self.elems@[i as int]@);
                assert(e[i as int] == self.elems@[i as int]@);
            }
            if self.bridging(i) && self.far(i, c).is_none() {
                let (a, b) = (self.elems[i].a, self.elems[i].b);
                forest.union(a, b);
                assert((rest + untouched(e.take(i as int), rest, c as int)).push((a as int, b as int)) =~= rest
                    + untouched(e.take(i + 1), rest, c as int));
            }
        }
        assert(e.take(e.len() as int) =~= e);
        let home: usize = forest.find(q);
        let mut out: Vec<bool> = Vec::new();
        for i in 0..self.elems.len()
            invariant
                self.wf(),
                e == self.e(),
                rest == self.rest(),
                q < self.n,
                forest.wf(),
                forest.size() == self.n,
                forest.edges() == around(e, rest, c as int),
                home == label(around(e, rest, c as int), q as int),
                out@.len() == i,
                forall|k: int|
                    0 <= k < i ==> #[trigger] out@[k] == into_part(e, rest, (c as int, q as int), e[k]),
        {
            let there: bool = match self.far(i, c) {
                Some(f) => forest.find(f) == home,
                None => false,
            };
            out.push(there);
        }
        out
    }

    /// The components that elements from component `c` lead to.
    fn far_ends(&self, c: usize) -> (r: Vec<bool>)
        requires
            self.wf(),
        ensures
            r@.len() == self.n,
            forall|q: int|
                0 <= q < self.n ==> (#[trigger] r@[q] <==> exists|i: int|
                    0 <= i < self.elems@.len() && touches(self.rest(), #[trigger] self.e()[i], c as int) && far_end(
                        self.rest(),
                        self.e()[i],
                        c as int,
                    ) == q),
    {
        let ghost e = self.e();
        let ghost rest = self.rest();
        let mut out: Vec<bool> = Vec::new();
        for q in 0..self.n
            invariant
                out@.len() == q,
                forall|k: int| 0 <= k < q ==> !(#[trigger] out@[k]),
        {
            out.push(false);
        }
        for i in 0..self.elems.len()
            invariant
                self.wf(),
                e == self.e(),
                rest == self.rest(),
                out@.len() == self.n,
                forall|q: int|
                    0 <= q < self.n ==> (#[trigger] out@[q] <==> exists|k: int|
                        0 <= k < i && touches(rest, #[trigger] e[k], c as int) && far_end(rest, e[k], c as int) == q),
        {
            let ghost before = out@;
            match self.far(i, c) {
                Some(f) => {
                    out.set(f, true);
                    proof {
                        assert forall|q: int| 0 <= q < self.n implies (#[trigger] out@[q] <==> exists|k: int|
                            0 <= k < i + 1 && touches(rest, #[trigger] e[k], c as int) && far_end(
                                rest,
                                e[k],
                                c as int,
                            ) == q) by {
                            if q == f {
                                assert(touches(rest, e[i as int], c as int));
                            } else {
                                assert(out@[q] == before[q]);
                            }
                        }
                    }
                },
                None => {
                    proof {
                        assert(!touches(rest, e[i as int], c as int));
                    }
                },
            }
        }
        out
    }

    /// The names of the marked inductors (or else of the other marked elements).
    fn names(&self, marks: &Vec<bool>, inductors: bool, Ghost(key): Ghost<(int, int)>) -> (r: Vec<String>)
        requires
            marks@.len() == self.elems@.len(),
            forall|i: int|
                0 <= i < marks@.len() ==> #[trigger] marks@[i] == into_part(self.e(), self.rest(), key, self.e()[i]),
        ensures
            texts(r@) == across(self.e(), self.e(), self.rest(), key, inductors),
    {
        let ghost e = self.e();
        let ghost rest = self.rest();
        let mut out: Vec<String> = Vec::new();
        proof {
            assert(texts(out@) =~= seq![]);
            assert(e.take(0) =~= seq![]);
        }
        for i in 0..self.elems.len()
            invariant
                e == self.e(),
                rest == self.rest(),
                marks@.len() == self.elems@.len(),
                forall|i: int| 0 <= i < marks@.len() ==> #[trigger] marks@[i] == into_part(e, rest, key, e[i]),
                texts(out@) == across(e.take(i as int), e, rest, key, inductors),
        {
            proof {
                assert(e.take(i + 1).drop_last() =~= e.take(i as int));
                assert(e.take(i + 1).last() == e[i as int]);
                assert(e[i as int] == self.elems@[i as int]@);
                assert(marks@[i as int] == into_part(e, rest, key, e[i as int]));
            }
            if marks[i] && (self.elems[i].kind == Kind::Inductor) == inductors {
                let ghost before = out@;
                let t = self.elems[i].name.clone();
                out.push(t);
                assert(texts(out@) =~= texts(before).push(t@));
            }
        }
        assert(e.take(e.len() as int) =~= e);
        out
    }

    /// Whether the marked elements lead to nothing before component `q`.
    fn is_least(&self, marks: &Vec<bool>, c: usize, q: usize) -> (r: bool)
        requires
            self.wf(),
            marks@.len() == self.elems@.len(),
            forall|i: int|
                0 <= i < marks@.len() ==> #[trigger] marks@[i] == into_part(
                    self.e(),
                    self.rest(),
                    (c as int, q as int),
                    self.e()[i],
                ),
        ensures
            r == (forall|i: int|
                0 <= i < self.e().len() && into_part(
                    self.e(),
                    self.rest(),
                    (c as int, q as int),
                    #[trigger] self.e()[i],
                ) ==> q <= far_end(self.rest(), self.e()[i], c as int)),
    {
        let ghost e = self.e();
        let ghost rest = self.rest();
        let ghost key = (c as int, q as int);
        for i in 0..self.elems.len()
            invariant
                self.wf(),
                e == self.e(),
                rest == self.rest(),
                key == (c as int, q as int),
                marks@.len() == self.elems@.len(),
                forall|i: int| 0 <= i < marks@.len() ==> #[trigger] marks@[i] == into_part(e, rest, key, e[i]),
                forall|k: int|
                    0 <= k < i && into_part(e, rest, key, #[trigger] e[k]) ==> q <= far_end(rest, e[k], c as int),
        {
            if marks[i] {
                assert(into_part(e, rest, key, e[i as int]));
                if let Some(f) = self.far(i, c) {
                    if f < q {
                        return false;
                    }
                }
            }
        }
        true
    }

    /// The cutset at a component and a part, if there is one.
    fn cutset(&self, c: usize, q: usize) -> (r: Option<Index2Path>)
        requires
            self.wf(),
            c < self.n,
            q < self.n,
            exists|i: int|
                0 <= i < self.elems@.len() && touches(self.rest(), #[trigger] self.e()[i], c as int) && far_end(
                    self.rest(),
                    self.e()[i],
                    c as int,
                ) == q,
        ensures
            r is Some <==> is_cutset(self.e(), self.rest(), (c as int, q as int)),
            r matches Some(p) ==> p@ == (PathView {
                source: currents_across(self.e(), self.rest(), (c as int, q as int))[0],
                storage: inductors_across(self.e(), self.rest(), (c as int, q as int)),
            }),
    {
        let ghost e = self.e();
        let ghost rest = self.rest();
        let ghost key = (c as int, q as int);
        let marks = self.marks(c, q);
        if !self.is_least(&marks, c, q) {
            return None;
        }
        proof {
            let i = choose|i: int|
                0 <= i < self.elems@.len() && touches(rest, #[trigger] e[i], c as int) && far_end(
                    rest,
                    e[i],
                    c as int,
                ) == q;
            assert(into_part(e, rest, key, e[i]));
            assert(leads_part(e, rest, key));
        }
        let inductors = self.names(&marks, true, Ghost(key));
        let sources = self.names(&marks, false, Ghost(key));
        assert(texts(inductors@).len() == inductors@.len());
        assert(texts(sources@).len() == sources@.len());
        if inductors.len() == 0 || sources.len() == 0 {
            return None;
        }
        if q < c {
            let back = self.marks(q, c);
            let mut same: bool = true;
            for i in 0..marks.len()
                invariant
                    e == self.e(),
                    rest == self.rest(),
                    key == (c as int, q as int),
                    marks@.len() == e.len(),
                    back@.len() == e.len(),
                    forall|i: int| 0 <= i < marks@.len() ==> #[trigger] marks@[i] == into_part(e, rest, key, e[i]),
                    forall|i: int|
                        0 <= i < back@.len() ==> #[trigger] back@[i] == into_part(e, rest, (key.1, key.0), e[i]),
                    same == (forall|k: int|
                        0 <= k < i ==> (into_part(e, rest, key, #[trigger] e[k]) <==> into_part(
                            e,
                            rest,
                            (key.1, key.0),
                            e[k],
                        ))),
            {
                proof {
                    assert(marks@[i as int] == into_part(e, rest, key, e[i as int]));
                    assert(back@[i as int] == into_part(e, rest, (key.1, key.0), e[i as int]));
                }
                if marks[i] != back[i] {
                    same = false;
                }
            }
            if same {
                assert(met_before(e, rest, key));
                return None;
            }
        }
        let source = sources[0].clone();
        assert(texts(sources@)[0] == sources@[0]@);
        Some(Index2Path { source, storage: inductors })
    }
}

/// Cutsets of inductors bridged by a prescribed current.
pub(crate) fn find_cutsets(elems: &[Element], device_terminals: &[Vec<usize>], n: usize) -> (out: Vec<Index2Path>)
    requires
        forall|i: int| 0 <= i < elems@.len() ==> (#[trigger] elems@[i]).a < n && elems@[i].b < n,
        terminals_below(device_terminals@, n as int),
    ensures
        exists|keys: Seq<(int, int)>| #[trigger]
            cutsets_at(
                element_views(elems@),
                rest_edges(element_views(elems@), device_terminals@),
                keys,
                path_views(out@),
            ),
{
    let ghost e = element_views(elems@);
    let ghost rest = rest_edges(e, device_terminals@);
    let mut forest = rest_forest(elems, device_terminals, n);
    let labels = label_all(&mut forest, n);
    let scene = Scene { elems, device_terminals, labels: &labels, n };
    let mut out: Vec<Index2Path> = Vec::new();
    let ghost mut keys: Seq<(int, int)> = seq![];
    proof {
        assert(path_views(out@).len() == 0);
        assert forall|k: (int, int)| #[trigger] keys.contains(k) <==> is_cutset(e, rest, k) && key_less(
            k,
            (0, 0),
        ) by {
            if is_cutset(e, rest, k) {
                cutset_in_range(scene, k);
            }
        }
    }
    for c in 0..n
        invariant
            scene.wf(),
            scene.n == n,
            scene.e() == e,
            scene.rest() == rest,
            found_before(e, rest, keys, path_views(out@), (c as int, 0)),
    {
        let ends = scene.far_ends(c);
        for q in 0..n
            invariant
                scene.wf(),
                scene.n == n,
                scene.e() == e,
                scene.rest() == rest,
                c < n,
                ends@.len() == n,
                forall|q: int|
                    0 <= q < n ==> (#[trigger] ends@[q] <==> exists|i: int|
                        0 <= i < scene.elems@.len() && touches(scene.rest(), #[trigger] scene.e()[i], c as int)
                            && far_end(scene.rest(), scene.e()[i], c as int) == q),
                found_before(e, rest, keys, path_views(out@), (c as int, q as int)),
        {
            let ghost key = (c as int, q as int);
            let ghost keys0 = keys;
            let ghost out0 = out@;
            let found = if ends[q] {
                scene.cutset(c, q)
            } else {
                proof {
                    if is_cutset(e, rest, key) {
                        let i = choose|i: int|
                            0 <= i < e.len() && into_part(e, rest, key, #[trigger] e[i]) && far_end(
                                rest,
                                e[i],
                                key.0,
                            ) == key.1;
                        assert(touches(scene.rest(), scene.e()[i], c as int));
                    }
                }
                None
            };
            match found {
                Some(item) => {
                    let ghost view = item@;
                    out.push(item);
                    proof {
                        keys = keys.push(key);
                        assert(path_views(out@) =~= path_views(out0).push(view));
                    }
                },
                None => {},
            }
            proof {
                assert forall|k: (int, int)| #[trigger] keys.contains(k) <==> is_cutset(e, rest, k) && key_less(
                    k,
                    (c as int, q + 1),
                ) by {
                    if keys.contains(k) {
                        let i = choose|i: int| 0 <= i < keys.len() && keys[i] == k;
                        if i < keys0.len() {
                            assert(keys0[i] == k);
                            assert(keys0.contains(k));
                        }
                    }
                    if is_cutset(e, rest, k) && key_less(k, (c as int, q + 1)) {
                        if k == key {
                            assert(keys[keys0.len() as int] == k);
                        } else {
                            assert(keys0.contains(k));
                            let i = choose|i: int| 0 <= i < keys0.len() && keys0[i] == k;
                            assert(keys[i] == k);
                        }
                    }
                }
                assert forall|i: int, j: int| 0 <= i < j < keys.len() implies key_less(
                    #[trigger] keys[i],
                    #[trigger] keys[j],
                ) by {
                    assert(keys0[i] == keys[i]);
                    assert(keys0.contains(keys0[i]));
                }
            }
        }
        proof {
            assert forall|k: (int, int)| #[trigger] keys.contains(k) <==> is_cutset(e, rest, k) && key_less(
                k,
                (c + 1, 0),
            ) by {
                if is_cutset(e, rest, k) {
                    cutset_in_range(scene, k);
                }
            }
        }
    }
    proof {
        assert forall|k: (int, int)| #[trigger] keys.contains(k) <==> is_cutset(e, rest, k) by {
            if is_cutset(e, rest, k) {
                cutset_in_range(scene, k);
            }
        }
        assert(cutsets_at(e, rest, keys, path_views(out@)));
    }
    out
}

/// The cutsets before a key have been found.
spec fn found_before(
    e: Seq<ElementView>,
    rest: Seq<(int, int)>,
    keys: Seq<(int, int)>,
    cutsets: Seq<PathView>,
    bound: (int, int),
) -> bool {
    &&& forall|i: int, j: int| 0 <= i < j < keys.len() ==> key_less(#[trigger] keys[i], #[trigger] keys[j])
    &&& forall|k: (int, int)| #[trigger] keys.contains(k) <==> is_cutset(e, rest, k) && key_less(k, bound)
    &&& cutsets.len() == keys.len()
    &&& forall|i: int|
        0 <= i < keys.len() ==> #[trigger] cutsets[i] == (PathView {
            source: currents_across(e, rest, keys[i])[0],
            storage: inductors_across(e, rest, keys[i]),
        })
}

proof fn cutset_in_range(scene: Scene, key: (int, int))
    requires
        scene.wf(),
        is_cutset(scene.e(), scene.rest(), key),
    ensures
        0 <= key.0 < scene.n,
        0 <= key.1 < scene.n,
{
    let e = scene.e();
    let rest = scene.rest();
    let i = choose|i: int|
        0 <= i < e.len() && into_part(e, rest, key, #[trigger] e[i]) && far_end(rest, e[i], key.0) == key.1;
    let x = scene.elems@[i];
    assert(e[i] == x@);
    assert(x.a < scene.n && x.b < scene.n);
    assert(scene.labels@[x.a as int] == label(rest, x.a as int));
    assert(scene.labels@[x.b as int] == label(rest, x.b as int));
}

// ---------------------------------------------------------------------------
// Minimal cuts.
// ---------------------------------------------------------------------------
/// All edges of the circuit.
pub open spec fn all_edges(e: Seq<ElementView>, rest: Seq<(int, int)>) -> Seq<(int, int)> {
    rest + edges_of(e, |k: Kind| is_storage(k))
}

/// A walk within a side leads from one node to the other.
pub open spec fn linked_within(edges: Seq<(int, int)>, side: spec_fn(int) -> bool, x: int, y: int) -> bool {
    exists|w: Seq<int>| #[trigger] walk_within(edges, side, w) && w[0] == x && w.last() == y
}

pub open spec fn walk_within(edges: Seq<(int, int)>, side: spec_fn(int) -> bool, w: Seq<int>) -> bool {
    is_walk(edges, w) && forall|k: int| 0 <= k < w.len() ==> side(#[trigger] w[k])
}

pub open spec fn other_side(side: spec_fn(int) -> bool) -> spec_fn(int) -> bool {
    |x: int| !side(x)
}

/// An element from one side to the other.
pub open spec fn crosses(side: spec_fn(int) -> bool, x: ElementView) -> bool {
    side(x.a as int) != side(x.b as int)
}

/// A cut through inductors and prescribed currents alone that is minimal: the side
/// hangs together, and so does what is connected to it beyond.
pub open spec fn minimal_cut(e: Seq<ElementView>, rest: Seq<(int, int)>, side: spec_fn(int) -> bool) -> bool {
    let all = all_edges(e, rest);
    &&& forall|i: int| 0 <= i < rest.len() ==> side((#[trigger] rest[i]).0) == side(rest[i].1)
    &&& forall|x: int, y: int| side(x) && side(y) ==> #[trigger] linked_within(all, side, x, y)
    &&& forall|x: int, y: int, z: int| #![trigger linked(all, x, z), linked(all, y, z)]
        !side(x) && !side(y) && side(z) && linked(all, x, z) && linked(all, y, z) ==> linked_within(
            all,
            other_side(side),
            x,
            y,
        )
}

/// A cutset of inductors that holds a prescribed current: a minimal cut that at
/// least one of each crosses.
pub open spec fn li_cutset(e: Seq<ElementView>, rest: Seq<(int, int)>, side: spec_fn(int) -> bool) -> bool {
    &&& minimal_cut(e, rest, side)
    &&& exists|i: int| 0 <= i < e.len() && (#[trigger] e[i]).kind == Kind::Inductor && crosses(side, e[i])
    &&& exists|i: int| 0 <= i < e.len() && prescribes_current((#[trigger] e[i]).kind) && crosses(side, e[i])
}

/// Whether there is one.
pub open spec fn has_li_cutset(e: Seq<ElementView>, rest: Seq<(int, int)>) -> bool {
    exists|side: spec_fn(int) -> bool| #[trigger] li_cutset(e, rest, side)
}

/// The side that a key stands for.
pub open spec fn part_of(e: Seq<ElementView>, rest: Seq<(int, int)>, key: (int, int)) -> spec_fn(int) -> bool {
    |x: int| in_part(e, rest, key.0, key.1, x)
}

proof fn within_reverse(edges: Seq<(int, int)>, side: spec_fn(int) -> bool, x: int, y: int)
    requires
        linked_within(edges, side, x, y),
    ensures
        linked_within(edges, side, y, x),
{
    let w = choose|w: Seq<int>| #[trigger] walk_within(edges, side, w) && w[0] == x && w.last() == y;
    let r = w.reverse();
    assert forall|k: int, l: int| #![trigger r[k], r[l]] 0 <= k && l == k + 1 && l < r.len() implies joined(
        edges,
        r[k],
        r[l],
    ) by {
        assert(r[k] == w[w.len() - 1 - k]);
        assert(r[l] == w[w.len() - 1 - l]);
    }
    assert forall|k: int| 0 <= k < r.len() implies side(#[trigger] r[k]) by {
        assert(side(w[w.len() - 1 - k]));
    }
    assert(walk_within(edges, side, r));
}

proof fn within_chain(edges: Seq<(int, int)>, side: spec_fn(int) -> bool, x: int, y: int, z: int)
    requires
        linked_within(edges, side, x, y),
        linked_within(edges, side, y, z),
    ensures
        linked_within(edges, side, x, z),
{
    let v = choose|w: Seq<int>| #[trigger] walk_within(edges, side, w) && w[0] == x && w.last() == y;
    let w = choose|w: Seq<int>| #[trigger] walk_within(edges, side, w) && w[0] == y && w.last() == z;
    let u = v + w.skip(1);
    assert forall|k: int, l: int| #![trigger u[k], u[l]] 0 <= k && l == k + 1 && l < u.len() implies joined(
        edges,
        u[k],
        u[l],
    ) by {
        if l < v.len() {
            assert(joined(edges, v[k], v[l]));
        } else {
            assert(u[l] == w[l - v.len() + 1]);
            assert(u[k] == w[k - v.len() + 1]);
        }
    }
    assert forall|k: int| 0 <= k < u.len() implies side(#[trigger] u[k]) by {
        if k < v.len() {
            assert(side(v[k]));
        } else {
            assert(u[k] == w[k - v.len() + 1]);
            assert(side(w[k - v.len() + 1]));
        }
    }
    assert(walk_within(edges, side, u));
    if w.len() == 1 {
        assert(u =~= v);
    }
    assert(u.last() == z);
}

/// Every edge of the one list is an edge of the other.
spec fn included(a: Seq<(int, int)>, b: Seq<(int, int)>) -> bool {
    forall|p: (int, int)| #[trigger] a.contains(p) ==> b.contains(p)
}

proof fn wider_walk(a: Seq<(int, int)>, b: Seq<(int, int)>, w: Seq<int>)
    requires
        included(a, b),
        is_walk(a, w),
    ensures
        is_walk(b, w),
{
    assert forall|k: int, l: int| #![trigger w[k], w[l]] 0 <= k && l == k + 1 && l < w.len() implies joined(
        b,
        w[k],
        w[l],
    ) by {
        assert(joined(a, w[k], w[l]));
        assert(a.contains((w[k], w[l])) || a.contains((w[l], w[k])));
    }
}

proof fn wider_label(a: Seq<(int, int)>, b: Seq<(int, int)>, x: int, y: int)
    requires
        included(a, b),
        label(a, x) == label(a, y),
    ensures
        label(b, x) == label(b, y),
{
    label_is_connectivity(a, x, y);
    let w = choose|w: Seq<int>| #[trigger] is_walk(a, w) && w[0] == x && w.last() == y;
    wider_walk(a, b, w);
    label_is_connectivity(b, x, y);
}

proof fn edges_hold(e: Seq<ElementView>, want: spec_fn(Kind) -> bool, i: int)
    requires
        0 <= i < e.len(),
        want(e[i].kind),
    ensures
        edges_of(e, want).contains((e[i].a as int, e[i].b as int)),
    decreases e.len(),
{
    let s = edges_of(e, want);
    if i == e.len() - 1 {
        assert(s[s.len() - 1] == (e[i].a as int, e[i].b as int));
    } else {
        edges_hold(e.drop_last(), want, i);
        let t = edges_of(e.drop_last(), want);
        let k = choose|k: int| 0 <= k < t.len() && t[k] == (e[i].a as int, e[i].b as int);
        assert(s[k] == t[k]);
    }
}

proof fn edge_has_element(e: Seq<ElementView>, want: spec_fn(Kind) -> bool, p: (int, int)) -> (i: int)
    requires
        edges_of(e, want).contains(p),
    ensures
        0 <= i < e.len(),
        want(e[i].kind),
        p == (e[i].a as int, e[i].b as int),
    decreases e.len(),
{
    let s = edges_of(e, want);
    let n = choose|n: int| 0 <= n < s.len() && s[n] == p;
    if want(e.last().kind) && n == s.len() - 1 {
        e.len() - 1
    } else {
        assert(edges_of(e.drop_last(), want)[n] == p);
        edge_has_element(e.drop_last(), want, p)
    }
}

proof fn untouched_hold(e: Seq<ElementView>, rest: Seq<(int, int)>, c: int, i: int)
    requires
        0 <= i < e.len(),
        bridges(rest, e[i]),
        !touches(rest, e[i], c),
    ensures
        untouched(e, rest, c).contains((e[i].a as int, e[i].b as int)),
    decreases e.len(),
{
    let s = untouched(e, rest, c);
    if i == e.len() - 1 {
        assert(s[s.len() - 1] == (e[i].a as int, e[i].b as int));
    } else {
        untouched_hold(e.drop_last(), rest, c, i);
        let t = untouched(e.drop_last(), rest, c);
        let k = choose|k: int| 0 <= k < t.len() && t[k] == (e[i].a as int, e[i].b as int);
        assert(s[k] == t[k]);
    }
}

proof fn untouched_has_element(e: Seq<ElementView>, rest: Seq<(int, int)>, c: int, p: (int, int)) -> (i: int)
    requires
        untouched(e, rest, c).contains(p),
    ensures
        0 <= i < e.len(),
        bridges(rest, e[i]),
        !touches(rest, e[i], c),
        p == (e[i].a as int, e[i].b as int),
    decreases e.len(),
{
    let s = untouched(e, rest, c);
    let n = choose|n: int| 0 <= n < s.len() && s[n] == p;
    if bridges(rest, e.last()) && !touches(rest, e.last(), c) && n == s.len() - 1 {
        e.len() - 1
    } else {
        assert(untouched(e.drop_last(), rest, c)[n] == p);
        untouched_has_element(e.drop_last(), rest, c, p)
    }
}

proof fn in_concat(a: Seq<(int, int)>, b: Seq<(int, int)>, p: (int, int))
    ensures
        (a + b).contains(p) <==> a.contains(p) || b.contains(p),
{
    if a.contains(p) {
        let k = choose|k: int| 0 <= k < a.len() && a[k] == p;
        assert((a + b)[k] == p);
    }
    if b.contains(p) {
        let k = choose|k: int| 0 <= k < b.len() && b[k] == p;
        assert((a + b)[a.len() + k] == p);
    }
    if (a + b).contains(p) {
        let k = choose|k: int| 0 <= k < (a + b).len() && (a + b)[k] == p;
        if k < a.len() {
            assert(a[k] == p);
        } else {
            assert(b[k - a.len()] == p);
        }
    }
}

proof fn around_between(e: Seq<ElementView>, rest: Seq<(int, int)>, c: int)
    ensures
        included(rest, around(e, rest, c)),
        included(around(e, rest, c), all_edges(e, rest)),
{
    let want = |k: Kind| is_storage(k);
    assert forall|p: (int, int)| #[trigger] rest.contains(p) implies around(e, rest, c).contains(p) by {
        in_concat(rest, untouched(e, rest, c), p);
    }
    assert forall|p: (int, int)| #[trigger] around(e, rest, c).contains(p) implies all_edges(e, rest).contains(p) by {
        in_concat(rest, untouched(e, rest, c), p);
        in_concat(rest, edges_of(e, want), p);
        if untouched(e, rest, c).contains(p) {
            let i = untouched_has_element(e, rest, c, p);
            edges_hold(e, want, i);
        }
    }
}

/// A bridging element that does not touch `c` joins its ends around it.
proof fn passes_around(e: Seq<ElementView>, rest: Seq<(int, int)>, c: int, i: int)
    requires
        0 <= i < e.len(),
        bridges(rest, e[i]),
        !touches(rest, e[i], c),
    ensures
        label(around(e, rest, c), e[i].a as int) == label(around(e, rest, c), e[i].b as int),
{
    untouched_hold(e, rest, c, i);
    in_concat(rest, untouched(e, rest, c), (e[i].a as int, e[i].b as int));
    joined_same_label(around(e, rest, c), e[i].a as int, e[i].b as int);
}

/// A node and its component lie in the same part.
proof fn with_component(e: Seq<ElementView>, rest: Seq<(int, int)>, c: int, x: int)
    ensures
        label(around(e, rest, c), label(rest, x)) == label(around(e, rest, c), x),
{
    around_between(e, rest, c);
    label_of_label(rest, x);
    wider_label(rest, around(e, rest, c), label(rest, x), x);
}

/// Around component `c` nothing leads out of it.
proof fn stays_in_component(e: Seq<ElementView>, rest: Seq<(int, int)>, c: int, x: int, y: int)
    requires
        label(around(e, rest, c), x) == label(around(e, rest, c), y),
        label(rest, x) == c,
    ensures
        label(rest, y) == c,
{
    let edges = around(e, rest, c);
    label_is_connectivity(edges, x, y);
    let w = choose|w: Seq<int>| #[trigger] is_walk(edges, w) && w[0] == x && w.last() == y;
    walk_in_component(e, rest, c, w, w.len() - 1);
}

proof fn walk_in_component(e: Seq<ElementView>, rest: Seq<(int, int)>, c: int, w: Seq<int>, k: int)
    requires
        is_walk(around(e, rest, c), w),
        label(rest, w[0]) == c,
        0 <= k < w.len(),
    ensures
        label(rest, w[k]) == c,
    decreases k,
{
    if k > 0 {
        walk_in_component(e, rest, c, w, k - 1);
        assert(joined(around(e, rest, c), w[k - 1], w[k]));
        step_in_component(e, rest, c, w[k - 1], w[k]);
    }
}

proof fn step_in_component(e: Seq<ElementView>, rest: Seq<(int, int)>, c: int, x: int, y: int)
    requires
        joined(around(e, rest, c), x, y),
        label(rest, x) == c,
    ensures
        label(rest, y) == c,
{
    let p = if around(e, rest, c).contains((x, y)) {
        (x, y)
    } else {
        (y, x)
    };
    in_concat(rest, untouched(e, rest, c), p);
    if rest.contains(p) {
        joined_same_label(rest, x, y);
    } else {
        let i = untouched_has_element(e, rest, c, p);
    }
}

// ---------------------------------------------------------------------------
// What is named is a minimal cut.
// ---------------------------------------------------------------------------
proof fn key_is_apart(e: Seq<ElementView>, rest: Seq<(int, int)>, key: (int, int))
    requires
        leads_part(e, rest, key),
    ensures
        label(rest, key.0) == key.0,
        label(rest, key.1) == key.1,
        key.0 != key.1,
{
    let i = choose|i: int|
        0 <= i < e.len() && into_part(e, rest, key, #[trigger] e[i]) && far_end(rest, e[i], key.0) == key.1;
    label_of_label(rest, e[i].a as int);
    label_of_label(rest, e[i].b as int);
}

/// From beyond the part, the component that was taken out is reached beyond it.
proof fn reaches_component(e: Seq<ElementView>, rest: Seq<(int, int)>, key: (int, int), v: Seq<int>, k: int)
    requires
        leads_part(e, rest, key),
        is_walk(all_edges(e, rest), v),
        0 <= k < v.len(),
        part_of(e, rest, key)(v.last()),
        !part_of(e, rest, key)(v[k]),
    ensures
        linked_within(all_edges(e, rest), other_side(part_of(e, rest, key)), v[k], key.0),
    decreases v.len() - k,
{
    let (c, q) = key;
    let all = all_edges(e, rest);
    let side = part_of(e, rest, key);
    let beyond = other_side(side);
    let want = |k: Kind| is_storage(k);
    key_is_apart(e, rest, key);
    if label(rest, v[k]) == c {
        label_is_connectivity(rest, v[k], c);
        let w = choose|w: Seq<int>| #[trigger] is_walk(rest, w) && w[0] == v[k] && w.last() == c;
        around_between(e, rest, c);
        wider_walk(rest, around(e, rest, c), w);
        wider_walk(around(e, rest, c), all, w);
        assert forall|l: int| 0 <= l < w.len() implies beyond(#[trigger] w[l]) by {
            walk_same_label(rest, w, l);
            if side(w[l]) {
                stays_in_component(e, rest, c, w[l], q);
            }
        }
        assert(walk_within(all, beyond, w));
    } else {
        let (x, y) = (v[k], v[k + 1]);
        assert(joined(all, x, y));
        let p = if all.contains((x, y)) {
            (x, y)
        } else {
            (y, x)
        };
        in_concat(rest, edges_of(e, want), p);
        if side(y) {
            // The step would lie around the component.
            if rest.contains(p) {
                around_between(e, rest, c);
                joined_same_label(rest, x, y);
                wider_label(rest, around(e, rest, c), x, y);
            } else {
                let i = edge_has_element(e, want, p);
                if label(rest, x) == label(rest, y) {
                    around_between(e, rest, c);
                    wider_label(rest, around(e, rest, c), x, y);
                } else {
                    if touches(rest, e[i], c) {
                        stays_in_component(e, rest, c, y, q);
                    } else {
                        passes_around(e, rest, c, i);
                    }
                }
            }
            assert(false);
        }
        reaches_component(e, rest, key, v, k + 1);
        let one = seq![x, y];
        assert(is_walk(all, one));
        assert forall|l: int| 0 <= l < one.len() implies beyond(#[trigger] one[l]) by {}
        assert(walk_within(all, beyond, one));
        within_chain(all, beyond, x, y, c);
    }
}

/// The elements of a cutset that is named are those that cross a minimal cut, so
/// that what is reported is a cutset indeed.
pub proof fn named_cutsets_are_minimal_cuts(e: Seq<ElementView>, rest: Seq<(int, int)>, key: (int, int))
    requires
        is_cutset(e, rest, key),
    ensures
        li_cutset(e, rest, part_of(e, rest, key)),
        forall|i: int|
            0 <= i < e.len() && is_storage((#[trigger] e[i]).kind) ==> (crosses(part_of(e, rest, key), e[i])
                <==> into_part(e, rest, key, e[i])),
{
    let (c, q) = key;
    let side = part_of(e, rest, key);
    let beyond = other_side(side);
    let near = around(e, rest, c);
    let all = all_edges(e, rest);
    key_is_apart(e, rest, key);
    around_between(e, rest, c);
    assert forall|i: int| 0 <= i < rest.len() implies side((#[trigger] rest[i]).0) == side(rest[i].1) by {
        assert(rest.contains((rest[i].0, rest[i].1)));
        joined_same_label(rest, rest[i].0, rest[i].1);
        wider_label(rest, near, rest[i].0, rest[i].1);
    }
    assert forall|x: int, y: int| side(x) && side(y) implies #[trigger] linked_within(all, side, x, y) by {
        label_is_connectivity(near, x, y);
        let w = choose|w: Seq<int>| #[trigger] is_walk(near, w) && w[0] == x && w.last() == y;
        wider_walk(near, all, w);
        assert forall|l: int| 0 <= l < w.len() implies side(#[trigger] w[l]) by {
            walk_same_label(near, w, l);
        }
        assert(walk_within(all, side, w));
    }
    assert forall|x: int, y: int, z: int| #![trigger linked(all, x, z), linked(all, y, z)]
        !side(x) && !side(y) && side(z) && linked(all, x, z) && linked(all, y, z) implies linked_within(
        all,
        beyond,
        x,
        y,
    ) by {
        let v = choose|w: Seq<int>| #[trigger] is_walk(all, w) && w[0] == x && w.last() == z;
        let w = choose|w: Seq<int>| #[trigger] is_walk(all, w) && w[0] == y && w.last() == z;
        reaches_component(e, rest, key, v, 0);
        reaches_component(e, rest, key, w, 0);
        within_reverse(all, beyond, y, c);
        within_chain(all, beyond, x, c, y);
    }
    assert forall|i: int| 0 <= i < e.len() && is_storage((#[trigger] e[i]).kind) implies (crosses(side, e[i])
        <==> into_part(e, rest, key, e[i])) by {
        let (a, b) = (e[i].a as int, e[i].b as int);
        with_component(e, rest, c, a);
        with_component(e, rest, c, b);
        if side(a) && label(rest, a) == c {
            stays_in_component(e, rest, c, a, q);
        }
        if side(b) && label(rest, b) == c {
            stays_in_component(e, rest, c, b, q);
        }
        if label(rest, a) == label(rest, b) {
            wider_label(rest, near, a, b);
        } else if !touches(rest, e[i], c) {
            passes_around(e, rest, c, i);
        }
    }
    let l = across_has_element(e, e, rest, key, true);
    let s = across_has_element(e, e, rest, key, false);
    assert(e[l].kind == Kind::Inductor && crosses(side, e[l]));
    assert(prescribes_current(e[s].kind) && crosses(side, e[s]));
}

proof fn across_has_element(
    v: Seq<ElementView>,
    e: Seq<ElementView>,
    rest: Seq<(int, int)>,
    key: (int, int),
    inductors: bool,
) -> (i: int)
    requires
        across(v, e, rest, key, inductors).len() > 0,
    ensures
        0 <= i < v.len(),
        into_part(e, rest, key, v[i]),
        (v[i].kind == Kind::Inductor) == inductors,
    decreases v.len(),
{
    let x = v.last();
    if into_part(e, rest, key, x) && (x.kind == Kind::Inductor) == inductors {
        v.len() - 1
    } else {
        across_has_element(v.drop_last(), e, rest, key, inductors)
    }
}

proof fn across_holds(
    v: Seq<ElementView>,
    e: Seq<ElementView>,
    rest: Seq<(int, int)>,
    key: (int, int),
    inductors: bool,
    i: int,
)
    requires
        0 <= i < v.len(),
        into_part(e, rest, key, v[i]),
        (v[i].kind == Kind::Inductor) == inductors,
    ensures
        across(v, e, rest, key, inductors).len() > 0,
    decreases v.len(),
{
    if i < v.len() - 1 {
        across_holds(v.drop_last(), e, rest, key, inductors, i);
    }
}

// ---------------------------------------------------------------------------
// Where there is a cutset, one is named.
// ---------------------------------------------------------------------------
/// Element `i` bridges the components `p` and `r`.
spec fn spans(e: Seq<ElementView>, rest: Seq<(int, int)>, i: int, p: int, r: int) -> bool {
    &&& 0 <= i < e.len()
    &&& bridges(rest, e[i])
    &&& (label(rest, e[i].a as int) == p && label(rest, e[i].b as int) == r) || (label(rest, e[i].a as int) == r
        && label(rest, e[i].b as int) == p)
}

/// Some element bridges the two components.
spec fn hop(e: Seq<ElementView>, rest: Seq<(int, int)>, p: int, r: int) -> bool {
    exists|i: int| spans(e, rest, i, p, r)
}

/// A walk over components, each bridged to the next, all on one side.
spec fn hops(e: Seq<ElementView>, rest: Seq<(int, int)>, side: spec_fn(int) -> bool, w: Seq<int>) -> bool {
    &&& w.len() > 0
    &&& forall|k: int| 0 <= k < w.len() ==> side(#[trigger] w[k])
    &&& forall|k: int, l: int| #![trigger w[k], w[l]] 0 <= k && l == k + 1 && l < w.len() ==> hop(e, rest, w[k], w[l])
}

/// A side that no edge of the rest crosses holds whole components.
proof fn side_of_component(rest: Seq<(int, int)>, side: spec_fn(int) -> bool, x: int)
    requires
        forall|i: int| 0 <= i < rest.len() ==> side((#[trigger] rest[i]).0) == side(rest[i].1),
    ensures
        side(label(rest, x)) == side(x),
{
    label_of_label(rest, x);
    label_is_connectivity(rest, x, label(rest, x));
    let w = choose|w: Seq<int>| #[trigger] is_walk(rest, w) && w[0] == x && w.last() == label(rest, x);
    side_along(rest, side, w, w.len() - 1);
}

proof fn side_along(rest: Seq<(int, int)>, side: spec_fn(int) -> bool, w: Seq<int>, k: int)
    requires
        forall|i: int| 0 <= i < rest.len() ==> side((#[trigger] rest[i]).0) == side(rest[i].1),
        is_walk(rest, w),
        0 <= k < w.len(),
    ensures
        side(w[k]) == side(w[0]),
    decreases k,
{
    if k > 0 {
        side_along(rest, side, w, k - 1);
        assert(joined(rest, w[k - 1], w[k]));
        let p = if rest.contains((w[k - 1], w[k])) {
            (w[k - 1], w[k])
        } else {
            (w[k], w[k - 1])
        };
        let i = choose|i: int| 0 <= i < rest.len() && rest[i] == p;
        assert(side(rest[i].0) == side(rest[i].1));
    }
}

/// A walk within a side hops over the components of the side.
proof fn walk_hops(
    e: Seq<ElementView>,
    rest: Seq<(int, int)>,
    side: spec_fn(int) -> bool,
    v: Seq<int>,
    k: int,
) -> (w: Seq<int>)
    requires
        forall|i: int| 0 <= i < rest.len() ==> side((#[trigger] rest[i]).0) == side(rest[i].1),
        walk_within(all_edges(e, rest), side, v),
        0 <= k < v.len(),
    ensures
        hops(e, rest, side, w),
        w[0] == label(rest, v[0]),
        w.last() == label(rest, v[k]),
    decreases k,
{
    let want = |k: Kind| is_storage(k);
    side_of_component(rest, side, v[k]);
    assert(side(v[k]));
    if k == 0 {
        let w = seq![label(rest, v[0])];
        assert(hops(e, rest, side, w));
        w
    } else {
        let w = walk_hops(e, rest, side, v, k - 1);
        let (x, y) = (v[k - 1], v[k]);
        if label(rest, x) == label(rest, y) {
            w
        } else {
            assert(joined(all_edges(e, rest), x, y));
            let p = if all_edges(e, rest).contains((x, y)) {
                (x, y)
            } else {
                (y, x)
            };
            in_concat(rest, edges_of(e, want), p);
            if rest.contains(p) {
                joined_same_label(rest, x, y);
            }
            let i = edge_has_element(e, want, p);
            let u = w.push(label(rest, y));
            assert(spans(e, rest, i, label(rest, x), label(rest, y)));
            assert(hop(e, rest, w.last(), label(rest, y)));
            assert forall|a: int, b: int| #![trigger u[a], u[b]] 0 <= a && b == a + 1 && b < u.len() implies hop(
                e,
                rest,
                u[a],
                u[b],
            ) by {
                if b < w.len() {
                    assert(w[a] == u[a] && w[b] == u[b]);
                } else {
                    assert(u[a] == w.last() && u[b] == label(rest, y));
                }
            }
            assert forall|a: int| 0 <= a < u.len() implies side(#[trigger] u[a]) by {
                if a < w.len() {
                    assert(side(w[a]));
                }
            }
            u
        }
    }
}

/// Hops without a return.
proof fn hop_once(e: Seq<ElementView>, rest: Seq<(int, int)>, side: spec_fn(int) -> bool, w: Seq<int>) -> (u: Seq<int>)
    requires
        hops(e, rest, side, w),
    ensures
        hops(e, rest, side, u),
        u.no_duplicates(),
        u[0] == w[0],
        u.last() == w.last(),
    decreases w.len(),
{
    if w.no_duplicates() {
        w
    } else {
        let (i, j) = choose|i: int, j: int| 0 <= i < w.len() && 0 <= j < w.len() && i != j && w[i] == w[j];
        let (a, b) = if i < j {
            (i, j)
        } else {
            (j, i)
        };
        let v = w.take(a) + w.skip(b);
        assert forall|k: int, l: int| #![trigger v[k], v[l]] 0 <= k && l == k + 1 && l < v.len() implies hop(
            e,
            rest,
            v[k],
            v[l],
        ) by {
            if l < a {
                assert(v[k] == w[k] && v[l] == w[l]);
            } else if k >= a {
                assert(v[k] == w[k - a + b] && v[l] == w[l - a + b]);
            } else {
                assert(v[k] == w[k] && v[l] == w[b]);
                assert(w[b] == w[a] && a == k + 1);
                assert(hop(e, rest, w[k], w[a]));
            }
        }
        assert forall|k: int| 0 <= k < v.len() implies side(#[trigger] v[k]) by {
            if k < a {
                assert(side(w[k]));
            } else {
                assert(v[k] == w[k - a + b]);
                assert(side(w[k - a + b]));
            }
        }
        assert(v[0] == w[0]) by {
            if a == 0 {
                assert(v[0] == w[b]);
            }
        }
        assert(v.last() == w.last());
        hop_once(e, rest, side, v)
    }
}

/// Hops that avoid a component stay in one part around it.
proof fn hops_around(
    e: Seq<ElementView>,
    rest: Seq<(int, int)>,
    side: spec_fn(int) -> bool,
    c: int,
    w: Seq<int>,
    from: int,
    to: int,
)
    requires
        hops(e, rest, side, w),
        0 <= from <= to < w.len(),
        forall|k: int| from <= k <= to ==> #[trigger] w[k] != c,
    ensures
        in_part(e, rest, c, w[from], w[to]),
    decreases to - from,
{
    if from < to {
        hops_around(e, rest, side, c, w, from, to - 1);
        let (p, r) = (w[to - 1], w[to]);
        assert(hop(e, rest, p, r));
        let i = choose|i: int| spans(e, rest, i, p, r);
        span_around(e, rest, c, i, p, r);
    }
}

proof fn span_around(e: Seq<ElementView>, rest: Seq<(int, int)>, c: int, i: int, p: int, r: int)
    requires
        spans(e, rest, i, p, r),
        p != c,
        r != c,
    ensures
        in_part(e, rest, c, p, r),
{
    passes_around(e, rest, c, i);
    with_component(e, rest, c, e[i].a as int);
    with_component(e, rest, c, e[i].b as int);
}

/// Along elements that begin with a prescribed current and end with an inductor
/// the one is somewhere followed by the other.
proof fn turn(e: Seq<ElementView>, f: Seq<int>, n: int) -> (k: int)
    requires
        0 < n < f.len(),
        forall|k: int| 0 <= k < f.len() ==> is_storage(e[#[trigger] f[k]].kind),
        prescribes_current(e[f[0]].kind),
        e[f[n]].kind == Kind::Inductor,
    ensures
        0 <= k < n,
        prescribes_current(e[f[k]].kind),
        e[f[k + 1]].kind == Kind::Inductor,
    decreases n,
{
    assert(is_storage(e[f[n - 1]].kind));
    if e[f[n - 1]].kind == Kind::Inductor {
        turn(e, f, n - 1)
    } else {
        n - 1
    }
}

spec fn pick(e: Seq<ElementView>, rest: Seq<(int, int)>, p: int, r: int) -> int {
    choose|i: int| spans(e, rest, i, p, r)
}

/// The least component that the elements into a part lead to, among the first `n`.
proof fn least_end(e: Seq<ElementView>, rest: Seq<(int, int)>, key: (int, int), n: int) -> (m: int)
    requires
        0 <= n <= e.len(),
        exists|i: int| 0 <= i < n && into_part(e, rest, key, #[trigger] e[i]),
    ensures
        0 <= m < n,
        into_part(e, rest, key, e[m]),
        forall|i: int|
            0 <= i < n && into_part(e, rest, key, #[trigger] e[i]) ==> far_end(rest, e[m], key.0) <= far_end(
                rest,
                e[i],
                key.0,
            ),
    decreases n,
{
    if exists|i: int| 0 <= i < n - 1 && into_part(e, rest, key, #[trigger] e[i]) {
        let m = least_end(e, rest, key, n - 1);
        if into_part(e, rest, key, e[n - 1]) && far_end(rest, e[n - 1], key.0) < far_end(rest, e[m], key.0) {
            n - 1
        } else {
            m
        }
    } else {
        n - 1
    }
}

/// Both kinds from one component into one part make a cutset that is named.
proof fn part_is_named(e: Seq<ElementView>, rest: Seq<(int, int)>, c: int, q: int, l: int, s: int) -> (key: (int, int))
    requires
        0 <= l < e.len(),
        0 <= s < e.len(),
        into_part(e, rest, (c, q), e[l]),
        into_part(e, rest, (c, q), e[s]),
        e[l].kind == Kind::Inductor,
        prescribes_current(e[s].kind),
    ensures
        is_cutset(e, rest, key),
{
    let m = least_end(e, rest, (c, q), e.len() as int);
    let q1 = far_end(rest, e[m], c);
    let key = (c, q1);
    assert forall|i: int| 0 <= i < e.len() implies (into_part(e, rest, key, #[trigger] e[i]) <==> into_part(
        e,
        rest,
        (c, q),
        e[i],
    )) by {}
    assert(into_part(e, rest, key, e[m]));
    assert(leads_part(e, rest, key));
    across_holds(e, e, rest, key, true, l);
    across_holds(e, e, rest, key, false, s);
    if met_before(e, rest, key) {
        let back = (q1, c);
        key_is_apart(e, rest, key);
        assert(into_part(e, rest, back, e[m]) && into_part(e, rest, back, e[l]) && into_part(e, rest, back, e[s]));
        assert forall|i: int| 0 <= i < e.len() && into_part(e, rest, back, #[trigger] e[i]) implies far_end(
            rest,
            e[i],
            q1,
        ) == c by {
            assert(into_part(e, rest, key, e[i]));
        }
        assert(far_end(rest, e[m], q1) == c);
        assert(leads_part(e, rest, back));
        across_holds(e, e, rest, back, true, l);
        across_holds(e, e, rest, back, false, s);
        back
    } else {
        key
    }
}

/// Wherever a minimal cut is crossed by both an inductor and a prescribed current,
/// a cutset is named.
pub proof fn a_minimal_cut_is_named(e: Seq<ElementView>, rest: Seq<(int, int)>, side: spec_fn(int) -> bool) -> (key: (
    int,
    int,
))
    requires
        li_cutset(e, rest, side),
    ensures
        is_cutset(e, rest, key),
{
    let all = all_edges(e, rest);
    let beyond = other_side(side);
    let want = |k: Kind| is_storage(k);
    let l = choose|i: int| 0 <= i < e.len() && (#[trigger] e[i]).kind == Kind::Inductor && crosses(side, e[i]);
    let s = choose|i: int| 0 <= i < e.len() && prescribes_current((#[trigger] e[i]).kind) && crosses(side, e[i]);
    let (sx, sy) = ends_by_side(e[s], side);
    let (lx, ly) = ends_by_side(e[l], side);
    // All four ends are connected.
    edges_hold(e, want, s);
    edges_hold(e, want, l);
    in_concat(rest, edges_of(e, want), (e[s].a as int, e[s].b as int));
    in_concat(rest, edges_of(e, want), (e[l].a as int, e[l].b as int));
    linked_edge(all, sy, sx);
    linked_edge(all, ly, lx);
    assert(linked_within(all, side, sx, lx));
    let v = choose|w: Seq<int>| #[trigger] walk_within(all, side, w) && w[0] == sx && w.last() == lx;
    assert(linked(all, sx, lx));
    linked_reverse(all, sx, lx);
    linked_chain(all, ly, lx, sx);
    assert(linked_within(all, beyond, sy, ly));
    let u = choose|w: Seq<int>| #[trigger] walk_within(all, beyond, w) && w[0] == sy && w.last() == ly;
    // Component by component.
    let over = walk_hops(e, rest, side, v, v.len() - 1);
    let w = hop_once(e, rest, side, over);
    assert forall|i: int| 0 <= i < rest.len() implies beyond((#[trigger] rest[i]).0) == beyond(rest[i].1) by {}
    let far = walk_hops(e, rest, beyond, u, u.len() - 1);
    let m = w.len() - 1;
    side_of_component(rest, side, sx);
    side_of_component(rest, side, sy);
    side_of_component(rest, side, lx);
    side_of_component(rest, side, ly);
    let f = Seq::new(
        (m + 2) as nat,
        |k: int|
            if k == 0 {
                s
            } else if k == m + 1 {
                l
            } else {
                pick(e, rest, w[k - 1], w[k])
            },
    );
    assert forall|k: int| 1 <= k <= m implies spans(e, rest, #[trigger] f[k], w[k - 1], w[k]) by {
        let (p, r) = (w[k - 1], w[k]);
        assert(hop(e, rest, p, r));
    }
    assert forall|k: int| 0 <= k < f.len() implies is_storage(e[#[trigger] f[k]].kind) by {
        if 1 <= k <= m {
            assert(spans(e, rest, f[k], w[k - 1], w[k]));
        }
    }
    let k = turn(e, f, m + 1);
    let c = w[k];
    let sv = label(rest, sy);
    let lv = label(rest, ly);
    assert(spans(e, rest, s, w[0], sv));
    assert(spans(e, rest, l, w[m], lv));
    assert(side(w[k]));
    // Behind the current: back along the walk and over the cut.
    let before = if k == 0 {
        sv
    } else {
        w[k - 1]
    };
    assert(in_part(e, rest, c, before, sv)) by {
        if k > 0 {
            assert forall|i: int| 0 <= i <= k - 1 implies #[trigger] w[i] != c by {}
            hops_around(e, rest, side, c, w, 0, k - 1);
            span_around(e, rest, c, s, w[0], sv);
        }
    }
    // Behind the inductor: on along the walk and over the cut.
    let after = if k == m {
        lv
    } else {
        w[k + 1]
    };
    assert(in_part(e, rest, c, after, lv)) by {
        if k < m {
            assert forall|i: int| k + 1 <= i <= m implies #[trigger] w[i] != c by {}
            hops_around(e, rest, side, c, w, k + 1, m);
            span_around(e, rest, c, l, w[m], lv);
        }
    }
    // And the two ends meet beyond the cut.
    assert(in_part(e, rest, c, sv, lv)) by {
        assert forall|i: int| 0 <= i <= far.len() - 1 implies #[trigger] far[i] != c by {
            assert(beyond(far[i]));
        }
        hops_around(e, rest, beyond, c, far, 0, far.len() - 1);
    }
    let (g, h) = (f[k], f[k + 1]);
    if k > 0 {
        assert(spans(e, rest, f[k], w[k - 1], w[k]));
    }
    if k < m {
        assert(spans(e, rest, f[k + 1], w[k + 1 - 1], w[k + 1]));
    }
    assert(spans(e, rest, g, before, c));
    assert(spans(e, rest, h, c, after));
    assert(far_end(rest, e[g], c) == before);
    assert(far_end(rest, e[h], c) == after);
    part_is_named(e, rest, c, before, h, g)
}

/// The ends of an element that crosses, the one on the side first.
spec fn ends_by_side(x: ElementView, side: spec_fn(int) -> bool) -> (int, int) {
    if side(x.a as int) {
        (x.a as int, x.b as int)
    } else {
        (x.b as int, x.a as int)
    }
}

/// A cutset is reported exactly where there is one: some minimal cut is crossed by
/// an inductor and by a prescribed current.
pub proof fn cutsets_are_found(e: Seq<ElementView>, rest: Seq<(int, int)>, keys: Seq<(int, int)>, cutsets: Seq<PathView>)
    requires
        cutsets_at(e, rest, keys, cutsets),
    ensures
        cutsets.len() > 0 <==> has_li_cutset(e, rest),
{
    if cutsets.len() > 0 {
        assert(keys.contains(keys[0]));
        named_cutsets_are_minimal_cuts(e, rest, keys[0]);
    }
    if has_li_cutset(e, rest) {
        let side = choose|side: spec_fn(int) -> bool| #[trigger] li_cutset(e, rest, side);
        let key = a_minimal_cut_is_named(e, rest, side);
        assert(keys.contains(key));
    }
}

/// Without an inductor there is no cutset.
pub proof fn no_inductor_no_cutset(e: Seq<ElementView>, rest: Seq<(int, int)>, key: (int, int))
    requires
        forall|i: int| 0 <= i < e.len() ==> (#[trigger] e[i]).kind != Kind::Inductor,
    ensures
        !is_cutset(e, rest, key),
{
    if is_cutset(e, rest, key) {
        let i = across_has_element(e, e, rest, key, true);
        assert(e[i].kind != Kind::Inductor);
    }
}

} // verus!

//! Node names and their numbers.
use crate::table::{entries, table_get, table_insert, table_new, Table};
use crate::text::{lower, texts, to_lower};
use vstd::prelude::*;

verus! {

/// The nodes met so far: name to index (case-insensitive) and index to name.
#[derive(Debug)]
pub struct NodeMap {
    pub index: Table,
    pub names: Vec<String>,
}

pub struct NodesView {
    pub index: Map<Seq<char>, u64>,
    pub names: Seq<Seq<char>>,
}

impl View for NodeMap {
    type V = NodesView;

    open spec fn view(&self) -> NodesView {
        NodesView { index: entries(self.index), names: texts(self.names@) }
    }
}

impl NodesView {
    /// Ground under its three names.
    pub open spec fn ground() -> NodesView {
        NodesView {
            index: Map::<Seq<char>, u64>::empty().insert("0"@, 0).insert("gnd"@, 0).insert("ground"@, 0),
            names: seq!["0"@],
        }
    }

    /// Every number belongs to a node.
    pub open spec fn wf(self) -> bool {
        &&& self.names.len() > 0
        &&& forall|k: Seq<char>| #[trigger] self.index.contains_key(k) ==> self.index[k] < self.names.len()
    }

    /// The number of a node, and the nodes known from then on.
    pub open spec fn resolve(self, name: Seq<char>) -> (u64, NodesView) {
        let key = lower(name);
        if self.index.contains_key(key) {
            (self.index[key], self)
        } else {
            let n = self.names.len() as u64;
            (n, NodesView { index: self.index.insert(key, n), names: self.names.push(name) })
        }
    }
}

impl NodeMap {
    pub fn new() -> (r: NodeMap)
        ensures
            r@ == NodesView::ground(),
            r@.wf(),
    {
        let mut index = table_new();
        table_insert(&mut index, "0".to_owned(), 0);
        table_insert(&mut index, "gnd".to_owned(), 0);
        table_insert(&mut index, "ground".to_owned(), 0);
        let mut names: Vec<String> = Vec::new();
        names.push("0".to_owned());
        assert(texts(names@) =~= seq!["0"@]);
        NodeMap { index, names }
    }

    pub fn resolve(&mut self, name: &str) -> (r: usize)
        requires
            old(self)@.wf(),
        ensures
            (r as u64, final(self)@) == old(self)@.resolve(name@),
            final(self)@.wf(),
    {
        let key = to_lower(name);
        let n: usize = self.names.len();
        assert(texts(self.names@).len() == n);
        if let Some(i) = table_get(&self.index, &key) {
            assert(self@.index.contains_key(key@));
            assert(i < n);
            return i as usize;
        }
        let ghost before = self@;
        self.names.push(name.to_owned());
        table_insert(&mut self.index, key, n as u64);
        proof {
            assert(texts(self.names@) =~= before.names.push(name@));
            assert forall|k: Seq<char>| #[trigger] self@.index.contains_key(k) implies self@.index[k] < self@.names.len() by {
                if k != key@ {
                    assert(before.index.contains_key(k));
                }
            }
        }
        n
    }
}

/// Node names are case-insensitive: two spellings of a name are one node.
pub proof fn spelling_does_not_matter(m: NodesView, a: Seq<char>, b: Seq<char>)
    requires
        lower(a) == lower(b),
    ensures
        m.resolve(a).1.resolve(b).0 == m.resolve(a).0,
        m.resolve(a).1.resolve(b).1 == m.resolve(a).1,
{
}

/// Two different names get two different nodes, once ground is set aside.
pub proof fn nodes_stay_apart(m: NodesView, a: Seq<char>, b: Seq<char>)
    requires
        m.wf(),
        m.names.len() < u64::MAX,
        !m.index.contains_key(lower(a)),
        !m.index.contains_key(lower(b)),
        lower(a) != lower(b),
    ensures
        m.resolve(a).1.resolve(b).0 != m.resolve(a).0,
{
}

/// A number once given stays.
pub proof fn numbers_stay(m: NodesView, a: Seq<char>, b: Seq<char>)
    requires
        m.index.contains_key(lower(a)),
    ensures
        m.resolve(b).1.resolve(a).0 == m.resolve(a).0,
{
}

} // verus!

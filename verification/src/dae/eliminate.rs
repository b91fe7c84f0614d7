//! Exact elimination of internal resistive nodes.
//!
//! Gaussian elimination on the graph: a chain of series resistors collapses into
//! one branch, losslessly and at every frequency.
use crate::dae::jacobian::{holds_symbol, replaced, substitute_all};
use crate::dae::merge::{transformed, transformed_is_well_formed, Core, CoreVecs};
use crate::dae::system::{copy_kinds, copy_slots, copy_symbols, Dae, DaeView};
use crate::symbolic::{copy_exprs, Algebra, Answer, ExprId, Graph, Query, SymbolId};
use crate::text::{contains_text, copy_texts, texts};
use vstd::prelude::*;

verus! {

/// One of the symbols occurs in the expression.
pub open spec fn touches(g: Graph, e: ExprId, v: Seq<SymbolId>) -> bool {
    exists|k: int| 0 <= k < g.free(e).len() && v.contains(#[trigger] g.free(e)[k])
}

/// The symbol occurs in one of the expressions.
pub open spec fn live(g: Graph, v: Seq<ExprId>, s: SymbolId) -> bool {
    exists|k: int| 0 <= k < v.len() && g.free(#[trigger] v[k]).contains(s)
}

impl Core {
    pub open spec fn volts(self) -> Seq<SymbolId> {
        self.x.take(self.n_nodes as int)
    }

    pub open spec fn branches(self) -> Seq<SymbolId> {
        self.x.skip(self.n_nodes as int)
    }

    /// A node is eliminable when it is not kept, no capacitance is incident (its
    /// derivative occurs nowhere), no branch current is incident, and its
    /// self-conductance is not zero and depends on no node voltage.
    pub open spec fn eliminable(self, g: Graph, keep: Seq<Seq<char>>, i: int) -> bool {
        let a = g.derive(self.residuals[i], self.x[i]);
        &&& 0 <= i < self.n_nodes
        &&& !keep.contains(self.unknowns[i])
        &&& (self.xdot[i] is Some ==> !live(g, self.residuals, self.xdot[i]->0))
        &&& !touches(g, self.residuals[i], self.branches())
        &&& !g.is_zero(a)
        &&& !touches(g, a, self.volts())
    }

    /// The first eliminable node from `i` on.
    pub open spec fn target(self, g: Graph, keep: Seq<Seq<char>>, i: int) -> Option<int>
        decreases self.n_nodes - i,
    {
        if i < 0 || i >= self.n_nodes {
            None
        } else if self.eliminable(g, keep, i) {
            Some(i)
        } else {
            self.target(g, keep, i + 1)
        }
    }

    /// What the current law `A*v + B = 0` of node `i` gives for its voltage.
    pub open spec fn solved(self, g: Graph, i: int) -> ExprId {
        let a = g.derive(self.residuals[i], self.x[i]);
        let b = g.substitute(self.residuals[i], seq![(self.x[i], g.zero())]);
        g.times(g.neg(b), g.power(a, -1i64))
    }

    /// The layout with node `i` inlined everywhere and dropped.
    pub open spec fn without(self, g: Graph, i: int) -> Core {
        Core {
            residuals: replaced(g, self.residuals, seq![(self.x[i], self.solved(g, i))]).remove(i),
            unknowns: self.unknowns.remove(i),
            kinds: self.kinds.remove(i),
            x: self.x.remove(i),
            xdot: self.xdot.remove(i),
            n_nodes: (self.n_nodes - 1) as usize,
        }
    }

    /// The layout once no eliminable node is left, and the names of the nodes that
    /// went, in order.
    pub open spec fn reduced(self, g: Graph, keep: Seq<Seq<char>>) -> (Core, Seq<Seq<char>>)
        decreases self.n_nodes,
    {
        match self.target(g, keep, 0) {
            Some(i) if 0 <= i < self.n_nodes => {
                let (c, names) = self.without(g, i).reduced(g, keep);
                (c, seq![self.unknowns[i]] + names)
            },
            _ => (self, seq![]),
        }
    }

    pub(crate) proof fn target_in_range(self, g: Graph, keep: Seq<Seq<char>>, i: int)
        requires
            0 <= i,
        ensures
            self.target(g, keep, i) is Some ==> i <= self.target(g, keep, i)->0 < self.n_nodes && self.eliminable(
                g,
                keep,
                self.target(g, keep, i)->0,
            ),
            self.target(g, keep, i) is None ==> forall|k: int| i <= k < self.n_nodes ==> !#[trigger] self.eliminable(
                g,
                keep,
                k,
            ),
        decreases self.n_nodes - i,
    {
        if i < self.n_nodes {
            self.target_in_range(g, keep, i + 1);
        }
    }

    /// Elimination stops only where no node can be eliminated; it removes as many
    /// unknowns as it names, all of them nodes, and none that is kept.
    pub proof fn reduction_is_complete(self, g: Graph, keep: Seq<Seq<char>>)
        requires
            self.wf(),
        ensures
            self.reduced(g, keep).0.wf(),
            forall|k: int| !#[trigger] self.reduced(g, keep).0.eliminable(g, keep, k),
            self.reduced(g, keep).0.x.len() + self.reduced(g, keep).1.len() == self.x.len(),
            self.reduced(g, keep).0.n_nodes + self.reduced(g, keep).1.len() == self.n_nodes,
            self.reduced(g, keep).0.branches() == self.branches(),
            forall|k: int|
                0 <= k < self.reduced(g, keep).1.len() ==> !keep.contains(#[trigger] self.reduced(g, keep).1[k])
                    && self.unknowns.contains(self.reduced(g, keep).1[k]),
        decreases self.n_nodes,
    {
        self.target_in_range(g, keep, 0);
        match self.target(g, keep, 0) {
            Some(i) if 0 <= i < self.n_nodes => {
                let w = self.without(g, i);
                assert(replaced(g, self.residuals, seq![(self.x[i], self.solved(g, i))]).len()
                    == self.residuals.len());
                w.reduction_is_complete(g, keep);
                let (c, names) = w.reduced(g, keep);
                assert(w.branches() =~= self.branches());
                let all = self.reduced(g, keep).1;
                assert(all =~= seq![self.unknowns[i]] + names);
                assert forall|k: int| 0 <= k < all.len() implies !keep.contains(#[trigger] all[k])
                    && self.unknowns.contains(all[k]) by {
                    if k > 0 {
                        assert(all[k] == names[k - 1]);
                        let l = choose|l: int| 0 <= l < w.unknowns.len() && w.unknowns[l] == all[k];
                        if l < i {
                            assert(self.unknowns[l] == all[k]);
                        } else {
                            assert(self.unknowns[l + 1] == all[k]);
                        }
                    } else {
                        assert(self.unknowns[i] == all[0]);
                    }
                }
            },
            _ => {},
        }
    }
}

pub open spec fn core_of(d: DaeView) -> Core {
    Core {
        residuals: d.residuals,
        unknowns: d.unknowns,
        kinds: d.kinds,
        x: d.x,
        xdot: d.xdot,
        n_nodes: d.n_nodes,
    }
}

/// The system without its eliminable nodes, and their names.
pub open spec fn eliminated(g: Graph, d: DaeView, keep: Seq<Seq<char>>) -> (DaeView, Seq<Seq<char>>) {
    let (c, names) = core_of(d).reduced(g, keep);
    (transformed(g, d, c), names)
}

pub(crate) fn touch<G: Fn(Query) -> Answer>(al: &Algebra<G>, e: ExprId, v: &Vec<SymbolId>, lo: usize, hi: usize) -> (r: bool)
    requires
        lo <= hi <= v@.len(),
    ensures
        r == touches(al.graph(), e, v@.subrange(lo as int, hi as int)),
{
    let ghost g = al.graph();
    let free = al.free_symbols(e);
    let ghost part = v@.subrange(lo as int, hi as int);
    for k in 0..free.len()
        invariant
            g == al.graph(),
            free@ == g.free(e),
            lo <= hi <= v@.len(),
            part == v@.subrange(lo as int, hi as int),
            forall|l: int| 0 <= l < k ==> !part.contains(#[trigger] g.free(e)[l]),
    {
        for j in lo..hi
            invariant
                g == al.graph(),
                free@ == g.free(e),
                k < free@.len(),
                lo <= hi <= v@.len(),
                part == v@.subrange(lo as int, hi as int),
                forall|l: int| lo <= l < j ==> v@[l] != free@[k as int],
        {
            if v[j] == free[k] {
                proof {
                    assert(part[j - lo] == g.free(e)[k as int]);
                    assert(part.contains(g.free(e)[k as int]));
                }
                return true;
            }
        }
        assert(!part.contains(g.free(e)[k as int])) by {
            if part.contains(g.free(e)[k as int]) {
                let m = choose|m: int| 0 <= m < part.len() && part[m] == g.free(e)[k as int];
                assert(v@[lo + m] == free@[k as int]);
            }
        }
    }
    false
}

fn is_live<G: Fn(Query) -> Answer>(al: &Algebra<G>, v: &Vec<ExprId>, s: SymbolId) -> (r: bool)
    ensures
        r == live(al.graph(), v@, s),
{
    for k in 0..v.len()
        invariant
            forall|l: int| 0 <= l < k ==> !al.graph().free(#[trigger] v@[l]).contains(s),
    {
        let free = al.free_symbols(v[k]);
        if holds_symbol(&free, s) {
            assert(al.graph().free(v@[k as int]).contains(s));
            return true;
        }
    }
    false
}

impl CoreVecs {
    fn can_go<G: Fn(Query) -> Answer>(&self, al: &Algebra<G>, keep: &Vec<String>, i: usize) -> (r: bool)
        requires
            self@.wf(),
            i < self.n_nodes,
        ensures
            r == self@.eliminable(al.graph(), texts(keep@), i as int),
    {
        let n: usize = self.x.len();
        proof {
            assert(self.x@.subrange(self.n_nodes as int, n as int) =~= self@.branches());
            assert(self.x@.subrange(0, self.n_nodes as int) =~= self@.volts());
        }
        if contains_text(keep, &self.unknowns[i]) {
            return false;
        }
        if let Some(d) = self.xdot[i] {
            if is_live(al, &self.residuals, d) {
                return false;
            }
        }
        if touch(al, self.residuals[i], &self.x, self.n_nodes, n) {
            return false;
        }
        let a = al.derive(self.residuals[i], self.x[i]);
        if al.is_zero(a) {
            return false;
        }
        !touch(al, a, &self.x, 0, self.n_nodes)
    }

    fn pick<G: Fn(Query) -> Answer>(&self, al: &Algebra<G>, keep: &Vec<String>) -> (r: Option<usize>)
        requires
            self@.wf(),
        ensures
            match (r, self@.target(al.graph(), texts(keep@), 0)) {
                (Some(i), Some(j)) => i == j && i < self.n_nodes,
                (None, None) => true,
                _ => false,
            },
    {
        let ghost g = al.graph();
        let ghost goal = self@.target(g, texts(keep@), 0);
        for i in 0..self.n_nodes
            invariant
                g == al.graph(),
                self@.wf(),
                goal == self@.target(g, texts(keep@), 0),
                self@.target(g, texts(keep@), i as int) == goal,
        {
            if self.can_go(al, keep, i) {
                return Some(i);
            }
        }
        None
    }

    fn drop_node<G: Fn(Query) -> Answer>(self, al: &Algebra<G>, i: usize) -> (r: CoreVecs)
        requires
            self@.wf(),
            i < self.n_nodes,
        ensures
            r@ == self@.without(al.graph(), i as int),
    {
        let ghost g = al.graph();
        let ghost goal = self@.without(g, i as int);
        let mut c = self;
        let a = al.derive(c.residuals[i], c.x[i]);
        let mut m: Vec<(SymbolId, ExprId)> = Vec::new();
        m.push((c.x[i], al.zero()));
        assert(m@ =~= seq![(c.x@[i as int], g.zero())]);
        let b = al.substitute(c.residuals[i], &m);
        let v = al.times(al.neg(b), al.power(a, -1));
        let mut inline: Vec<(SymbolId, ExprId)> = Vec::new();
        inline.push((c.x[i], v));
        assert(inline@ =~= seq![(c.x@[i as int], v)]);
        let mut rows = substitute_all(al, &c.residuals, &inline);
        assert(rows@.len() == c.residuals@.len());
        rows.remove(i);
        c.residuals = rows;
        let ghost names = c.unknowns@;
        c.unknowns.remove(i);
        assert(texts(c.unknowns@) =~= texts(names).remove(i as int));
        c.kinds.remove(i);
        c.x.remove(i);
        c.xdot.remove(i);
        c.n_nodes = c.n_nodes - 1;
        proof {
            assert(c@.residuals =~= goal.residuals);
            assert(c@.kinds =~= goal.kinds);
            assert(c@.x =~= goal.x);
            assert(c@.xdot =~= goal.xdot);
            assert(c@ == goal);
        }
        c
    }
}

/// Exactly eliminate internal resistive nodes. A node goes when it is purely
/// resistive and linear, so that its current law solves to a linear combination
/// of its neighbours' voltages; inlining that everywhere preserves the response
/// between all remaining nodes. `keep` protects unknowns by name. Nodes go one at
/// a time, with a fresh scan between each. Returns the reduced system and the
/// names of the eliminated nodes in order.
pub fn eliminate_nodes<G: Fn(Query) -> Answer>(al: &Algebra<G>, dae: &Dae, keep: &Vec<String>) -> (r: (Dae, Vec<String>))
    requires
        dae@.wf(),
    ensures
        (r.0@, texts(r.1@)) == eliminated(al.graph(), dae@, texts(keep@)),
        r.0@.wf(),
{
    let ghost g = al.graph();
    let ghost k = texts(keep@);
    let mut c = CoreVecs {
        residuals: copy_exprs(&dae.residuals),
        unknowns: copy_texts(&dae.unknowns),
        kinds: copy_kinds(&dae.kinds),
        x: copy_symbols(&dae.x),
        xdot: copy_slots(&dae.xdot),
        n_nodes: dae.n_nodes,
    };
    let mut names: Vec<String> = Vec::new();
    let ghost start = core_of(dae@);
    let ghost goal = start.reduced(g, k);
    proof {
        assert(c@ == start);
        assert(texts(names@) + goal.1 =~= goal.1);
    }
    loop
        invariant
            g == al.graph(),
            k == texts(keep@),
            c@.wf(),
            c@.reduced(g, k).0 == goal.0,
            texts(names@) + c@.reduced(g, k).1 == goal.1,
        ensures
            c@ == goal.0,
            texts(names@) == goal.1,
        decreases c.n_nodes,
    {
        match c.pick(al, keep) {
            None => {
                assert(texts(names@) + seq![] =~= texts(names@));
                break;
            },
            Some(i) => {
                let ghost before = texts(names@);
                let ghost w = c@.without(g, i as int);
                let ghost name = c@.unknowns[i as int];
                names.push(c.unknowns[i].clone());
                proof {
                    assert(texts(names@) =~= before.push(name));
                    let rest = w.reduced(g, k).1;
                    assert(before + (seq![name] + rest) =~= before.push(name) + rest);
                    assert(replaced(g, c@.residuals, seq![(c@.x[i as int], c@.solved(g, i as int))]).len()
                        == c@.residuals.len());
                }
                c = c.drop_node(al, i);
            },
        }
    }
    let total: usize = dae.x.len();
    proof {
        start.reduction_is_complete(g, k);
        assert(c@.x.len() <= total);
        transformed_is_well_formed(g, dae@, c@);
    }
    let r = dae.transformed(al, c);
    (r, names)
}

} // verus!

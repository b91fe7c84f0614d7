//! What element lines connect: each element stands between the nodes that its line
//! names, in their order.
use crate::circuit::{value_symbol, Kind};
use crate::corners::Reading;
use crate::netlist::devices::{keyed, or_value, PlacedView};
use crate::netlist::elements::{any_refers, first_value, ElemView, Tables, FIFTY};
use crate::netlist::nodes::NodesView;
use crate::netlist::placement::Ladder;
use crate::numerics::Answers;
use crate::text::{decimal, lower};
use vstd::prelude::*;

verus! {

/// The name is that of a node, and this is its number.
pub open spec fn numbered_as(m: NodesView, name: Seq<char>, n: usize) -> bool {
    m.index.contains_key(lower(name)) && m.index[lower(name)] as usize == n
}

/// The elements before the last are those that were there.
pub open spec fn one_more(s: PlacedView, t: PlacedView) -> bool {
    t.circuit.elements.len() == s.circuit.elements.len() + 1 && t.circuit.elements.drop_last() == s.circuit.elements
}

proof fn node_stays(s: PlacedView, a: Seq<char>, b: Seq<char>, n: usize)
    requires
        numbered_as(s.nodes, a, n),
    ensures
        numbered_as(s.node(b).1.nodes, a, n),
{
}

proof fn node_is_numbered(s: PlacedView, a: Seq<char>)
    ensures
        numbered_as(s.node(a).1.nodes, a, s.node(a).0),
        s.node(a).1.circuit == s.circuit,
{
}

impl Tables {
    /// A passive element or an independent source stands between the two nodes that
    /// its line names, the first one first.
    pub proof fn passive_lines_connect_their_nodes(self, s: PlacedView, el: ElemView)
        requires
            el.tok.len() >= 3,
            el.kind == 'C' || el.kind == 'L' || el.kind == 'V' || el.kind == 'I' || (el.kind == 'R' && !any_refers(
                el.tok,
                3,
            )),
        ensures
            self.passive(s, el) is Ok,
            ({
                let t = self.passive(s, el)->Ok_0;
                let e = t.circuit.elements.last();
                &&& one_more(s, t)
                &&& e.name == el.name
                &&& numbered_as(t.nodes, el.tok[1], e.a)
                &&& numbered_as(t.nodes, el.tok[2], e.b)
                &&& el.kind == 'R' ==> e.kind == Kind::Resistor
                &&& el.kind == 'C' ==> e.kind == Kind::Capacitor
                &&& el.kind == 'L' ==> e.kind == Kind::Inductor
                &&& el.kind == 'V' ==> e.kind == Kind::VoltageSource
                &&& el.kind == 'I' ==> e.kind == Kind::CurrentSource
                &&& (el.kind == 'R' || el.kind == 'C' || el.kind == 'L') ==> e.source is None
            }),
    {
        let (a, s1) = s.node(el.tok[1]);
        let (b, s2) = s1.node(el.tok[2]);
        node_is_numbered(s, el.tok[1]);
        node_is_numbered(s1, el.tok[2]);
        node_stays(s1, el.tok[1], el.tok[2], a);
        let t = self.passive(s, el)->Ok_0;
        assert(t.circuit.elements.drop_last() =~= s.circuit.elements);
    }

    /// A voltage-controlled source stands between its first two nodes and is controlled
    /// by the voltage from its third to its fourth.
    pub proof fn controlled_lines_connect_their_nodes(self, s: PlacedView, el: ElemView)
        requires
            el.tok.len() >= 5,
            el.kind == 'E' || el.kind == 'G',
        ensures
            self.controlled_voltage(s, el) is Ok,
            ({
                let t = self.controlled_voltage(s, el)->Ok_0;
                let e = t.circuit.elements.last();
                let gain = first_value(self.h, self.env, el.tok, 5, false);
                &&& one_more(s, t)
                &&& e.name == el.name
                &&& el.kind == 'E' ==> e.kind == Kind::Vcvs
                &&& el.kind == 'G' ==> e.kind == Kind::Vccs
                &&& numbered_as(t.nodes, el.tok[1], e.a)
                &&& numbered_as(t.nodes, el.tok[2], e.b)
                &&& e.ctrl is Some
                &&& numbered_as(t.nodes, el.tok[3], (e.ctrl->0).0)
                &&& numbered_as(t.nodes, el.tok[4], (e.ctrl->0).1)
                &&& gain is Some ==> t.values.contains_key(value_symbol(el.name)) && t.values[value_symbol(el.name)]
                    == gain->0
            }),
    {
        let (a, s1) = s.node(el.tok[1]);
        let (b, s2) = s1.node(el.tok[2]);
        let (p, s3) = s2.node(el.tok[3]);
        node_is_numbered(s, el.tok[1]);
        node_is_numbered(s1, el.tok[2]);
        node_is_numbered(s2, el.tok[3]);
        node_is_numbered(s3, el.tok[4]);
        node_stays(s1, el.tok[1], el.tok[2], a);
        node_stays(s2, el.tok[1], el.tok[3], a);
        node_stays(s3, el.tok[1], el.tok[4], a);
        node_stays(s2, el.tok[2], el.tok[3], b);
        node_stays(s3, el.tok[2], el.tok[4], b);
        node_stays(s3, el.tok[3], el.tok[4], p);
        let t = self.controlled_voltage(s, el)->Ok_0;
        assert(t.circuit.elements.drop_last() =~= s.circuit.elements);
    }

    /// A current-controlled source stands between its two nodes and is controlled by
    /// the current of the element that its line names.
    pub proof fn current_controlled_lines_connect_their_nodes(self, s: PlacedView, el: ElemView)
        requires
            el.tok.len() >= 4,
            el.kind == 'F' || el.kind == 'H',
        ensures
            self.controlled_current(s, el) is Ok,
            ({
                let t = self.controlled_current(s, el)->Ok_0;
                let e = t.circuit.elements.last();
                let gain = first_value(self.h, self.env, el.tok, 4, false);
                &&& one_more(s, t)
                &&& e.name == el.name
                &&& el.kind == 'F' ==> e.kind == Kind::Cccs
                &&& el.kind == 'H' ==> e.kind == Kind::Ccvs
                &&& numbered_as(t.nodes, el.tok[1], e.a)
                &&& numbered_as(t.nodes, el.tok[2], e.b)
                &&& e.ctrl_elem == Some(el.tok[3])
                &&& gain is Some ==> t.values.contains_key(value_symbol(el.name)) && t.values[value_symbol(el.name)]
                    == gain->0
            }),
    {
        let (a, s1) = s.node(el.tok[1]);
        node_is_numbered(s, el.tok[1]);
        node_is_numbered(s1, el.tok[2]);
        node_stays(s1, el.tok[1], el.tok[2], a);
        let t = self.controlled_current(s, el)->Ok_0;
        assert(t.circuit.elements.drop_last() =~= s.circuit.elements);
    }

    /// A coupling joins the two inductors that its line names.
    pub proof fn coupling_lines_join_their_coils(self, s: PlacedView, el: ElemView)
        requires
            el.tok.len() >= 4,
        ensures
            self.coupling(s, el) is Ok,
            ({
                let t = self.coupling(s, el)->Ok_0;
                let k = t.circuit.couplings.last();
                let factor = first_value(self.h, self.env, el.tok, 3, false);
                &&& t.circuit.couplings.len() == s.circuit.couplings.len() + 1
                &&& k.name == el.name && k.l1 == el.tok[1] && k.l2 == el.tok[2]
                &&& t.circuit.elements == s.circuit.elements
                &&& factor is Some ==> t.values.contains_key(value_symbol(el.name)) && t.values[value_symbol(el.name)]
                    == factor->0
            }),
    {
    }

    /// A port is a silent source behind its reference impedance: the source stands from
    /// an inner node to the second node of the line, the impedance from the inner node
    /// to the first. A port whose impedance is not positive is refused.
    pub proof fn ports_are_sources_behind_their_impedance(self, r: Reading, s: PlacedView, el: ElemView)
        requires
            r.exact(self.h),
            el.tok.len() >= 3,
            (r.number)(or_value(keyed(self.h, self.env, el.tok, 3, "z0"@), FIFTY)),
        ensures
            ({
                let z0 = or_value(keyed(self.h, self.env, el.tok, 3, "z0"@), FIFTY);
                let p = self.port(s, el);
                let t = p->Ok_0;
                let n = t.circuit.elements.len();
                let (v, z) = (t.circuit.elements[n - 2], t.circuit.elements[n - 1]);
                &&& p is Ok <==> (r.value)(z0) > 0real
                &&& p is Ok ==> {
                    &&& n == s.circuit.elements.len() + 2
                    &&& v.kind == Kind::VoltageSource && v.name == el.name && z.kind == Kind::Resistor
                    &&& v.a == z.a && numbered_as(t.nodes, el.name + ".t"@, v.a)
                    &&& numbered_as(t.nodes, el.tok[2], v.b)
                    &&& numbered_as(t.nodes, el.tok[1], z.b)
                    &&& (r.value)(t.values[value_symbol(el.name)]) == 0real
                    &&& t.values[value_symbol(z.name)] == z0
                    &&& t.ports.last().z0 == z0 && t.ports.last().node == el.tok[1]
                }
            }),
    {
        let (a, s1) = s.node(el.tok[1]);
        let (b, s2) = s1.node(el.tok[2]);
        let inner = el.name + ".t"@;
        node_is_numbered(s, el.tok[1]);
        node_is_numbered(s1, el.tok[2]);
        node_is_numbered(s2, inner);
        node_stays(s1, el.tok[1], el.tok[2], a);
        node_stays(s2, el.tok[1], inner, a);
        node_stays(s2, el.tok[2], inner, b);
        reveal_strlit("_");
        reveal_strlit(".z0");
        assert(value_symbol(el.name).len() <= el.name.len() + 1);
        assert(value_symbol(el.name + ".z0"@).len() >= el.name.len() + 3);
        r.constants(self.h);
        r.compared(self.h, or_value(keyed(self.h, self.env, el.tok, 3, "z0"@), FIFTY), 0);
    }
}

impl Ladder {
    /// A section of a lumped line leads from one node to the next: through its resistor,
    /// its inductor, or both in a row.
    pub proof fn sections_lead_to_the_next_node(
        self,
        r: Reading,
        h: Answers,
        s: PlacedView,
        k: int,
        prev: usize,
        node: usize,
    )
        requires
            r.exact(h),
            (r.number)(self.rs),
            (r.number)(self.ls),
        ensures
            ({
                let t = self.series(h, s, k, prev, node);
                let n = t.circuit.elements.len();
                let (y, z) = (t.circuit.elements[n - 2], t.circuit.elements[n - 1]);
                let (res, ind) = ((r.value)(self.rs) != 0real, (r.value)(self.ls) != 0real);
                &&& res && ind ==> {
                    &&& n == s.circuit.elements.len() + 2
                    &&& y.kind == Kind::Resistor && z.kind == Kind::Inductor
                    &&& y.a == prev && y.b == z.a && z.b == node
                    &&& t.values[value_symbol(z.name)] == self.ls
                }
                &&& res && !ind ==> {
                    &&& n == s.circuit.elements.len() + 1
                    &&& z.kind == Kind::Resistor && z.a == prev && z.b == node
                    &&& t.values[value_symbol(z.name)] == self.rs
                }
                &&& !res && ind ==> {
                    &&& n == s.circuit.elements.len() + 1
                    &&& z.kind == Kind::Inductor && z.a == prev && z.b == node
                    &&& t.values[value_symbol(z.name)] == self.ls
                }
                &&& !res && !ind ==> n == s.circuit.elements.len() + 1 && z.kind == Kind::Resistor && z.a == prev
                    && z.b == node
            }),
    {
        r.constants(h);
        r.compared(h, self.rs, 0);
        r.compared(h, self.ls, 0);
    }

    /// The shunt of a section stands between its node and the reference: the capacitor,
    /// and the conductance as far as there is one.
    pub proof fn shunts_stand_at_the_node(self, r: Reading, h: Answers, s: PlacedView, k: int, node: usize)
        requires
            r.exact(h),
            (r.number)(self.cs),
            (r.number)(self.gs),
        ensures
            ({
                let t = self.shunt(h, s, k, node);
                let n = t.circuit.elements.len();
                let m = s.circuit.elements.len();
                let (cap, con) = ((r.value)(self.cs) != 0real, (r.value)(self.gs) != 0real);
                &&& n == m + (if cap { 1int } else { 0int }) + (if con { 1int } else { 0int })
                &&& cap ==> {
                    let e = t.circuit.elements[m as int];
                    e.kind == Kind::Capacitor && e.a == node && e.b == self.reference
                }
                &&& con ==> {
                    let e = t.circuit.elements.last();
                    e.kind == Kind::Resistor && e.a == node && e.b == self.reference
                }
                &&& cap && !con ==> t.values[value_symbol(self.name + ".C"@ + decimal(k as nat))] == self.cs
            }),
    {
        r.constants(h);
        r.compared(h, self.cs, 0);
        r.compared(h, self.gs, 0);
    }
}

} // verus!

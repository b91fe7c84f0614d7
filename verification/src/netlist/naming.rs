//! What every parsed deck keeps: its nodes have names, and its temperature has a
//! value.
use crate::circuit::{
    current_controlled, max_node_of, plain, voltage_controlled, BKind, BTerm, BehavioralView, CircuitView,
    ElementView, Kind,
};
use crate::netlist::behavioral::{b_binding, b_operator, behavioral_of, BScope};
use crate::netlist::devices::{keyed, or_value, OsdiJob, PlacedView, VaJob};
use crate::netlist::elements::{
    any_refers, first_name, node_run, osdi_at, passive_kind, times, ElemView, Tables,
};
use crate::netlist::expr::{value_body, TokView};
use crate::netlist::model_cards::{first_plain, library, param_value};
use crate::netlist::nodes::NodesView;
use crate::netlist::options::{aliases_of, options_of, params_of};
use crate::netlist::parse::{parsed_deck, past_path, temp_symbol};
use crate::netlist::placement::{or_text, sections_of, sign_of, Ladder};
use crate::netlist::preprocess::{logical_lines, LineView};
use crate::netlist::resolve::spliced;
use crate::netlist::subckt::{first_assignment, flattened};
use crate::netlist::va::{extracted, module_at};
use crate::netlist::world::{ModelRefView, ModuleInfo, PlacementView, World};
use crate::numerics::{apply2, count, Answers, Op2, ONE, ZERO};
use crate::text::{join, lower, upper_char};
use vstd::prelude::*;

verus! {

/// Every terminal of the devices is one of the first `n` nodes.
pub open spec fn wired_within(devices: Seq<PlacementView>, n: nat) -> bool {
    forall|i: int, k: int|
        0 <= i < devices.len() && 0 <= k < devices[i].terminals.len() ==> #[trigger] devices[i].terminals[k] < n
}

/// Every node that an element or a device refers to has a name.
pub open spec fn all_named(nodes: NodesView, circuit: CircuitView, devices: Seq<PlacementView>) -> bool {
    &&& nodes.wf()
    &&& circuit.wf()
    &&& circuit.max_node < nodes.names.len()
    &&& wired_within(devices, nodes.names.len())
}

impl PlacedView {
    spec fn named(self) -> bool {
        all_named(self.nodes, self.circuit, self.devices)
    }

    spec fn known(self) -> nat {
        self.nodes.names.len()
    }
}

/// Placing keeps to named nodes as long as their number can be counted.
spec fn keeps(s: PlacedView, t: PlacedView) -> bool {
    &&& s.known() <= t.known()
    &&& s.named() && t.known() <= usize::MAX ==> t.named()
}

proof fn node_keeps(s: PlacedView, name: Seq<char>)
    ensures
        keeps(s, s.node(name).1),
        s.named() && s.node(name).1.known() <= usize::MAX ==> s.node(name).0 < s.node(name).1.known(),
        s.node(name).1.circuit == s.circuit,
        s.node(name).1.devices == s.devices,
{
    let t = s.node(name).1;
    if s.named() && t.known() <= usize::MAX {
        assert forall|k: Seq<char>| #[trigger] t.nodes.index.contains_key(k) implies t.nodes.index[k]
            < t.nodes.names.len() by {
            if k != lower(name) {
                assert(s.nodes.index.contains_key(k));
            }
        }
    }
}

proof fn element_keeps(s: PlacedView, e: ElementView)
    ensures
        s.with_element(e).known() == s.known(),
        s.named() && e.a < s.known() && e.b < s.known() && (e.ctrl matches Some(c) ==> c.0 < s.known() && c.1
            < s.known()) && e.fits(usize::MAX) ==> s.with_element(e).named(),
{
    let t = s.with_element(e);
    if s.named() && e.a < s.known() && e.b < s.known() && (e.ctrl matches Some(c) ==> c.0 < s.known() && c.1
        < s.known()) && e.fits(usize::MAX) {
        let m = t.circuit.max_node;
        assert forall|i: int| 0 <= i < t.circuit.elements.len() implies (#[trigger] t.circuit.elements[i]).fits(
            m,
        ) by {
            if i < s.circuit.elements.len() {
                assert(s.circuit.elements[i].fits(s.circuit.max_node));
            }
        }
        assert forall|i: int| 0 <= i < t.circuit.behavioral.len() implies (
        #[trigger] t.circuit.behavioral[i]).fits(m) by {
            assert(s.circuit.behavioral[i].fits(s.circuit.max_node));
        }
    }
}

proof fn behavioral_keeps(s: PlacedView, nodes: NodesView, b: BehavioralView)
    requires
        s.named(),
        nodes.wf(),
        s.known() <= nodes.names.len(),
        b.a < nodes.names.len(),
        b.b < nodes.names.len(),
        b.expr.max_node() < nodes.names.len(),
    ensures
        (PlacedView { nodes, circuit: s.circuit.with_behavioral(b), ..s }).named(),
{
    let t = PlacedView { nodes, circuit: s.circuit.with_behavioral(b), ..s };
    let m = t.circuit.max_node;
    assert forall|i: int| 0 <= i < t.circuit.elements.len() implies (#[trigger] t.circuit.elements[i]).fits(
        m,
    ) by {
        assert(s.circuit.elements[i].fits(s.circuit.max_node));
    }
    assert forall|i: int| 0 <= i < t.circuit.behavioral.len() implies (#[trigger] t.circuit.behavioral[i]).fits(
        m,
    ) by {
        if i < s.circuit.behavioral.len() {
            assert(s.circuit.behavioral[i].fits(s.circuit.max_node));
        }
    }
}

proof fn device_keeps(s: PlacedView, d: PlacementView)
    requires
        forall|k: int| 0 <= k < d.terminals.len() ==> #[trigger] d.terminals[k] < s.known(),
    ensures
        s.named() ==> s.with_device(d).named(),
{
    let t = s.with_device(d);
    if s.named() {
        assert forall|i: int, k: int|
            0 <= i < t.devices.len() && 0 <= k < t.devices[i].terminals.len() implies #[trigger] t.devices[i].terminals[k]
            < t.known() by {
            if i < s.devices.len() {
                assert(t.devices[i] == s.devices[i]);
                assert(s.devices[i].terminals[k] < s.known());
            }
        }
    }
}

// ---------------------------------------------------------------------------
// Behavioral expressions.
// ---------------------------------------------------------------------------
proof fn resolved(nodes: NodesView, name: Seq<char>)
    ensures
        nodes.names.len() <= nodes.resolve(name).1.names.len(),
        nodes.wf() && nodes.resolve(name).1.names.len() <= usize::MAX ==> nodes.resolve(name).1.wf()
            && nodes.resolve(name).0 < nodes.resolve(name).1.names.len(),
{
    let t = nodes.resolve(name).1;
    if nodes.wf() && t.names.len() <= usize::MAX {
        assert forall|k: Seq<char>| #[trigger] t.index.contains_key(k) implies t.index[k] < t.names.len() by {
            if k != lower(name) {
                assert(nodes.index.contains_key(k));
            }
        }
    }
}

/// The nodes `m` that an expression leaves behind name all that it refers to.
spec fn refers_within(nodes: NodesView, v: BTerm, m: NodesView) -> bool {
    &&& nodes.names.len() <= m.names.len()
    &&& nodes.wf() && m.names.len() <= usize::MAX ==> m.wf() && v.max_node() < m.names.len()
}

impl BScope {
    proof fn expr_refers_within(self, nodes: NodesView, pos: int, min: int)
        ensures
            self.expr(nodes, pos, min) matches Ok((v, p, m)) ==> refers_within(nodes, v, m),
        decreases self.t.len() - pos, 2int,
    {
        self.atom_refers_within(nodes, pos);
        if let Ok((v, p, m)) = self.atom(nodes, pos) {
            if pos < p <= self.t.len() {
                self.climb_refers_within(m, v, p, min);
            }
        }
    }

    proof fn climb_refers_within(self, nodes: NodesView, lhs: BTerm, pos: int, min: int)
        ensures
            self.climb(nodes, lhs, pos, min) matches Ok((v, p, m)) ==> nodes.names.len() <= m.names.len() && (
            nodes.wf() && m.names.len() <= usize::MAX && lhs.max_node() < nodes.names.len() ==> m.wf()
                && v.max_node() < m.names.len()),
        decreases self.t.len() - pos, 1int,
    {
        if 0 <= pos < self.t.len() && b_binding(self.t[pos]) is Some && (b_binding(self.t[pos])->0).0 >= min {
            let op = self.t[pos];
            self.expr_refers_within(nodes, pos + 1, (b_binding(op)->0).1);
            if let Ok((rhs, p, m)) = self.expr(nodes, pos + 1, (b_binding(op)->0).1) {
                if pos < p <= self.t.len() {
                    self.climb_refers_within(
                        m,
                        BTerm::Bin(b_operator(op), Box::new(lhs), Box::new(rhs)),
                        p,
                        min,
                    );
                }
            }
        }
    }

    proof fn node_refers_within(self, nodes: NodesView, pos: int)
        ensures
            self.node_ref(nodes, pos) matches Ok((i, p, m)) ==> nodes.names.len() <= m.names.len() && (nodes.wf()
                && m.names.len() <= usize::MAX ==> m.wf() && i < m.names.len()),
    {
        if 0 <= pos < self.t.len() {
            match self.t[pos] {
                TokView::Ident(n) => {
                    resolved(nodes, n);
                },
                TokView::Num(x) => {
                    if let Some(w) = crate::numerics::whole(self.h, x) {
                        resolved(nodes, crate::text::signed_decimal(w as int));
                    }
                },
                _ => {},
            }
        }
    }

    proof fn voltage_refers_within(self, nodes: NodesView, pos: int)
        ensures
            self.voltage(nodes, pos) matches Ok((v, p, m)) ==> refers_within(nodes, v, m),
    {
        self.node_refers_within(nodes, pos);
        if let Ok((a, p, m)) = self.node_ref(nodes, pos) {
            self.node_refers_within(m, p + 1);
            assert(BTerm::NodeV(a).max_node() == a);
            if let Ok((b, q, n)) = self.node_ref(m, p + 1) {
                assert(BTerm::NodeV(b).max_node() == b);
            }
        }
    }

    proof fn atom_refers_within(self, nodes: NodesView, pos: int)
        ensures
            self.atom(nodes, pos) matches Ok((v, p, m)) ==> refers_within(nodes, v, m),
        decreases self.t.len() - pos, 0int,
    {
        if 0 <= pos < self.t.len() {
            match self.t[pos] {
                TokView::Op(c) => {
                    self.expr_refers_within(nodes, pos + 1, 7);
                },
                TokView::LParen => {
                    self.expr_refers_within(nodes, pos + 1, 0);
                },
                TokView::Ident(name) => {
                    if self.at(pos + 1, TokView::LParen) {
                        let key = lower(name);
                        if key == "v"@ {
                            self.voltage_refers_within(nodes, pos + 2);
                        } else if key == "i"@ {
                        } else if !self.at(pos + 2, TokView::RParen) {
                            self.args_refer_within(nodes, pos + 2, seq![]);
                        }
                    }
                },
                _ => {},
            }
        }
    }

    proof fn args_refer_within(self, nodes: NodesView, pos: int, acc: Seq<BTerm>)
        ensures
            self.args(nodes, pos, acc) matches Ok((a, p, m)) ==> nodes.names.len() <= m.names.len() && (nodes.wf()
                && m.names.len() <= usize::MAX && max_node_of(acc) < nodes.names.len() ==> m.wf() && max_node_of(a)
                < m.names.len()),
        decreases self.t.len() - pos, 3int,
    {
        self.expr_refers_within(nodes, pos, 0);
        if let Ok((v, p, m)) = self.expr(nodes, pos, 0) {
            assert(acc.push(v).drop_last() =~= acc);
            if self.at(p, TokView::Comma) && p > pos {
                self.args_refer_within(m, p + 1, acc.push(v));
            }
        }
    }
}

proof fn behavioral_refers_within(h: Answers, nodes: NodesView, s: Seq<char>)
    ensures
        behavioral_of(h, nodes, s) matches Ok((v, m)) ==> refers_within(nodes, v, m),
{
    if let Ok(t) = crate::netlist::expr::lexed(h, s) {
        (BScope { h, t }).expr_refers_within(nodes, 0, 0);
    }
}

// ---------------------------------------------------------------------------
// Placement.
// ---------------------------------------------------------------------------
impl VaJob {
    proof fn keeps_names(self, h: Answers, env: Map<Seq<char>, u64>, s: PlacedView)
        ensures
            self.placed(h, env, s) matches Ok(t) ==> s.known() == t.known() && (s.named() && (forall|k: int|
                0 <= k < self.terminals.len() ==> #[trigger] self.terminals[k] < s.known()) ==> t.named()),
    {
        if let Ok(t) = self.placed(h, env, s) {
            if forall|k: int| 0 <= k < self.terminals.len() ==> #[trigger] self.terminals[k] < s.known() {
                let b = self.bound(h, env, s);
                device_keeps(PlacedView { values: b.values, report: b.report, ..s }, t.devices.last());
            }
        }
    }
}

impl OsdiJob {
    proof fn keeps_names(
        self,
        h: Answers,
        env: Map<Seq<char>, u64>,
        setups: Seq<Option<String>>,
        s: PlacedView,
    )
        ensures
            self.placed(h, env, setups, s) matches Ok(t) ==> s.known() == t.known() && (s.named() && (forall|k: int|
                0 <= k < self.terminals.len() ==> #[trigger] self.terminals[k] < s.known()) ==> t.named()),
    {
        if let Ok(t) = self.placed(h, env, setups, s) {
            if forall|k: int| 0 <= k < self.terminals.len() ==> #[trigger] self.terminals[k] < s.known() {
                device_keeps(
                    PlacedView {
                        report: self.bound(h, env, s.report).report,
                        setups: (s.setups + 1) as usize,
                        ..s
                    },
                    t.devices.last(),
                );
            }
        }
    }
}

proof fn run_keeps(s: PlacedView, toks: Seq<Seq<char>>, i: int, end: int)
    ensures
        keeps(s, node_run(s, toks, i, end).1),
        s.named() && node_run(s, toks, i, end).1.known() <= usize::MAX ==> forall|k: int|
            0 <= k < node_run(s, toks, i, end).0.len() ==> #[trigger] node_run(s, toks, i, end).0[k] < node_run(
                s,
                toks,
                i,
                end,
            ).1.known(),
    decreases end - i,
{
    if !(i >= end || i < 0 || end > toks.len()) {
        node_keeps(s, toks[i]);
        let (n, s1) = s.node(toks[i]);
        run_keeps(s1, toks, i + 1, end);
        let (rest, s2) = node_run(s1, toks, i + 1, end);
        let all = node_run(s, toks, i, end).0;
        if s.named() && s2.known() <= usize::MAX {
            assert forall|k: int| 0 <= k < all.len() implies #[trigger] all[k] < s2.known() by {
                if k > 0 {
                    assert(all[k] == rest[k - 1]);
                }
            }
        }
    }
}

impl Ladder {
    proof fn keeps_names(self, h: Answers, s: PlacedView, k: int, prev: usize)
        ensures
            s.known() <= self.from(h, s, k, prev).known(),
            s.named() && prev < s.known() && self.out < s.known() && self.reference < s.known() && self.from(
                h,
                s,
                k,
                prev,
            ).known() <= usize::MAX ==> self.from(h, s, k, prev).named(),
        decreases self.sections - k,
    {
        if 0 <= k < self.sections {
            let (node, s1) = if k + 1 == self.sections {
                (self.out, s)
            } else {
                s.node(self.named(".x"@, k))
            };
            node_keeps(s, self.named(".x"@, k));
            let s2 = self.series(h, s1, k, prev, node);
            let s3 = self.shunt(h, s2, k, node);
            self.series_keeps(h, s1, k, prev, node);
            self.shunt_keeps(h, s2, k, node);
            self.keeps_names(h, s3, k + 1, node);
        }
    }

    proof fn series_keeps(self, h: Answers, s: PlacedView, k: int, prev: usize, node: usize)
        ensures
            s.known() <= self.series(h, s, k, prev, node).known(),
            s.named() && prev < s.known() && node < s.known() && self.series(h, s, k, prev, node).known()
                <= usize::MAX ==> self.series(h, s, k, prev, node).named(),
    {
        let rn = self.named(".R"@, k);
        let ln = self.named(".L"@, k);
        let (mid, s1) = s.node(self.named(".r"@, k));
        node_keeps(s, self.named(".r"@, k));
        let r0 = plain(Kind::Resistor, rn, prev, mid);
        let l0 = plain(Kind::Inductor, ln, mid, node);
        element_keeps(s1, r0);
        element_keeps(s1.with_element(r0).valued(rn, self.rs), l0);
        element_keeps(s, plain(Kind::Resistor, rn, prev, node));
        element_keeps(s, plain(Kind::Inductor, ln, prev, node));
    }

    proof fn shunt_keeps(self, h: Answers, s: PlacedView, k: int, node: usize)
        ensures
            self.shunt(h, s, k, node).known() == s.known(),
            s.named() && node < s.known() && self.reference < s.known() ==> self.shunt(h, s, k, node).named(),
    {
        let cn = self.named(".C"@, k);
        let gn = self.named(".G"@, k);
        let c = plain(Kind::Capacitor, cn, node, self.reference);
        let g = plain(Kind::Resistor, gn, node, self.reference);
        element_keeps(s, c);
        element_keeps(s.with_element(c).valued(cn, self.cs), g);
        element_keeps(s, g);
    }
}

impl Tables {
    proof fn passive_keeps(self, s: PlacedView, el: ElemView)
        ensures
            self.passive(s, el) matches Ok(t) ==> keeps(s, t),
    {
        let tok = el.tok;
        if tok.len() >= 3 {
            node_keeps(s, tok[1]);
            let (a, s1) = s.node(tok[1]);
            node_keeps(s1, tok[2]);
            let (b, s2) = s1.node(tok[2]);
            let text = "(V("@ + tok[1] + ","@ + tok[2] + "))/("@ + value_body(
                join(tok.skip(3), " "@),
            ) + ")"@;
            self.expression_keeps(s2, el.name, a, b, BKind::I, text);
            let kind = passive_kind(el.kind);
            let s3 = s2.with_element(plain(kind, el.name, a, b));
            element_keeps(s2, plain(kind, el.name, a, b));
            if let Ok(t) = self.passive(s, el) {
                if !(el.kind == 'R' && any_refers(tok, 3)) {
                    source_keeps(s3, t);
                }
            }
        }
    }

    proof fn expression_keeps(self, s: PlacedView, name: Seq<char>, a: usize, b: usize, kind: BKind, text: Seq<char>)
        ensures
            behavioral_of(self.h, s.nodes, text) matches Ok((expr, nodes)) ==> s.known() <= nodes.names.len() && (
            s.named() && a < s.known() && b < s.known() && nodes.names.len() <= usize::MAX ==> (PlacedView {
                nodes,
                circuit: s.circuit.with_behavioral(BehavioralView { name, a, b, kind, expr }),
                ..s
            }).named()),
    {
        behavioral_refers_within(self.h, s.nodes, text);
        if let Ok((expr, nodes)) = behavioral_of(self.h, s.nodes, text) {
            if s.named() && a < s.known() && b < s.known() && nodes.names.len() <= usize::MAX {
                behavioral_keeps(s, nodes, BehavioralView { name, a, b, kind, expr });
            }
        }
    }

    proof fn behavioral_line_keeps(self, s: PlacedView, el: ElemView)
        ensures
            self.behavioral(s, el) matches Ok(t) ==> keeps(s, t),
    {
        if el.tok.len() >= 4 {
            node_keeps(s, el.tok[1]);
            let (a, s1) = s.node(el.tok[1]);
            node_keeps(s1, el.tok[2]);
            let (b, s2) = s1.node(el.tok[2]);
            let rest = join(el.tok.skip(3), " "@);
            self.expression_keeps(s2, el.name, a, b, BKind::V, rest.skip(2));
            self.expression_keeps(s2, el.name, a, b, BKind::I, rest.skip(2));
        }
    }

    proof fn controlled_keeps(self, s: PlacedView, el: ElemView)
        ensures
            self.controlled_voltage(s, el) matches Ok(t) ==> keeps(s, t),
            self.controlled_current(s, el) matches Ok(t) ==> keeps(s, t),
    {
        if el.tok.len() >= 4 {
            node_keeps(s, el.tok[1]);
            let (a, s1) = s.node(el.tok[1]);
            node_keeps(s1, el.tok[2]);
            let (b, s2) = s1.node(el.tok[2]);
            element_keeps(s2, current_controlled(Kind::Cccs, el.name, a, b, el.tok[3]));
            element_keeps(s2, current_controlled(Kind::Ccvs, el.name, a, b, el.tok[3]));
            if el.tok.len() >= 5 {
                node_keeps(s2, el.tok[3]);
                let (p, s3) = s2.node(el.tok[3]);
                node_keeps(s3, el.tok[4]);
                let (q, s4) = s3.node(el.tok[4]);
                element_keeps(s4, voltage_controlled(Kind::Vcvs, el.name, a, b, p, q));
                element_keeps(s4, voltage_controlled(Kind::Vccs, el.name, a, b, p, q));
            }
        }
    }

    proof fn port_keeps(self, s: PlacedView, el: ElemView)
        ensures
            self.port(s, el) matches Ok(t) ==> keeps(s, t),
    {
        if el.tok.len() >= 3 {
            node_keeps(s, el.tok[1]);
            let (a, s1) = s.node(el.tok[1]);
            node_keeps(s1, el.tok[2]);
            let (b, s2) = s1.node(el.tok[2]);
            node_keeps(s2, el.name + ".t"@);
            let (t, s3) = s2.node(el.name + ".t"@);
            let rn = el.name + ".z0"@;
            let v = plain(Kind::VoltageSource, el.name, t, b);
            element_keeps(s3, v);
            element_keeps(s3.with_element(v).valued(el.name, ZERO), plain(Kind::Resistor, rn, t, a));
        }
    }

    proof fn coupling_keeps(self, s: PlacedView, el: ElemView)
        ensures
            self.coupling(s, el) matches Ok(t) ==> keeps(s, t),
    {
        if let Ok(t) = self.coupling(s, el) {
            source_keeps(s, t);
        }
    }

    proof fn four_keep(self, s: PlacedView, el: ElemView)
        ensures
            self.ideal_line(s, el) matches Ok(t) ==> keeps(s, t),
            self.vswitch(s, el) matches Ok(t) ==> keeps(s, t),
            self.lossy_line(s, el) matches Ok(t) ==> keeps(s, t),
    {
        if el.tok.len() >= 5 {
            node_keeps(s, el.tok[1]);
            let (a, s1) = s.node(el.tok[1]);
            node_keeps(s1, el.tok[2]);
            let (b, s2) = s1.node(el.tok[2]);
            node_keeps(s2, el.tok[3]);
            let (p, s3) = s2.node(el.tok[3]);
            node_keeps(s3, el.tok[4]);
            let (q, s4) = s3.node(el.tok[4]);
            let line = VaJob {
                name: el.name,
                modelname: el.base,
                names: self.world.stock.tline.names@,
                fault: self.world.stock.tline.fault,
                model: ModelRefView::Tline,
                terminals: seq![a, b, p, q],
                toks: el.tok.skip(5),
                card: None,
                polarity: None,
                scale: None,
                fingers: false,
                line: el.line,
                col: el.col,
            };
            line.keeps_names(self.h, self.env, s4);
            let m = first_plain(el.tok, 5);
            let switch = VaJob {
                modelname: or_text(m, el.base),
                names: self.world.stock.vswitch.names@,
                fault: self.world.stock.vswitch.fault,
                model: ModelRefView::Vswitch,
                card: self.select(m, None, None),
                ..line
            };
            switch.keeps_names(self.h, self.env, s4);
            self.ladder_keeps(s, el);
        }
    }

    proof fn ladder_keeps(self, s: PlacedView, el: ElemView)
        requires
            el.tok.len() >= 5,
        ensures
            self.lossy_line(s, el) matches Ok(t) ==> keeps(s, t),
    {
        node_keeps(s, el.tok[1]);
        let (inp, s1) = s.node(el.tok[1]);
        node_keeps(s1, el.tok[3]);
        let (out, s2) = s1.node(el.tok[3]);
        node_keeps(s2, el.tok[2]);
        let (reference, s3) = s2.node(el.tok[2]);
        node_keeps(s3, el.tok[4]);
        let (_, s4) = s3.node(el.tok[4]);
        let h = self.h;
        let sections = sections_of(
            h,
            keyed(h, self.env, el.tok, 5, "N"@),
        );
        let n = count(h, sections as i64);
        let (r, l, g, c) = self.line_totals(el);
        let ladder = Ladder {
            name: el.name,
            sections,
            out,
            reference,
            rs: apply2(h, Op2::Div, r, n),
            ls: apply2(h, Op2::Div, l, n),
            gs: apply2(h, Op2::Div, g, n),
            cs: apply2(h, Op2::Div, c, n),
        };
        ladder.keeps_names(h, s4, 0, inp);
    }

    proof fn two_keep(self, s: PlacedView, el: ElemView)
        ensures
            self.cswitch(s, el) matches Ok(t) ==> keeps(s, t),
            self.diode(s, el) matches Ok(t) ==> keeps(s, t),
    {
        if el.tok.len() >= 3 {
            node_keeps(s, el.tok[1]);
            let (a, s1) = s.node(el.tok[1]);
            node_keeps(s1, el.tok[2]);
            let (b, s2) = s1.node(el.tok[2]);
            let m = first_plain(el.tok, 3);
            (VaJob {
                name: el.name,
                modelname: or_text(m, el.base),
                names: self.world.stock.diode.names@,
                fault: self.world.stock.diode.fault,
                model: ModelRefView::Diode,
                terminals: seq![a, b],
                toks: el.tok.skip(3),
                card: self.select(m, None, None),
                polarity: None,
                scale: None,
                fingers: false,
                line: el.line,
                col: el.col,
            }).keeps_names(self.h, self.env, s2);
            if let Ok(t) = self.cswitch(s, el) {
                if s2.named() && a < s2.known() && b < s2.known() {
                    let d = t.devices.last();
                    device_keeps(PlacedView { values: t.values, report: t.report, ..s2 }, d);
                }
            }
        }
    }

    proof fn mosfet_keeps(self, s: PlacedView, el: ElemView)
        ensures
            self.mosfet(s, el) matches Ok(t) ==> keeps(s, t),
    {
        if el.tok.len() >= 5 {
            node_keeps(s, el.tok[1]);
            let (d, s1) = s.node(el.tok[1]);
            node_keeps(s1, el.tok[2]);
            let (g, s2) = s1.node(el.tok[2]);
            node_keeps(s2, el.tok[3]);
            let (src, s3) = s2.node(el.tok[3]);
            node_keeps(s3, el.tok[4]);
            let (body, s4) = s3.node(el.tok[4]);
            let m = first_plain(el.tok, 5);
            let scale = self.options.spec_scale();
            let l = times(
                self.h,
                keyed(self.h, self.env, el.tok, 5, "L"@),
                scale,
            );
            let w = times(
                self.h,
                keyed(self.h, self.env, el.tok, 5, "W"@),
                scale,
            );
            let card = self.select(m, l, w);
            let level = match card {
                Some(c) => or_value(
                    param_value(c.params, "level"@, 0),
                    ONE,
                ),
                None => ONE,
            };
            let job = VaJob {
                name: el.name,
                modelname: or_text(m, el.base),
                names: self.world.stock.mos.names@,
                fault: self.world.stock.mos.fault,
                model: ModelRefView::Mos,
                terminals: seq![d, g, src, body],
                toks: el.tok.skip(5),
                card,
                polarity: Some(sign_of(card, "pmos"@)),
                scale: Some(scale),
                fingers: true,
                line: el.line,
                col: el.col,
            };
            job.keeps_names(self.h, self.env, s4);
            let module = self.compact_module(card, level);
            if module is Some && self.va.contains_key(module->0) {
                let place = self.va[module->0];
                let em = module_at(self.world.va@, place);
                (VaJob {
                    names: em.names@,
                    fault: em.fault,
                    model: ModelRefView::Va(place.0, place.1),
                    fingers: false,
                    ..job
                }).keeps_names(self.h, self.env, s4);
            }
        }
    }

    proof fn bjt_keeps(self, s: PlacedView, el: ElemView)
        ensures
            self.bjt(s, el) matches Ok(t) ==> keeps(s, t),
    {
        if el.tok.len() >= 4 {
            node_keeps(s, el.tok[1]);
            let (c, s1) = s.node(el.tok[1]);
            node_keeps(s1, el.tok[2]);
            let (b, s2) = s1.node(el.tok[2]);
            node_keeps(s2, el.tok[3]);
            let (e, s3) = s2.node(el.tok[3]);
            let m = first_name(self.h, self.env, el.tok, 4);
            let card = self.select(m, None, None);
            (VaJob {
                name: el.name,
                modelname: or_text(m, el.base),
                names: self.world.stock.bjt.names@,
                fault: self.world.stock.bjt.fault,
                model: ModelRefView::Bjt,
                terminals: seq![c, b, e],
                toks: el.tok.skip(4),
                card,
                polarity: Some(sign_of(card, "pnp"@)),
                scale: None,
                fingers: false,
                line: el.line,
                col: el.col,
            }).keeps_names(self.h, self.env, s3);
        }
    }

    proof fn fet_keeps(
        self,
        s: PlacedView,
        el: ElemView,
        module: ModuleInfo,
        model: ModelRefView,
        p_type: Seq<char>,
    )
        ensures
            self.junction_fet(s, el, module, model, p_type) matches Ok(t) ==> keeps(s, t),
    {
        if el.tok.len() >= 4 {
            node_keeps(s, el.tok[1]);
            let (d, s1) = s.node(el.tok[1]);
            node_keeps(s1, el.tok[2]);
            let (g, s2) = s1.node(el.tok[2]);
            node_keeps(s2, el.tok[3]);
            let (src, s3) = s2.node(el.tok[3]);
            let m = first_plain(el.tok, 4);
            let card = self.select(m, None, None);
            (VaJob {
                name: el.name,
                modelname: or_text(m, el.base),
                names: module.names@,
                fault: module.fault,
                model,
                terminals: seq![d, g, src],
                toks: el.tok.skip(4),
                card,
                polarity: Some(sign_of(card, p_type)),
                scale: None,
                fingers: false,
                line: el.line,
                col: el.col,
            }).keeps_names(self.h, self.env, s3);
        }
    }

    proof fn instance_keeps(self, s: PlacedView, el: ElemView)
        ensures
            self.module_instance(s, el) matches Ok(t) ==> keeps(s, t),
    {
        let end = first_assignment(el.tok, 1);
        if end >= 3 {
            let modelname = el.tok[end - 1];
            let key = lower(modelname);
            let card = self.select(Some(key), None, None);
            run_keeps(s, el.tok, 1, end - 1);
            let (terminals, s1) = node_run(s, el.tok, 1, end - 1);
            match self.compiled(s, key, card) {
                Some(place) => {
                    (OsdiJob {
                        name: el.name,
                        module: osdi_at(self.world.osdi@, place),
                        place,
                        terminals,
                        toks: el.tok.skip(end - 1),
                        card,
                        temp_c: self.options.spec_temp_c(),
                        line: el.line,
                        col: el.col,
                    }).keeps_names(self.h, self.env, self.world.setups@, s1);
                },
                None => {
                    let p = if self.va.contains_key(key) {
                        self.va[key]
                    } else {
                        self.va[lower(card->0.mtype)]
                    };
                    let em = module_at(self.world.va@, p);
                    (VaJob {
                        name: el.name,
                        modelname,
                        names: em.names@,
                        fault: em.fault,
                        model: ModelRefView::Va(p.0, p.1),
                        terminals,
                        toks: el.tok.skip(end - 1),
                        card,
                        polarity: None,
                        scale: None,
                        fingers: false,
                        line: el.line,
                        col: el.col,
                    }).keeps_names(self.h, self.env, s1);
                },
            }
        }
    }

    proof fn placed_keeps(self, s: PlacedView, el: ElemView)
        ensures
            self.element(s, el) matches Ok(t) ==> keeps(s, t),
    {
        let k = el.kind;
        if k == 'R' || k == 'C' || k == 'L' || k == 'V' || k == 'I' {
            self.passive_keeps(s, el);
        } else if k == 'E' || k == 'G' || k == 'F' || k == 'H' {
            self.controlled_keeps(s, el);
        } else if k == 'T' || k == 'S' || k == 'O' || k == 'U' {
            self.four_keep(s, el);
        } else if k == 'W' || k == 'D' {
            self.two_keep(s, el);
        } else if k == 'P' {
            self.port_keeps(s, el);
        } else if k == 'K' {
            self.coupling_keeps(s, el);
        } else if k == 'M' {
            self.mosfet_keeps(s, el);
        } else if k == 'Q' {
            self.bjt_keeps(s, el);
        } else if k == 'J' {
            self.fet_keeps(s, el, self.world.stock.jfet, ModelRefView::Jfet, "pjf"@);
        } else if k == 'Z' {
            self.fet_keeps(s, el, self.world.stock.mesfet, ModelRefView::Mesfet, "pmf"@);
        } else if k == 'B' {
            self.behavioral_line_keeps(s, el);
        } else if k == 'N' {
            self.instance_keeps(s, el);
        }
    }

    proof fn directive_keeps(self, s: PlacedView, l: LineView)
        ensures
            self.directive(s, l) matches Ok(t) ==> keeps(s, t),
    {
        if let Ok(t) = self.directive(s, l) {
            source_keeps(s, t);
        }
    }

    proof fn line_keeps(self, s: PlacedView, l: LineView)
        ensures
            self.line(s, l) matches Ok(t) ==> keeps(s, t),
    {
        let name = l.tokens[0];
        let base = past_path(name);
        if name.len() > 0 && name[0] == '.' {
            self.directive_keeps(s, l);
        } else if base.len() > 0 {
            self.placed_keeps(
                s,
                ElemView { name, base, kind: upper_char(base[0]), tok: l.tokens, line: l.no, col: l.col },
            );
        }
    }

    proof fn lines_keep(self, lines: Seq<LineView>, i: int, s: PlacedView)
        ensures
            self.run(lines, i, s) matches Ok(t) ==> keeps(s, t),
        decreases lines.len() - i,
    {
        if !(i < 0 || i >= lines.len() || lower(lines[i].tokens[0]) == ".end"@) {
            self.line_keeps(s, lines[i]);
            if let Ok(t) = self.line(s, lines[i]) {
                self.lines_keep(lines, i + 1, t);
            }
        }
    }
}

/// What changes neither nodes nor connections keeps the names.
proof fn source_keeps(s: PlacedView, t: PlacedView)
    requires
        t.nodes == s.nodes,
        t.devices == s.devices,
        t.circuit.max_node == s.circuit.max_node,
        t.circuit.behavioral == s.circuit.behavioral,
        t.circuit.elements.len() == s.circuit.elements.len(),
        forall|i: int|
            0 <= i < s.circuit.elements.len() ==> (ElementView {
                source: None,
                ..#[trigger] t.circuit.elements[i]
            }) == (ElementView { source: None, ..s.circuit.elements[i] }),
    ensures
        keeps(s, t),
{
    if s.named() {
        assert forall|i: int| 0 <= i < t.circuit.elements.len() implies (#[trigger] t.circuit.elements[i]).fits(
            t.circuit.max_node,
        ) by {
            let a = ElementView { source: None, ..t.circuit.elements[i] };
            let b = ElementView { source: None, ..s.circuit.elements[i] };
            assert(a == b);
            assert(s.circuit.elements[i].fits(s.circuit.max_node));
        }
    }
}

/// Every node that an element or a device of a parsed deck refers to has a name,
/// as long as the nodes can be counted; and ground is the first of them.
pub proof fn every_node_is_named(h: Answers, world: World, text: Seq<char>)
    requires
        parsed_deck(h, world, text) matches Ok(v) ==> v.nodes.names.len() <= usize::MAX,
    ensures
        parsed_deck(h, world, text) matches Ok(v) ==> all_named(v.nodes, v.circuit, v.devices),
{
    if let Ok((whole, _)) = spliced(world.files@, text, 0, seq![], 0) {
        if let Ok((bare, va)) = extracted(world.va@, whole) {
            let lines = logical_lines(bare);
            let options = options_of(h, lines, lines.len() as int);
            let env = params_of(h, lines, options.spec_temp_c());
            if let Ok(flat) = flattened(h, lines, env) {
                let tables = Tables {
                    h,
                    env,
                    models: library(h, env, flat, flat.len() as int),
                    aliases: aliases_of(h, lines, lines.len() as int),
                    options,
                    va,
                    world,
                };
                let start = PlacedView::empty();
                tables.lines_keep(flat, 0, start);
                assert(start.named());
            }
        }
    }
}

/// The temperature of a parsed deck always has a value.
pub proof fn temperature_is_bound(h: Answers, world: World, text: Seq<char>)
    ensures
        parsed_deck(h, world, text) matches Ok(v) ==> v.values.contains_key(temp_symbol()),
{
}

} // verus!

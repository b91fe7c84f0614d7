//! The circuit: elements over integer nodes, mutual couplings and behavioral
//! sources. Node `0` is ground throughout.
use crate::source_fn::SourceFn;
use crate::text::{chars_of, concat2, decimal, decimal_is_digits, digit, has_prefix, is_digit, starts_with};
use vstd::prelude::*;

verus! {

/// Element kind. The element name doubles as its parameter symbol.
#[derive(Clone, Copy, Debug, PartialEq, Eq, Structural)]
pub enum Kind {
    Resistor,
    Capacitor,
    Inductor,
    VoltageSource,
    CurrentSource,
    /// Voltage-controlled voltage source (`E`): `V(a,b) = gain * V(nc+, nc-)`.
    Vcvs,
    /// Voltage-controlled current source (`G`): `I(a->b) = gm * V(nc+, nc-)`.
    Vccs,
    /// Current-controlled current source (`F`): `I(a->b) = gain * I(Vctrl)`.
    Cccs,
    /// Current-controlled voltage source (`H`): `V(a,b) = gain * I(Vctrl)`.
    Ccvs,
}

/// An element between output nodes `a` (+) and `b` (-). Voltage-controlled
/// sources carry their controlling node pair in `ctrl`; current-controlled
/// sources carry the name of the controlling (voltage-defined) element in
/// `ctrl_elem`. Independent sources may carry a time-domain `source` shape.
#[derive(Clone, Debug)]
pub struct Element {
    pub kind: Kind,
    pub name: String,
    pub a: usize,
    pub b: usize,
    pub ctrl: Option<(usize, usize)>,
    pub ctrl_elem: Option<String>,
    pub source: Option<SourceFn>,
}

/// An element as a mathematical value.
pub struct ElementView {
    pub kind: Kind,
    pub name: Seq<char>,
    pub a: usize,
    pub b: usize,
    pub ctrl: Option<(usize, usize)>,
    pub ctrl_elem: Option<Seq<char>>,
    pub source: Option<SourceFn>,
}

/// The text of an optional string.
pub open spec fn text_opt(s: Option<String>) -> Option<Seq<char>> {
    match s {
        Some(t) => Some(t@),
        None => None,
    }
}

impl View for Element {
    type V = ElementView;

    open spec fn view(&self) -> ElementView {
        ElementView {
            kind: self.kind,
            name: self.name@,
            a: self.a,
            b: self.b,
            ctrl: self.ctrl,
            ctrl_elem: text_opt(self.ctrl_elem),
            source: self.source,
        }
    }
}

/// A mutual-inductance coupling (`K`) between two inductors, with coupling
/// coefficient named after the `K` element. Not a node element.
#[derive(Clone, Debug)]
pub struct Coupling {
    pub name: String,
    pub l1: String,
    pub l2: String,
}

pub struct CouplingView {
    pub name: Seq<char>,
    pub l1: Seq<char>,
    pub l2: Seq<char>,
}

impl View for Coupling {
    type V = CouplingView;

    open spec fn view(&self) -> CouplingView {
        CouplingView { name: self.name@, l1: self.l1@, l2: self.l2@ }
    }
}

/// A behavioral (`B`) source expression tree over node voltages, branch currents
/// and parameters. `NodeV(0)` is ground (zero). A constant is held by the bits
/// of its machine representation.
#[derive(Debug)]
pub enum BExpr {
    Const(u64),
    /// Node voltage `V(node)`.
    NodeV(usize),
    /// Branch current `I(element)` of a voltage-defined element.
    BranchI(String),
    /// A named parameter (stays symbolic).
    Param(String),
    Neg(Box<BExpr>),
    /// Binary operator, one of `+ - * / ^` or a comparison.
    Bin(char, Box<BExpr>, Box<BExpr>),
    /// Function call (`sin`, `exp`, `sqrt`, `tanh`, `pow`, ...).
    Call(String, Vec<BExpr>),
}

/// A behavioral expression as a mathematical value.
pub enum BTerm {
    Const(u64),
    NodeV(usize),
    BranchI(Seq<char>),
    Param(Seq<char>),
    Neg(Box<BTerm>),
    Bin(char, Box<BTerm>, Box<BTerm>),
    Call(Seq<char>, Seq<BTerm>),
}

impl BExpr {
    pub open spec fn term(self) -> BTerm
        decreases self,
    {
        match self {
            BExpr::Const(c) => BTerm::Const(c),
            BExpr::NodeV(n) => BTerm::NodeV(n),
            BExpr::BranchI(s) => BTerm::BranchI(s@),
            BExpr::Param(s) => BTerm::Param(s@),
            BExpr::Neg(a) => BTerm::Neg(Box::new(a.term())),
            BExpr::Bin(op, a, b) => BTerm::Bin(op, Box::new(a.term()), Box::new(b.term())),
            BExpr::Call(f, args) => BTerm::Call(f@, bterms(args@)),
        }
    }
}

pub open spec fn bterms(args: Seq<BExpr>) -> Seq<BTerm>
    decreases args,
{
    if args.len() == 0 {
        seq![]
    } else {
        bterms(args.drop_last()).push(args.last().term())
    }
}

pub open spec fn larger(a: usize, b: usize) -> usize {
    if a >= b {
        a
    } else {
        b
    }
}

impl BTerm {
    /// Largest node index that the expression refers to.
    pub open spec fn max_node(self) -> usize
        decreases self,
    {
        match self {
            BTerm::NodeV(n) => n,
            BTerm::Neg(a) => a.max_node(),
            BTerm::Bin(_, a, b) => larger(a.max_node(), b.max_node()),
            BTerm::Call(_, args) => max_node_of(args),
            _ => 0,
        }
    }
}

pub open spec fn max_node_of(args: Seq<BTerm>) -> usize
    decreases args,
{
    if args.len() == 0 {
        0
    } else {
        larger(max_node_of(args.drop_last()), args.last().max_node())
    }
}

pub fn larger_of(a: usize, b: usize) -> (r: usize)
    ensures
        r == larger(a, b),
{
    if a >= b {
        a
    } else {
        b
    }
}

impl BExpr {
    /// Largest node index referenced (so the circuit can size its node set).
    fn max_node(&self) -> (r: usize)
        ensures
            r == self.term().max_node(),
        decreases *self,
    {
        match self {
            BExpr::NodeV(n) => *n,
            BExpr::Neg(a) => a.max_node(),
            BExpr::Bin(_, a, b) => {
                let x: usize = a.max_node();
                let y: usize = b.max_node();
                larger_of(x, y)
            },
            BExpr::Call(_, args) => {
                let mut m: usize = 0;
                for i in 0..args.len()
                    invariant
                        *self matches BExpr::Call(f, v) && v == *args,
                        m == max_node_of(bterms(args@.take(i as int))),
                {
                    let x: usize = args[i].max_node();
                    proof {
                        let t = args@.take(i + 1);
                        assert(t.drop_last() =~= args@.take(i as int));
                        assert(bterms(t).drop_last() =~= bterms(t.drop_last()));
                        assert(bterms(t).last() == args@[i as int].term());
                    }
                    m = larger_of(m, x);
                }
                assert(args@.take(args@.len() as int) =~= args@);
                m
            },
            _ => 0,
        }
    }
}

/// Behavioral source kind: a voltage `V=expr` (constraint `V(a,b)=expr`) or a
/// current `I=expr` (current `a -> b`).
#[derive(Clone, Copy, Debug, PartialEq, Eq, Structural)]
pub enum BKind {
    V,
    I,
}

/// A behavioral source (`B`): an arbitrary expression driving a voltage or a
/// current between nodes `a` (+) and `b` (-).
#[derive(Debug)]
pub struct BehavioralSource {
    pub name: String,
    pub a: usize,
    pub b: usize,
    pub kind: BKind,
    pub expr: BExpr,
}

pub struct BehavioralView {
    pub name: Seq<char>,
    pub a: usize,
    pub b: usize,
    pub kind: BKind,
    pub expr: BTerm,
}

impl View for BehavioralSource {
    type V = BehavioralView;

    open spec fn view(&self) -> BehavioralView {
        BehavioralView {
            name: self.name@,
            a: self.a,
            b: self.b,
            kind: self.kind,
            expr: self.expr.term(),
        }
    }
}

/// A circuit: a set of elements over integer nodes (0 = ground), plus mutual
/// couplings between inductors and behavioral sources.
#[derive(Debug)]
pub struct Circuit {
    elements: Vec<Element>,
    couplings: Vec<Coupling>,
    behavioral: Vec<BehavioralSource>,
    max_node: usize,
}

/// A circuit as a mathematical value.
pub struct CircuitView {
    pub elements: Seq<ElementView>,
    pub couplings: Seq<CouplingView>,
    pub behavioral: Seq<BehavioralView>,
    pub max_node: usize,
}

pub open spec fn element_views(v: Seq<Element>) -> Seq<ElementView> {
    v.map_values(|e: Element| e@)
}

pub open spec fn coupling_views(v: Seq<Coupling>) -> Seq<CouplingView> {
    v.map_values(|e: Coupling| e@)
}

pub open spec fn behavioral_views(v: Seq<BehavioralSource>) -> Seq<BehavioralView> {
    v.map_values(|e: BehavioralSource| e@)
}

impl ElementView {
    /// No node of the element lies beyond `n`, and a controlled source names
    /// its controller.
    pub open spec fn fits(self, n: usize) -> bool {
        &&& self.a <= n
        &&& self.b <= n
        &&& self.ctrl matches Some(c) ==> c.0 <= n && c.1 <= n
        &&& (self.kind == Kind::Vcvs || self.kind == Kind::Vccs) ==> self.ctrl is Some
        &&& (self.kind == Kind::Cccs || self.kind == Kind::Ccvs) ==> self.ctrl_elem is Some
    }
}

impl BehavioralView {
    pub open spec fn fits(self, n: usize) -> bool {
        self.a <= n && self.b <= n && self.expr.max_node() <= n
    }
}

impl CircuitView {
    /// Every node that occurs is counted.
    pub open spec fn wf(self) -> bool {
        &&& forall|i: int| 0 <= i < self.elements.len() ==> (#[trigger] self.elements[i]).fits(self.max_node)
        &&& forall|i: int|
            0 <= i < self.behavioral.len() ==> (#[trigger] self.behavioral[i]).fits(self.max_node)
    }

    pub open spec fn empty() -> CircuitView {
        CircuitView { elements: seq![], couplings: seq![], behavioral: seq![], max_node: 0 }
    }

    /// The circuit with one more element.
    pub open spec fn with(self, e: ElementView) -> CircuitView {
        let m = larger(larger(self.max_node, e.a), e.b);
        CircuitView {
            elements: self.elements.push(e),
            max_node: match e.ctrl {
                Some(c) => larger(larger(m, c.0), c.1),
                None => m,
            },
            ..self
        }
    }

    /// The circuit with a stimulus shape on its last element.
    pub open spec fn with_source(self, src: SourceFn) -> CircuitView {
        if self.elements.len() == 0 {
            self
        } else {
            CircuitView {
                elements: self.elements.drop_last().push(
                    ElementView { source: Some(src), ..self.elements.last() },
                ),
                ..self
            }
        }
    }

    pub open spec fn with_coupling(self, c: CouplingView) -> CircuitView {
        CircuitView { couplings: self.couplings.push(c), ..self }
    }

    pub open spec fn with_behavioral(self, b: BehavioralView) -> CircuitView {
        CircuitView {
            behavioral: self.behavioral.push(b),
            max_node: larger(larger(larger(self.max_node, b.a), b.b), b.expr.max_node()),
            ..self
        }
    }
}

/// An element with neither controller nor stimulus.
pub open spec fn plain(kind: Kind, name: Seq<char>, a: usize, b: usize) -> ElementView {
    ElementView { kind, name, a, b, ctrl: None, ctrl_elem: None, source: None }
}

/// An element controlled by a node pair.
pub open spec fn voltage_controlled(
    kind: Kind,
    name: Seq<char>,
    a: usize,
    b: usize,
    p: usize,
    q: usize,
) -> ElementView {
    ElementView { ctrl: Some((p, q)), ..plain(kind, name, a, b) }
}

/// An element controlled by another element's current.
pub open spec fn current_controlled(
    kind: Kind,
    name: Seq<char>,
    a: usize,
    b: usize,
    ctrl: Seq<char>,
) -> ElementView {
    ElementView { ctrl_elem: Some(ctrl), ..plain(kind, name, a, b) }
}

impl View for Circuit {
    type V = CircuitView;

    closed spec fn view(&self) -> CircuitView {
        CircuitView {
            elements: element_views(self.elements@),
            couplings: coupling_views(self.couplings@),
            behavioral: behavioral_views(self.behavioral@),
            max_node: self.max_node,
        }
    }
}

impl Circuit {
    #[verifier::type_invariant]
    pub open spec fn wf(&self) -> bool {
        self@.wf()
    }

    pub fn new() -> (r: Circuit)
        ensures
            r@ == CircuitView::empty(),
    {
        let elements: Vec<Element> = Vec::new();
        let couplings: Vec<Coupling> = Vec::new();
        let behavioral: Vec<BehavioralSource> = Vec::new();
        assert(element_views(elements@) =~= seq![]);
        assert(coupling_views(couplings@) =~= seq![]);
        assert(behavioral_views(behavioral@) =~= seq![]);
        Circuit { elements, couplings, behavioral, max_node: 0 }
    }

    fn place(&mut self, e: Element)
        requires
            (e.kind == Kind::Vcvs || e.kind == Kind::Vccs) ==> e.ctrl is Some,
            (e.kind == Kind::Cccs || e.kind == Kind::Ccvs) ==> e.ctrl_elem is Some,
        ensures
            final(self)@ == old(self)@.with(e@),
    {
        proof {
            use_type_invariant(&*self);
        }
        let ghost before = self@;
        let ghost ev = e@;
        let mut m: usize = larger_of(larger_of(self.max_node, e.a), e.b);
        if let Some((p, q)) = e.ctrl {
            m = larger_of(larger_of(m, p), q);
        }
        let mut elements: Vec<Element> = Vec::new();
        assert(element_views(elements@) =~= seq![]);
        assert((CircuitView { elements: seq![], ..before }).wf());
        std::mem::swap(&mut elements, &mut self.elements);
        elements.push(e);
        proof {
            assert(element_views(elements@) =~= before.elements.push(ev));
            let after = before.with(ev);
            assert forall|i: int| 0 <= i < after.elements.len() implies (
            #[trigger] after.elements[i]).fits(m) by {
                if i < before.elements.len() {
                    assert(before.elements[i].fits(before.max_node));
                }
            }
            assert forall|i: int| 0 <= i < after.behavioral.len() implies (
            #[trigger] after.behavioral[i]).fits(m) by {
                assert(before.behavioral[i].fits(before.max_node));
            }
        }
        self.max_node = m;
        self.elements = elements;
    }

    fn push(&mut self, kind: Kind, name: &str, a: usize, b: usize)
        requires
            kind != Kind::Vcvs && kind != Kind::Vccs && kind != Kind::Cccs && kind != Kind::Ccvs,
        ensures
            final(self)@ == old(self)@.with(plain(kind, name@, a, b)),
    {
        self.place(
            Element {
                kind,
                name: name.to_owned(),
                a,
                b,
                ctrl: None,
                ctrl_elem: None,
                source: None,
            },
        );
    }

    /// Push a voltage-controlled source (`E`/`G`).
    fn push_vc(&mut self, kind: Kind, name: &str, a: usize, b: usize, p: usize, q: usize)
        requires
            kind == Kind::Vcvs || kind == Kind::Vccs,
        ensures
            final(self)@ == old(self)@.with(voltage_controlled(kind, name@, a, b, p, q)),
    {
        self.place(
            Element {
                kind,
                name: name.to_owned(),
                a,
                b,
                ctrl: Some((p, q)),
                ctrl_elem: None,
                source: None,
            },
        );
    }

    /// Push a current-controlled source (`F`/`H`) controlled by element `ctrl`.
    fn push_cc(&mut self, kind: Kind, name: &str, a: usize, b: usize, ctrl: &str)
        requires
            kind == Kind::Cccs || kind == Kind::Ccvs,
        ensures
            final(self)@ == old(self)@.with(current_controlled(kind, name@, a, b, ctrl@)),
    {
        self.place(
            Element {
                kind,
                name: name.to_owned(),
                a,
                b,
                ctrl: None,
                ctrl_elem: Some(ctrl.to_owned()),
                source: None,
            },
        );
    }

    /// Attach a time-domain source shape to the most recently added element.
    pub fn set_source(&mut self, src: SourceFn) -> (r: &mut Circuit)
        ensures
            r@ == old(self)@.with_source(src),
            *final(self) == *final(r),
    {
        proof {
            use_type_invariant(&*self);
        }
        let ghost before = self@;
        let mut elements: Vec<Element> = Vec::new();
        assert(element_views(elements@) =~= seq![]);
        assert((CircuitView { elements: seq![], ..before }).wf());
        std::mem::swap(&mut elements, &mut self.elements);
        if let Some(mut e) = elements.pop() {
            let ghost last = e@;
            e.source = Some(src);
            elements.push(e);
            proof {
                assert(element_views(elements@) =~= before.elements.drop_last().push(
                    ElementView { source: Some(src), ..last },
                ));
                let after = before.with_source(src);
                assert forall|i: int| 0 <= i < after.elements.len() implies (
                #[trigger] after.elements[i]).fits(before.max_node) by {
                    assert(before.elements[i].fits(before.max_node));
                }
            }
        } else {
            assert(element_views(elements@) =~= before.elements);
        }
        self.elements = elements;
        self
    }

    pub fn resistor(&mut self, name: &str, a: usize, b: usize) -> (r: &mut Circuit)
        ensures
            r@ == old(self)@.with(plain(Kind::Resistor, name@, a, b)),
            *final(self) == *final(r),
    {
        self.push(Kind::Resistor, name, a, b);
        self
    }

    pub fn capacitor(&mut self, name: &str, a: usize, b: usize) -> (r: &mut Circuit)
        ensures
            r@ == old(self)@.with(plain(Kind::Capacitor, name@, a, b)),
            *final(self) == *final(r),
    {
        self.push(Kind::Capacitor, name, a, b);
        self
    }

    pub fn inductor(&mut self, name: &str, a: usize, b: usize) -> (r: &mut Circuit)
        ensures
            r@ == old(self)@.with(plain(Kind::Inductor, name@, a, b)),
            *final(self) == *final(r),
    {
        self.push(Kind::Inductor, name, a, b);
        self
    }

    pub fn voltage_source(&mut self, name: &str, a: usize, b: usize) -> (r: &mut Circuit)
        ensures
            r@ == old(self)@.with(plain(Kind::VoltageSource, name@, a, b)),
            *final(self) == *final(r),
    {
        self.push(Kind::VoltageSource, name, a, b);
        self
    }

    pub fn current_source(&mut self, name: &str, a: usize, b: usize) -> (r: &mut Circuit)
        ensures
            r@ == old(self)@.with(plain(Kind::CurrentSource, name@, a, b)),
            *final(self) == *final(r),
    {
        self.push(Kind::CurrentSource, name, a, b);
        self
    }

    /// VCVS `E`: output `(np, nm)`, controlled by `V(ncp, ncm)`.
    pub fn vcvs(&mut self, name: &str, np: usize, nm: usize, ncp: usize, ncm: usize) -> (r:
        &mut Circuit)
        ensures
            r@ == old(self)@.with(voltage_controlled(Kind::Vcvs, name@, np, nm, ncp, ncm)),
            *final(self) == *final(r),
    {
        self.push_vc(Kind::Vcvs, name, np, nm, ncp, ncm);
        self
    }

    /// VCCS `G`: output `(np, nm)`, controlled by `V(ncp, ncm)`.
    pub fn vccs(&mut self, name: &str, np: usize, nm: usize, ncp: usize, ncm: usize) -> (r:
        &mut Circuit)
        ensures
            r@ == old(self)@.with(voltage_controlled(Kind::Vccs, name@, np, nm, ncp, ncm)),
            *final(self) == *final(r),
    {
        self.push_vc(Kind::Vccs, name, np, nm, ncp, ncm);
        self
    }

    /// CCCS `F`: output `(np, nm)`, current = gain * I through element `ctrl`.
    pub fn cccs(&mut self, name: &str, np: usize, nm: usize, ctrl: &str) -> (r: &mut Circuit)
        ensures
            r@ == old(self)@.with(current_controlled(Kind::Cccs, name@, np, nm, ctrl@)),
            *final(self) == *final(r),
    {
        self.push_cc(Kind::Cccs, name, np, nm, ctrl);
        self
    }

    /// CCVS `H`: output `(np, nm)`, voltage = gain * I through element `ctrl`.
    pub fn ccvs(&mut self, name: &str, np: usize, nm: usize, ctrl: &str) -> (r: &mut Circuit)
        ensures
            r@ == old(self)@.with(current_controlled(Kind::Ccvs, name@, np, nm, ctrl@)),
            *final(self) == *final(r),
    {
        self.push_cc(Kind::Ccvs, name, np, nm, ctrl);
        self
    }

    /// Mutual inductance `K` between inductors `l1` and `l2`.
    pub fn mutual(&mut self, name: &str, l1: &str, l2: &str) -> (r: &mut Circuit)
        ensures
            r@ == old(self)@.with_coupling(CouplingView { name: name@, l1: l1@, l2: l2@ }),
            *final(self) == *final(r),
    {
        proof {
            use_type_invariant(&*self);
        }
        let ghost before = self@;
        let mut couplings: Vec<Coupling> = Vec::new();
        assert(coupling_views(couplings@) =~= seq![]);
        assert((CircuitView { couplings: seq![], ..before }).wf());
        std::mem::swap(&mut couplings, &mut self.couplings);
        let c = Coupling { name: name.to_owned(), l1: l1.to_owned(), l2: l2.to_owned() };
        let ghost cv = c@;
        couplings.push(c);
        assert(coupling_views(couplings@) =~= before.couplings.push(cv));
        assert((CircuitView { couplings: before.couplings.push(cv), ..before }).wf());
        self.couplings = couplings;
        self
    }

    /// Mutual-inductance couplings.
    pub fn couplings(&self) -> (r: &[Coupling])
        ensures
            coupling_views(r@) == self@.couplings,
    {
        self.couplings.as_slice()
    }

    /// Add a behavioral (`B`) source between nodes `a` (+) and `b` (-).
    pub fn behavioral_source(&mut self, name: &str, a: usize, b: usize, kind: BKind, expr: BExpr)
        ensures
            final(self)@ == old(self)@.with_behavioral(
                BehavioralView { name: name@, a, b, kind, expr: expr.term() },
            ),
    {
        proof {
            use_type_invariant(&*self);
        }
        let ghost before = self@;
        let x: usize = expr.max_node();
        let m: usize = larger_of(larger_of(larger_of(self.max_node, a), b), x);
        let mut behavioral: Vec<BehavioralSource> = Vec::new();
        assert(behavioral_views(behavioral@) =~= seq![]);
        assert((CircuitView { behavioral: seq![], ..before }).wf());
        std::mem::swap(&mut behavioral, &mut self.behavioral);
        let s = BehavioralSource { name: name.to_owned(), a, b, kind, expr };
        let ghost sv = s@;
        behavioral.push(s);
        proof {
            assert(behavioral_views(behavioral@) =~= before.behavioral.push(sv));
            let after = before.with_behavioral(sv);
            assert forall|i: int| 0 <= i < after.elements.len() implies (
            #[trigger] after.elements[i]).fits(m) by {
                assert(before.elements[i].fits(before.max_node));
            }
            assert forall|i: int| 0 <= i < after.behavioral.len() implies (
            #[trigger] after.behavioral[i]).fits(m) by {
                if i < before.behavioral.len() {
                    assert(before.behavioral[i].fits(before.max_node));
                }
            }
        }
        self.max_node = m;
        self.behavioral = behavioral;
    }

    /// The behavioral (`B`) sources, in insertion order.
    pub fn behavioral(&self) -> (r: &[BehavioralSource])
        ensures
            behavioral_views(r@) == self@.behavioral,
    {
        self.behavioral.as_slice()
    }

    /// Number of non-ground nodes.
    pub fn node_count(&self) -> (r: usize)
        ensures
            r == self@.max_node,
    {
        self.max_node
    }

    /// Resistors as `(name, node_a, node_b)`, for noise analysis (each resistor
    /// is a thermal-noise current source between its nodes).
    pub fn resistors(&self) -> (r: Vec<(String, usize, usize)>)
        ensures
            resistor_views(r@) == resistors_of(self@.elements),
    {
        let mut out: Vec<(String, usize, usize)> = Vec::new();
        assert(resistor_views(out@) =~= seq![]);
        assert(self@.elements.take(0) =~= seq![]);
        for i in 0..self.elements.len()
            invariant
                self@.elements == element_views(self.elements@),
                resistor_views(out@) == resistors_of(self@.elements.take(i as int)),
        {
            let e = &self.elements[i];
            proof {
                let t = self@.elements.take(i + 1);
                assert(t.drop_last() =~= self@.elements.take(i as int));
                assert(t.last() == e@);
            }
            if e.kind == Kind::Resistor {
                let ghost before = out@;
                let item = (e.name.clone(), e.a, e.b);
                out.push(item);
                assert(resistor_views(out@) =~= resistor_views(before).push((e.name@, e.a, e.b)));
            }
        }
        assert(self@.elements.take(self@.elements.len() as int) =~= self@.elements);
        out
    }

    /// The elements of the circuit, in insertion order.
    pub fn elements(&self) -> (r: &[Element])
        ensures
            element_views(r@) == self@.elements,
    {
        self.elements.as_slice()
    }
}

pub open spec fn resistor_views(v: Seq<(String, usize, usize)>) -> Seq<(Seq<char>, usize, usize)> {
    v.map_values(|t: (String, usize, usize)| (t.0@, t.1, t.2))
}

/// Name and nodes of each resistor, in order.
pub open spec fn resistors_of(v: Seq<ElementView>) -> Seq<(Seq<char>, usize, usize)>
    decreases v.len(),
{
    if v.len() == 0 {
        seq![]
    } else if v.last().kind == Kind::Resistor {
        resistors_of(v.drop_last()).push((v.last().name, v.last().a, v.last().b))
    } else {
        resistors_of(v.drop_last())
    }
}

// ---------------------------------------------------------------------------
// Value symbols.
// ---------------------------------------------------------------------------
/// `stem` followed by at least one digit and nothing else.
pub open spec fn numbered(name: Seq<char>, stem: Seq<char>) -> bool {
    &&& has_prefix(name, stem)
    &&& name.len() > stem.len()
    &&& forall|i: int| stem.len() <= i < name.len() ==> is_digit(#[trigger] name[i])
}

/// The names that the solver mints for its own unknowns: `t`, node voltages
/// `v{k}` and their derivatives `vdot{k}`, and the prefixed branch currents and
/// derivatives.
pub open spec fn reserved(name: Seq<char>) -> bool {
    ||| name == "t"@
    ||| numbered(name, "vdot"@)
    ||| numbered(name, "v"@)
    ||| has_prefix(name, "i_"@)
    ||| has_prefix(name, "idot_"@)
    ||| has_prefix(name, "vdot_"@)
}

/// The symbol under which an element's value is known.
pub open spec fn value_symbol(name: Seq<char>) -> Seq<char> {
    if reserved(name) {
        "_"@ + name
    } else {
        name
    }
}

fn trailing_digits(name: &str, stem: &str) -> (r: bool)
    ensures
        r == numbered(name@, stem@),
{
    if !starts_with(name, stem) {
        return false;
    }
    let v = chars_of(name);
    let k = chars_of(stem);
    if v.len() <= k.len() {
        return false;
    }
    let mut i: usize = k.len();
    while i < v.len()
        invariant
            v@ == name@,
            stem@.len() <= i <= v@.len(),
            forall|j: int| stem@.len() <= j < i ==> is_digit(#[trigger] name@[j]),
        decreases v@.len() - i,
    {
        if !digit(v[i]) {
            assert(!is_digit(name@[i as int]));
            return false;
        }
        i += 1;
    }
    true
}

/// Whether `name` collides with the internally generated unknown / time symbol
/// namespace (see [`value_symbol_name`]).
fn is_reserved_unknown_name(name: &str) -> (r: bool)
    ensures
        r == reserved(name@),
{
    crate::text::same(name, "t") || trailing_digits(name, "vdot") || trailing_digits(name, "v")
        || starts_with(name, "i_") || starts_with(name, "idot_") || starts_with(name, "vdot_")
}

/// Symbol name for an element's value parameter, kept out of the namespace
/// reserved for the solver's own unknowns.
///
/// An element's name doubles as the symbol of its defining value (`R1` is the
/// resistance, `V1` the source voltage, ...). Symbols are interned by name, so
/// an element whose name lands in the reserved space would share an unknown's
/// symbol rather than staying a free parameter. A reserved-looking name gets a
/// leading `_`, which no element name can have; all ordinary names pass through
/// unchanged.
pub fn value_symbol_name(name: &str) -> (r: String)
    ensures
        r@ == value_symbol(name@),
{
    if is_reserved_unknown_name(name) {
        concat2("_", name)
    } else {
        name.to_owned()
    }
}

/// No value symbol lies in the solver's own namespace.
pub proof fn value_symbol_is_never_reserved(name: Seq<char>)
    ensures
        !reserved(value_symbol(name)),
{
    let r = value_symbol(name);
    reveal_strlit("_");
    reveal_strlit("t");
    reveal_strlit("v");
    reveal_strlit("vdot");
    reveal_strlit("i_");
    reveal_strlit("idot_");
    reveal_strlit("vdot_");
    if reserved(name) && reserved(r) {
        assert(r[0] == '_');
        if has_prefix(r, "vdot"@) {
            assert(r.take(4)[0] == 'v');
        }
        if has_prefix(r, "v"@) {
            assert(r.take(1)[0] == 'v');
        }
        if has_prefix(r, "i_"@) {
            assert(r.take(2)[0] == 'i');
        }
        if has_prefix(r, "idot_"@) {
            assert(r.take(5)[0] == 'i');
        }
        if has_prefix(r, "vdot_"@) {
            assert(r.take(5)[0] == 'v');
        }
        assert(false);
    }
}

/// Two element names, neither with a leading `_`, never share a value symbol.
pub proof fn value_symbol_is_injective(a: Seq<char>, b: Seq<char>)
    requires
        a.len() > 0 ==> a[0] != '_',
        b.len() > 0 ==> b[0] != '_',
        value_symbol(a) == value_symbol(b),
    ensures
        a == b,
{
    reveal_strlit("_");
    if reserved(a) {
        assert(value_symbol(a)[0] == '_');
        assert(value_symbol(a).skip(1) =~= a);
    }
    if reserved(b) {
        assert(value_symbol(b)[0] == '_');
        assert(value_symbol(b).skip(1) =~= b);
    }
}

/// Every node-voltage unknown `v{k}` has a reserved name, so no element value
/// can be taken for it.
pub proof fn node_unknown_is_reserved(k: nat)
    ensures
        reserved("v"@ + decimal(k)),
        reserved("vdot"@ + decimal(k)),
{
    reveal_strlit("v");
    reveal_strlit("vdot");
    decimal_is_digits(k);
    let a = "v"@ + decimal(k);
    let b = "vdot"@ + decimal(k);
    assert(a.take(1) =~= "v"@);
    assert(b.take(4) =~= "vdot"@);
    assert forall|i: int| 1 <= i < a.len() implies is_digit(#[trigger] a[i]) by {
        assert(a[i] == decimal(k)[i - 1]);
    }
    assert forall|i: int| 4 <= i < b.len() implies is_digit(#[trigger] b[i]) by {
        assert(b[i] == decimal(k)[i - 4]);
    }
    assert(numbered(a, "v"@));
    assert(numbered(b, "vdot"@));
}

} // verus!

//! Assembly of the symbolic DAE from a circuit: node KCL residuals, branch
//! constraints, device fragments, noise generators, and the companion / limit /
//! source registries.
use crate::circuit::{
    behavioral_views, bterms, coupling_views, element_views, larger, larger_of, value_symbol,
    value_symbol_name, BExpr, BKind, BTerm, BehavioralSource, BehavioralView, Circuit, CircuitView,
    CouplingView, Element, ElementView, Kind,
};
use crate::dae::system::{
    copy_noise, event_views, noise_views, op_var_with, op_views, seed_views, shape_views, stamps_have_rows,
    stamps_from_residuals, stamps_of, Dae, DaeView, DelaySpec, EventSpec, EventView, Limit, NoiseView,
    OpVarView,
};
use crate::device::{
    BehavioralFragment, LoweredDelay, LoweredUnknown, NoiseSource, OpVar, UnknownKind,
};
use crate::numerics::{
    apply1, compares, whole, Answers, Ask, Host, Op1, Rel, Reply, ONE,
};
use crate::source_fn::SourceFn;
use crate::symbolic::{rows_of, Algebra, Answer, ExprId, Fun1, Graph, Query, SymbolId};
use crate::table::{symbol_entries, symbol_table_insert, symbol_table_new, SymbolTable};
use crate::text::{concat2, concat3, decimal, decimal_text, lower, same, texts, to_lower};
use vstd::prelude::*;

verus! {

/// A placed device, lowered: the nodes wired to its terminals, its parallel
/// multiplicity, its linear companion, the name it was placed under, and what it
/// contributes.
#[derive(Debug)]
pub struct LoweredDevice {
    pub terminals: Vec<usize>,
    pub mfactor: u64,
    pub companion: Vec<(usize, usize, u64)>,
    pub instance: Option<String>,
    pub frag: BehavioralFragment,
    pub extras: Vec<LoweredUnknown>,
    pub delays: Vec<LoweredDelay>,
}

impl LoweredDevice {
    /// One current per terminal, one residual per extra unknown, and no index
    /// beyond them.
    pub open spec fn wf(self) -> bool {
        &&& self.frag.terminal_currents@.len() >= self.terminals@.len()
        &&& self.frag.residuals@.len() == self.extras@.len()
        &&& forall|i: int|
            0 <= i < self.companion@.len() ==> (#[trigger] self.companion@[i]).0 < self.terminals@.len()
                && self.companion@[i].1 < self.terminals@.len()
        &&& forall|i: int|
            0 <= i < self.delays@.len() ==> (#[trigger] self.delays@[i]).src_extra < self.extras@.len()
                && self.delays@[i].out_extra < self.extras@.len()
    }
}

// ---------------------------------------------------------------------------
// Symbols.
// ---------------------------------------------------------------------------
/// The voltage of a node; ground is zero.
pub open spec fn volt(g: Graph, k: usize) -> ExprId {
    if k == 0 {
        g.zero()
    } else {
        g.sym("v"@ + decimal(k as nat))
    }
}

/// The rate of change of a node voltage.
pub open spec fn volt_rate(g: Graph, k: usize) -> ExprId {
    if k == 0 {
        g.zero()
    } else {
        g.sym("vdot"@ + decimal(k as nat))
    }
}

/// The symbol of a node voltage; ground has none.
pub open spec fn node_symbol(g: Graph, k: usize) -> Option<SymbolId> {
    if k == 0 {
        None
    } else {
        Some(g.symbol("v"@ + decimal(k as nat)))
    }
}

/// The value of an element.
pub open spec fn value_of(g: Graph, name: Seq<char>) -> ExprId {
    g.sym(value_symbol(name))
}

pub open spec fn current_of(g: Graph, name: Seq<char>) -> ExprId {
    g.sym("i_"@ + name)
}

fn voltage<G: Fn(Query) -> Answer>(al: &Algebra<G>, k: usize) -> (r: ExprId)
    ensures
        r == volt(al.graph(), k),
{
    if k == 0 {
        al.zero()
    } else {
        al.sym(&concat2("v", &decimal_text(k as u64)))
    }
}

fn voltage_rate<G: Fn(Query) -> Answer>(al: &Algebra<G>, k: usize) -> (r: ExprId)
    ensures
        r == volt_rate(al.graph(), k),
{
    if k == 0 {
        al.zero()
    } else {
        al.sym(&concat2("vdot", &decimal_text(k as u64)))
    }
}

fn voltage_symbol<G: Fn(Query) -> Answer>(al: &Algebra<G>, k: usize) -> (r: Option<SymbolId>)
    ensures
        r == node_symbol(al.graph(), k),
{
    if k == 0 {
        None
    } else {
        Some(al.symbol(&concat2("v", &decimal_text(k as u64))))
    }
}

/// The value of an element as an expression.
fn value_sym<G: Fn(Query) -> Answer>(al: &Algebra<G>, name: &str) -> (r: ExprId)
    ensures
        r == value_of(al.graph(), name@),
{
    al.sym(&value_symbol_name(name))
}

fn branch_current<G: Fn(Query) -> Answer>(al: &Algebra<G>, name: &str) -> (r: ExprId)
    ensures
        r == current_of(al.graph(), name@),
{
    al.sym(&concat2("i_", name))
}

/// The (possibly time-dependent) value of an independent source.
pub open spec fn source_of(g: Graph, e: ElementView) -> ExprId {
    match e.source {
        None => value_of(g, e.name),
        Some(s) => s.waveform(g, e.name, g.sym("t"@)),
    }
}

fn source_value<G: Fn(Query) -> Answer>(al: &Algebra<G>, e: &Element) -> (r: ExprId)
    ensures
        r == source_of(al.graph(), e@),
{
    match e.source {
        None => value_sym(al, &e.name),
        Some(s) => s.lower(al, &e.name, al.sym("t")),
    }
}

// ---------------------------------------------------------------------------
// Branches.
// ---------------------------------------------------------------------------
/// The elements that have a current of their own among the unknowns.
pub open spec fn has_branch(k: Kind) -> bool {
    k == Kind::VoltageSource || k == Kind::Inductor || k == Kind::Vcvs || k == Kind::Ccvs
}

fn owns_branch(k: Kind) -> (r: bool)
    ensures
        r == has_branch(k),
{
    k == Kind::VoltageSource || k == Kind::Inductor || k == Kind::Vcvs || k == Kind::Ccvs
}

/// Those elements, from element `i` on.
pub open spec fn branches_from(els: Seq<ElementView>, i: int) -> Seq<ElementView>
    decreases els.len() - i,
{
    if i < 0 || i >= els.len() {
        seq![]
    } else if has_branch(els[i].kind) {
        seq![els[i]] + branches_from(els, i + 1)
    } else {
        branches_from(els, i + 1)
    }
}

/// The behavioral voltage sources, from source `i` on.
pub open spec fn forced_from(b: Seq<BehavioralView>, i: int) -> Seq<BehavioralView>
    decreases b.len() - i,
{
    if i < 0 || i >= b.len() {
        seq![]
    } else if b[i].kind == BKind::V {
        seq![b[i]] + forced_from(b, i + 1)
    } else {
        forced_from(b, i + 1)
    }
}

pub open spec fn element_names(v: Seq<ElementView>) -> Seq<Seq<char>> {
    v.map_values(|e: ElementView| e.name)
}

pub open spec fn source_names(v: Seq<BehavioralView>) -> Seq<Seq<char>> {
    v.map_values(|b: BehavioralView| b.name)
}

/// The names of the branches of a circuit, in the order of the unknowns.
pub open spec fn branch_names(c: CircuitView) -> Seq<Seq<char>> {
    element_names(branches_from(c.elements, 0)) + source_names(forced_from(c.behavioral, 0))
}

/// The last of the first `i` names that equals another up to case.
pub open spec fn last_named(names: Seq<Seq<char>>, key: Seq<char>, i: int) -> Option<Seq<char>>
    decreases i,
{
    if i <= 0 || i > names.len() {
        None
    } else if lower(names[i - 1]) == lower(key) {
        Some(names[i - 1])
    } else {
        last_named(names, key, i - 1)
    }
}

/// The branch current that an element name refers to.
pub open spec fn controller(g: Graph, names: Seq<Seq<char>>, key: Seq<char>) -> Option<ExprId> {
    match last_named(names, key, names.len() as int) {
        Some(n) => Some(current_of(g, n)),
        None => None,
    }
}

/// The same where the name is known to have one.
pub open spec fn controlling(g: Graph, names: Seq<Seq<char>>, e: ElementView) -> ExprId {
    match e.ctrl_elem {
        Some(n) => match controller(g, names, n) {
            Some(x) => x,
            None => g.zero(),
        },
        None => g.zero(),
    }
}

/// Every current-controlled source names an element that has a branch current.
pub open spec fn controllers_known(c: CircuitView) -> bool {
    let names = branch_names(c);
    forall|i: int|
        0 <= i < c.elements.len() && ((#[trigger] c.elements[i]).kind == Kind::Cccs || c.elements[i].kind == Kind::Ccvs)
            && c.elements[i].ctrl_elem is Some ==> last_named(
            names,
            c.elements[i].ctrl_elem->0,
            names.len() as int,
        ) is Some
}

fn find_name(names: &Vec<String>, key: &str) -> (r: Option<usize>)
    ensures
        match r {
            Some(i) => i < names@.len() && last_named(texts(names@), key@, names@.len() as int) == Some(
                names@[i as int]@,
            ),
            None => last_named(texts(names@), key@, names@.len() as int) is None,
        },
{
    let ghost t = texts(names@);
    let want = to_lower(key);
    let n: usize = names.len();
    let mut i: usize = n;
    while i > 0
        invariant
            i <= n,
            n == names@.len(),
            t == texts(names@),
            want@ == lower(key@),
            last_named(t, key@, i as int) == last_named(t, key@, n as int),
        decreases i,
    {
        i -= 1;
        assert(t[i as int] == names@[i as int]@);
        if to_lower(&names[i]) == want {
            return Some(i);
        }
    }
    None
}

fn find_controller<G: Fn(Query) -> Answer>(al: &Algebra<G>, names: &Vec<String>, key: &str) -> (r: Option<ExprId>)
    ensures
        r == controller(al.graph(), texts(names@), key@),
{
    match find_name(names, key) {
        Some(i) => Some(branch_current(al, &names[i])),
        None => None,
    }
}

fn find_controlling<G: Fn(Query) -> Answer>(al: &Algebra<G>, names: &Vec<String>, e: &Element) -> (r: ExprId)
    ensures
        r == controlling(al.graph(), texts(names@), e@),
{
    match &e.ctrl_elem {
        Some(n) => match find_controller(al, names, n) {
            Some(x) => x,
            None => al.zero(),
        },
        None => al.zero(),
    }
}

/// The elements that indices stand for.
pub open spec fn picked(els: Seq<ElementView>, idx: Seq<usize>) -> Seq<ElementView> {
    idx.map_values(|i: usize| els[i as int])
}

fn find_branches(elements: &[Element]) -> (r: Vec<usize>)
    ensures
        picked(element_views(elements@), r@) == branches_from(element_views(elements@), 0),
        forall|k: int| 0 <= k < r@.len() ==> (#[trigger] r@[k]) < elements@.len(),
        forall|k: int|
            0 <= k < r@.len() ==> has_branch(element_views(elements@)[#[trigger] r@[k] as int].kind),
{
    let ghost els = element_views(elements@);
    let mut out: Vec<usize> = Vec::new();
    assert(picked(els, out@) + branches_from(els, 0) =~= branches_from(els, 0));
    for i in 0..elements.len()
        invariant
            els == element_views(elements@),
            picked(els, out@) + branches_from(els, i as int) == branches_from(els, 0),
            forall|k: int| 0 <= k < out@.len() ==> (#[trigger] out@[k]) < elements@.len(),
            forall|k: int| 0 <= k < out@.len() ==> has_branch(els[#[trigger] out@[k] as int].kind),
    {
        assert(els[i as int] == elements@[i as int]@);
        if owns_branch(elements[i].kind) {
            let ghost before = out@;
            out.push(i);
            proof {
                let rest = branches_from(els, i + 1);
                assert(picked(els, out@) =~= picked(els, before).push(els[i as int]));
                assert(picked(els, before).push(els[i as int]) + rest =~= picked(els, before) + (seq![
                    els[i as int],
                ] + rest));
            }
        }
    }
    assert(picked(els, out@) + seq![] =~= picked(els, out@));
    out
}

pub open spec fn picked_sources(b: Seq<BehavioralView>, idx: Seq<usize>) -> Seq<BehavioralView> {
    idx.map_values(|i: usize| b[i as int])
}

fn find_forced(behavioral: &[BehavioralSource]) -> (r: Vec<usize>)
    ensures
        picked_sources(behavioral_views(behavioral@), r@) == forced_from(behavioral_views(behavioral@), 0),
        forall|k: int| 0 <= k < r@.len() ==> (#[trigger] r@[k]) < behavioral@.len(),
{
    let ghost b = behavioral_views(behavioral@);
    let mut out: Vec<usize> = Vec::new();
    assert(picked_sources(b, out@) + forced_from(b, 0) =~= forced_from(b, 0));
    for i in 0..behavioral.len()
        invariant
            b == behavioral_views(behavioral@),
            picked_sources(b, out@) + forced_from(b, i as int) == forced_from(b, 0),
            forall|k: int| 0 <= k < out@.len() ==> (#[trigger] out@[k]) < behavioral@.len(),
    {
        assert(b[i as int] == behavioral@[i as int]@);
        if behavioral[i].kind == BKind::V {
            let ghost before = out@;
            out.push(i);
            proof {
                let rest = forced_from(b, i + 1);
                assert(picked_sources(b, out@) =~= picked_sources(b, before).push(b[i as int]));
                assert(picked_sources(b, before).push(b[i as int]) + rest =~= picked_sources(b, before) + (seq![
                    b[i as int],
                ] + rest));
            }
        }
    }
    assert(picked_sources(b, out@) + seq![] =~= picked_sources(b, out@));
    out
}

fn list_branch_names(circuit: &Circuit, branch: &Vec<usize>, forced: &Vec<usize>) -> (r: Vec<String>)
    requires
        picked(circuit@.elements, branch@) == branches_from(circuit@.elements, 0),
        forall|k: int| 0 <= k < branch@.len() ==> (#[trigger] branch@[k]) < circuit@.elements.len(),
        picked_sources(circuit@.behavioral, forced@) == forced_from(circuit@.behavioral, 0),
        forall|k: int| 0 <= k < forced@.len() ==> (#[trigger] forced@[k]) < circuit@.behavioral.len(),
    ensures
        texts(r@) == branch_names(circuit@),
{
    let elements = circuit.elements();
    let behavioral = circuit.behavioral();
    let ghost a = element_names(branches_from(circuit@.elements, 0));
    let ghost b = source_names(forced_from(circuit@.behavioral, 0));
    let mut out: Vec<String> = Vec::new();
    for i in 0..branch.len()
        invariant
            element_views(elements@) == circuit@.elements,
            a == element_names(picked(circuit@.elements, branch@)),
            forall|k: int| 0 <= k < branch@.len() ==> (#[trigger] branch@[k]) < circuit@.elements.len(),
            texts(out@) =~= a.take(i as int),
    {
        let ghost before = texts(out@);
        let j: usize = branch[i];
        assert(circuit@.elements[j as int] == elements@[j as int]@);
        let n = elements[j].name.clone();
        out.push(n);
        assert(texts(out@) =~= before.push(a[i as int]));
    }
    assert(a.take(a.len() as int) =~= a);
    for i in 0..forced.len()
        invariant
            behavioral_views(behavioral@) == circuit@.behavioral,
            b == source_names(picked_sources(circuit@.behavioral, forced@)),
            forall|k: int| 0 <= k < forced@.len() ==> (#[trigger] forced@[k]) < circuit@.behavioral.len(),
            texts(out@) =~= a + b.take(i as int),
    {
        let ghost before = texts(out@);
        let j: usize = forced[i];
        assert(circuit@.behavioral[j as int] == behavioral@[j as int]@);
        let n = behavioral[j].name.clone();
        out.push(n);
        assert(texts(out@) =~= before.push(b[i as int]));
    }
    assert(b.take(b.len() as int) =~= b);
    out
}

// ---------------------------------------------------------------------------
// What a device is lowered from.
// ---------------------------------------------------------------------------
/// What the assembly hands to a device: the voltages of its terminals, their
/// rates of change, and the currents that control it.
#[derive(Debug)]
pub struct DeviceInputs {
    pub voltages: Vec<ExprId>,
    pub rates: Vec<ExprId>,
    pub controls: Vec<ExprId>,
}

/// Every control names an element that has a branch current, up to case.
pub open spec fn controls_known(c: CircuitView, controls: Seq<Seq<char>>) -> bool {
    let names = branch_names(c);
    forall|k: int|
        0 <= k < controls.len() ==> last_named(names, #[trigger] controls[k], names.len() as int) is Some
}

/// The inputs of a device that is wired to `terminals` and controlled by the
/// currents of the named elements; ground has voltage and rate zero. `None` where
/// a control names no voltage-defined element.
pub fn device_inputs<G: Fn(Query) -> Answer>(
    al: &Algebra<G>,
    circuit: &Circuit,
    terminals: &Vec<usize>,
    controls: &Vec<String>,
) -> (r: Option<DeviceInputs>)
    ensures
        r is Some <==> controls_known(circuit@, texts(controls@)),
        r matches Some(d) ==> {
            &&& d.voltages@ == terminals@.map_values(|k: usize| volt(al.graph(), k))
            &&& d.rates@ == terminals@.map_values(|k: usize| volt_rate(al.graph(), k))
            &&& d.controls@.len() == controls@.len()
            &&& forall|k: int|
                0 <= k < controls@.len() ==> Some(#[trigger] d.controls@[k]) == controller(
                    al.graph(),
                    branch_names(circuit@),
                    controls@[k]@,
                )
        },
{
    let ghost g = al.graph();
    let branch = find_branches(circuit.elements());
    let forced = find_forced(circuit.behavioral());
    let names = list_branch_names(circuit, &branch, &forced);
    let ghost t = texts(controls@);
    let mut found: Vec<ExprId> = Vec::new();
    for k in 0..controls.len()
        invariant
            g == al.graph(),
            t == texts(controls@),
            texts(names@) == branch_names(circuit@),
            found@.len() == k,
            forall|j: int|
                0 <= j < k ==> Some(#[trigger] found@[j]) == controller(g, branch_names(circuit@), controls@[j]@),
    {
        assert(t[k as int] == controls@[k as int]@);
        match find_controller(al, &names, &controls[k]) {
            Some(x) => found.push(x),
            None => {
                assert(last_named(branch_names(circuit@), t[k as int], branch_names(circuit@).len() as int) is None);
                return None;
            },
        }
    }
    proof {
        assert forall|k: int| 0 <= k < t.len() implies last_named(
            branch_names(circuit@),
            #[trigger] t[k],
            branch_names(circuit@).len() as int,
        ) is Some by {
            assert(Some(found@[k]) == controller(g, branch_names(circuit@), controls@[k]@));
        }
    }
    let ghost vs = terminals@.map_values(|k: usize| volt(g, k));
    let ghost rs = terminals@.map_values(|k: usize| volt_rate(g, k));
    let mut voltages: Vec<ExprId> = Vec::new();
    let mut rates: Vec<ExprId> = Vec::new();
    for i in 0..terminals.len()
        invariant
            g == al.graph(),
            vs == terminals@.map_values(|k: usize| volt(g, k)),
            rs == terminals@.map_values(|k: usize| volt_rate(g, k)),
            voltages@ =~= vs.take(i as int),
            rates@ =~= rs.take(i as int),
    {
        voltages.push(voltage(al, terminals[i]));
        rates.push(voltage_rate(al, terminals[i]));
    }
    assert(vs.take(vs.len() as int) =~= vs);
    assert(rs.take(rs.len() as int) =~= rs);
    Some(DeviceInputs { voltages, rates, controls: found })
}

// ---------------------------------------------------------------------------
// Behavioral expressions.
// ---------------------------------------------------------------------------
/// An operator of a behavioral expression on its translated operands; the right
/// operand's own form tells an integer power.
pub open spec fn binary(h: Answers, g: Graph, op: char, x: ExprId, y: ExprId, right: BTerm) -> ExprId {
    if op == '+' {
        g.plus(x, y)
    } else if op == '-' {
        g.minus(x, y)
    } else if op == '*' {
        g.times(x, y)
    } else if op == '/' {
        g.over(x, y)
    } else if op == '^' {
        match integer_power(h, right) {
            Some(n) => g.power(x, n),
            None => g.fun1(Fun1::Exp, g.times(y, g.fun1(Fun1::Ln, x))),
        }
    } else if op == '<' {
        g.compare(Rel::Lt, x, y)
    } else if op == '>' {
        g.compare(Rel::Gt, x, y)
    } else if op == 'l' {
        g.compare(Rel::Le, x, y)
    } else if op == 'g' {
        g.compare(Rel::Ge, x, y)
    } else if op == 'e' {
        g.compare(Rel::Eq, x, y)
    } else if op == 'n' {
        g.compare(Rel::Ne, x, y)
    } else {
        x
    }
}

/// The exponent, where it is a whole constant below 64 in magnitude.
pub open spec fn integer_power(h: Answers, e: BTerm) -> Option<i64> {
    match e {
        BTerm::Const(c) => match whole(h, c) {
            Some(n) => if -64 < n < 64 {
                Some(n)
            } else {
                None
            },
            None => None,
        },
        _ => None,
    }
}

/// A call on its translated arguments.
pub open spec fn called(g: Graph, name: Seq<char>, args: Seq<ExprId>) -> ExprId {
    if name == "if"@ && args.len() == 3 {
        g.select(args[0], args[1], args[2])
    } else {
        let canonical = if name == "pwr"@ {
            "pow"@
        } else {
            name
        };
        match g.call(canonical, args) {
            Some(e) => e,
            None => g.zero(),
        }
    }
}

/// A behavioral expression in the graph: `V(node)` is the node voltage,
/// `I(elem)` the branch current, `time` the time, and any other name a free
/// parameter.
pub open spec fn translated(h: Answers, g: Graph, names: Seq<Seq<char>>, e: BTerm) -> ExprId
    decreases e,
{
    match e {
        BTerm::Const(c) => g.number(c),
        BTerm::NodeV(n) => volt(g, n),
        BTerm::BranchI(name) => match controller(g, names, name) {
            Some(x) => x,
            None => g.zero(),
        },
        BTerm::Param(name) => if lower(name) == "time"@ {
            g.sym("t"@)
        } else {
            g.sym(name)
        },
        BTerm::Neg(a) => g.neg(translated(h, g, names, *a)),
        BTerm::Bin(op, a, b) => binary(
            h,
            g,
            op,
            translated(h, g, names, *a),
            translated(h, g, names, *b),
            *b,
        ),
        BTerm::Call(f, args) => called(g, f, translated_all(h, g, names, args)),
    }
}

pub open spec fn translated_all(h: Answers, g: Graph, names: Seq<Seq<char>>, args: Seq<BTerm>) -> Seq<ExprId>
    decreases args,
{
    if args.len() == 0 {
        seq![]
    } else {
        translated_all(h, g, names, args.drop_last()).push(translated(h, g, names, args.last()))
    }
}

fn lower_binary<F: Fn(Ask) -> Reply, G: Fn(Query) -> Answer>(
    host: &Host<F>,
    al: &Algebra<G>,
    op: char,
    x: ExprId,
    y: ExprId,
    right: &BExpr,
) -> (r: ExprId)
    ensures
        r == binary(host.answers(), al.graph(), op, x, y, right.term()),
{
    match op {
        '+' => al.plus(x, y),
        '-' => al.minus(x, y),
        '*' => al.times(x, y),
        '/' => al.over(x, y),
        '^' => {
            if let BExpr::Const(c) = right {
                if let Some(n) = host.whole(*c) {
                    if -64 < n && n < 64 {
                        return al.power(x, n);
                    }
                }
            }
            al.fun1(Fun1::Exp, al.times(y, al.fun1(Fun1::Ln, x)))
        },
        '<' => al.compare(Rel::Lt, x, y),
        '>' => al.compare(Rel::Gt, x, y),
        'l' => al.compare(Rel::Le, x, y),
        'g' => al.compare(Rel::Ge, x, y),
        'e' => al.compare(Rel::Eq, x, y),
        'n' => al.compare(Rel::Ne, x, y),
        _ => x,
    }
}

/// Translate a behavioral (`B`) source expression into the graph.
pub fn translate_bexpr<F: Fn(Ask) -> Reply, G: Fn(Query) -> Answer>(
    host: &Host<F>,
    al: &Algebra<G>,
    names: &Vec<String>,
    e: &BExpr,
) -> (r: ExprId)
    ensures
        r == translated(host.answers(), al.graph(), texts(names@), e.term()),
    decreases *e,
{
    match e {
        BExpr::Const(c) => al.number(*c),
        BExpr::NodeV(n) => voltage(al, *n),
        BExpr::BranchI(name) => match find_controller(al, names, name) {
            Some(x) => x,
            None => al.zero(),
        },
        BExpr::Param(name) => if same(&to_lower(name), "time") {
            al.sym("t")
        } else {
            al.sym(name)
        },
        BExpr::Neg(a) => {
            let x = translate_bexpr(host, al, names, a);
            al.neg(x)
        },
        BExpr::Bin(op, a, b) => {
            let x = translate_bexpr(host, al, names, a);
            let y = translate_bexpr(host, al, names, b);
            lower_binary(host, al, *op, x, y, b)
        },
        BExpr::Call(f, args) => {
            let mut v: Vec<ExprId> = Vec::new();
            let ghost h = host.answers();
            let ghost g = al.graph();
            let ghost t = texts(names@);
            for i in 0..args.len()
                invariant
                    *e matches BExpr::Call(f0, a0) && a0 == *args,
                    h == host.answers(),
                    g == al.graph(),
                    t == texts(names@),
                    v@ == translated_all(h, g, t, bterms(args@.take(i as int))),
            {
                let x = translate_bexpr(host, al, names, &args[i]);
                proof {
                    let part = args@.take(i + 1);
                    assert(part.drop_last() =~= args@.take(i as int));
                    assert(bterms(part).drop_last() =~= bterms(part.drop_last()));
                    assert(bterms(part).last() == args@[i as int].term());
                }
                v.push(x);
            }
            assert(args@.take(args@.len() as int) =~= args@);
            if same(f, "if") && v.len() == 3 {
                return al.select(v[0], v[1], v[2]);
            }
            let canonical: &str = if same(f, "pwr") {
                "pow"
            } else {
                f
            };
            match al.call(canonical, &v) {
                Some(x) => x,
                None => al.zero(),
            }
        },
    }
}

// ---------------------------------------------------------------------------
// Node equations.
// ---------------------------------------------------------------------------
/// One more term of a node; ground has no equation.
pub open spec fn with_term(terms: Seq<Seq<ExprId>>, node: usize, e: ExprId) -> Seq<Seq<ExprId>> {
    if node == 0 || node > terms.len() {
        terms
    } else {
        terms.update(node - 1, terms[node - 1].push(e))
    }
}

/// A current `c` flows from node `a` to node `b`.
pub open spec fn with_current(g: Graph, terms: Seq<Seq<ExprId>>, a: usize, b: usize, c: ExprId) -> Seq<Seq<ExprId>> {
    with_term(with_term(terms, a, c), b, g.neg(c))
}

fn add_term(terms: &mut Vec<Vec<ExprId>>, node: usize, e: ExprId)
    ensures
        rows_of(final(terms)@) == with_term(rows_of(old(terms)@), node, e),
{
    let ghost before = rows_of(terms@);
    if node != 0 && node <= terms.len() {
        let k: usize = node - 1;
        assert(before[k as int] == terms@[k as int]@);
        terms[k].push(e);
        assert(rows_of(terms@) =~= before.update(k as int, before[k as int].push(e)));
    }
}

/// Accumulate a branch current `c` into the node terms: `+c` leaves node `a`,
/// `-c` enters node `b` (ground is skipped).
fn add_current<G: Fn(Query) -> Answer>(al: &Algebra<G>, terms: &mut Vec<Vec<ExprId>>, a: usize, b: usize, c: ExprId)
    ensures
        rows_of(final(terms)@) == with_current(al.graph(), rows_of(old(terms)@), a, b, c),
{
    add_term(terms, a, c);
    let nc = al.neg(c);
    add_term(terms, b, nc);
}

/// The current through an element, from its first node to its second.
pub open spec fn current_through(g: Graph, names: Seq<Seq<char>>, e: ElementView) -> ExprId {
    match e.kind {
        Kind::Resistor => g.times(g.minus(volt(g, e.a), volt(g, e.b)), g.recip(value_of(g, e.name))),
        Kind::Capacitor => g.times(
            value_of(g, e.name),
            g.minus(volt_rate(g, e.a), volt_rate(g, e.b)),
        ),
        Kind::CurrentSource => source_of(g, e),
        Kind::Vccs => g.times(value_of(g, e.name), control_voltage(g, e)),
        Kind::Cccs => g.times(value_of(g, e.name), controlling(g, names, e)),
        _ => current_of(g, e.name),
    }
}

/// The voltage that controls an element.
pub open spec fn control_voltage(g: Graph, e: ElementView) -> ExprId {
    match e.ctrl {
        Some((p, q)) => g.minus(volt(g, p), volt(g, q)),
        None => g.zero(),
    }
}

fn controlling_voltage<G: Fn(Query) -> Answer>(al: &Algebra<G>, e: &Element) -> (r: ExprId)
    ensures
        r == control_voltage(al.graph(), e@),
{
    match e.ctrl {
        Some((p, q)) => al.minus(voltage(al, p), voltage(al, q)),
        None => al.zero(),
    }
}

fn element_current<G: Fn(Query) -> Answer>(al: &Algebra<G>, names: &Vec<String>, e: &Element) -> (r: ExprId)
    ensures
        r == current_through(al.graph(), texts(names@), e@),
{
    match e.kind {
        Kind::Resistor => {
            let dv = al.minus(voltage(al, e.a), voltage(al, e.b));
            al.times(dv, al.recip(value_sym(al, &e.name)))
        },
        Kind::Capacitor => {
            let rate = al.minus(voltage_rate(al, e.a), voltage_rate(al, e.b));
            al.times(value_sym(al, &e.name), rate)
        },
        Kind::CurrentSource => source_value(al, e),
        Kind::Vccs => al.times(value_sym(al, &e.name), controlling_voltage(al, e)),
        Kind::Cccs => al.times(value_sym(al, &e.name), find_controlling(al, names, e)),
        _ => branch_current(al, &e.name),
    }
}

/// After the elements from `i` on.
pub open spec fn element_terms(
    g: Graph,
    names: Seq<Seq<char>>,
    els: Seq<ElementView>,
    i: int,
    terms: Seq<Seq<ExprId>>,
) -> Seq<Seq<ExprId>>
    decreases els.len() - i,
{
    if i < 0 || i >= els.len() {
        terms
    } else {
        let e = els[i];
        element_terms(
            g,
            names,
            els,
            i + 1,
            with_current(g, terms, e.a, e.b, current_through(g, names, e)),
        )
    }
}

/// The current out of a terminal of a device, times its multiplicity.
pub open spec fn terminal_current(h: Answers, g: Graph, d: LoweredDevice, k: int) -> ExprId {
    if compares(h, Rel::Ne, d.mfactor, ONE) {
        g.times(g.number(d.mfactor), d.frag.terminal_currents@[k])
    } else {
        d.frag.terminal_currents@[k]
    }
}

/// After the terminals of a device from `k` on.
pub open spec fn terminal_terms(h: Answers, g: Graph, d: LoweredDevice, k: int, terms: Seq<Seq<ExprId>>) -> Seq<
    Seq<ExprId>,
>
    decreases d.terminals@.len() - k,
{
    if k < 0 || k >= d.terminals@.len() {
        terms
    } else {
        terminal_terms(
            h,
            g,
            d,
            k + 1,
            with_term(terms, d.terminals@[k], terminal_current(h, g, d, k)),
        )
    }
}

/// After the devices from `i` on.
pub open spec fn device_terms(h: Answers, g: Graph, devs: Seq<LoweredDevice>, i: int, terms: Seq<Seq<ExprId>>) -> Seq<
    Seq<ExprId>,
>
    decreases devs.len() - i,
{
    if i < 0 || i >= devs.len() {
        terms
    } else {
        device_terms(h, g, devs, i + 1, terminal_terms(h, g, devs[i], 0, terms))
    }
}

/// The current of a behavioral source.
pub open spec fn forced_current(h: Answers, g: Graph, names: Seq<Seq<char>>, b: BehavioralView) -> ExprId {
    match b.kind {
        BKind::I => translated(h, g, names, b.expr),
        BKind::V => current_of(g, b.name),
    }
}

/// After the behavioral sources from `i` on.
pub open spec fn behavioral_terms(
    h: Answers,
    g: Graph,
    names: Seq<Seq<char>>,
    b: Seq<BehavioralView>,
    i: int,
    terms: Seq<Seq<ExprId>>,
) -> Seq<Seq<ExprId>>
    decreases b.len() - i,
{
    if i < 0 || i >= b.len() {
        terms
    } else {
        behavioral_terms(
            h,
            g,
            names,
            b,
            i + 1,
            with_current(g, terms, b[i].a, b[i].b, forced_current(h, g, names, b[i])),
        )
    }
}

/// The largest node wired to a device from `i` on.
pub open spec fn device_top(devs: Seq<LoweredDevice>, i: int) -> usize
    decreases devs.len() - i,
{
    if i < 0 || i >= devs.len() {
        0
    } else {
        larger(terminal_top(devs[i].terminals@, 0), device_top(devs, i + 1))
    }
}

pub open spec fn terminal_top(t: Seq<usize>, k: int) -> usize
    decreases t.len() - k,
{
    if k < 0 || k >= t.len() {
        0
    } else {
        larger(t[k], terminal_top(t, k + 1))
    }
}

fn top_terminal(t: &Vec<usize>) -> (r: usize)
    ensures
        r == terminal_top(t@, 0),
{
    let mut k: usize = t.len();
    let mut m: usize = 0;
    while k > 0
        invariant
            k <= t@.len(),
            m == terminal_top(t@, k as int),
        decreases k,
    {
        k -= 1;
        m = larger_of(t[k], m);
    }
    m
}

fn top_device(devs: &Vec<LoweredDevice>) -> (r: usize)
    ensures
        r == device_top(devs@, 0),
{
    let mut i: usize = devs.len();
    let mut m: usize = 0;
    while i > 0
        invariant
            i <= devs@.len(),
            m == device_top(devs@, i as int),
        decreases i,
    {
        i -= 1;
        m = larger_of(top_terminal(&devs[i].terminals), m);
    }
    m
}

// ---------------------------------------------------------------------------
// Branch equations.
// ---------------------------------------------------------------------------
/// The constraint of a branch.
pub open spec fn branch_row(g: Graph, names: Seq<Seq<char>>, e: ElementView) -> ExprId {
    let dv = g.minus(volt(g, e.a), volt(g, e.b));
    match e.kind {
        Kind::VoltageSource => g.minus(dv, source_of(g, e)),
        Kind::Inductor => g.minus(dv, g.times(value_of(g, e.name), g.sym("idot_"@ + e.name))),
        Kind::Vcvs => g.minus(dv, g.times(value_of(g, e.name), control_voltage(g, e))),
        _ => g.minus(dv, g.times(value_of(g, e.name), controlling(g, names, e))),
    }
}

/// The derivative of a branch current among the unknowns.
pub open spec fn branch_rate(g: Graph, e: ElementView) -> Option<SymbolId> {
    if e.kind == Kind::Inductor {
        Some(g.symbol("idot_"@ + e.name))
    } else {
        None
    }
}

fn branch_residual<G: Fn(Query) -> Answer>(al: &Algebra<G>, names: &Vec<String>, e: &Element) -> (r: ExprId)
    ensures
        r == branch_row(al.graph(), texts(names@), e@),
{
    let dv = al.minus(voltage(al, e.a), voltage(al, e.b));
    match e.kind {
        Kind::VoltageSource => al.minus(dv, source_value(al, e)),
        Kind::Inductor => {
            let flux = al.times(value_sym(al, &e.name), al.sym(&concat2("idot_", &e.name)));
            al.minus(dv, flux)
        },
        Kind::Vcvs => al.minus(dv, al.times(value_sym(al, &e.name), controlling_voltage(al, e))),
        _ => al.minus(dv, al.times(value_sym(al, &e.name), find_controlling(al, names, e))),
    }
}

pub open spec fn branch_rows(g: Graph, names: Seq<Seq<char>>, b: Seq<ElementView>) -> Seq<ExprId> {
    b.map_values(|e: ElementView| branch_row(g, names, e))
}

/// The last of the first `j` branches that is an inductor with a given name.
pub open spec fn inductor_row(b: Seq<ElementView>, key: Seq<char>, j: int) -> Option<int>
    decreases j,
{
    if j <= 0 || j > b.len() {
        None
    } else if b[j - 1].kind == Kind::Inductor && lower(b[j - 1].name) == lower(key) {
        Some(j - 1)
    } else {
        inductor_row(b, key, j - 1)
    }
}

/// The rows after one coupling: `M = k sqrt(L1 L2)` times the other inductor's
/// current rate comes off each constraint.
pub open spec fn with_coupling(g: Graph, b: Seq<ElementView>, rows: Seq<ExprId>, k: CouplingView) -> Seq<ExprId> {
    match (inductor_row(b, k.l1, b.len() as int), inductor_row(b, k.l2, b.len() as int)) {
        (Some(x), Some(y)) => {
            let m = g.times(
                value_of(g, k.name),
                g.fun1(Fun1::Sqrt, g.times(value_of(g, k.l1), value_of(g, k.l2))),
            );
            let first = rows.update(x, g.minus(rows[x], g.times(m, g.sym("idot_"@ + b[y].name))));
            first.update(y, g.minus(first[y], g.times(m, g.sym("idot_"@ + b[x].name))))
        },
        _ => rows,
    }
}

/// The rows after the couplings from `i` on.
pub open spec fn coupled(g: Graph, b: Seq<ElementView>, ks: Seq<CouplingView>, i: int, rows: Seq<ExprId>) -> Seq<ExprId>
    decreases ks.len() - i,
{
    if i < 0 || i >= ks.len() {
        rows
    } else {
        coupled(g, b, ks, i + 1, with_coupling(g, b, rows, ks[i]))
    }
}

/// The constraint of a behavioral voltage source.
pub open spec fn forced_row(h: Answers, g: Graph, names: Seq<Seq<char>>, b: BehavioralView) -> ExprId {
    g.minus(g.minus(volt(g, b.a), volt(g, b.b)), translated(h, g, names, b.expr))
}

pub open spec fn forced_rows(h: Answers, g: Graph, names: Seq<Seq<char>>, b: Seq<BehavioralView>) -> Seq<ExprId> {
    b.map_values(|s: BehavioralView| forced_row(h, g, names, s))
}

// ---------------------------------------------------------------------------
// The devices' own unknowns.
// ---------------------------------------------------------------------------
/// The extra unknowns of the devices from `i` on.
pub open spec fn extras_from(devs: Seq<LoweredDevice>, i: int) -> Seq<LoweredUnknown>
    decreases devs.len() - i,
{
    if i < 0 || i >= devs.len() {
        seq![]
    } else {
        devs[i].extras@ + extras_from(devs, i + 1)
    }
}

/// The residuals of the devices from `i` on.
pub open spec fn extra_rows(devs: Seq<LoweredDevice>, i: int) -> Seq<ExprId>
    decreases devs.len() - i,
{
    if i < 0 || i >= devs.len() {
        seq![]
    } else {
        devs[i].frag.residuals@ + extra_rows(devs, i + 1)
    }
}

/// The delays of a device whose unknowns begin at `base`.
pub open spec fn shifted_delays(d: LoweredDevice, base: int) -> Seq<DelaySpec> {
    d.delays@.map_values(
        |l: LoweredDelay|
            DelaySpec {
                src: (base + l.src_extra) as usize,
                out: (base + l.out_extra) as usize,
                hist: l.hist,
                tau: l.tau,
            },
    )
}

/// The delays of the devices from `i` on; device `i`'s unknowns begin at `base`.
pub open spec fn delays_from(devs: Seq<LoweredDevice>, i: int, base: int) -> Seq<DelaySpec>
    decreases devs.len() - i,
{
    if i < 0 || i >= devs.len() {
        seq![]
    } else {
        shifted_delays(devs[i], base) + delays_from(devs, i + 1, base + devs[i].extras@.len())
    }
}

/// A starting value, where an unknown has one.
pub open spec fn seeds_of(v: Seq<LoweredUnknown>, i: int) -> Seq<(Seq<char>, u64)>
    decreases v.len() - i,
{
    if i < 0 || i >= v.len() {
        seq![]
    } else {
        match v[i].dc_seed {
            Some(s) => seq![(v[i].name@, s)] + seeds_of(v, i + 1),
            None => seeds_of(v, i + 1),
        }
    }
}

/// The name under which a device's events are listed.
pub open spec fn event_owner(d: LoweredDevice, listed: int) -> Seq<char> {
    match d.instance {
        Some(n) => n@,
        None => "device"@ + decimal(listed as nat),
    }
}

/// The events of a device from event `k` on, after `out`.
pub open spec fn events_of(d: LoweredDevice, k: int, out: Seq<EventView>) -> Seq<EventView>
    decreases d.frag.events@.len() - k,
{
    if k < 0 || k >= d.frag.events@.len() {
        out
    } else {
        let e = d.frag.events@[k];
        events_of(
            d,
            k + 1,
            out.push(
                EventView {
                    g: e.g,
                    dir: e.dir,
                    name: event_owner(d, out.len() as int) + "#"@ + decimal(k as nat),
                },
            ),
        )
    }
}

pub open spec fn events_from(devs: Seq<LoweredDevice>, i: int, out: Seq<EventView>) -> Seq<EventView>
    decreases devs.len() - i,
{
    if i < 0 || i >= devs.len() {
        out
    } else {
        events_from(devs, i + 1, events_of(devs[i], 0, out))
    }
}

/// The defaults with those of the symbols from `k` on; a later one replaces an
/// earlier one of the same symbol.
pub open spec fn defaults_of(v: Seq<(SymbolId, Option<u64>)>, k: int, m: Map<u64, u64>) -> Map<u64, u64>
    decreases v.len() - k,
{
    if k < 0 || k >= v.len() {
        m
    } else {
        match v[k].1 {
            Some(d) => defaults_of(v, k + 1, m.insert(v[k].0.0, d)),
            None => defaults_of(v, k + 1, m),
        }
    }
}

/// The defaults with those of the devices from `i` on.
pub open spec fn defaults_from(devs: Seq<LoweredDevice>, i: int, m: Map<u64, u64>) -> Map<u64, u64>
    decreases devs.len() - i,
{
    if i < 0 || i >= devs.len() {
        m
    } else {
        defaults_from(devs, i + 1, defaults_of(devs[i].frag.param_syms@, 0, m))
    }
}

pub open spec fn noise_from(devs: Seq<LoweredDevice>, i: int) -> Seq<NoiseView>
    decreases devs.len() - i,
{
    if i < 0 || i >= devs.len() {
        seq![]
    } else {
        noise_views(devs[i].frag.noise@) + noise_from(devs, i + 1)
    }
}

pub open spec fn op_vars_from(devs: Seq<LoweredDevice>, i: int) -> Seq<OpVarView>
    decreases devs.len() - i,
{
    if i < 0 || i >= devs.len() {
        seq![]
    } else {
        op_views(devs[i].frag.op_vars@) + op_vars_from(devs, i + 1)
    }
}

/// One conductance of a companion network as entries of the node rows.
pub open spec fn conductance_entries(h: Answers, a: usize, b: usize, g: u64) -> Seq<(usize, usize, u64)> {
    let own = if a != 0 {
        seq![((a - 1) as usize, (a - 1) as usize, g)]
    } else {
        seq![]
    };
    let other = if b != 0 {
        seq![((b - 1) as usize, (b - 1) as usize, g)]
    } else {
        seq![]
    };
    let cross = if a != 0 && b != 0 {
        let n = apply1(h, Op1::Neg, g);
        seq![((a - 1) as usize, (b - 1) as usize, n), ((b - 1) as usize, (a - 1) as usize, n)]
    } else {
        seq![]
    };
    own + other + cross
}

pub open spec fn companion_of(h: Answers, d: LoweredDevice, k: int) -> Seq<(usize, usize, u64)>
    decreases d.companion@.len() - k,
{
    if k < 0 || k >= d.companion@.len() {
        seq![]
    } else {
        let (i, j, g) = d.companion@[k];
        conductance_entries(h, d.terminals@[i as int], d.terminals@[j as int], g) + companion_of(h, d, k + 1)
    }
}

pub open spec fn companion_from(h: Answers, devs: Seq<LoweredDevice>, i: int) -> Seq<(usize, usize, u64)>
    decreases devs.len() - i,
{
    if i < 0 || i >= devs.len() {
        seq![]
    } else {
        companion_of(h, devs[i], 0) + companion_from(h, devs, i + 1)
    }
}

/// The last of the first `i` unknowns with a symbol.
pub open spec fn unknown_at(x: Seq<SymbolId>, s: SymbolId, i: int) -> Option<usize>
    decreases i,
{
    if i <= 0 || i > x.len() {
        None
    } else if x[i - 1] == s {
        Some((i - 1) as usize)
    } else {
        unknown_at(x, s, i - 1)
    }
}

pub open spec fn unknown_opt(x: Seq<SymbolId>, s: Option<SymbolId>) -> Option<usize> {
    match s {
        Some(y) => unknown_at(x, y, x.len() as int),
        None => None,
    }
}

pub open spec fn limits_of(x: Seq<SymbolId>, d: LoweredDevice) -> Seq<Limit> {
    d.frag.limits@.map_values(
        |l: crate::device::FragmentLimit|
            Limit { hi: unknown_opt(x, l.hi), lo: unknown_opt(x, l.lo), kind: l.kind },
    )
}

pub open spec fn limits_from(x: Seq<SymbolId>, devs: Seq<LoweredDevice>, i: int) -> Seq<Limit>
    decreases devs.len() - i,
{
    if i < 0 || i >= devs.len() {
        seq![]
    } else {
        limits_of(x, devs[i]) + limits_from(x, devs, i + 1)
    }
}

// ---------------------------------------------------------------------------
// The whole system.
// ---------------------------------------------------------------------------
/// What a system is assembled from: the hosts, a circuit, its devices, and four
/// times the Boltzmann constant.
pub struct Assembly {
    pub h: Answers,
    pub g: Graph,
    pub c: CircuitView,
    pub devs: Seq<LoweredDevice>,
    pub four_k: u64,
}

/// An expression of the list depends on a symbol.
pub open spec fn mentioned(g: Graph, v: Seq<ExprId>, s: SymbolId) -> bool {
    exists|i: int| 0 <= i < v.len() && g.free(#[trigger] v[i]).contains(s)
}

/// The noise of the resistors: a white generator of density `4 k T / R` each.
pub open spec fn thermal_noise(g: Graph, four_k: u64, r: (Seq<char>, usize, usize)) -> NoiseView {
    NoiseView {
        hi: node_symbol(g, r.1),
        lo: node_symbol(g, r.2),
        psd: g.times(g.times(g.number(four_k), g.sym("$temp"@)), g.recip(value_of(g, r.0))),
        flicker_exp: g.zero(),
        table: seq![],
    }
}

pub open spec fn sources_of(els: Seq<ElementView>, i: int) -> Seq<(Seq<char>, SourceFn)>
    decreases els.len() - i,
{
    if i < 0 || i >= els.len() {
        seq![]
    } else {
        match els[i].source {
            Some(s) => seq![(els[i].name, s)] + sources_of(els, i + 1),
            None => sources_of(els, i + 1),
        }
    }
}

pub open spec fn independent_from(els: Seq<ElementView>, i: int) -> Seq<Seq<char>>
    decreases els.len() - i,
{
    if i < 0 || i >= els.len() {
        seq![]
    } else if els[i].kind == Kind::VoltageSource || els[i].kind == Kind::CurrentSource {
        seq![value_symbol(els[i].name)] + independent_from(els, i + 1)
    } else {
        independent_from(els, i + 1)
    }
}

impl Assembly {
    pub open spec fn wf(self) -> bool {
        forall|i: int| 0 <= i < self.devs.len() ==> (#[trigger] self.devs[i]).wf()
    }

    pub open spec fn n(self) -> usize {
        larger(self.c.max_node, device_top(self.devs, 0))
    }

    pub open spec fn names(self) -> Seq<Seq<char>> {
        branch_names(self.c)
    }

    pub open spec fn branches(self) -> Seq<ElementView> {
        branches_from(self.c.elements, 0)
    }

    pub open spec fn forced(self) -> Seq<BehavioralView> {
        forced_from(self.c.behavioral, 0)
    }

    pub open spec fn extras(self) -> Seq<LoweredUnknown> {
        extras_from(self.devs, 0)
    }

    pub open spec fn no_terms(self) -> Seq<Seq<ExprId>> {
        Seq::new(self.n() as nat, |i: int| Seq::<ExprId>::empty())
    }

    /// The terms of the node equations.
    pub open spec fn node_terms(self) -> Seq<Seq<ExprId>> {
        let a = element_terms(self.g, self.names(), self.c.elements, 0, self.no_terms());
        let b = device_terms(self.h, self.g, self.devs, 0, a);
        behavioral_terms(self.h, self.g, self.names(), self.c.behavioral, 0, b)
    }

    pub open spec fn node_rows(self) -> Seq<ExprId> {
        self.node_terms().map_values(|v: Seq<ExprId>| self.g.sum(v))
    }

    /// The branch equations.
    pub open spec fn constraint_rows(self) -> Seq<ExprId> {
        coupled(
            self.g,
            self.branches(),
            self.c.couplings,
            0,
            branch_rows(self.g, self.names(), self.branches()),
        ) + forced_rows(self.h, self.g, self.names(), self.forced())
    }

    pub open spec fn residuals(self) -> Seq<ExprId> {
        self.node_rows() + self.constraint_rows() + extra_rows(self.devs, 0)
    }

    pub open spec fn unknowns(self) -> Seq<Seq<char>> {
        Seq::new(self.n() as nat, |i: int| "v"@ + decimal((i + 1) as nat)) + self.names().map_values(
            |s: Seq<char>| "i_"@ + s,
        ) + self.extras().map_values(|u: LoweredUnknown| u.name@)
    }

    pub open spec fn kinds(self) -> Seq<UnknownKind> {
        Seq::new(self.n() as nat, |i: int| UnknownKind::NodeVoltage) + Seq::new(
            self.names().len(),
            |i: int| UnknownKind::BranchCurrent,
        ) + self.extras().map_values(|u: LoweredUnknown| u.kind)
    }

    pub open spec fn x(self) -> Seq<SymbolId> {
        Seq::new(self.n() as nat, |i: int| self.g.symbol("v"@ + decimal((i + 1) as nat)))
            + self.names().map_values(|s: Seq<char>| self.g.symbol("i_"@ + s)) + self.extras().map_values(
            |u: LoweredUnknown| u.value_sym,
        )
    }

    /// A node voltage always has a derivative; an inductor current has one; a
    /// device unknown has one where it occurs in a residual.
    pub open spec fn xdot(self) -> Seq<Option<SymbolId>> {
        let rows = self.residuals();
        Seq::new(self.n() as nat, |i: int| Some(self.g.symbol("vdot"@ + decimal((i + 1) as nat))))
            + self.branches().map_values(|e: ElementView| branch_rate(self.g, e)) + self.forced().map_values(
            |b: BehavioralView| None::<SymbolId>,
        ) + self.extras().map_values(
            |u: LoweredUnknown|
                if mentioned(self.g, rows, u.xdot_sym) {
                    Some(u.xdot_sym)
                } else {
                    None
                },
        )
    }

    /// Where the devices' own unknowns begin.
    pub open spec fn extra_base(self) -> int {
        self.n() + self.names().len()
    }

    pub open spec fn noise(self) -> Seq<NoiseView> {
        crate::circuit::resistors_of(self.c.elements).map_values(
            |r: (Seq<char>, usize, usize)| thermal_noise(self.g, self.four_k, r),
        ) + noise_from(self.devs, 0)
    }

    pub open spec fn dae(self) -> DaeView {
        DaeView {
            residuals: self.residuals(),
            unknowns: self.unknowns(),
            kinds: self.kinds(),
            x: self.x(),
            xdot: self.xdot(),
            t: self.g.symbol("t"@),
            n_nodes: self.n(),
            param_defaults: defaults_from(self.devs, 0, Map::empty()),
            events: events_from(self.devs, 0, seq![]),
            delays: delays_from(self.devs, 0, self.extra_base()),
            stamps: stamps_of(self.g, self.residuals(), 0),
            companion: companion_from(self.h, self.devs, 0),
            noise_sources: self.noise(),
            op_vars: op_vars_from(self.devs, 0),
            dc_seeds: seeds_of(self.extras(), 0),
            limits: limits_from(self.x(), self.devs, 0),
            sources: sources_of(self.c.elements, 0),
            source_names: independent_from(self.c.elements, 0),
        }
    }
}

// ---------------------------------------------------------------------------
// Putting it together.
// ---------------------------------------------------------------------------
/// Whether every current-controlled source names an element that has a branch
/// current; only then can the circuit be assembled.
pub fn check_controllers(circuit: &Circuit) -> (r: bool)
    ensures
        r == controllers_known(circuit@),
{
    let elements = circuit.elements();
    let branch = find_branches(elements);
    let forced = find_forced(circuit.behavioral());
    let names = list_branch_names(circuit, &branch, &forced);
    let ghost t = texts(names@);
    for i in 0..elements.len()
        invariant
            element_views(elements@) == circuit@.elements,
            t == texts(names@),
            t == branch_names(circuit@),
            forall|k: int|
                0 <= k < i && ((#[trigger] circuit@.elements[k]).kind == Kind::Cccs || circuit@.elements[k].kind
                    == Kind::Ccvs) && circuit@.elements[k].ctrl_elem is Some ==> last_named(
                    t,
                    circuit@.elements[k].ctrl_elem->0,
                    t.len() as int,
                ) is Some,
    {
        assert(circuit@.elements[i as int] == elements@[i as int]@);
        if elements[i].kind == Kind::Cccs || elements[i].kind == Kind::Ccvs {
            if let Some(n) = &elements[i].ctrl_elem {
                if find_name(&names, n).is_none() {
                    return false;
                }
            }
        }
    }
    true
}

fn scale_currents<F: Fn(Ask) -> Reply, G: Fn(Query) -> Answer>(
    host: &Host<F>,
    al: &Algebra<G>,
    d: &LoweredDevice,
    terms: &mut Vec<Vec<ExprId>>,
)
    requires
        d.wf(),
    ensures
        rows_of(final(terms)@) == terminal_terms(host.answers(), al.graph(), *d, 0, rows_of(old(terms)@)),
{
    let ghost h = host.answers();
    let ghost g = al.graph();
    let ghost goal = terminal_terms(h, g, *d, 0, rows_of(terms@));
    let many: bool = host.compares(Rel::Ne, d.mfactor, ONE);
    for k in 0..d.terminals.len()
        invariant
            d.wf(),
            h == host.answers(),
            g == al.graph(),
            many == compares(h, Rel::Ne, d.mfactor, ONE),
            terminal_terms(h, g, *d, k as int, rows_of(terms@)) == goal,
    {
        let c = d.frag.terminal_currents[k];
        let e = if many {
            al.times(al.number(d.mfactor), c)
        } else {
            c
        };
        add_term(terms, d.terminals[k], e);
    }
}

fn collect_terms<F: Fn(Ask) -> Reply, G: Fn(Query) -> Answer>(
    host: &Host<F>,
    al: &Algebra<G>,
    circuit: &Circuit,
    devs: &Vec<LoweredDevice>,
    names: &Vec<String>,
    n: usize,
    Ghost(a): Ghost<Assembly>,
) -> (r: Vec<Vec<ExprId>>)
    requires
        a.wf(),
        a.h == host.answers(),
        a.g == al.graph(),
        a.c == circuit@,
        a.devs == devs@,
        texts(names@) == a.names(),
        n == a.n(),
    ensures
        rows_of(r@) == a.node_terms(),
{
    let mut terms: Vec<Vec<ExprId>> = Vec::new();
    let mut k: usize = 0;
    while k < n
        invariant
            k <= n,
            rows_of(terms@) =~= Seq::new(k as nat, |i: int| Seq::<ExprId>::empty()),
        decreases n - k,
    {
        let ghost before = rows_of(terms@);
        let row: Vec<ExprId> = Vec::new();
        terms.push(row);
        assert(row@ =~= Seq::<ExprId>::empty());
        assert(rows_of(terms@) =~= before.push(Seq::<ExprId>::empty()));
        k += 1;
    }
    assert(rows_of(terms@) =~= a.no_terms());
    let elements = circuit.elements();
    let ghost goal1 = element_terms(a.g, a.names(), a.c.elements, 0, a.no_terms());
    for i in 0..elements.len()
        invariant
            a.g == al.graph(),
            a.c.elements == element_views(elements@),
            texts(names@) == a.names(),
            element_terms(a.g, a.names(), a.c.elements, i as int, rows_of(terms@)) == goal1,
    {
        assert(a.c.elements[i as int] == elements@[i as int]@);
        let c = element_current(al, names, &elements[i]);
        add_current(al, &mut terms, elements[i].a, elements[i].b, c);
    }
    let ghost goal2 = device_terms(a.h, a.g, a.devs, 0, goal1);
    for i in 0..devs.len()
        invariant
            a.wf(),
            a.h == host.answers(),
            a.g == al.graph(),
            a.devs == devs@,
            device_terms(a.h, a.g, a.devs, i as int, rows_of(terms@)) == goal2,
    {
        assert(a.devs[i as int].wf());
        scale_currents(host, al, &devs[i], &mut terms);
    }
    let behavioral = circuit.behavioral();
    let ghost goal3 = behavioral_terms(a.h, a.g, a.names(), a.c.behavioral, 0, goal2);
    for i in 0..behavioral.len()
        invariant
            a.h == host.answers(),
            a.g == al.graph(),
            a.c.behavioral == behavioral_views(behavioral@),
            texts(names@) == a.names(),
            behavioral_terms(a.h, a.g, a.names(), a.c.behavioral, i as int, rows_of(terms@)) == goal3,
    {
        assert(a.c.behavioral[i as int] == behavioral@[i as int]@);
        let b = &behavioral[i];
        let c = match b.kind {
            BKind::I => translate_bexpr(host, al, names, &b.expr),
            BKind::V => branch_current(al, &b.name),
        };
        add_current(al, &mut terms, b.a, b.b, c);
    }
    terms
}

fn find_inductor(elements: &[Element], branch: &Vec<usize>, key: &str) -> (r: Option<usize>)
    requires
        forall|k: int| 0 <= k < branch@.len() ==> (#[trigger] branch@[k]) < elements@.len(),
    ensures
        match r {
            Some(j) => j < branch@.len() && inductor_row(
                picked(element_views(elements@), branch@),
                key@,
                branch@.len() as int,
            ) == Some(j as int),
            None => inductor_row(picked(element_views(elements@), branch@), key@, branch@.len() as int) is None,
        },
{
    let ghost b = picked(element_views(elements@), branch@);
    let want = to_lower(key);
    let n: usize = branch.len();
    let mut j: usize = n;
    while j > 0
        invariant
            j <= n,
            n == branch@.len(),
            want@ == lower(key@),
            b == picked(element_views(elements@), branch@),
            forall|k: int| 0 <= k < branch@.len() ==> (#[trigger] branch@[k]) < elements@.len(),
            inductor_row(b, key@, j as int) == inductor_row(b, key@, n as int),
        decreases j,
    {
        j -= 1;
        let i: usize = branch[j];
        assert(b[j as int] == elements@[i as int]@);
        if elements[i].kind == Kind::Inductor && to_lower(&elements[i].name) == want {
            return Some(j);
        }
    }
    None
}

fn constrain<F: Fn(Ask) -> Reply, G: Fn(Query) -> Answer>(
    host: &Host<F>,
    al: &Algebra<G>,
    circuit: &Circuit,
    names: &Vec<String>,
    branch: &Vec<usize>,
    forced: &Vec<usize>,
    Ghost(a): Ghost<Assembly>,
) -> (r: Vec<ExprId>)
    requires
        a.h == host.answers(),
        a.g == al.graph(),
        a.c == circuit@,
        texts(names@) == a.names(),
        picked(a.c.elements, branch@) == a.branches(),
        forall|k: int| 0 <= k < branch@.len() ==> (#[trigger] branch@[k]) < a.c.elements.len(),
        picked_sources(a.c.behavioral, forced@) == a.forced(),
        forall|k: int| 0 <= k < forced@.len() ==> (#[trigger] forced@[k]) < a.c.behavioral.len(),
    ensures
        r@ == a.constraint_rows(),
{
    let elements = circuit.elements();
    let behavioral = circuit.behavioral();
    let couplings = circuit.couplings();
    let ghost b = a.branches();
    let ghost rows = branch_rows(a.g, a.names(), b);
    let mut out: Vec<ExprId> = Vec::new();
    for i in 0..branch.len()
        invariant
            a.g == al.graph(),
            a.c.elements == element_views(elements@),
            texts(names@) == a.names(),
            b == picked(a.c.elements, branch@),
            rows == branch_rows(a.g, a.names(), b),
            forall|k: int| 0 <= k < branch@.len() ==> (#[trigger] branch@[k]) < a.c.elements.len(),
            out@ =~= rows.take(i as int),
    {
        let j: usize = branch[i];
        assert(b[i as int] == elements@[j as int]@);
        let e = branch_residual(al, names, &elements[j]);
        out.push(e);
    }
    assert(rows.take(rows.len() as int) =~= rows);
    let ghost goal = coupled(a.g, b, a.c.couplings, 0, rows);
    for i in 0..couplings.len()
        invariant
            a.g == al.graph(),
            a.c.elements == element_views(elements@),
            a.c.couplings == coupling_views(couplings@),
            b == picked(a.c.elements, branch@),
            out@.len() == branch@.len(),
            forall|k: int| 0 <= k < branch@.len() ==> (#[trigger] branch@[k]) < a.c.elements.len(),
            coupled(a.g, b, a.c.couplings, i as int, out@) == goal,
    {
        assert(a.c.couplings[i as int] == couplings@[i as int]@);
        let k = &couplings[i];
        if let Some(x) = find_inductor(elements, branch, &k.l1) {
            if let Some(y) = find_inductor(elements, branch, &k.l2) {
                let root = al.fun1(Fun1::Sqrt, al.times(value_sym(al, &k.l1), value_sym(al, &k.l2)));
                let m = al.times(value_sym(al, &k.name), root);
                let bx: usize = branch[x];
                let by: usize = branch[y];
                assert(b[x as int] == elements@[bx as int]@);
                assert(b[y as int] == elements@[by as int]@);
                let rate_y = al.sym(&concat2("idot_", &elements[by].name));
                let rate_x = al.sym(&concat2("idot_", &elements[bx].name));
                let first = al.minus(out[x], al.times(m, rate_y));
                out.set(x, first);
                let second = al.minus(out[y], al.times(m, rate_x));
                out.set(y, second);
            }
        }
    }
    let ghost more = forced_rows(a.h, a.g, a.names(), a.forced());
    for i in 0..forced.len()
        invariant
            a.h == host.answers(),
            a.g == al.graph(),
            a.c.behavioral == behavioral_views(behavioral@),
            texts(names@) == a.names(),
            picked_sources(a.c.behavioral, forced@) == a.forced(),
            more == forced_rows(a.h, a.g, a.names(), a.forced()),
            forall|k: int| 0 <= k < forced@.len() ==> (#[trigger] forced@[k]) < a.c.behavioral.len(),
            out@ =~= goal + more.take(i as int),
    {
        let j: usize = forced[i];
        assert(a.forced()[i as int] == behavioral@[j as int]@);
        let s = &behavioral[j];
        let dv = al.minus(voltage(al, s.a), voltage(al, s.b));
        let v = translate_bexpr(host, al, names, &s.expr);
        out.push(al.minus(dv, v));
    }
    assert(more.take(more.len() as int) =~= more);
    out
}

/// The unknowns that references stand for.
pub open spec fn seen(v: Seq<&LoweredUnknown>) -> Seq<LoweredUnknown> {
    v.map_values(|u: &LoweredUnknown| *u)
}

fn flat_extras(devs: &Vec<LoweredDevice>) -> (r: Vec<&LoweredUnknown>)
    ensures
        seen(r@) == extras_from(devs@, 0),
{
    let mut out: Vec<&LoweredUnknown> = Vec::new();
    let ghost d = devs@;
    assert(seen(out@) + extras_from(d, 0) =~= extras_from(d, 0));
    for i in 0..devs.len()
        invariant
            d == devs@,
            seen(out@) + extras_from(d, i as int) == extras_from(d, 0),
    {
        let ghost before = seen(out@);
        let ghost all = d[i as int].extras@;
        let own = &devs[i].extras;
        for k in 0..own.len()
            invariant
                all == own@,
                seen(out@) =~= before + all.take(k as int),
        {
            let ghost was = seen(out@);
            let u: &LoweredUnknown = &own[k];
            out.push(u);
            assert(seen(out@) =~= was.push(*u));
        }
        proof {
            assert(all.take(all.len() as int) =~= all);
            let rest = extras_from(d, i + 1);
            assert(before + (all + rest) =~= (before + all) + rest);
        }
    }
    assert(seen(out@) + seq![] =~= seen(out@));
    out
}

fn extra_residuals(devs: &Vec<LoweredDevice>) -> (r: Vec<ExprId>)
    ensures
        r@ == extra_rows(devs@, 0),
{
    let mut out: Vec<ExprId> = Vec::new();
    let ghost d = devs@;
    assert(out@ + extra_rows(d, 0) =~= extra_rows(d, 0));
    for i in 0..devs.len()
        invariant
            d == devs@,
            out@ + extra_rows(d, i as int) == extra_rows(d, 0),
    {
        let ghost before = out@;
        let ghost all = d[i as int].frag.residuals@;
        let own = &devs[i].frag.residuals;
        for k in 0..own.len()
            invariant
                all == own@,
                out@ =~= before + all.take(k as int),
        {
            out.push(own[k]);
        }
        proof {
            assert(all.take(all.len() as int) =~= all);
            let rest = extra_rows(d, i + 1);
            assert(before + (all + rest) =~= (before + all) + rest);
        }
    }
    assert(out@ + seq![] =~= out@);
    out
}

proof fn extras_bound(devs: Seq<LoweredDevice>, i: int)
    ensures
        extras_from(devs, i).len() >= (if 0 <= i < devs.len() {
            devs[i].extras@.len()
        } else {
            0
        }),
        0 <= i < devs.len() ==> extras_from(devs, i).len() == devs[i].extras@.len() + extras_from(devs, i + 1).len(),
{
}

/// Shift the device-relative delays onto the layout whose device unknowns begin
/// at `base`.
fn shift_delays(devs: &Vec<LoweredDevice>, base: usize) -> (r: Vec<DelaySpec>)
    requires
        forall|i: int| 0 <= i < devs@.len() ==> (#[trigger] devs@[i]).wf(),
        base + extras_from(devs@, 0).len() <= usize::MAX,
    ensures
        r@ == delays_from(devs@, 0, base as int),
{
    let mut out: Vec<DelaySpec> = Vec::new();
    let ghost d = devs@;
    let ghost goal = delays_from(d, 0, base as int);
    let mut at: usize = base;
    assert(out@ + goal =~= goal);
    for i in 0..devs.len()
        invariant
            d == devs@,
            forall|k: int| 0 <= k < d.len() ==> (#[trigger] d[k]).wf(),
            at + extras_from(d, i as int).len() <= usize::MAX,
            out@ + delays_from(d, i as int, at as int) == goal,
    {
        proof {
            extras_bound(d, i as int);
        }
        let ghost before = out@;
        let ghost all = shifted_delays(d[i as int], at as int);
        assert(d[i as int].wf());
        let dev = &devs[i];
        for k in 0..dev.delays.len()
            invariant
                dev.wf(),
                at + dev.extras@.len() <= usize::MAX,
                all == shifted_delays(*dev, at as int),
                out@ =~= before + all.take(k as int),
        {
            let l = dev.delays[k];
            out.push(DelaySpec { src: at + l.src_extra, out: at + l.out_extra, hist: l.hist, tau: l.tau });
        }
        proof {
            assert(all.take(all.len() as int) =~= all);
            let rest = delays_from(d, i + 1, at + d[i as int].extras@.len());
            assert(before + (all + rest) =~= (before + all) + rest);
        }
        at = at + devs[i].extras.len();
    }
    assert(out@ + seq![] =~= out@);
    out
}

fn list_seeds(flat: &Vec<&LoweredUnknown>) -> (r: Vec<(String, u64)>)
    ensures
        seed_views(r@) == seeds_of(seen(flat@), 0),
{
    let ghost v = seen(flat@);
    let mut out: Vec<(String, u64)> = Vec::new();
    assert(seed_views(out@) + seeds_of(v, 0) =~= seeds_of(v, 0));
    for i in 0..flat.len()
        invariant
            v == seen(flat@),
            seed_views(out@) + seeds_of(v, i as int) == seeds_of(v, 0),
    {
        assert(v[i as int] == *flat@[i as int]);
        if let Some(s) = flat[i].dc_seed {
            let ghost before = seed_views(out@);
            let n = flat[i].name.clone();
            out.push((n, s));
            proof {
                let rest = seeds_of(v, i + 1);
                assert(seed_views(out@) =~= before.push((n@, s)));
                assert(before.push((n@, s)) + rest =~= before + (seq![(n@, s)] + rest));
            }
        }
    }
    assert(seed_views(out@) + seq![] =~= seed_views(out@));
    out
}

fn list_events(devs: &Vec<LoweredDevice>) -> (r: Vec<EventSpec>)
    ensures
        event_views(r@) == events_from(devs@, 0, seq![]),
{
    let ghost d = devs@;
    let mut out: Vec<EventSpec> = Vec::new();
    assert(event_views(out@) =~= seq![]);
    for i in 0..devs.len()
        invariant
            d == devs@,
            events_from(d, i as int, event_views(out@)) == events_from(d, 0, seq![]),
    {
        let dev = &devs[i];
        let ghost goal = events_of(*dev, 0, event_views(out@));
        for k in 0..dev.frag.events.len()
            invariant
                events_of(*dev, k as int, event_views(out@)) == goal,
        {
            let ghost before = event_views(out@);
            let e = dev.frag.events[k];
            let owner: String = match &dev.instance {
                Some(n) => n.clone(),
                None => concat2("device", &decimal_text(out.len() as u64)),
            };
            assert(owner@ == event_owner(*dev, before.len() as int));
            let name = concat3(&owner, "#", &decimal_text(k as u64));
            out.push(EventSpec { g: e.g, dir: e.dir, name });
            assert(event_views(out@) =~= before.push(EventView { g: e.g, dir: e.dir, name: name@ }));
        }
    }
    out
}

fn list_defaults(devs: &Vec<LoweredDevice>) -> (r: SymbolTable)
    ensures
        symbol_entries(r) == defaults_from(devs@, 0, Map::empty()),
{
    let ghost d = devs@;
    let mut out = symbol_table_new();
    for i in 0..devs.len()
        invariant
            d == devs@,
            defaults_from(d, i as int, symbol_entries(out)) == defaults_from(d, 0, Map::empty()),
    {
        let ghost before = symbol_entries(out);
        let v = &devs[i].frag.param_syms;
        for k in 0..v.len()
            invariant
                defaults_of(v@, k as int, symbol_entries(out)) == defaults_of(v@, 0, before),
        {
            if let Some(x) = v[k].1 {
                symbol_table_insert(&mut out, v[k].0.0, x);
            }
        }
    }
    out
}

fn add_conductance<F: Fn(Ask) -> Reply>(
    host: &Host<F>,
    a: usize,
    b: usize,
    g: u64,
    out: &mut Vec<(usize, usize, u64)>,
)
    ensures
        final(out)@ == old(out)@ + conductance_entries(host.answers(), a, b, g),
{
    let ghost before = out@;
    if a != 0 {
        out.push((a - 1, a - 1, g));
    }
    if b != 0 {
        out.push((b - 1, b - 1, g));
    }
    if a != 0 && b != 0 {
        let n: u64 = host.apply1(Op1::Neg, g);
        out.push((a - 1, b - 1, n));
        out.push((b - 1, a - 1, n));
    }
    assert(out@ =~= before + conductance_entries(host.answers(), a, b, g));
}

fn list_companion<F: Fn(Ask) -> Reply>(host: &Host<F>, devs: &Vec<LoweredDevice>) -> (r: Vec<(usize, usize, u64)>)
    requires
        forall|i: int| 0 <= i < devs@.len() ==> (#[trigger] devs@[i]).wf(),
    ensures
        r@ == companion_from(host.answers(), devs@, 0),
{
    let ghost d = devs@;
    let ghost h = host.answers();
    let mut out: Vec<(usize, usize, u64)> = Vec::new();
    assert(out@ + companion_from(h, d, 0) =~= companion_from(h, d, 0));
    for i in 0..devs.len()
        invariant
            d == devs@,
            h == host.answers(),
            forall|k: int| 0 <= k < d.len() ==> (#[trigger] d[k]).wf(),
            out@ + companion_from(h, d, i as int) == companion_from(h, d, 0),
    {
        let ghost before = out@;
        let dev = &devs[i];
        assert(d[i as int].wf());
        assert(out@ + companion_of(h, *dev, 0) =~= before + companion_of(h, *dev, 0));
        for k in 0..dev.companion.len()
            invariant
                h == host.answers(),
                dev.wf(),
                out@ + companion_of(h, *dev, k as int) == before + companion_of(h, *dev, 0),
        {
            let ghost was = out@;
            let (p, q, g) = dev.companion[k];
            assert(dev.companion@[k as int].0 < dev.terminals@.len());
            add_conductance(host, dev.terminals[p], dev.terminals[q], g, &mut out);
            proof {
                let here = conductance_entries(h, dev.terminals@[p as int], dev.terminals@[q as int], g);
                let rest = companion_of(h, *dev, k + 1);
                assert(was + (here + rest) =~= (was + here) + rest);
            }
        }
        proof {
            assert(out@ + seq![] =~= out@);
            let rest = companion_from(h, d, i + 1);
            let all = companion_of(h, *dev, 0);
            assert(before + (all + rest) =~= (before + all) + rest);
        }
    }
    assert(out@ + seq![] =~= out@);
    out
}

fn list_noise<G: Fn(Query) -> Answer>(
    al: &Algebra<G>,
    circuit: &Circuit,
    devs: &Vec<LoweredDevice>,
    four_k: u64,
    Ghost(a): Ghost<Assembly>,
) -> (r: Vec<NoiseSource>)
    requires
        a.g == al.graph(),
        a.c == circuit@,
        a.devs == devs@,
        a.four_k == four_k,
    ensures
        noise_views(r@) == a.noise(),
{
    let rs = circuit.resistors();
    let coeff = al.times(al.number(four_k), al.sym("$temp"));
    let zero = al.zero();
    let ghost own = crate::circuit::resistors_of(a.c.elements).map_values(
        |r: (Seq<char>, usize, usize)| thermal_noise(a.g, a.four_k, r),
    );
    let mut out: Vec<NoiseSource> = Vec::new();
    for i in 0..rs.len()
        invariant
            a.g == al.graph(),
            a.four_k == four_k,
            crate::circuit::resistor_views(rs@) == crate::circuit::resistors_of(a.c.elements),
            coeff == a.g.times(a.g.number(four_k), a.g.sym("$temp"@)),
            zero == a.g.zero(),
            own == crate::circuit::resistors_of(a.c.elements).map_values(
                |r: (Seq<char>, usize, usize)| thermal_noise(a.g, a.four_k, r),
            ),
            noise_views(out@) =~= own.take(i as int),
    {
        assert(crate::circuit::resistor_views(rs@)[i as int] == (rs@[i as int].0@, rs@[i as int].1, rs@[i as int].2));
        let ghost before = noise_views(out@);
        let psd = al.times(coeff, al.recip(value_sym(al, &rs[i].0)));
        let s = NoiseSource {
            hi: voltage_symbol(al, rs[i].1),
            lo: voltage_symbol(al, rs[i].2),
            psd,
            flicker_exp: zero,
            table: Vec::new(),
        };
        assert(s@.table =~= seq![]);
        assert(s@ == own[i as int]);
        out.push(s);
        assert(noise_views(out@) =~= before.push(own[i as int]));
    }
    assert(own.take(own.len() as int) =~= own);
    let ghost d = devs@;
    assert(noise_views(out@) + noise_from(d, 0) =~= a.noise());
    for i in 0..devs.len()
        invariant
            d == devs@,
            noise_views(out@) + noise_from(d, i as int) == a.noise(),
    {
        let ghost before = noise_views(out@);
        let v = &devs[i].frag.noise;
        let ghost all = noise_views(v@);
        for k in 0..v.len()
            invariant
                all == noise_views(v@),
                noise_views(out@) =~= before + all.take(k as int),
        {
            let ghost was = noise_views(out@);
            let c = copy_noise(&v[k]);
            out.push(c);
            assert(noise_views(out@) =~= was.push(all[k as int]));
        }
        proof {
            assert(all.take(all.len() as int) =~= all);
            let rest = noise_from(d, i + 1);
            assert(before + (all + rest) =~= (before + all) + rest);
        }
    }
    assert(noise_views(out@) + seq![] =~= noise_views(out@));
    out
}

fn list_op_vars(devs: &Vec<LoweredDevice>) -> (r: Vec<OpVar>)
    ensures
        op_views(r@) == op_vars_from(devs@, 0),
{
    let ghost d = devs@;
    let mut out: Vec<OpVar> = Vec::new();
    assert(op_views(out@) + op_vars_from(d, 0) =~= op_vars_from(d, 0));
    for i in 0..devs.len()
        invariant
            d == devs@,
            op_views(out@) + op_vars_from(d, i as int) == op_vars_from(d, 0),
    {
        let ghost before = op_views(out@);
        let v = &devs[i].frag.op_vars;
        let ghost all = op_views(v@);
        for k in 0..v.len()
            invariant
                all == op_views(v@),
                op_views(out@) =~= before + all.take(k as int),
        {
            let ghost was = op_views(out@);
            let c = op_var_with(&v[k], v[k].value);
            out.push(c);
            assert(op_views(out@) =~= was.push(all[k as int]));
        }
        proof {
            assert(all.take(all.len() as int) =~= all);
            let rest = op_vars_from(d, i + 1);
            assert(before + (all + rest) =~= (before + all) + rest);
        }
    }
    assert(op_views(out@) + seq![] =~= op_views(out@));
    out
}

fn find_unknown(x: &Vec<SymbolId>, s: Option<SymbolId>) -> (r: Option<usize>)
    ensures
        r == unknown_opt(x@, s),
{
    match s {
        None => None,
        Some(y) => {
            let n: usize = x.len();
            let mut i: usize = n;
            while i > 0
                invariant
                    i <= n,
                    n == x@.len(),
                    s == Some(y),
                    unknown_at(x@, y, i as int) == unknown_at(x@, y, n as int),
                decreases i,
            {
                i -= 1;
                if x[i] == y {
                    return Some(i);
                }
            }
            None
        },
    }
}

fn list_limits(x: &Vec<SymbolId>, devs: &Vec<LoweredDevice>) -> (r: Vec<Limit>)
    ensures
        r@ == limits_from(x@, devs@, 0),
{
    let ghost d = devs@;
    let mut out: Vec<Limit> = Vec::new();
    assert(out@ + limits_from(x@, d, 0) =~= limits_from(x@, d, 0));
    for i in 0..devs.len()
        invariant
            d == devs@,
            out@ + limits_from(x@, d, i as int) == limits_from(x@, d, 0),
    {
        let ghost before = out@;
        let dev = &devs[i];
        let ghost all = limits_of(x@, *dev);
        for k in 0..dev.frag.limits.len()
            invariant
                all == limits_of(x@, *dev),
                out@ =~= before + all.take(k as int),
        {
            let l = dev.frag.limits[k];
            out.push(Limit { hi: find_unknown(x, l.hi), lo: find_unknown(x, l.lo), kind: l.kind });
        }
        proof {
            assert(all.take(all.len() as int) =~= all);
            let rest = limits_from(x@, d, i + 1);
            assert(before + (all + rest) =~= (before + all) + rest);
        }
    }
    assert(out@ + seq![] =~= out@);
    out
}

fn list_sources(elements: &[Element]) -> (r: Vec<(String, SourceFn)>)
    ensures
        shape_views(r@) == sources_of(element_views(elements@), 0),
{
    let ghost els = element_views(elements@);
    let mut out: Vec<(String, SourceFn)> = Vec::new();
    assert(shape_views(out@) + sources_of(els, 0) =~= sources_of(els, 0));
    for i in 0..elements.len()
        invariant
            els == element_views(elements@),
            shape_views(out@) + sources_of(els, i as int) == sources_of(els, 0),
    {
        assert(els[i as int] == elements@[i as int]@);
        if let Some(s) = elements[i].source {
            let ghost before = shape_views(out@);
            let n = elements[i].name.clone();
            out.push((n, s));
            proof {
                let rest = sources_of(els, i + 1);
                assert(shape_views(out@) =~= before.push((n@, s)));
                assert(before.push((n@, s)) + rest =~= before + (seq![(n@, s)] + rest));
            }
        }
    }
    assert(shape_views(out@) + seq![] =~= shape_views(out@));
    out
}

fn list_independent(elements: &[Element]) -> (r: Vec<String>)
    ensures
        texts(r@) == independent_from(element_views(elements@), 0),
{
    let ghost els = element_views(elements@);
    let mut out: Vec<String> = Vec::new();
    assert(texts(out@) + independent_from(els, 0) =~= independent_from(els, 0));
    for i in 0..elements.len()
        invariant
            els == element_views(elements@),
            texts(out@) + independent_from(els, i as int) == independent_from(els, 0),
    {
        assert(els[i as int] == elements@[i as int]@);
        if elements[i].kind == Kind::VoltageSource || elements[i].kind == Kind::CurrentSource {
            let ghost before = texts(out@);
            let n = value_symbol_name(&elements[i].name);
            out.push(n);
            proof {
                let rest = independent_from(els, i + 1);
                assert(texts(out@) =~= before.push(n@));
                assert(before.push(n@) + rest =~= before + (seq![n@] + rest));
            }
        }
    }
    assert(texts(out@) + seq![] =~= texts(out@));
    out
}

pub(crate) fn is_mentioned<G: Fn(Query) -> Answer>(al: &Algebra<G>, v: &Vec<ExprId>, s: SymbolId) -> (r: bool)
    ensures
        r == mentioned(al.graph(), v@, s),
{
    for i in 0..v.len()
        invariant
            forall|k: int| 0 <= k < i ==> !al.graph().free(#[trigger] v@[k]).contains(s),
    {
        let f = al.free_symbols(v[i]);
        for j in 0..f.len()
            invariant
                0 <= i < v@.len(),
                f@ == al.graph().free(v@[i as int]),
                forall|k: int| 0 <= k < j ==> f@[k] != s,
        {
            if f[j] == s {
                assert(al.graph().free(v@[i as int]).contains(s));
                return true;
            }
        }
        assert(!f@.contains(s));
    }
    false
}

/// Assemble the system of a circuit and its devices. `four_k` is four times the
/// Boltzmann constant.
#[verifier::rlimit(60)]
pub fn assemble_dae<F: Fn(Ask) -> Reply, G: Fn(Query) -> Answer>(
    host: &Host<F>,
    al: &Algebra<G>,
    circuit: &Circuit,
    devices: &Vec<LoweredDevice>,
    four_k: u64,
) -> (r: Dae)
    requires
        controllers_known(circuit@),
        forall|i: int| 0 <= i < devices@.len() ==> (#[trigger] devices@[i]).wf(),
    ensures
        r@ == (Assembly {
            h: host.answers(),
            g: al.graph(),
            c: circuit@,
            devs: devices@,
            four_k,
        }).dae(),
        r@.wf(),
{
    let ghost a = Assembly { h: host.answers(), g: al.graph(), c: circuit@, devs: devices@, four_k };
    let n: usize = larger_of(circuit.node_count(), top_device(devices));
    let elements = circuit.elements();
    let branch = find_branches(elements);
    let forced = find_forced(circuit.behavioral());
    let names = list_branch_names(circuit, &branch, &forced);
    let terms = collect_terms(host, al, circuit, devices, &names, n, Ghost(a));
    let mut rows = constrain(host, al, circuit, &names, &branch, &forced, Ghost(a));
    let mut extra = extra_residuals(devices);
    let flat = flat_extras(devices);
    let mut residuals: Vec<ExprId> = Vec::new();
    let ghost node_rows = a.node_rows();
    for i in 0..terms.len()
        invariant
            rows_of(terms@) == a.node_terms(),
            a.g == al.graph(),
            node_rows == a.node_rows(),
            residuals@ =~= node_rows.take(i as int),
    {
        assert(a.node_terms()[i as int] == terms@[i as int]@);
        residuals.push(al.sum(&terms[i]));
    }
    assert(node_rows.take(node_rows.len() as int) =~= node_rows);
    residuals.append(&mut rows);
    residuals.append(&mut extra);
    assert(residuals@ =~= a.residuals());
    let stamps = stamps_from_residuals(al, &residuals);
    let mut unknowns: Vec<String> = Vec::new();
    let mut kinds: Vec<UnknownKind> = Vec::new();
    let mut x: Vec<SymbolId> = Vec::new();
    let mut xdot: Vec<Option<SymbolId>> = Vec::new();
    let ghost u = a.unknowns();
    let ghost ks = a.kinds();
    let ghost xs = a.x();
    let ghost ds = a.xdot();
    let mut k: usize = 0;
    while k < n
        invariant
            k <= n,
            n == a.n(),
            a.g == al.graph(),
            u == a.unknowns(),
            ks == a.kinds(),
            xs == a.x(),
            ds == a.xdot(),
            texts(unknowns@) =~= u.take(k as int),
            kinds@ =~= ks.take(k as int),
            x@ =~= xs.take(k as int),
            xdot@ =~= ds.take(k as int),
        decreases n - k,
    {
        let ghost before = texts(unknowns@);
        let num = decimal_text((k + 1) as u64);
        let name = concat2("v", &num);
        x.push(al.symbol(&name));
        xdot.push(Some(al.symbol(&concat2("vdot", &num))));
        unknowns.push(name);
        kinds.push(UnknownKind::NodeVoltage);
        assert(texts(unknowns@) =~= before.push(u[k as int]));
        k += 1;
    }
    let nb: usize = branch.len();
    for i in 0..names.len()
        invariant
            n == a.n(),
            a.g == al.graph(),
            a.c.elements == element_views(elements@),
            u == a.unknowns(),
            ks == a.kinds(),
            xs == a.x(),
            ds == a.xdot(),
            texts(names@) == a.names(),
            nb == branch@.len(),
            nb == a.branches().len(),
            a.names().len() == a.branches().len() + a.forced().len(),
            picked(a.c.elements, branch@) == a.branches(),
            forall|k: int| 0 <= k < branch@.len() ==> (#[trigger] branch@[k]) < a.c.elements.len(),
            texts(unknowns@) =~= u.take(n + i),
            kinds@ =~= ks.take(n + i),
            x@ =~= xs.take(n + i),
            xdot@ =~= ds.take(n + i),
    {
        let ghost before = texts(unknowns@);
        assert(a.names()[i as int] == names@[i as int]@);
        let name = concat2("i_", &names[i]);
        x.push(al.symbol(&name));
        if i < nb {
            let j: usize = branch[i];
            assert(a.branches()[i as int] == elements@[j as int]@);
            let slot = if elements[j].kind == Kind::Inductor {
                Some(al.symbol(&concat2("idot_", &elements[j].name)))
            } else {
                None
            };
            xdot.push(slot);
            assert(ds[n + i] == branch_rate(a.g, a.branches()[i as int]));
        } else {
            xdot.push(None);
            assert(ds[n + i] == None::<SymbolId>);
        }
        unknowns.push(name);
        kinds.push(UnknownKind::BranchCurrent);
        assert(texts(unknowns@) =~= before.push(u[n + i]));
    }
    let ghost m: int = n + a.names().len();
    let base: usize = x.len();
    for i in 0..flat.len()
        invariant
            m == a.extra_base(),
            n == a.n(),
            a.g == al.graph(),
            u == a.unknowns(),
            ks == a.kinds(),
            xs == a.x(),
            ds == a.xdot(),
            a.names().len() == a.branches().len() + a.forced().len(),
            seen(flat@) == a.extras(),
            residuals@ == a.residuals(),
            texts(unknowns@) =~= u.take(m + i),
            kinds@ =~= ks.take(m + i),
            x@ =~= xs.take(m + i),
            xdot@ =~= ds.take(m + i),
    {
        let ghost before = texts(unknowns@);
        let e = flat[i];
        assert(a.extras()[i as int] == *e);
        x.push(e.value_sym);
        let slot = if is_mentioned(al, &residuals, e.xdot_sym) {
            Some(e.xdot_sym)
        } else {
            None
        };
        xdot.push(slot);
        unknowns.push(e.name.clone());
        kinds.push(e.kind);
        assert(ds[m + i] == slot);
        assert(texts(unknowns@) =~= before.push(u[m + i]));
    }
    assert(u.take(u.len() as int) =~= u);
    assert(ks.take(ks.len() as int) =~= ks);
    assert(xs.take(xs.len() as int) =~= xs);
    assert(ds.take(ds.len() as int) =~= ds);
    let total: usize = x.len();
    let delays = shift_delays(devices, base);
    let dc_seeds = list_seeds(&flat);
    let limits = list_limits(&x, devices);
    proof {
        a.lengths();
        stamps_have_rows(a.g, a.residuals(), 0);
    }
    Dae {
        residuals,
        unknowns,
        kinds,
        x,
        xdot,
        t: al.symbol("t"),
        n_nodes: n,
        param_defaults: list_defaults(devices),
        events: list_events(devices),
        delays,
        stamps,
        companion: list_companion(host, devices),
        noise_sources: list_noise(al, circuit, devices, four_k, Ghost(a)),
        op_vars: list_op_vars(devices),
        dc_seeds,
        limits,
        sources: list_sources(elements),
        source_names: list_independent(elements),
    }
}

pub(crate) proof fn element_terms_len(g: Graph, names: Seq<Seq<char>>, els: Seq<ElementView>, i: int, terms: Seq<Seq<ExprId>>)
    ensures
        element_terms(g, names, els, i, terms).len() == terms.len(),
    decreases els.len() - i,
{
    if 0 <= i < els.len() {
        let e = els[i];
        element_terms_len(g, names, els, i + 1, with_current(g, terms, e.a, e.b, current_through(g, names, e)));
    }
}

pub(crate) proof fn terminal_terms_len(h: Answers, g: Graph, d: LoweredDevice, k: int, terms: Seq<Seq<ExprId>>)
    ensures
        terminal_terms(h, g, d, k, terms).len() == terms.len(),
    decreases d.terminals@.len() - k,
{
    if 0 <= k < d.terminals@.len() {
        terminal_terms_len(h, g, d, k + 1, with_term(terms, d.terminals@[k], terminal_current(h, g, d, k)));
    }
}

pub(crate) proof fn device_terms_len(h: Answers, g: Graph, devs: Seq<LoweredDevice>, i: int, terms: Seq<Seq<ExprId>>)
    ensures
        device_terms(h, g, devs, i, terms).len() == terms.len(),
    decreases devs.len() - i,
{
    if 0 <= i < devs.len() {
        terminal_terms_len(h, g, devs[i], 0, terms);
        device_terms_len(h, g, devs, i + 1, terminal_terms(h, g, devs[i], 0, terms));
    }
}

pub(crate) proof fn behavioral_terms_len(
    h: Answers,
    g: Graph,
    names: Seq<Seq<char>>,
    b: Seq<BehavioralView>,
    i: int,
    terms: Seq<Seq<ExprId>>,
)
    ensures
        behavioral_terms(h, g, names, b, i, terms).len() == terms.len(),
    decreases b.len() - i,
{
    if 0 <= i < b.len() {
        behavioral_terms_len(
            h,
            g,
            names,
            b,
            i + 1,
            with_current(g, terms, b[i].a, b[i].b, forced_current(h, g, names, b[i])),
        );
    }
}

proof fn inductor_row_in(b: Seq<ElementView>, key: Seq<char>, j: int)
    ensures
        inductor_row(b, key, j) matches Some(k) ==> 0 <= k < b.len(),
    decreases j,
{
    if 0 < j <= b.len() {
        inductor_row_in(b, key, j - 1);
    }
}

proof fn coupled_len(g: Graph, b: Seq<ElementView>, ks: Seq<CouplingView>, i: int, rows: Seq<ExprId>)
    requires
        rows.len() == b.len(),
    ensures
        coupled(g, b, ks, i, rows).len() == rows.len(),
    decreases ks.len() - i,
{
    if 0 <= i < ks.len() {
        inductor_row_in(b, ks[i].l1, b.len() as int);
        inductor_row_in(b, ks[i].l2, b.len() as int);
        coupled_len(g, b, ks, i + 1, with_coupling(g, b, rows, ks[i]));
    }
}

proof fn extras_len(devs: Seq<LoweredDevice>, i: int)
    requires
        forall|k: int| 0 <= k < devs.len() ==> (#[trigger] devs[k]).wf(),
    ensures
        extras_from(devs, i).len() == extra_rows(devs, i).len(),
    decreases devs.len() - i,
{
    if 0 <= i < devs.len() {
        assert(devs[i].wf());
        extras_len(devs, i + 1);
    }
}

impl Assembly {
    /// There is one equation, name, kind, symbol and derivative slot per unknown:
    /// the nodes, the branches, the devices' own.
    pub proof fn lengths(self)
        requires
            self.wf(),
        ensures
            self.residuals().len() == self.x().len(),
            self.unknowns().len() == self.x().len(),
            self.kinds().len() == self.x().len(),
            self.xdot().len() == self.x().len(),
            self.x().len() == self.n() + self.branches().len() + self.forced().len() + self.extras().len(),
    {
        let names = self.names();
        let a = element_terms(self.g, names, self.c.elements, 0, self.no_terms());
        element_terms_len(self.g, names, self.c.elements, 0, self.no_terms());
        device_terms_len(self.h, self.g, self.devs, 0, a);
        behavioral_terms_len(
            self.h,
            self.g,
            names,
            self.c.behavioral,
            0,
            device_terms(self.h, self.g, self.devs, 0, a),
        );
        coupled_len(
            self.g,
            self.branches(),
            self.c.couplings,
            0,
            branch_rows(self.g, names, self.branches()),
        );
        extras_len(self.devs, 0);
    }
}

/// Charge is conserved: the current of an element enters the equation of its
/// first node as it is and that of its second node negated, and touches no other
/// equation.
pub proof fn current_leaves_one_node_and_enters_the_other(
    g: Graph,
    terms: Seq<Seq<ExprId>>,
    a: usize,
    b: usize,
    c: ExprId,
)
    requires
        1 <= a <= terms.len(),
        1 <= b <= terms.len(),
        a != b,
    ensures
        with_current(g, terms, a, b, c).len() == terms.len(),
        with_current(g, terms, a, b, c)[a - 1] == terms[a - 1].push(c),
        with_current(g, terms, a, b, c)[b - 1] == terms[b - 1].push(g.neg(c)),
        forall|k: int|
            0 <= k < terms.len() && k != a - 1 && k != b - 1 ==> (#[trigger] with_current(g, terms, a, b, c)[k])
                == terms[k],
{
}

} // verus!

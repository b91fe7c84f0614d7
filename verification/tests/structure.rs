//! Circuits, their index, module topologies, and written-out equations.
use sane::circuit::{value_symbol_name, Circuit, Kind};
use sane::export::{is_state, latex_expr, theme, Tree};
use sane::forest::Forest;
use sane::index2::detect;
use sane::numerics::Rel;
use sane::osdi::lower::{registration, slot_count};
use sane::osdi::module::{check_init, check_library, stop_requested, BindStep, OsdiInitError, OsdiInitInfo, OsdiModule, OsdiParam};
use sane::osdi::topology::{OsdiJacobianEntry, OsdiNodePair, OsdiNoise, Report, GROUND};
use sane::paths::{path_between, Adjacency};
use sane::scripting::{check_inputs, check_params, check_port_data, kind_name, path_names, port_labels};
use sane::source_fn::SourceFn;

// ---------------------------------------------------------------------------
// Index-2 topologies.
// ---------------------------------------------------------------------------
fn cv_circuit() -> Circuit {
    // V1-C1-C2 close a loop
    let mut c = Circuit::new();
    c.voltage_source("V1", 1, 0);
    c.resistor("R1", 1, 0);
    c.resistor("R2", 2, 0);
    c.capacitor("C1", 1, 2);
    c.capacitor("C2", 2, 0);
    c
}

#[test]
fn detects_a_capacitor_source_loop() {
    let r = detect(&cv_circuit(), &[]);
    assert!(r.is_index2());
    assert_eq!(r.cv_loops.len(), 1);
    assert_eq!(r.cv_loops[0].source, "V1");
    let mut st = r.cv_loops[0].storage.clone();
    st.sort();
    assert_eq!(st, vec!["C1", "C2"]);
    assert!(r.li_cutsets.is_empty());
}

#[test]
fn a_capacitor_straight_across_a_source_is_a_loop() {
    let mut c = Circuit::new();
    c.voltage_source("V1", 1, 0);
    c.resistor("R1", 1, 0);
    c.capacitor("C1", 1, 0);
    let r = detect(&c, &[]);
    assert_eq!(r.cv_loops.len(), 1);
    assert_eq!(r.cv_loops[0].source, "V1");
    assert_eq!(r.cv_loops[0].storage, vec!["C1"]);
    assert_eq!(path_names(&r.cv_loops[0]), vec!["V1", "C1"]);
}

#[test]
fn a_resistor_in_the_loop_breaks_it() {
    let mut c = Circuit::new();
    c.voltage_source("V1", 1, 0);
    c.resistor("R1", 1, 0);
    c.resistor("R2", 2, 0);
    c.capacitor("C1", 1, 3);
    c.resistor("Rx", 3, 2);
    c.capacitor("C2", 2, 0);
    assert!(!detect(&c, &[]).is_index2());
}

#[test]
fn detects_an_inductor_current_source_cutset() {
    // I1 drives a node reachable only through L1: {I1, L1} is a cutset
    let mut c = Circuit::new();
    c.current_source("I1", 0, 1);
    c.inductor("L1", 1, 2);
    c.resistor("R2", 2, 0);
    let r = detect(&c, &[]);
    assert_eq!(r.li_cutsets.len(), 1);
    assert_eq!(r.li_cutsets[0].source, "I1");
    assert_eq!(r.li_cutsets[0].storage, vec!["L1"]);
}

#[test]
fn a_cutset_need_not_cross_one_pair_of_components() {
    // {I1, L1} cuts node 1 off, though L2 closes the ring behind it.
    let mut c = Circuit::new();
    c.current_source("I1", 0, 1);
    c.inductor("L1", 1, 2);
    c.inductor("L2", 2, 0);
    let r = detect(&c, &[]);
    assert!(r.is_index2());
    let named: Vec<String> = r.li_cutsets.iter().map(|p| format!("{} {}", p.source, p.storage.join(" "))).collect();
    assert_eq!(named, vec!["I1 L2", "I1 L1"], "ground and node 1 are each cut off by the source and an inductor");
}

#[test]
fn a_cutset_may_hold_several_inductors() {
    // Node 1 hangs on I1, L1 and L2 alone; each far end leads back to ground.
    let mut c = Circuit::new();
    c.current_source("I1", 0, 1);
    c.inductor("L1", 1, 2);
    c.inductor("L2", 1, 3);
    c.resistor("R2", 2, 0);
    c.resistor("R3", 3, 0);
    let r = detect(&c, &[]);
    assert_eq!(r.li_cutsets.len(), 1);
    assert_eq!(r.li_cutsets[0].source, "I1");
    assert_eq!(r.li_cutsets[0].storage, vec!["L1", "L2"]);
}

#[test]
fn no_cutset_spans_two_blocks() {
    // The inductor and the source hang on one node but no cut needs both.
    let mut c = Circuit::new();
    c.current_source("I1", 1, 2);
    c.inductor("L1", 1, 0);
    assert!(detect(&c, &[]).li_cutsets.is_empty());
    // Two rings that meet in one node: inductors here, sources there.
    let mut d = Circuit::new();
    d.inductor("L1", 0, 1);
    d.inductor("L2", 1, 0);
    d.current_source("I1", 0, 2);
    d.current_source("I2", 2, 0);
    assert!(detect(&d, &[]).li_cutsets.is_empty());
}

#[test]
fn devices_change_no_loop() {
    let c = cv_circuit();
    let dev = vec![vec![1usize, 2], vec![2usize, 0]];
    let named = |d: &[Vec<usize>]| -> Vec<String> { detect(&c, d).cv_loops.iter().map(|p| p.describe()).collect() };
    assert_eq!(named(&dev), named(&[]));
    assert_eq!(named(&dev).len(), 1);
}

#[test]
fn the_first_of_the_shortest_routes_is_named() {
    // Two capacitors side by side: the earlier one closes the loop.
    let mut c = Circuit::new();
    c.capacitor("C1", 1, 0);
    c.capacitor("C2", 1, 0);
    c.voltage_source("V1", 1, 0);
    let r = detect(&c, &[]);
    assert_eq!(r.cv_loops.len(), 1);
    assert_eq!(r.cv_loops[0].storage, vec!["C1"]);
}

#[test]
fn a_shortest_path_needs_no_order_of_the_edges() {
    // 0 -9- 1 -2- 2 -7- 3, a short cut 0 -8- 2, and node 4 apart. Edges in any order.
    let adj: Adjacency = vec![
        vec![(1, 9), (2, 8)],
        vec![(2, 2), (0, 9)],
        vec![(3, 7), (0, 8), (1, 2)],
        vec![(2, 7)],
        vec![],
    ];
    assert_eq!(path_between(&adj, 0, 3), vec![8, 7]);
    assert_eq!(path_between(&adj, 3, 0), vec![7, 8]);
    assert_eq!(path_between(&adj, 1, 3), vec![2, 7]);
    assert!(path_between(&adj, 2, 2).is_empty());
    assert!(path_between(&adj, 0, 4).is_empty());
}

#[test]
fn a_resistor_across_the_cutset_breaks_it() {
    let mut c = Circuit::new();
    c.current_source("I1", 0, 1);
    c.inductor("L1", 1, 2);
    c.resistor("R1", 1, 0); // gives the source a path around the inductor
    c.resistor("R2", 2, 0);
    assert!(!detect(&c, &[]).is_index2());
}

#[test]
fn a_device_breaks_a_cutset() {
    let mut c = Circuit::new();
    c.current_source("I0", 0, 1);
    c.inductor("L1", 1, 2);
    c.resistor("R2", 2, 0);
    assert_eq!(detect(&c, &[]).li_cutsets.len(), 1, "without a bypass it is a cutset");
    let dev = vec![vec![1usize, 0]]; // a device conducting from node 1 to ground
    assert!(detect(&c, &dev).li_cutsets.is_empty(), "the device gives the source a path around the inductor");
}

#[test]
fn a_current_source_cutset_without_an_inductor_is_not_index_2() {
    let mut c = Circuit::new();
    c.current_source("I1", 0, 1);
    c.resistor("R1", 2, 0);
    assert!(detect(&c, &[]).li_cutsets.is_empty());
}

#[test]
fn a_plain_rc_lowpass_is_index_1() {
    let mut c = Circuit::new();
    c.voltage_source("V1", 1, 0);
    c.resistor("R1", 1, 2);
    c.capacitor("C1", 2, 0);
    assert!(!detect(&c, &[]).is_index2());
}

#[test]
fn a_report_describes_what_it_found() {
    let r = detect(&cv_circuit(), &[]);
    let s = r.summary();
    assert!(s.contains("capacitor/voltage-source loop ("), "{}", s);
    assert!(r.cv_loops[0].describe().contains("V1"), "{}", r.cv_loops[0].describe());
}

// ---------------------------------------------------------------------------
// Circuits.
// ---------------------------------------------------------------------------
#[test]
fn builders_record_elements_and_nodes() {
    let mut c = Circuit::new();
    c.voltage_source("V1", 1, 0).set_source(SourceFn::Sin);
    c.resistor("R1", 1, 5).vccs("G1", 2, 0, 1, 0).ccvs("H1", 3, 0, "V1").mutual("K1", "L1", "L2");
    assert_eq!(c.node_count(), 5);
    assert_eq!(c.elements().len(), 4);
    assert_eq!(c.elements()[0].source, Some(SourceFn::Sin));
    assert_eq!(c.elements()[2].ctrl, Some((1, 0)));
    assert_eq!(c.elements()[3].ctrl_elem.as_deref(), Some("V1"));
    assert_eq!(c.couplings().len(), 1);
    assert_eq!(c.resistors(), vec![("R1".to_string(), 1, 5)]);
    assert_eq!(kind_name(Kind::VoltageSource), "voltage_source");
    assert_eq!(kind_name(Kind::Ccvs), "ccvs");
}

#[test]
fn value_names_stay_out_of_the_unknowns() {
    // An ordinary name is its own value symbol; a reserved one is not.
    assert_eq!(value_symbol_name("R1"), "R1");
    assert_ne!(value_symbol_name("v1"), "v1");
    assert_ne!(value_symbol_name("i_x"), "i_x");
    assert_ne!(value_symbol_name("t"), "t");
}

#[test]
fn waveforms_are_known_by_name() {
    assert_eq!(SourceFn::from_func("sin", 3), Some(SourceFn::Sin));
    assert_eq!(SourceFn::from_func("pwl", 6), Some(SourceFn::Pwl(3)));
    assert_eq!(SourceFn::from_func("nope", 3), None);
}

#[test]
fn joined_nodes_share_a_representative() {
    let mut f = Forest::new(5);
    assert!(f.union(0, 1));
    assert!(f.union(1, 2));
    assert!(!f.union(0, 2));
    assert_eq!(f.find(0), f.find(2));
    assert_ne!(f.find(0), f.find(4));
}

// ---------------------------------------------------------------------------
// Equations.
// ---------------------------------------------------------------------------
fn s(name: &str) -> Box<Tree> {
    Box::new(Tree::Symbol(name.to_string()))
}

fn n(x: &str) -> Box<Tree> {
    Box::new(Tree::Const(x.to_string(), "1".to_string()))
}

#[test]
fn latex_of_each_form() {
    assert_eq!(latex_expr(&Tree::Const("3".to_string(), "4".to_string())), "\\frac{3}{4}");
    assert_eq!(latex_expr(&n("-7")), "-7");
    assert_eq!(latex_expr(&s("i_V1")), "\\mathrm{i\\_V1}");
    let sum = Tree::Add(s("a"), s("b"));
    assert_eq!(latex_expr(&sum), "\\mathrm{a} + \\mathrm{b}");
    assert_eq!(
        latex_expr(&Tree::Mul(Box::new(sum), s("c"))),
        "\\left(\\mathrm{a} + \\mathrm{b}\\right) \\cdot \\mathrm{c}"
    );
    assert_eq!(latex_expr(&Tree::Neg(Box::new(Tree::Neg(n("1"))))), "-\\left(-1\\right)");
    assert_eq!(latex_expr(&Tree::Pow(n("2"), -1)), "\\frac{1}{2}");
    assert_eq!(latex_expr(&Tree::Pow(n("2"), -3)), "\\frac{1}{2^{3}}");
    assert_eq!(latex_expr(&Tree::Pow(n("2"), 3)), "2^{3}");
    assert_eq!(latex_expr(&Tree::Unary("sqrt".to_string(), n("2"))), "\\sqrt{2}");
    assert_eq!(latex_expr(&Tree::Unary("floor".to_string(), n("2"))), "\\lfloor 2 \\rfloor");
    assert_eq!(latex_expr(&Tree::Unary("atan".to_string(), n("2"))), "\\arctan\\left(2\\right)");
    assert_eq!(latex_expr(&Tree::Unary("exp".to_string(), n("2"))), "\\exp\\left(2\\right)");
    assert_eq!(latex_expr(&Tree::Unary("abs".to_string(), n("2"))), "\\operatorname{abs}\\left(2\\right)");
    assert_eq!(latex_expr(&Tree::Cmp(Rel::Ge, n("1"), n("2"))), "[1 \\ge 2]");
    assert_eq!(
        latex_expr(&Tree::Select(n("1"), n("2"), n("3"))),
        "\\mathrm{select}\\left(1,\\, 2,\\, 3\\right)"
    );
    assert_eq!(latex_expr(&Tree::Binary("atan2".to_string(), n("1"), n("2"))), "\\operatorname{atan2}\\left(1, 2\\right)");
    assert_eq!(latex_expr(&Tree::Solve(vec![*n("1"), *n("2")], 0)), "\\operatorname{solve}_{0}\\left(1, 2\\right)");
    assert_eq!(latex_expr(&Tree::Call("f".to_string(), 2, vec![*n("1"), *n("2")])), "\\mathrm{f}_{2}\\left(1,\\, 2\\right)");
    assert_eq!(latex_expr(&Tree::Sum(vec![*n("1"), Tree::Neg(n("2"))])), "1 + \\left(-2\\right)");
    // A sum inside a product, a power or a negation is bracketed.
    let sum = || Box::new(Tree::Sum(vec![*s("a"), *s("b")]));
    let wrapped = "\\left(\\mathrm{a} + \\mathrm{b}\\right)";
    assert_eq!(latex_expr(&Tree::Neg(sum())), format!("-{}", wrapped));
    assert_eq!(latex_expr(&Tree::Product(vec![*sum(), *n("2")])), format!("{} \\cdot 2", wrapped));
    let dot = Box::new(Tree::Dot(vec![*n("1"), *n("2")], vec![*n("3"), *n("4")]));
    assert_eq!(latex_expr(&Tree::Neg(dot)), "-\\left(1 \\cdot 3 + 2 \\cdot 4\\right)");
    assert_eq!(latex_expr(&Tree::Product(vec![*n("1"), *n("2")])), "1 \\cdot 2");
    assert_eq!(latex_expr(&Tree::Min(vec![*n("1"), *n("2")])), "\\min\\left(1,\\, 2\\right)");
    assert_eq!(latex_expr(&Tree::Max(vec![*n("1"), *n("2")])), "\\max\\left(1,\\, 2\\right)");
    assert_eq!(latex_expr(&Tree::Dot(vec![*n("1"), *n("2")], vec![*n("3"), *n("4")])), "1 \\cdot 3 + 2 \\cdot 4");
}

#[test]
fn the_theme_fills_and_labels_by_formula() {
    let t = theme();
    assert!(t.filled && t.math);
    assert_eq!((t.fill_alpha.as_str(), t.fade_alpha.as_str(), t.fade_fill_alpha.as_str()), ("", "33", "33"));
    assert_eq!(f64::from_bits(t.font_size), 11.0);
}

#[test]
fn state_names_follow_the_convention() {
    for name in ["v1", "vdot12", "i_V1", "idot_L1", "t"] {
        assert!(is_state(name), "{}", name);
    }
    for name in ["v", "vdot", "vin", "vdotx", "R1", "i", "tt", "D1.Is"] {
        assert!(!is_state(name), "{}", name);
    }
}

// ---------------------------------------------------------------------------
// Compiled models.
// ---------------------------------------------------------------------------
fn psp() -> OsdiModule {
    let param = |names: &[&str], flags: u32| OsdiParam { names: names.iter().map(|n| n.to_string()).collect(), flags };
    OsdiModule {
        name: "psp103va".to_string(),
        node_names: ["d", "g", "s", "b", "di", "si"].iter().map(|n| n.to_string()).collect(),
        num_terminals: 4,
        params: vec![param(&["TYPE", "type_alias"], 1), param(&["L"], 0), param(&["W", ""], 0)],
    }
}

#[test]
fn parameters_are_found_whatever_the_case() {
    let m = psp();
    assert!(m.has_param("type"));
    assert!(m.has_param("Type_Alias"));
    assert!(!m.has_param(""));
    assert!(!m.has_param("tox"));
    assert_eq!(m.num_nodes(), 6);
    match m.bind_param("N1", "TYPE", 7) {
        BindStep::Write { id, integer, value } => assert_eq!((id, integer, value), (0, true, 7)),
        BindStep::Warn(_) => panic!("should bind"),
    }
    match m.bind_param("N1", "w", 7) {
        BindStep::Write { id, integer, value } => assert_eq!((id, integer, value), (2, false, 7)),
        BindStep::Warn(_) => panic!("should bind"),
    }
    match m.bind_param("N1", "tox", 7) {
        BindStep::Write { .. } => panic!("should warn"),
        BindStep::Warn(w) => assert_eq!(w, "N1 (osdi psp103va): unknown parameter 'tox' ignored"),
    }
    assert_eq!(m.not_settable("N1", "L"), "N1 (osdi psp103va): parameter 'L' not settable");
}

#[test]
fn setup_errors_are_spelled_out() {
    let m = psp();
    assert_eq!(check_init("N1", &m, "setup_model", &OsdiInitInfo { errors: vec![] }), Ok(()));
    let info = OsdiInitInfo {
        errors: vec![
            OsdiInitError { code: 1, parameter_id: 1 },
            OsdiInitError { code: 1, parameter_id: 9 },
            OsdiInitError { code: 5, parameter_id: 0 },
        ],
    };
    assert_eq!(
        check_init("N1", &m, "setup_model", &info),
        Err("N1 (osdi psp103va): setup_model: parameter 'l' out of bounds; parameter '#9' out of bounds; error code 5"
            .to_string())
    );
}

#[test]
fn libraries_need_the_right_interface() {
    assert_eq!(check_library("m.osdi", 0, 4, 400, 400), Ok(()));
    assert_eq!(check_library("m.osdi", 1, 0, 400, 400), Ok(()));
    assert_eq!(
        check_library("m.osdi", 0, 3, 400, 400),
        Err("'m.osdi' exposes OSDI 0.3; SANE requires OSDI 0.4 (compile with OpenVAF-reloaded / openvaf-r)".to_string())
    );
    assert_eq!(
        check_library("m.osdi", 0, 4, 300, 400),
        Err("'m.osdi': descriptor size 300 smaller than the OSDI 0.4 layout".to_string())
    );
    assert!(!stop_requested(1));
    assert!(stop_requested(2));
    assert!(stop_requested(9));
}

fn pair(a: u32, b: u32) -> OsdiNodePair {
    OsdiNodePair { node_1: a, node_2: b }
}

fn entry(a: u32, b: u32, flags: u32) -> OsdiJacobianEntry {
    OsdiJacobianEntry { nodes: pair(a, b), react_ptr_off: 0, flags }
}

#[test]
fn collapsed_nodes_take_their_representatives_place() {
    // Internal node 4 merges into terminal 0; terminal 3 is grounded; node 5
    // stays internal.
    let r = Report {
        num_nodes: 6,
        num_terminals: 4,
        pairs: vec![pair(4, 0), pair(5, 2), pair(3, GROUND)],
        collapsed: vec![true, false, true],
        entries: vec![entry(0, 0, 4), entry(4, 0, 12), entry(0, 4, 4), entry(3, 0, 4), entry(5, 5, 8)],
        noise: vec![
            OsdiNoise { nodes: pair(4, 2), ty: 0 },
            OsdiNoise { nodes: pair(0, GROUND), ty: 1 },
            OsdiNoise { nodes: pair(4, 0), ty: 0 },
        ],
    };
    let t = r.resolve();
    assert_eq!(t.active, vec![0, 1, 2, 5]);
    assert_eq!(t.mapping, vec![0, 1, 2, 4, 0, 3]);
    assert_eq!(t.terminal_shorts, vec![(3, None)]);
    // The entries of nodes 0 and 4 add up in one cell; the grounded row takes a
    // slot but no cell.
    assert_eq!(t.jr_slots, 4);
    assert_eq!(t.jr_cells.len(), 1);
    assert_eq!((t.jr_cells[0].row, t.jr_cells[0].col), (0, 0));
    assert_eq!(t.jr_cells[0].slots, vec![0, 1, 2]);
    assert_eq!(t.jq_slots, 2);
    assert_eq!(t.jq_cells.len(), 2);
    assert_eq!((t.jq_cells[1].row, t.jq_cells[1].col), (3, 3));
    assert_eq!(t.noise, vec![(Some(0), Some(2), 0), (Some(0), None, 1), (Some(0), Some(0), 0)]);

    let reg = registration("N1", &t);
    assert_eq!(reg.name, "osdi.N1");
    assert_eq!(reg.arguments, 4);
    assert_eq!(slot_count(&t), 8 + 3 + 6 + 1);
    // Residuals first; the noise slots lie behind the cells.
    assert_eq!(reg.outputs[..9], [0, 1, 2, 3, 4, 5, 6, 7, 11]);
    assert_eq!(reg.derivatives.len(), 32);
    assert_eq!(reg.derivatives[0], (0, 0, Some(8)));
    assert_eq!(reg.derivatives[1], (4, 0, Some(9)));
    assert_eq!(reg.derivatives[2], (0, 1, None));
}

#[test]
fn an_entry_of_neither_kind_is_not_looked_at() {
    // The nodes of an entry count only where it is resistive or reactive.
    let r = Report {
        num_nodes: 2,
        num_terminals: 2,
        pairs: vec![],
        collapsed: vec![],
        entries: vec![entry(7, 9, 0), entry(0, 1, 4)],
        noise: vec![],
    };
    assert!(r.is_sound());
    let t = r.resolve();
    assert_eq!(t.jr_slots, 1);
    assert_eq!((t.jr_cells[0].row, t.jr_cells[0].col), (0, 1));
    assert_eq!(t.jq_slots, 0);
}

#[test]
fn two_merged_terminals_become_a_short() {
    let r = Report {
        num_nodes: 3,
        num_terminals: 3,
        pairs: vec![pair(2, 1)],
        collapsed: vec![true],
        entries: vec![],
        noise: vec![],
    };
    let t = r.resolve();
    assert_eq!(t.active, vec![0, 1]);
    assert_eq!(t.terminal_shorts, vec![(2, Some(1))]);
    assert_eq!(t.mapping, vec![0, 1, 1]);
}

// ---------------------------------------------------------------------------
// Scripts.
// ---------------------------------------------------------------------------
#[test]
fn a_bulk_assignment_is_checked_first() {
    let v = |l: &[&str]| l.iter().map(|x| x.to_string()).collect::<Vec<String>>();
    assert_eq!(check_params(&v(&["R1", "C1"]), &v(&["C1", "R1"])), Ok(()));
    assert_eq!(check_params(&v(&["R1", "C1"]), &v(&["C1", "X", "Y"])), Err("'X' is not a parameter".to_string()));
}

#[test]
fn port_data_has_a_shape() {
    assert_eq!(check_port_data(2, &vec![4, 4], &vec![4, 4], 2), Ok(()));
    assert_eq!(
        check_port_data(2, &vec![4], &vec![4, 4], 2),
        Err("y_re/y_im must have one row per frequency".to_string())
    );
    assert_eq!(
        check_port_data(2, &vec![4, 4], &vec![4, 3], 2),
        Err("each row must carry 4 flattened entries".to_string())
    );
    assert_eq!(port_labels(None, 3), vec!["p1", "p2", "p3"]);
    assert_eq!(port_labels(Some(vec!["in".to_string()]), 3), vec!["in"]);
    assert_eq!(check_inputs(2, 2), Ok(()));
    assert_eq!(check_inputs(2, 3), Err("expected 2 inputs, got 3".to_string()));
}

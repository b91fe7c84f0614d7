//! Decks, from text to placed circuits.
use sane::circuit::Kind;
use sane::netlist::error::ParseError;
use sane::netlist::expr::{eval_expr, parse_value, resolve_value, unwrap_expr};
use sane::netlist::model_cards::split_card_tokens;
use sane::netlist::parse::{parse, ParsedCircuit};
use sane::netlist::preprocess::preprocess;
use sane::netlist::resolve::{resolve_includes, split_args};
use sane::netlist::va::extract_veriloga;
use sane::netlist::world::{
    CompiledVa, LoadedFile, LoadedOsdi, ModelRef, ModuleInfo, OsdiInfo, ParamNames, Request, Stock, Stop, VaResult,
    World,
};
use sane::numerics::{Ask, Host, Op1, Op2, Rel, Reply, Style};
use sane::source_fn::SourceFn;
use sane::table::Table;

fn bits(x: f64) -> u64 {
    x.to_bits()
}

fn num(b: u64) -> f64 {
    f64::from_bits(b)
}

fn reply(a: Ask) -> Reply {
    match a {
        Ask::Parse(s) => match s.parse::<f64>() {
            Ok(x) => Reply::Number(bits(x)),
            Err(_) => Reply::Nothing,
        },
        Ask::Apply1(f, a) => {
            let x = num(a);
            Reply::Number(bits(match f {
                Op1::Neg => -x,
                Op1::Sin => x.sin(),
                Op1::Cos => x.cos(),
                Op1::Tan => x.tan(),
                Op1::Asin => x.asin(),
                Op1::Acos => x.acos(),
                Op1::Atan => x.atan(),
                Op1::Exp => x.exp(),
                Op1::Ln => x.ln(),
                Op1::Log10 => x.log10(),
                Op1::Sqrt => x.sqrt(),
                Op1::Abs => x.abs(),
                Op1::Floor => x.floor(),
                Op1::Ceil => x.ceil(),
            }))
        }
        Ask::Apply2(f, a, b) => {
            let (x, y) = (num(a), num(b));
            Reply::Number(bits(match f {
                Op2::Add => x + y,
                Op2::Sub => x - y,
                Op2::Mul => x * y,
                Op2::Div => x / y,
                Op2::Pow => x.powf(y),
                Op2::Min => x.min(y),
                Op2::Max => x.max(y),
            }))
        }
        Ask::Compare(r, a, b) => {
            let (x, y) = (num(a), num(b));
            Reply::Truth(match r {
                Rel::Lt => x < y,
                Rel::Gt => x > y,
                Rel::Le => x <= y,
                Rel::Ge => x >= y,
                Rel::Eq => x == y,
                Rel::Ne => x != y,
            })
        }
        Ask::Show(s, a) => {
            let x = num(a);
            Reply::Text(match s {
                Style::Plain => format!("{}", x),
                Style::Scientific => format!("{:e}", x),
                Style::Debug => format!("{:?}", x),
            })
        }
        Ask::Whole(a) => {
            let x = num(a);
            if x.fract() == 0.0 {
                Reply::Integer(x as i64)
            } else {
                Reply::Nothing
            }
        }
        Ask::Nearest(a) => Reply::Natural(num(a).round() as u32),
        Ask::Truncate(a) => Reply::Size(num(a) as usize),
        Ask::Integer(a) => Reply::Integer(num(a) as i64),
        Ask::Count(n) => Reply::Number(bits(n as f64)),
    }
}

fn host() -> Host<fn(Ask) -> Reply> {
    Host::new(reply)
}

fn names(list: &[(&str, f64)]) -> ParamNames {
    ParamNames {
        params: list.iter().map(|(n, d)| (n.to_string(), Some(bits(*d)))).collect(),
        aliases: Vec::new(),
    }
}

fn module(name: &str, ports: usize, list: &[(&str, f64)]) -> ModuleInfo {
    ModuleInfo { name: name.to_string(), names: names(list), ports, fault: None }
}

fn stock() -> Stock {
    Stock {
        tline: module("sane_tline", 4, &[("Z0", 50.0), ("TD", 1e-9)]),
        vswitch: module("sane_vswitch", 4, &[("Ron", 1.0), ("Roff", 1e6), ("Vt", 0.0), ("Vh", 1e-3)]),
        diode: module(
            "sane_diode",
            2,
            &[
                ("Is", 1e-14),
                ("N", 1.0),
                ("Vt", 0.0),
                ("Rs", 0.0),
                ("Cj0", 0.0),
                ("Vj", 1.0),
                ("M", 0.5),
                ("TT", 0.0),
                ("BV", 0.0),
            ],
        ),
        mos: module(
            "sane_mos",
            4,
            &[("Vto", 0.0), ("Kp", 2e-5), ("L", 1e-6), ("W", 1e-6), ("lambda", 0.0), ("type", 1.0)],
        ),
        bjt: module(
            "sane_bjt",
            3,
            &[
                ("Is", 1e-16),
                ("betaF", 100.0),
                ("betaR", 1.0),
                ("Rb", 0.0),
                ("Rc", 0.0),
                ("Re", 0.0),
                ("Cje", 0.0),
                ("type", 1.0),
            ],
        ),
        jfet: module("sane_jfet", 3, &[("Vto", -2.0), ("beta", 1e-4), ("type", 1.0)]),
        mesfet: module("sane_mesfet", 3, &[("Vto", -2.0), ("beta", 1e-4), ("type", 1.0)]),
    }
}

fn world() -> World {
    World { stock: stock(), files: Vec::new(), va: Vec::new(), osdi: Vec::new(), setups: Vec::new() }
}

fn mostest(extra: &[(&str, f64)]) -> ModuleInfo {
    let mut list = vec![("type", 1.0), ("L", 1.0), ("W", 1.0)];
    list.extend_from_slice(extra);
    module("mostest", 4, &list)
}

/// What a Verilog-A frontend reports of the blocks used here.
fn compile(src: &str) -> VaResult {
    if src.contains("<+ @") {
        return VaResult::Failed {
            phase: "veriloga parse".to_string(),
            first: Some((1, 43, "unexpected token '@'".to_string())),
            rendered: "1:43: unexpected token '@'".to_string(),
        };
    }
    let mut out = Vec::new();
    if src.contains("module diode") {
        out.push(module("diode", 2, &[("Is", 1e-14), ("N", 1.0), ("Vt", 0.025852)]));
    }
    if src.contains("module r2") {
        out.push(module("r2", 2, &[("R", 1e3)]));
    }
    if src.contains("module sw_r") {
        out.push(module("sw_r", 2, &[("R", 1e3), ("shorted", 0.0)]));
    }
    if src.contains("module ra") {
        out.push(module("ra", 2, &[("R", 1e3)]));
    }
    if src.contains("module rb") {
        out.push(module("rb", 2, &[("G", 1e-3)]));
    }
    if src.contains("module bad") {
        let mut m = module("bad", 2, &[]);
        m.fault = Some("analog operator 'slew' is not supported".to_string());
        out.push(m);
    }
    if src.contains("module cccs") {
        out.push(module("cccs", 2, &[("G", 2.0), ("R", 1e3)]));
    }
    if src.contains("module mostest") {
        if src.contains("toxe") {
            out.push(mostest(&[("toxe", 3e-9)]));
        } else {
            out.push(mostest(&[("gain", 1e-3)]));
        }
    }
    if src.contains("module vres") {
        let mut m = module("vres", 2, &[("R", 1e3)]);
        if src.contains("aliasparam res") {
            m.names.aliases.push(("res".to_string(), "R".to_string()));
        }
        if src.contains("aliasparam mult2") {
            m.names.aliases.push(("mult2".to_string(), "$mfactor".to_string()));
        }
        out.push(m);
    }
    VaResult::Modules(out)
}

struct Parsed {
    p: ParsedCircuit,
    w: World,
}

impl Parsed {
    fn value(&self, name: &str) -> f64 {
        num(self.p.values[name])
    }

    fn has(&self, name: &str) -> bool {
        self.p.values.contains_key(name)
    }

    fn param(&self, name: &str) -> Option<f64> {
        self.p.param_value(name, &self.w).map(num)
    }

    fn node(&self, name: &str) -> Option<u64> {
        self.p.node(name)
    }
}

/// Parse a deck, answering each request from the given files.
fn run(text: &str, files: &[(&str, &str)]) -> Result<Parsed, ParseError> {
    let h = host();
    let mut w = world();
    loop {
        match parse(text, &w, &h) {
            Ok(p) => return Ok(Parsed { p, w }),
            Err(Stop::Failed(e)) => return Err(e),
            Err(Stop::Need(Request::File(from, name))) => {
                let text = match files.iter().find(|(n, _)| *n == name) {
                    Some((_, t)) => Ok(t.to_string()),
                    None => Err("No such file or directory (os error 2)".to_string()),
                };
                w.files.push(LoadedFile {
                    from,
                    shown: name.clone(),
                    canon: format!("/decks/{}", name),
                    name,
                    text,
                });
            }
            Err(Stop::Need(Request::VaBlock(s))) => {
                let result = compile(&s);
                w.va.push(CompiledVa { file: false, source: s, result });
            }
            Err(Stop::Need(Request::VaFile(s))) => {
                let result = match files.iter().find(|(n, _)| *n == s) {
                    Some((_, t)) => compile(t),
                    None => VaResult::Unreadable("No such file or directory (os error 2)".to_string()),
                };
                w.va.push(CompiledVa { file: true, source: s, result });
            }
            Err(Stop::Need(Request::Osdi(s))) => {
                let modules = if s.contains("psp") {
                    Ok(vec![OsdiInfo {
                        name: "psp103va".to_string(),
                        num_terminals: 4,
                        params: vec!["type".to_string(), "l".to_string(), "w".to_string(), "toxo".to_string()],
                    }])
                } else {
                    Err(format!("cannot load '{}': not a library", s))
                };
                w.osdi.push(LoadedOsdi { path: s, modules });
            }
            Err(Stop::Need(Request::Setup(_))) => w.setups.push(None),
        }
    }
}

fn deck(text: &str) -> Result<Parsed, ParseError> {
    run(text, &[])
}

fn good(text: &str) -> Parsed {
    match deck(text) {
        Ok(p) => p,
        Err(e) => panic!("{}", e.message()),
    }
}

fn bad(text: &str) -> ParseError {
    match deck(text) {
        Ok(_) => panic!("should be refused"),
        Err(e) => e,
    }
}

// ---------------------------------------------------------------------------
// Lines.
// ---------------------------------------------------------------------------
#[test]
fn strips_comments_and_blanks() {
    let lines = preprocess("* title\n\nR1 1 2 1k ; inline\nC1 2 0 1u $ also\n");
    assert_eq!(lines.len(), 2);
    assert_eq!(lines[0].tokens, vec!["R1", "1", "2", "1k"]);
    assert_eq!(lines[1].tokens, vec!["C1", "2", "0", "1u"]);
}

#[test]
fn joins_continuations() {
    let lines = preprocess(".model M NPN\n+ Is=1e-15\n+ Bf=100\n");
    assert_eq!(lines.len(), 1);
    assert_eq!(lines[0].tokens, vec![".model", "M", "NPN", "Is=1e-15", "Bf=100"]);
}

#[test]
fn groups_brace_expressions() {
    let lines = preprocess("R1 1 2 {R0 * 2}\n");
    assert_eq!(lines[0].tokens, vec!["R1", "1", "2", "{R0 * 2}"]);
}

#[test]
fn splits_quoted_and_bare_args() {
    assert_eq!(split_args(r#" "a b.lib" tt "#), vec!["a b.lib", "tt"]);
    assert_eq!(split_args(" models.inc "), vec!["models.inc"]);
}

#[test]
fn skips_definition_block() {
    let src = ".lib tt\nR1 1 0 1k\n.endl\nC1 0 1 1u\n";
    let out = resolve_includes(src, &Vec::new()).unwrap();
    // The standalone definition block is dropped; the trailing line stays.
    assert!(out.contains("C1 0 1 1u"));
    assert!(!out.contains("R1 1 0 1k"));
}

#[test]
fn plain_lines_stay_as_they_are() {
    let src = "R1 1 0 1k\nC1 0 1 1u\n";
    let out = resolve_includes(src, &Vec::new()).unwrap();
    assert_eq!(out.trim_end(), src.trim_end());
}

// ---------------------------------------------------------------------------
// Expressions.
// ---------------------------------------------------------------------------
fn env() -> Table {
    let mut e = Table::default();
    e.insert("pi".into(), bits(std::f64::consts::PI));
    e.insert("r".into(), bits(1000.0));
    e.insert("fc".into(), bits(1000.0));
    e
}

fn ev(s: &str, e: &Table) -> Result<f64, String> {
    eval_expr(s, e, &host()).map(num)
}

fn rv(s: &str, e: &Table) -> Option<f64> {
    resolve_value(s, e, &host()).map(num)
}

#[test]
fn arithmetic_and_precedence() {
    let e = env();
    assert!((ev("1 + 2*3", &e).unwrap() - 7.0).abs() < 1e-12);
    assert!((ev("2^3^2", &e).unwrap() - 512.0).abs() < 1e-9); // right assoc
    assert!((ev("-2^2", &e).unwrap() + 4.0).abs() < 1e-12); // -(2^2)
    assert!((ev("(1+1)*3", &e).unwrap() - 6.0).abs() < 1e-12);
}

#[test]
fn params_funcs_and_suffixes() {
    let e = env();
    let got = ev("1/(2*pi*r*fc)", &e).unwrap();
    let want = 1.0 / (2.0 * std::f64::consts::PI * 1000.0 * 1000.0);
    assert!((got - want).abs() <= want * 1e-12);
    assert!((ev("sqrt(2)", &e).unwrap() - 2f64.sqrt()).abs() < 1e-12);
    assert!((ev("2*1k", &e).unwrap() - 2000.0).abs() < 1e-9);
}

#[test]
fn agauss_mismatch_expression() {
    let mut e = Table::default();
    e.insert("mc_mm_switch".into(), bits(0.0));
    e.insert("l".into(), bits(1.0));
    e.insert("w".into(), bits(1.0));
    e.insert("mult".into(), bits(1.0));
    e.insert("my_toxe_slope".into(), bits(0.0));
    assert_eq!(ev("AGAUSS(0,1.0,1)", &e).ok(), Some(0.0), "AGAUSS nominal");
    assert_eq!(ev("sqrt(l*w*mult)", &e).ok(), Some(1.0), "sqrt");
    let s = "4.148e-09+MC_MM_SWITCH*AGAUSS(0,1.0,1)*(4.148e-09*1.0*(my_toxe_slope/sqrt(l*w*mult)))";
    assert_eq!(ev(s, &e).ok(), Some(4.148e-9), "toxe nominal");
}

#[test]
fn single_quoted_hspice_expressions() {
    let e = env();
    assert!((rv("'2*r'", &e).unwrap() - 2000.0).abs() < 1e-9);
    assert!((rv("'r*1'", &e).unwrap() - 1000.0).abs() < 1e-9);
    assert!((rv("{r*1}", &e).unwrap() - 1000.0).abs() < 1e-9);
    assert_eq!(unwrap_expr("'foo'"), "foo");
    assert_eq!(unwrap_expr("{foo}"), "foo");
    assert_eq!(unwrap_expr("foo"), "foo");
}

#[test]
fn comparisons_logic_and_ternary() {
    let e = env();
    assert_eq!(ev("2 > 1", &e).unwrap(), 1.0);
    assert_eq!(ev("2 < 1", &e).unwrap(), 0.0);
    assert_eq!(ev("3 >= 3", &e).unwrap(), 1.0);
    assert_eq!(ev("3 != 3", &e).unwrap(), 0.0);
    assert_eq!(ev("(1 > 0) && (2 > 1)", &e).unwrap(), 1.0);
    assert_eq!(ev("(1 > 2) || (2 > 1)", &e).unwrap(), 1.0);
    assert_eq!(ev("!(1 > 2)", &e).unwrap(), 1.0);
    assert_eq!(ev("r > 500 ? 10 : 20", &e).unwrap(), 10.0);
    assert_eq!(ev("r < 500 ? 10 : 20", &e).unwrap(), 20.0);
    assert_eq!(ev("0 ? 1 : (0 ? 2 : 3)", &e).unwrap(), 3.0);
    assert_eq!(ev("if(r > 500, 1k, 2k)", &e).unwrap(), 1000.0);
    assert!((ev("1 + 2*3 > 6 ? 1 : 0", &e).unwrap() - 1.0).abs() < 1e-12);
}

#[test]
fn statistical_functions_evaluate_to_nominal() {
    let e = env();
    assert_eq!(ev("agauss(0.52, 1.0, 1)", &e).unwrap(), 0.52);
    assert_eq!(ev("gauss(1e-9, 0.1, 3)", &e).unwrap(), 1e-9);
    assert_eq!(ev("aunif(2.5, 0.3)", &e).unwrap(), 2.5);
    assert_eq!(ev("unif(7, 0.05)", &e).unwrap(), 7.0);
    assert_eq!(ev("limit(4, 0.5)", &e).unwrap(), 4.0);
    assert_eq!(ev("0.52 + 0*agauss(0, 1, 1)*sqrt(2)", &e).unwrap(), 0.52);
}

#[test]
fn resolve_value_handles_braces_numbers_exprs() {
    let e = env();
    assert_eq!(rv("1k", &e), Some(1e3));
    assert_eq!(rv("{2*r}", &e), Some(2000.0));
    assert!(rv("nope", &e).is_none());
}

#[test]
fn parses_engineering_values() {
    let h = host();
    let close = |s: &str, want: f64| {
        let got = num(parse_value(s, &h).unwrap());
        assert!((got - want).abs() <= want.abs() * 1e-12, "{}: {} != {}", s, got, want);
    };
    close("1k", 1e3);
    close("2.2u", 2.2e-6);
    close("1Meg", 1e6);
    close("1e3", 1e3);
    close("4.7nF", 4.7e-9);
    close("100", 100.0);
}

// ---------------------------------------------------------------------------
// Decks.
// ---------------------------------------------------------------------------
#[test]
fn parse_error_carries_column_and_renders_caret() {
    // The caret must land under the element name, not at column 1, and the
    // rendered snippet must echo the line.
    let text = "* title\n   Z1 a b\n.end";
    let e = bad(text);
    assert_eq!(e.line, 2);
    assert_eq!(e.col, 4); // three spaces of indent -> column 4
    let r = e.render(text);
    assert!(r.contains("netlist:2:4: error:"), "header: {}", r);
    assert!(r.contains("   Z1 a b"), "source line: {}", r);
    assert!(r.contains("   ^"), "caret: {}", r);
}

#[test]
fn rendering_without_a_column_is_the_header_alone() {
    let e = ParseError { line: 7, col: 0, msg: "odd".to_string() };
    assert_eq!(e.render("a\nb"), "netlist:7:0: error: odd\n");
    assert_eq!(e.message(), "line 7: odd");
    let e = ParseError { line: 2, col: 3, msg: "odd".to_string() };
    assert_eq!(e.render("a\nbcd"), "netlist:2:3: error: odd\nbcd\n  ^\n");
    assert_eq!(e.message(), "line 2:3: odd");
}

#[test]
fn inline_veriloga_error_maps_span_into_deck() {
    let text = "V1 in 0 1\n.veriloga\nmodule m(a); electrical a; analog I(a) <+ @;\n.endveriloga\nN1 in m\n.end";
    let e = bad(text);
    // The `.veriloga` directive is deck line 2; the module is deck line 3.
    assert_eq!(e.line, 3, "error should map onto the module line: {}", e.message());
    assert!(e.col > 0, "column should be preserved: {:?}", e);
    assert!(e.msg.starts_with("veriloga"), "phase kept: {}", e.message());
}

#[test]
fn maps_nodes_with_ground_aliases() {
    let p = good("R1 in 0 1k\nC1 in gnd 1u\n.end");
    assert_eq!(p.node("0"), Some(0));
    assert_eq!(p.node("gnd"), Some(0));
    assert_eq!(p.node("in"), Some(1));
    assert_eq!(p.value("R1"), 1e3);
}

#[test]
fn rejects_unknown_element() {
    let e = bad("Z1 a b");
    assert_eq!(e.line, 1);
}

#[test]
fn binds_model_and_inline_params() {
    let p = good("D1 a 0 dmod\nD2 b 0 dmod Is=2e-14\n.model dmod D(Is=1e-14 N=1.0 Vt=0.02585)\n.end");
    assert!((p.value("D1.Is") - 1e-14).abs() < 1e-26);
    assert!((p.value("D1.N") - 1.0).abs() < 1e-12);
    assert!((p.value("D1.Vt") - 0.02585).abs() < 1e-9);
    assert!((p.value("D2.Is") - 2e-14).abs() < 1e-26); // inline overrides model
}

#[test]
fn mixed_case_inline_comment_and_continuation() {
    let p = good("R1 IN OUT 1k ; load resistor\n.model DM D\n+ (Is=1e-14 N=1)\nD1 out 0 dm\n.END");
    assert_eq!(p.node("in"), p.node("IN"));
    assert_eq!(p.node("OUT"), p.node("out"));
    assert_eq!(p.value("R1"), 1e3);
    // .model continued across a `+` line still binds.
    assert!((p.value("D1.Is") - 1e-14).abs() < 1e-26);
}

#[test]
fn params_and_expressions() {
    let p = good(
        ".param R0=1k fc=1k\n\
         .param C0={1/(2*pi*R0*fc)}\n\
         R1 in out {R0}\n\
         C1 out 0 {C0}\n\
         .end",
    );
    assert!((p.value("R1") - 1000.0).abs() < 1e-9);
    let want = 1.0 / (2.0 * std::f64::consts::PI * 1000.0 * 1000.0);
    assert!((p.value("C1") - want).abs() <= want * 1e-9, "C1={}", p.value("C1"));
}

#[test]
fn leading_continuation_line_does_not_panic() {
    let p = good("+ orphan tokens\nV1 a 0 1\nR1 a 0 1k\n.end");
    assert!(p.has("R1"));
    // A bare `+` must also be harmless.
    good("+\nV1 a 0 1\n.end");
}

#[test]
fn compat_report_flags_ignored_directives_and_unknown_params() {
    let p = good(
        ".model dmod D Is=1e-15 bogusparam=3\n\
         V1 a 0 1\n\
         D1 a 0 dmod foo=2 m=2\n\
         .print dc v(a)\n\
         .save all\n\
         .end",
    );
    let r = &p.p.report;
    assert!(r.ignored_directives.contains(".print"));
    assert!(r.ignored_directives.contains(".save"));
    assert!(r.unknown_params.names().iter().any(|s| s.contains("bogusparam")));
    assert!(r.unknown_params.names().iter().any(|s| s.contains("foo")));
    // The `m=` instance modifier is NOT flagged as an unknown parameter.
    assert!(!r.unknown_params.names().iter().any(|s| s.ends_with(": m")));
    assert!(!r.is_clean());

    let b = good(
        ".model qmod NPN(Is=1e-14 Rb=500 Rc=10 Re=2 Cje=1p)\n\
         V1 a 0 1\n\
         Q1 a a 0 qmod\n\
         .end",
    );
    let r = &b.p.report;
    assert!(!r.unknown_params.names().iter().any(|s| s.contains("Rb")));
    assert!(!r.unknown_params.names().iter().any(|s| s.contains("Rc")));
    assert!(!r.unknown_params.names().iter().any(|s| s.contains("Re")));
    assert_eq!(b.param("Q1.Rb"), Some(500.0));

    // A plain, fully-supported deck reports clean.
    let q = good("V1 a 0 1\nR1 a 0 1k\n.end");
    assert!(q.p.report.is_clean(), "summary: {}", q.p.report.summary());
}

#[test]
fn an_instance_multiplicity_is_no_value() {
    // The grading coefficient of the model keeps its value beside `m=2`.
    let p = good("D1 a 0 dm m=2\n.model dm d is=1e-14 cjo=1p m=0.4 vj=0.8\n.end");
    assert_eq!(p.value("D1.M"), 0.4);
    assert_eq!(num(p.p.devices[0].mfactor), 2.0);
}

#[test]
fn silent_lines_change_no_token() {
    let plain = preprocess("R1 a 0 1k\n+ tc1=2 ; note\nV1 a 0 1\n");
    let spread = preprocess("R1 a 0 1k\n\n  * between\n+ tc1=2 ; note\n \t\nV1 a 0 1\n");
    assert_eq!(plain.len(), spread.len());
    for (a, b) in plain.iter().zip(spread.iter()) {
        assert_eq!(a.tokens, b.tokens);
        assert_eq!(a.col, b.col);
    }
    assert_eq!((plain[1].no, spread[1].no), (3, 6));
}

#[test]
fn model_binning_selects_by_geometry() {
    let p = good(
        ".model nch.1 NMOS(lmin=0 lmax=1u wmin=0 wmax=1m Vto=0.4 Kp=100u)\n\
         .model nch.2 NMOS(lmin=1u lmax=10u wmin=0 wmax=1m Vto=0.7 Kp=50u)\n\
         M1 d g s b nch L=0.5u W=2u\n\
         M2 d g s b nch L=2u   W=2u\n\
         V1 d 0 1\n\
         .end",
    );
    // M1 (L=0.5u) -> bin .1; M2 (L=2u) -> bin .2.
    assert_eq!(p.param("M1.Vto"), Some(0.4));
    assert_eq!(p.param("M2.Vto"), Some(0.7));
    // Binning bounds are not bound as device parameters.
    assert!(!p.has("M1.lmin"));
}

#[test]
fn temp_directive_sets_global_temperature() {
    let p = good(
        ".temp 85\n\
         .param Rt={temp}\n\
         V1 a 0 1\n\
         R1 a 0 {Rt}\n\
         .end",
    );
    let t = p.value("$temp");
    assert!((t - (85.0 + 273.15)).abs() < 1e-9, "$temp={}", t);
    assert!((p.value("R1") - 85.0).abs() < 1e-9, "temp const in .param");

    // Default (no directive) stays nominal 27 degC.
    let d = good("V1 a 0 1\nR1 a 0 1k\n.end");
    let td = d.value("$temp");
    assert!((td - 300.15).abs() < 1e-9, "$temp={}", td);
}

#[test]
fn subckt_flatten_and_param_override() {
    let p = good(
        ".subckt rcpair a b\n\
         R1 a mid {Rval}\n\
         R2 mid b {Rval}\n\
         .ends\n\
         .param Rval=1k\n\
         X1 in out rcpair\n\
         X2 out 0 rcpair Rval=2k\n\
         .end",
    );
    // Internal node got the instance prefix; ports mapped to caller nodes.
    assert!(p.node("X1.mid").is_some());
    assert!(p.node("X2.mid").is_some());
    assert_eq!(p.value("X1.R1"), 1000.0);
    assert_eq!(p.value("X2.R1"), 2000.0); // instance param override
}

#[test]
fn behavioral_elements_inside_subckt() {
    let p = good(
        ".subckt blk a b\n\
         B1 a mid I=V(a,mid)/1000\n\
         R1 mid b r={2000*(1+0.1*abs(V(mid,b)))}\n\
         .ends\n\
         V1 in 0 1\n\
         X1 in 0 blk\n\
         .end",
    );
    assert!(p.node("X1.mid").is_some(), "internal node X1.mid should exist");
}

#[test]
fn behavioral_resistor_keyword_and_value_forms() {
    good("V1 in 0 1\nR1 in out r={1000}\nR2 out 0 1k\n.end");
    good("V1 in 0 1\nR1 in out r={1000*(1+0.1*abs(v(in,out)))}\nR2 out 0 1k\n.end");
}

#[test]
fn source_dc_keyword_value() {
    let p = good(".param ib=5e-6\nI1 0 out DC=ib\nR1 out 0 1k\n.end");
    assert!((p.value("I1") - 5e-6).abs() < 1e-12, "I DC=<param>");
    let v = good("V1 a 0 DC=1.8\nR1 a 0 1k\n.end");
    assert!((v.value("V1") - 1.8).abs() < 1e-12, "V DC=<num>");
}

#[test]
fn subckt_prefixes_controller_names() {
    // A CCVS controlled by an internal source: both must get the X1. prefix.
    let p = good(
        ".subckt amp in out\n\
         Vs in mid 0\n\
         H1 out 0 Vs 5\n\
         .ends\n\
         X1 a b amp\n\
         .end",
    );
    let h = p.p.circuit.elements().iter().find(|e| e.name == "X1.H1").unwrap();
    assert_eq!(h.ctrl_elem.as_deref(), Some("X1.Vs"));
}

#[test]
fn nested_subckt() {
    let p = good(
        ".subckt inner a b\nR1 a b 1k\n.ends\n\
         .subckt outer p q\nX1 p q inner\n.ends\n\
         X9 in 0 outer\n.end",
    );
    // R inside the doubly-nested instance carries the full path.
    assert!(p.has("X9.X1.R1"));
}

#[test]
fn spice_param_aliasing() {
    let p = good("Q1 c b e qm\n.model qm NPN(Bf=120 IS=2e-15)\n.end");
    assert_eq!(p.value("Q1.betaF"), 120.0); // Bf -> betaF
    assert!((p.value("Q1.Is") - 2e-15).abs() < 1e-27); // IS -> Is
}

#[test]
fn compact_mosfet_level_is_rejected_with_va_hint() {
    let err = bad("M1 d g s b nch\n.model nch NMOS(level=54 vth0=0.4)\n.end");
    let msg = err.message();
    assert!(msg.contains("compact model") && msg.contains("Verilog-A"), "got: {}", msg);

    // Levels 1-3 stay the native square-law MOSFET (d g s b).
    let l1 = good("M2 d g s b m1\n.model m1 NMOS(level=1 Kp=1m Vth=0.5)\n.end");
    assert_eq!(l1.p.devices[0].terminals.len(), 4);
}

#[test]
fn sin_source_binds_and_marks() {
    let p = good("V1 1 0 SIN(0 1 1k)\nR1 1 0 1k\n.end");
    assert_eq!(p.value("V1.sin_off"), 0.0);
    assert_eq!(p.value("V1.sin_amp"), 1.0);
    let w = 2.0 * std::f64::consts::PI * 1000.0;
    assert!((p.value("V1.sin_w") - w).abs() < 1e-6);
    let v1 = p.p.circuit.elements().iter().find(|e| e.name == "V1").unwrap();
    assert_eq!(v1.source, Some(SourceFn::Sin));
}

#[test]
fn bare_source_form_binds_waveform() {
    let p = good("V1 1 0 dc 0 sin 0 1 1k\nR1 1 0 1k\n.end");
    assert_eq!(p.value("V1.sin_amp"), 1.0);
    let v1 = p.p.circuit.elements().iter().find(|e| e.name == "V1").unwrap();
    assert_eq!(v1.source, Some(SourceFn::Sin));
    // pulse likewise, with trailing key=value tokens left alone
    let p = good("I1 0 2 pulse 0 1 1u 1u 1u 1m 2m m=2\nR1 2 0 1k\n.end");
    assert_eq!(p.value("I1.pulse_v2"), 1.0);
    assert_eq!(p.value("I1.pulse_per"), 2e-3);
}

#[test]
fn diode_cjo_spelling_activates_charge() {
    let p = good("D1 a 0 dm\n.model dm d is=1e-14 cjo=1p m=0.4 vj=0.8\n.end");
    assert_eq!(p.value("D1.Cj0"), 1e-12);
    assert_eq!(p.value("D1.M"), 0.4);
    assert_eq!(p.value("D1.Vj"), 0.8);
}

#[test]
fn parses_voltage_switch() {
    let p = good("S1 1 0 c 0 sw\n.model sw SW(Ron=1 Roff=1Meg Vt=0.5)\n.end");
    assert_eq!(p.p.devices.len(), 1);
    assert_eq!(p.p.devices[0].terminals.len(), 4);
    assert!((p.value("S1.Ron") - 1.0).abs() < 1e-12);
    assert!((p.value("S1.Roff") - 1e6).abs() < 1.0);
}

#[test]
fn pulse_pwl_exp_sources() {
    let p = good("V1 1 0 PULSE(0 5 1n 1n 1n 5n 10n)\n.end");
    assert_eq!(p.p.circuit.elements()[0].source, Some(SourceFn::Pulse));
    assert_eq!(p.value("V1.pulse_v2"), 5.0);

    let p = good("V2 1 0 PWL(0 0 1m 1 2m 0)\n.end");
    assert_eq!(p.p.circuit.elements()[0].source, Some(SourceFn::Pwl(3)));
    assert_eq!(p.value("V2.pwl_v1"), 1.0);

    let p = good("V3 1 0 EXP(0 1 0 1m 5m 2m)\n.end");
    assert_eq!(p.p.circuit.elements()[0].source, Some(SourceFn::Exp));
    assert_eq!(p.value("V3.exp_v2"), 1.0);
}

#[test]
fn parses_current_switch() {
    let p = good("Vc 2 0 0\nW1 3 0 Vc sw\n.model sw CSW(Ron=1 Roff=1Meg It=0.5)\n.end");
    assert_eq!(p.p.devices.len(), 1);
    assert_eq!(p.p.devices[0].terminals.len(), 2);
    assert!((p.value("W1.Ron") - 1.0).abs() < 1e-12);
}

#[test]
fn parses_current_controlled_sources() {
    let p = good("V1 1 0 1\nR1 1 0 1k\nF1 2 0 V1 10\nH1 3 0 V1 5\nRL 2 0 1k\n.end");
    let kinds: Vec<Kind> = p.p.circuit.elements().iter().map(|e| e.kind).collect();
    assert!(kinds.contains(&Kind::Cccs));
    assert!(kinds.contains(&Kind::Ccvs));
}

#[test]
fn parses_devices() {
    let p = good("V1 in 0 5\nR1 in d 1k\nD1 d 0 dmod\nQ1 c b e\n.model dmod D\n.end");
    assert_eq!(p.p.devices.len(), 2); // diode + bjt
    assert_eq!(p.p.devices[0].terminals, vec![p.node("d").unwrap() as usize, 0]);
    assert!(p.node("c").is_some() && p.node("b").is_some() && p.node("e").is_some());
}

// ---------------------------------------------------------------------------
// Behavioral sources.
// ---------------------------------------------------------------------------
#[test]
fn unknown_function_is_a_hard_error() {
    let err = bad("V1 in 0 1\nB1 out 0 V=bogus(V(in))\n.end");
    assert!(err.message().contains("unknown function"), "got: {}", err.message());
}

#[test]
fn wrong_arity_is_a_hard_error() {
    let err = bad("V1 in 0 1\nB1 out 0 V=sin(1,2)\n.end");
    assert!(err.message().contains("argument"), "got: {}", err.message());
}

#[test]
fn supported_functions_parse() {
    for body in [
        "B1 out 0 V=sin(V(in)) + atan(V(in)) + floor(V(in))",
        "B1 out 0 V=pow(V(in), 2) + max(V(in), 1)",
        "B1 out 0 V=if(V(in) > 1.0, 2.0, 3.0)",
        "B1 out 0 I=if(V(in) >= 1.0, 1m, 0)",
    ] {
        let src = format!("V1 in 0 1\n{}\n.end", body);
        assert!(deck(&src).is_ok(), "should parse: {}", body);
    }
}

// ---------------------------------------------------------------------------
// Files.
// ---------------------------------------------------------------------------
#[test]
fn truncated_lib_section_does_not_panic() {
    // Header only, no body and no `.endl`: the section is simply empty.
    let text = "* corner\nV1 a 0 1\n.lib \"corners.lib\" tt\n.end";
    let p = match run(text, &[("corners.lib", ".lib tt")]) {
        Ok(p) => p,
        Err(e) => panic!("{}", e.message()),
    };
    assert!(p.has("V1") || p.node("a").is_some());
}

#[test]
fn include_pulls_in_model_and_subckt() {
    let text = "\
* top deck
V1 a 0 1
D1 a 0 dmod
.include \"models.inc\"
.end";
    let p = match run(text, &[("models.inc", ".model dmod D Is=1e-15 N=1.2\n")]) {
        Ok(p) => p,
        Err(e) => panic!("{}", e.message()),
    };
    assert_eq!(p.param("D1.Is"), Some(1e-15));
    assert_eq!(p.param("D1.N"), Some(1.2));
}

#[test]
fn lib_selects_one_corner_section() {
    let lib = ".lib tt\n.model dmod D Is=1e-15\n.endl\n\
         .lib ff\n.model dmod D Is=5e-15\n.endl\n";
    let text = "\
* corner selection
V1 a 0 1
D1 a 0 dmod
.lib \"corners.lib\" tt
.end";
    let p = match run(text, &[("corners.lib", lib)]) {
        Ok(p) => p,
        Err(e) => panic!("{}", e.message()),
    };
    // `tt` Is, not `ff` Is.
    assert_eq!(p.param("D1.Is"), Some(1e-15));
}

#[test]
fn a_missing_file_is_an_error() {
    let e = match run("* t\n.include nowhere.inc\n.end", &[]) {
        Ok(_) => panic!("should be refused"),
        Err(e) => e,
    };
    assert!(e.msg.contains("nowhere.inc"), "{}", e.msg);
}

#[test]
fn a_file_is_spliced_only_once() {
    let files = [("loop.inc", ".include loop.inc\nR1 a 0 1k\n")];
    let p = match run("* t\n.include loop.inc\n.include loop.inc\n.end", &files) {
        Ok(p) => p,
        Err(e) => panic!("{}", e.message()),
    };
    assert_eq!(p.p.circuit.elements().len(), 1);
}

#[test]
fn a_section_that_names_itself_is_an_error() {
    let files = [("loop.lib", ".lib tt\n.lib loop.lib tt\n.endl\n")];
    let e = match run("* t\n.lib loop.lib tt\n.end", &files) {
        Ok(_) => panic!("should be refused"),
        Err(e) => e,
    };
    assert!(e.msg.contains("nesting too deep"), "{}", e.msg);
}

// ---------------------------------------------------------------------------
// Verilog-A and compiled models.
// ---------------------------------------------------------------------------
const DIODE: &str = r#"
* Verilog-A diode in a deck
.veriloga
module diode(a, c);
  inout a, c;
  electrical a, c;
  parameter real Is = 1e-14;
  parameter real N  = 1.0;
  parameter real Vt = 0.025852;
  analog I(a, c) <+ Is * (limexp(V(a,c)/(N*Vt)) - 1.0);
endmodule
.endveriloga
V1 1 0 0.7
R1 1 2 1k
N1 2 0 diode Is=2e-14
.end
"#;

#[test]
fn inline_veriloga_diode_parses_and_binds() {
    let p = good(DIODE);
    assert_eq!(p.p.devices.len(), 1, "one VA device");
    assert_eq!(p.param("N1.Is"), Some(2e-14), "instance override");
    assert_eq!(p.param("N1.N"), Some(1.0), "module default");
    assert_eq!(p.param("N1.Vt"), Some(0.025852), "module default");
}

#[test]
fn unknown_veriloga_model_errors() {
    let e = bad("N1 1 0 nosuchmodel\n.end\n");
    assert!(e.msg.contains("unknown veriloga model"), "msg: {}", e.msg);
}

#[test]
fn port_count_mismatch_errors() {
    let e = bad(
        "\
.veriloga
module r2(a,b); inout a,b; electrical a,b; parameter real R=1k; analog I(a,b)<+V(a,b)/R; endmodule
.endveriloga
N1 1 0 2 r2
.end
",
    );
    assert!(e.msg.contains("ports"), "msg: {}", e.msg);
}

#[test]
fn unsupported_construct_errors_at_parse() {
    let e = bad(
        "\
.veriloga
module bad(a, b); inout a,b; electrical a,b;
analog I(a,b) <+ slew(V(a,b));
endmodule
.endveriloga
N1 1 0 bad
.end
",
    );
    assert!(e.msg.contains("not supported"), "got: {}", e.msg);
}

fn compact_deck(extra: &str, inst: &str) -> String {
    format!(
        r#"
.veriloga
module mostest(d, g, s, b);
  inout d, g, s, b;
  electrical d, g, s, b;
  parameter real type = 1;
  parameter real L = 1;
  parameter real W = 1;
  parameter real gain = 1e-3;
  analog I(d, s) <+ type * gain * (W / L) * V(d, s);
endmodule
.endveriloga
.model_alias level=54 mostest
{}
V1 d 0 1
{}
.end
"#,
        extra, inst
    )
}

#[test]
fn compact_pmos_card_sets_negative_type() {
    let p = good(&compact_deck(".model pch pmos level=54", "M1 d g s 0 pch L=1 W=4"));
    assert_eq!(p.param("M1.type"), Some(-1.0), "pmos polarity -> type=-1");
}

#[test]
fn compact_routing_applies_option_scale_to_geometry() {
    let p = good(&compact_deck(".option scale=2\n.model nch nmos level=54", "M1 d g s 0 nch L=2 W=8"));
    assert_eq!(p.param("M1.L"), Some(4.0), "L scaled by 2");
    assert_eq!(p.param("M1.W"), Some(16.0), "W scaled by 2");
}

#[test]
fn compact_m_routing_matches_n_element() {
    let pm = good(&compact_deck(".model nch nmos level=54 gain=3e-3", "M1 d g s 0 nch L=2 W=8"));
    let pn = good(&compact_deck("", "N1 d g s 0 mostest type=1 gain=3e-3 L=2 W=8"));
    for key in ["type", "L", "W", "gain"] {
        assert_eq!(pm.param(&format!("M1.{}", key)), pn.param(&format!("N1.{}", key)), "param {} parity", key);
    }
}

#[test]
fn compact_device_subckt_binning_with_scale_and_quotes() {
    let p = good(
        r#"
.veriloga
module mostest(d, g, s, b);
  inout d, g, s, b; electrical d, g, s, b;
  parameter real type = 1;
  parameter real L = 1; parameter real W = 1; parameter real gain = 1e-3;
  analog I(d, s) <+ type * gain * (W / L) * V(d, s);
endmodule
.endveriloga
.model_alias level=54 mostest
.option scale=1u
.model nch nmos level=54 lmin=1e-7 lmax=5e-7 wmin=1e-7 wmax=1e-4 gain=10e-3
.model nch nmos level=54 lmin=5e-7 lmax=1e-4 wmin=1e-7 wmax=1e-4 gain=20e-3
.subckt sky130_nfet d g s b l=1 w=1 m=1
M0 d g s b nch l={l} w={w} m={m}
.ends
.param WDES=4
V1 d 0 1
X1 d g 0 0 sky130_nfet l='2' w='WDES*1' m='1'
.end
"#,
    );
    assert_eq!(p.p.devices.len(), 1, "one routed VA device");
    assert!((p.value("X1.M0.L") - 2e-6).abs() < 1e-18, "scaled L: {}", p.value("X1.M0.L"));
    assert!((p.value("X1.M0.W") - 4e-6).abs() < 1e-18, "scaled W: {}", p.value("X1.M0.W"));
    // L=2e-6 lands in the SECOND bin [5e-7,1e-4) -> gain=20e-3.
    assert_eq!(p.param("X1.M0.gain"), Some(20e-3), "scaled-L bin selected");
}

#[test]
fn compact_card_agauss_expression_resolves_to_nominal() {
    let p = good(
        r#"
.veriloga
module mostest(d, g, s, b);
  inout d, g, s, b; electrical d, g, s, b;
  parameter real type = 1;
  parameter real L = 1; parameter real W = 1;
  parameter real toxe = 3e-9;
  analog I(d, s) <+ type * (W / L) * toxe * V(d, s);
endmodule
.endveriloga
.model_alias level=54 mostest
.param mc_mm_switch=0
.param l=1 w=1 mult=1
.param my_toxe_slope=0
.model nch nmos level=54 toxe={4.148e-09+MC_MM_SWITCH*AGAUSS(0,1.0,1)*(4.148e-09*1.0*(my_toxe_slope/sqrt(l*w*mult)))}
V1 d 0 1
M1 d g s 0 nch L=2 W=8
.end
"#,
    );
    assert_eq!(p.param("M1.toxe"), Some(4.148e-9), "toxe resolves to nominal");
}

#[test]
fn compact_level_without_alias_errors_with_hint() {
    let e = bad("M1 d g s 0 nch L=1 W=1\n.model nch nmos level=54\nV1 d 0 1\n.end\n");
    assert!(e.msg.contains("model_alias"), "hint names .model_alias: {}", e.msg);
    assert!(e.msg.contains("compact model"), "msg: {}", e.msg);
}

#[test]
fn aliasparam_binds_target_parameter() {
    let p = good(
        "\
.veriloga
module vres(a,b);
  inout a,b; electrical a,b;
  parameter real R = 1k;
  aliasparam res = R;
  analog I(a,b) <+ V(a,b)/R;
endmodule
.endveriloga
V1 1 0 1
N1 1 0 vres res=2k
.end
",
    );
    assert_eq!(p.param("N1.R"), Some(2000.0), "alias binds the target");
    assert!(!p.has("N1.res"), "alias itself is not a parameter");
    assert!(!p.p.report.unknown_params.names().iter().any(|u| u.contains("res")));
}

#[test]
fn a_compiled_library_places_its_modules() {
    let p = good(".osdi psp103.osdi\nV1 d 0 1\nN1 d g s 0 psp103va l=1u w=2u bogus=3\n.end");
    assert_eq!(p.p.devices.len(), 1);
    assert!(matches!(p.p.devices[0].model, ModelRef::Osdi(0, 0)));
    assert_eq!(p.p.devices[0].terminals.len(), 4);
    assert!(p.p.devices[0].temperature.is_some());
    let e = bad(".osdi junk.osdi\nV1 d 0 1\n.end");
    assert!(e.msg.contains("junk.osdi"), "{}", e.msg);
}

#[test]
fn power_ports_bind_their_impedance() {
    let p = good("P1 in 0 Z0=75\nR1 in 0 50\n.end");
    assert_eq!(p.p.ports.len(), 1);
    assert_eq!(p.p.ports[0].name, "P1");
    assert_eq!(num(p.p.ports[0].z0), 75.0);
}

#[test]
fn verilog_a_blocks_leave_the_line_numbers_alone() {
    let text = "V1 1 0 1\n.veriloga\nmodule r2(a,b);\nendmodule\n.endveriloga\nN1 1 0 r2 R=2k\n.end\n";
    let block = match extract_veriloga(text, &Vec::new()) {
        Err(Stop::Need(Request::VaBlock(s))) => s,
        _ => panic!("the block is asked for"),
    };
    assert_eq!(block, "module r2(a,b);\nendmodule\n");
    let result = compile(&block);
    let va = vec![CompiledVa { file: false, source: block, result }];
    let (rest, _) = match extract_veriloga(text, &va) {
        Ok(r) => r,
        Err(_) => panic!("the block is known"),
    };
    assert_eq!(rest, "V1 1 0 1\n\n\n\n\nN1 1 0 r2 R=2k\n.end\n");
    let e = bad(".veriloga\nmodule r2(a,b);\nendmodule\n.endveriloga\nY1 1 0 3\n.end");
    assert_eq!(e.line, 5);
}

#[test]
fn every_node_of_a_deck_has_a_name_and_the_temperature_a_value() {
    let p = good(
        "V1 in 0 1\nB1 out 0 I=V(ctl)*2\nE1 x 0 in out 3\nQ1 c b e qmod\n.model qmod npn\nT1 in 0 far 0 Z0=50 TD=1n\n.end",
    );
    let n = p.p.node_names.len();
    assert!(p.p.circuit.node_count() < n);
    for d in &p.p.devices {
        for t in &d.terminals {
            assert!(*t < n, "{} of {}", t, d.name);
        }
    }
    assert_eq!(p.p.node_names[0], "0");
    assert!(p.node("ctl").is_some());
    assert!(p.has("$temp"));
}

#[test]
fn unknown_options_are_noted() {
    let p = good(".option reltol=1e-4 scale=1u POST\nV1 1 0 1\nR1 1 0 1k\n.end");
    assert_eq!(p.p.report.notes, vec!["unknown option 'reltol' ignored", "unknown option 'POST' ignored"]);
    assert!(!p.p.report.is_clean());
    assert!(good(".options scale=1u TEMP=30\nV1 1 0 1\nR1 1 0 1k\n.end").p.report.is_clean());
}

#[test]
fn model_cards_split_at_white_space_brackets_and_commas() {
    let toks = split_card_tokens("nmos(vto=0.7,kp=1e-4\u{a0}lambda={a + (b, c)}) 'x y'");
    assert_eq!(toks, vec!["nmos", "vto=0.7", "kp=1e-4", "lambda={a + (b, c)}", "'x y'"]);
}

//! Systems assembled over a small expression graph.
use num_complex::Complex64;
use sane::circuit::Circuit;
use sane::dae::assemble::{assemble_dae, check_controllers, device_inputs, LoweredDevice};
use sane::dae::eliminate::eliminate_nodes;
use sane::dae::jacobian::{small_signal_matrix, small_signal_transfer};
use sane::dae::linearize::{linearize, linearize_with, Granularity};
use sane::dae::merge::merge_nodes;
use sane::dae::reduce::{prune_graph, reduce_graph};
use sane::dae::sens::{
    ac_param_derivatives, augment_with_scaled_sensitivities, augment_with_sensitivities, directional, hessian,
    lagrangian_hessian,
};
use sane::dae::system::Dae;
use sane::dae::templates::assemble_jacobians;
use sane::device::{
    companion, safe_exp, BehavioralFragment, CSwitch, LoweredDelay, LoweredUnknown, Lowerer, UnknownKind,
};
use sane::export::{drawn_params, export_latex, theme, Tree};
use sane::netlist::parse::{parse, ParsedCircuit};
use sane::netlist::world::{CompiledVa, ModelRef, ModuleInfo, ParamNames, Placement, Request, Stock, Stop, VaResult, World};
use sane::numerics::{Ask, Host, Op1, Op2, Rel, Reply, Style};
use sane::osdi::evaluate::{slot_values, solve_vector, Loaded};
use sane::osdi::lower::{lower_behavioral, registration, slot_count};
use sane::osdi::module::OsdiModule;
use sane::osdi::topology::{cell_values, OsdiJacobianEntry, OsdiNodePair, OsdiNoise, Report};
use sane::scripting::{check_value, general_power, profile_take, real_env, sparsity, symbol_ids};
use sane::source_fn::SourceFn;
use sane::symbolic::{Algebra, Answer, ExprId, Fun1, Fun2, Nonlinearity, Query, SymbolId};
use sane::table::Table;
use std::cell::RefCell;
use std::collections::{BTreeSet, HashMap};
use std::rc::Rc;

fn bits(x: f64) -> u64 {
    x.to_bits()
}

fn num(b: u64) -> f64 {
    f64::from_bits(b)
}

fn reply(a: Ask) -> Reply {
    match a {
        Ask::Parse(s) => match s.parse::<f64>() {
            Ok(x) => Reply::Number(bits(x)),
            Err(_) => Reply::Nothing,
        },
        Ask::Apply1(f, a) => {
            let x = num(a);
            Reply::Number(bits(match f {
                Op1::Neg => -x,
                Op1::Sin => x.sin(),
                Op1::Cos => x.cos(),
                Op1::Tan => x.tan(),
                Op1::Asin => x.asin(),
                Op1::Acos => x.acos(),
                Op1::Atan => x.atan(),
                Op1::Exp => x.exp(),
                Op1::Ln => x.ln(),
                Op1::Log10 => x.log10(),
                Op1::Sqrt => x.sqrt(),
                Op1::Abs => x.abs(),
                Op1::Floor => x.floor(),
                Op1::Ceil => x.ceil(),
            }))
        }
        Ask::Apply2(f, a, b) => {
            let (x, y) = (num(a), num(b));
            Reply::Number(bits(match f {
                Op2::Add => x + y,
                Op2::Sub => x - y,
                Op2::Mul => x * y,
                Op2::Div => x / y,
                Op2::Pow => x.powf(y),
                Op2::Min => x.min(y),
                Op2::Max => x.max(y),
            }))
        }
        Ask::Compare(r, a, b) => Reply::Truth(holds(r, num(a), num(b))),
        Ask::Show(s, a) => {
            let x = num(a);
            Reply::Text(match s {
                Style::Plain => format!("{}", x),
                Style::Scientific => format!("{:e}", x),
                Style::Debug => format!("{:?}", x),
            })
        }
        Ask::Whole(a) => {
            let x = num(a);
            if x.fract() == 0.0 {
                Reply::Integer(x as i64)
            } else {
                Reply::Nothing
            }
        }
        Ask::Nearest(a) => Reply::Natural(num(a).round() as u32),
        Ask::Truncate(a) => Reply::Size(num(a) as usize),
        Ask::Integer(a) => Reply::Integer(num(a) as i64),
        Ask::Count(n) => Reply::Number(bits(n as f64)),
    }
}

fn holds(r: Rel, x: f64, y: f64) -> bool {
    match r {
        Rel::Lt => x < y,
        Rel::Gt => x > y,
        Rel::Le => x <= y,
        Rel::Ge => x >= y,
        Rel::Eq => x == y,
        Rel::Ne => x != y,
    }
}

fn host() -> Host<fn(Ask) -> Reply> {
    Host::new(reply)
}

// ---------------------------------------------------------------------------
// A hash-consed expression graph.
// ---------------------------------------------------------------------------
#[derive(Clone, Debug, PartialEq)]
enum Node {
    Const(f64),
    Sym(u64),
    Add(u64, u64),
    Mul(u64, u64),
    Neg(u64),
    Pow(u64, i64),
    Fun(String, Vec<u64>),
    Cmp(Rel, u64, u64),
    Select(u64, u64, u64),
    Sum(Vec<u64>),
    Out(String, u32, Vec<u64>),
}

#[derive(Default)]
struct Store {
    nodes: Vec<Node>,
    index: HashMap<String, u64>,
    symbols: Vec<String>,
}

impl Store {
    fn put(&mut self, n: Node) -> u64 {
        let key = format!("{:?}", n);
        if let Some(i) = self.index.get(&key) {
            return *i;
        }
        let i = self.nodes.len() as u64;
        self.nodes.push(n);
        self.index.insert(key, i);
        i
    }

    fn node(&self, e: u64) -> Node {
        self.nodes[e as usize].clone()
    }

    fn num(&mut self, x: f64) -> u64 {
        self.put(Node::Const(if x == 0.0 { 0.0 } else { x }))
    }

    fn constant(&self, e: u64) -> Option<f64> {
        match self.nodes[e as usize] {
            Node::Const(x) => Some(x),
            _ => None,
        }
    }

    fn symbol(&mut self, name: &str) -> u64 {
        match self.symbols.iter().position(|s| s == name) {
            Some(i) => i as u64,
            None => {
                self.symbols.push(name.to_string());
                self.symbols.len() as u64 - 1
            }
        }
    }

    fn add(&mut self, a: u64, b: u64) -> u64 {
        match (self.constant(a), self.constant(b)) {
            (Some(x), Some(y)) => self.num(x + y),
            (Some(x), _) if x == 0.0 => b,
            (_, Some(y)) if y == 0.0 => a,
            _ if self.neg(a) == b => self.num(0.0),
            _ => self.put(Node::Add(a, b)),
        }
    }

    fn neg(&mut self, a: u64) -> u64 {
        match self.node(a) {
            Node::Const(x) => self.num(-x),
            Node::Neg(b) => b,
            _ => self.put(Node::Neg(a)),
        }
    }

    fn mul(&mut self, a: u64, b: u64) -> u64 {
        match (self.constant(a), self.constant(b)) {
            (Some(x), Some(y)) => self.num(x * y),
            (Some(x), _) if x == 0.0 => a,
            (_, Some(y)) if y == 0.0 => b,
            (Some(x), _) if x == 1.0 => b,
            (_, Some(y)) if y == 1.0 => a,
            _ => self.put(Node::Mul(a, b)),
        }
    }

    fn pow(&mut self, a: u64, n: i64) -> u64 {
        match self.constant(a) {
            Some(x) => self.num(x.powi(n as i32)),
            None => match n {
                0 => self.num(1.0),
                1 => a,
                _ => self.put(Node::Pow(a, n)),
            },
        }
    }

    fn sum(&mut self, v: Vec<u64>) -> u64 {
        let kept: Vec<u64> = v.into_iter().filter(|e| self.constant(*e) != Some(0.0)).collect();
        match kept.len() {
            0 => self.num(0.0),
            1 => kept[0],
            _ => self.put(Node::Sum(kept)),
        }
    }

    fn fun(&mut self, f: &str, a: u64) -> u64 {
        self.put(Node::Fun(f.to_string(), vec![a]))
    }

    fn parts(&self, e: u64) -> Vec<u64> {
        match self.node(e) {
            Node::Const(_) | Node::Sym(_) => vec![],
            Node::Add(a, b) | Node::Mul(a, b) | Node::Cmp(_, a, b) => vec![a, b],
            Node::Neg(a) | Node::Pow(a, _) => vec![a],
            Node::Select(a, b, c) => vec![a, b, c],
            Node::Fun(_, v) | Node::Sum(v) | Node::Out(_, _, v) => v,
        }
    }

    fn free(&self, e: u64, out: &mut BTreeSet<u64>) {
        if let Node::Sym(s) = self.nodes[e as usize] {
            out.insert(s);
        }
        for p in self.parts(e) {
            self.free(p, out);
        }
    }

    fn derive(&mut self, e: u64, s: u64) -> u64 {
        match self.node(e) {
            Node::Const(_) | Node::Cmp(_, _, _) => self.num(0.0),
            Node::Sym(t) => self.num(if s == t { 1.0 } else { 0.0 }),
            Node::Add(a, b) => {
                let (x, y) = (self.derive(a, s), self.derive(b, s));
                self.add(x, y)
            }
            Node::Neg(a) => {
                let x = self.derive(a, s);
                self.neg(x)
            }
            Node::Mul(a, b) => {
                let (x, y) = (self.derive(a, s), self.derive(b, s));
                let (l, r) = (self.mul(x, b), self.mul(a, y));
                self.add(l, r)
            }
            Node::Pow(a, n) => {
                let x = self.derive(a, s);
                let k = self.num(n as f64);
                let p = self.pow(a, n - 1);
                let kp = self.mul(k, p);
                self.mul(kp, x)
            }
            Node::Sum(v) => {
                let d: Vec<u64> = v.iter().map(|&t| self.derive(t, s)).collect();
                self.sum(d)
            }
            Node::Select(c, a, b) => {
                let (x, y) = (self.derive(a, s), self.derive(b, s));
                if x == y {
                    x
                } else {
                    self.put(Node::Select(c, x, y))
                }
            }
            Node::Fun(f, v) => {
                let a = v[0];
                let x = self.derive(a, s);
                if self.constant(x) == Some(0.0) {
                    return x;
                }
                let outer = match f.as_str() {
                    "exp" => e,
                    "ln" => self.pow(a, -1),
                    "sin" => self.fun("cos", a),
                    "cos" => {
                        let t = self.fun("sin", a);
                        self.neg(t)
                    }
                    "sqrt" => {
                        let h = self.num(0.5);
                        let r = self.pow(e, -1);
                        self.mul(h, r)
                    }
                    "atan" => {
                        let one = self.num(1.0);
                        let q = self.pow(a, 2);
                        let d = self.add(one, q);
                        self.pow(d, -1)
                    }
                    "floor" => self.num(0.0),
                    other => panic!("no derivative of {}", other),
                };
                self.mul(outer, x)
            }
            Node::Out(f, k, v) => {
                let mut acc = self.num(0.0);
                for (i, a) in v.iter().enumerate() {
                    let x = self.derive(*a, s);
                    let d = self.put(Node::Out(format!("{}/{}", f, i), k, v.clone()));
                    let t = self.mul(d, x);
                    acc = self.add(acc, t);
                }
                acc
            }
        }
    }

    fn substitute(&mut self, e: u64, m: &HashMap<u64, u64>) -> u64 {
        match self.node(e) {
            Node::Const(_) => e,
            Node::Sym(s) => *m.get(&s).unwrap_or(&e),
            Node::Add(a, b) => {
                let (x, y) = (self.substitute(a, m), self.substitute(b, m));
                self.add(x, y)
            }
            Node::Mul(a, b) => {
                let (x, y) = (self.substitute(a, m), self.substitute(b, m));
                self.mul(x, y)
            }
            Node::Neg(a) => {
                let x = self.substitute(a, m);
                self.neg(x)
            }
            Node::Pow(a, n) => {
                let x = self.substitute(a, m);
                self.pow(x, n)
            }
            Node::Cmp(r, a, b) => {
                let (x, y) = (self.substitute(a, m), self.substitute(b, m));
                self.put(Node::Cmp(r, x, y))
            }
            Node::Select(a, b, c) => {
                let (x, y, z) = (self.substitute(a, m), self.substitute(b, m), self.substitute(c, m));
                self.put(Node::Select(x, y, z))
            }
            Node::Sum(v) => {
                let w: Vec<u64> = v.iter().map(|&t| self.substitute(t, m)).collect();
                self.sum(w)
            }
            Node::Fun(f, v) => {
                let w: Vec<u64> = v.iter().map(|&t| self.substitute(t, m)).collect();
                self.put(Node::Fun(f, w))
            }
            Node::Out(f, k, v) => {
                let w: Vec<u64> = v.iter().map(|&t| self.substitute(t, m)).collect();
                self.put(Node::Out(f, k, w))
            }
        }
    }

    fn eval(&self, e: u64, env: &HashMap<u64, Complex64>) -> Complex64 {
        let re = |x: f64| Complex64::new(x, 0.0);
        match self.node(e) {
            Node::Const(x) => re(x),
            Node::Sym(s) => *env.get(&s).unwrap_or(&re(0.0)),
            Node::Add(a, b) => self.eval(a, env) + self.eval(b, env),
            Node::Mul(a, b) => self.eval(a, env) * self.eval(b, env),
            Node::Neg(a) => -self.eval(a, env),
            Node::Pow(a, n) => self.eval(a, env).powi(n as i32),
            Node::Sum(v) => v.iter().map(|&t| self.eval(t, env)).sum(),
            Node::Cmp(r, a, b) => re(if holds(r, self.eval(a, env).re, self.eval(b, env).re) { 1.0 } else { 0.0 }),
            Node::Select(c, a, b) => {
                if self.eval(c, env).re != 0.0 {
                    self.eval(a, env)
                } else {
                    self.eval(b, env)
                }
            }
            Node::Fun(f, v) => {
                let x = self.eval(v[0], env);
                match f.as_str() {
                    "exp" => x.exp(),
                    "ln" => x.ln(),
                    "sin" => x.sin(),
                    "cos" => x.cos(),
                    "sqrt" => x.sqrt(),
                    "atan" => x.atan(),
                    "abs" => re(x.re.abs()),
                    "floor" => re(x.re.floor()),
                    other => panic!("no value of {}", other),
                }
            }
            Node::Out(_, _, _) => re(0.0),
        }
    }

    fn show(&self, e: u64) -> String {
        match self.node(e) {
            Node::Const(x) => format!("{}", x),
            Node::Sym(s) => self.symbols[s as usize].clone(),
            Node::Add(a, b) => format!("({} + {})", self.show(a), self.show(b)),
            Node::Mul(a, b) => format!("({} * {})", self.show(a), self.show(b)),
            Node::Neg(a) => format!("-{}", self.show(a)),
            Node::Pow(a, n) => format!("{}^{}", self.show(a), n),
            Node::Cmp(r, a, b) => format!("{:?}({}, {})", r, self.show(a), self.show(b)),
            Node::Select(a, b, c) => format!("select({}, {}, {})", self.show(a), self.show(b), self.show(c)),
            Node::Sum(v) => format!("sum({})", v.iter().map(|&t| self.show(t)).collect::<Vec<_>>().join(", ")),
            Node::Fun(f, v) => format!("{}({})", f, v.iter().map(|&t| self.show(t)).collect::<Vec<_>>().join(", ")),
            Node::Out(f, k, v) => {
                format!("{}[{}]({})", f, k, v.iter().map(|&t| self.show(t)).collect::<Vec<_>>().join(", "))
            }
        }
    }

    fn det(&mut self, m: &[Vec<u64>]) -> u64 {
        if m.is_empty() {
            return self.num(1.0);
        }
        let mut acc = self.num(0.0);
        for (j, &e) in m[0].iter().enumerate() {
            if self.constant(e) == Some(0.0) {
                continue;
            }
            let minor: Vec<Vec<u64>> = m[1..]
                .iter()
                .map(|r| r.iter().enumerate().filter(|(k, _)| *k != j).map(|(_, &x)| x).collect())
                .collect();
            let d = self.det(&minor);
            let mut t = self.mul(e, d);
            if j % 2 == 1 {
                t = self.neg(t);
            }
            acc = self.add(acc, t);
        }
        acc
    }

    fn answer(&mut self, q: Query) -> Answer {
        let e = |i: u64| Answer::Expr(ExprId(i));
        match q {
            Query::Number(b) => e(self.num(num(b))),
            Query::Int(i) => e(self.num(i as f64)),
            Query::Symbol(s) => Answer::Symbol(SymbolId(self.symbol(&s))),
            Query::SymbolExpr(s) => e(self.put(Node::Sym(s.0))),
            Query::SymbolName(s) => Answer::Text(self.symbols[s.0 as usize].clone()),
            Query::Apply1(f, a) => e(match f {
                Fun1::Neg => self.neg(a.0),
                Fun1::Recip => self.pow(a.0, -1),
                Fun1::Sqrt => self.fun("sqrt", a.0),
                Fun1::Ln => self.fun("ln", a.0),
                Fun1::Exp => self.fun("exp", a.0),
                Fun1::Sin => self.fun("sin", a.0),
                Fun1::Floor => self.fun("floor", a.0),
            }),
            Query::Apply2(f, a, b) => e(match f {
                Fun2::Add => self.add(a.0, b.0),
                Fun2::Sub => {
                    let nb = self.neg(b.0);
                    self.add(a.0, nb)
                }
                Fun2::Mul => self.mul(a.0, b.0),
                Fun2::Div => {
                    let rb = self.pow(b.0, -1);
                    self.mul(a.0, rb)
                }
            }),
            Query::Power(a, n) => e(self.pow(a.0, n)),
            Query::Compare(r, a, b) => e(self.put(Node::Cmp(r, a.0, b.0))),
            Query::Select(a, b, c) => e(self.put(Node::Select(a.0, b.0, c.0))),
            Query::Sum(v) => e(self.sum(v.iter().map(|x| x.0).collect())),
            Query::Call(f, v) => match (f.as_str(), v.len()) {
                ("sin", 1) | ("cos", 1) | ("exp", 1) | ("sqrt", 1) | ("ln", 1) | ("atan", 1) | ("abs", 1) | ("floor", 1) => {
                    e(self.fun(&f, v[0].0))
                }
                _ => Answer::Nothing,
            },
            Query::IsZero(a) => Answer::Truth(self.constant(a.0) == Some(0.0)),
            Query::FreeSymbols(a) => {
                let mut out = BTreeSet::new();
                self.free(a.0, &mut out);
                Answer::Symbols(out.into_iter().map(SymbolId).collect())
            }
            Query::Derive(a, s) => e(self.derive(a.0, s.0)),
            Query::Substitute(a, m) => {
                let map: HashMap<u64, u64> = m.iter().map(|(s, x)| (s.0, x.0)).collect();
                e(self.substitute(a.0, &map))
            }
            Query::Terms(a) => match self.node(a.0) {
                Node::Sum(v) => Answer::Exprs(v.into_iter().map(ExprId).collect()),
                _ => Answer::Nothing,
            },
            Query::Parts(a) => match self.node(a.0) {
                Node::Sym(s) => Answer::Symbol(SymbolId(s)),
                _ => Answer::Exprs(self.parts(a.0).into_iter().map(ExprId).collect()),
            },
            Query::Outside(f, k, v) => e(self.put(Node::Out(f, k, v.iter().map(|x| x.0).collect()))),
            Query::Rate(a, m) => {
                let mut acc = self.num(0.0);
                for (s, d) in m {
                    let x = self.derive(a.0, s.0);
                    let t = self.mul(x, d.0);
                    acc = self.add(acc, t);
                }
                e(acc)
            }
            Query::Determinant(m) => {
                let rows: Vec<Vec<u64>> = m.iter().map(|r| r.iter().map(|x| x.0).collect()).collect();
                e(self.det(&rows))
            }
            Query::Eval(v, env) => {
                let map: HashMap<u64, Complex64> =
                    env.iter().map(|(s, x)| (s.0, Complex64::new(num(*x), 0.0))).collect();
                Answer::Numbers(v.iter().map(|x| bits(self.eval(x.0, &map).re)).collect())
            }
            // Nothing here has a body.
            Query::Bodies(_) => Answer::Exprs(Vec::new()),
            // A crude classification: only counts what it was handed.
            Query::Nonlinearity(v, vars) => Answer::Nonlinearity(Nonlinearity {
                degree: (100 * v.len() + vars.len()) as u32,
                transcendental: false,
                piecewise: false,
                opaque: false,
            }),
        }
    }
}

#[derive(Clone, Default)]
struct Ctx(Rc<RefCell<Store>>);

type Env = HashMap<u64, Complex64>;

impl Ctx {
    fn algebra(&self) -> Algebra<impl Fn(Query) -> Answer> {
        let s = self.0.clone();
        Algebra::new(move |q: Query| s.borrow_mut().answer(q))
    }

    fn sym(&self, name: &str) -> ExprId {
        let mut s = self.0.borrow_mut();
        let i = s.symbol(name);
        ExprId(s.put(Node::Sym(i)))
    }

    fn symbol(&self, name: &str) -> SymbolId {
        SymbolId(self.0.borrow_mut().symbol(name))
    }

    fn env(&self, vals: &[(&str, f64)]) -> Env {
        vals.iter().map(|(n, x)| (self.symbol(n).0, Complex64::new(*x, 0.0))).collect()
    }

    fn values(&self, vals: &[(&str, f64)]) -> Vec<(SymbolId, u64)> {
        vals.iter().map(|(n, x)| (self.symbol(n), bits(*x))).collect()
    }

    fn eval(&self, e: ExprId, env: &Env) -> Complex64 {
        self.0.borrow().eval(e.0, env)
    }

    fn show(&self, e: ExprId) -> String {
        self.0.borrow().show(e.0)
    }

    fn name(&self, s: SymbolId) -> String {
        self.0.borrow().symbols[s.0 as usize].clone()
    }

    /// An expression written out.
    fn tree(&self, e: u64) -> Tree {
        let node = self.0.borrow().nodes[e as usize].clone();
        let at = |x: u64| Box::new(self.tree(x));
        match node {
            Node::Const(x) => Tree::Const(format!("{}", x), "1".to_string()),
            Node::Sym(s) => Tree::Symbol(self.name(SymbolId(s))),
            Node::Add(a, b) => Tree::Add(at(a), at(b)),
            Node::Mul(a, b) => Tree::Mul(at(a), at(b)),
            Node::Neg(a) => Tree::Neg(at(a)),
            Node::Pow(a, n) => Tree::Pow(at(a), n),
            Node::Fun(f, v) if v.len() == 1 => Tree::Unary(f, at(v[0])),
            Node::Fun(f, v) => Tree::Binary(f, at(v[0]), at(v[1])),
            Node::Cmp(r, a, b) => Tree::Cmp(r, at(a), at(b)),
            Node::Select(a, b, c) => Tree::Select(at(a), at(b), at(c)),
            Node::Sum(v) => Tree::Sum(v.iter().map(|&x| self.tree(x)).collect()),
            Node::Out(f, k, v) => Tree::Call(f, k, v.iter().map(|&x| self.tree(x)).collect()),
        }
    }

    fn free(&self, e: ExprId) -> BTreeSet<u64> {
        let mut out = BTreeSet::new();
        self.0.borrow().free(e.0, &mut out);
        out
    }

    fn max_resid(&self, dae: &Dae, env: &Env) -> f64 {
        dae.residuals.iter().map(|&r| self.eval(r, env).norm()).fold(0.0, f64::max)
    }

    fn assemble(&self, c: &Circuit, devs: Vec<LoweredDevice>) -> Dae {
        assert!(check_controllers(c));
        assemble_dae(&host(), &self.algebra(), c, &devs, bits(4.0 * 1.380649e-23))
    }
}

fn fragment(currents: Vec<ExprId>) -> BehavioralFragment {
    BehavioralFragment {
        terminal_currents: currents,
        residuals: Vec::new(),
        noise: Vec::new(),
        events: Vec::new(),
        param_syms: Vec::new(),
        op_vars: Vec::new(),
        limits: Vec::new(),
    }
}

fn device(terminals: Vec<usize>, frag: BehavioralFragment, mfactor: f64) -> LoweredDevice {
    LoweredDevice {
        terminals,
        mfactor: bits(mfactor),
        companion: Vec::new(),
        instance: None,
        frag,
        extras: Vec::new(),
        delays: Vec::new(),
    }
}

/// A capacitor through the device path: `i_a = C * d/dt(v_a - v_b)`.
fn cap_device(ctx: &Ctx, name: &str, a: usize, b: usize, m: f64) -> LoweredDevice {
    let al = ctx.algebra();
    let d = device_inputs(&al, &Circuit::new(), &vec![a, b], &vec![]).unwrap();
    let i = al.times(ctx.sym(name), al.minus(d.rates[0], d.rates[1]));
    device(vec![a, b], fragment(vec![i, al.neg(i)]), m)
}

const K_OVER_Q: f64 = 8.617333262e-5;
const T_NOM: f64 = 300.15;

/// An exponential junction between two nodes.
fn diode_device(ctx: &Ctx, name: &str, a: usize, b: usize) -> LoweredDevice {
    let al = ctx.algebra();
    let vt = al.times(al.number(bits(K_OVER_Q)), ctx.sym("$temp"));
    let n = ctx.sym(&format!("{}.N", name));
    let d = device_inputs(&al, &Circuit::new(), &vec![a, b], &vec![]).unwrap();
    let x = al.over(al.minus(d.voltages[0], d.voltages[1]), al.times(n, vt));
    let e = al.minus(al.fun1(Fun1::Exp, x), al.one());
    let i = al.times(ctx.sym(&format!("{}.Is", name)), e);
    device(vec![a, b], fragment(vec![i, al.neg(i)]), 1.0)
}

fn rc() -> Circuit {
    let mut c = Circuit::new();
    c.voltage_source("V1", 1, 0).resistor("R", 1, 2).capacitor("C", 2, 0);
    c
}

// ---------------------------------------------------------------------------
// Assembly.
// ---------------------------------------------------------------------------
#[test]
fn behavioral_capacitor_matches_native() {
    let ctx = Ctx::default();
    let native = ctx.assemble(&rc(), vec![]);
    let mut cb = Circuit::new();
    cb.voltage_source("V1", 1, 0).resistor("R", 1, 2);
    let behav = ctx.assemble(&cb, vec![cap_device(&ctx, "C", 2, 0, 1.0)]);
    assert_eq!(native.unknowns, behav.unknowns, "same unknown layout");
    assert_eq!(behav.dim(), 3, "behavioral cap mints no extra unknown");
    // Arbitrary (inconsistent) point: residual VALUES must still agree.
    let env = ctx.env(&[
        ("V1", 1.0),
        ("R", 1000.0),
        ("C", 1e-6),
        ("v1", 1.3),
        ("v2", 0.4),
        ("vdot1", 2.0),
        ("vdot2", 7.0),
        ("i_V1", -0.6),
        ("t", 0.0),
    ]);
    for (i, (rn, rb)) in native.residuals.iter().zip(&behav.residuals).enumerate() {
        let d = (ctx.eval(*rn, &env) - ctx.eval(*rb, &env)).norm();
        assert!(d < 1e-9, "residual {} differs by {}", i, d);
    }
}

#[test]
fn parameter_defaults_go_with_the_system() {
    let ctx = Ctx::default();
    let al = ctx.algebra();
    let (is, n) = (ctx.symbol("D1.Is"), ctx.symbol("D1.N"));
    let mut d1 = diode_device(&ctx, "D1", 1, 0);
    d1.frag.param_syms = vec![(is, Some(bits(1e-14))), (n, None)];
    let mut d2 = diode_device(&ctx, "D1", 1, 0);
    d2.frag.param_syms = vec![(is, Some(bits(2e-14)))];
    let mut c = Circuit::new();
    c.voltage_source("V1", 1, 0);
    let dae = ctx.assemble(&c, vec![d1, d2]);
    // A later default replaces an earlier one; without one there is no entry.
    for d in [&dae, &linearize(&al, &dae), &dae.fold_params(&al, &vec![])] {
        assert_eq!(d.param_defaults.len(), 1);
        assert_eq!(d.param_defaults.get(&is.0).map(|&v| num(v)), Some(2e-14));
        assert_eq!(d.param_defaults.get(&n.0), None);
    }
}

#[test]
fn mfactor_scales_terminal_current() {
    let ctx = Ctx::default();
    let build = |m: f64| {
        let mut cb = Circuit::new();
        cb.voltage_source("V1", 1, 0).resistor("R", 1, 2);
        ctx.assemble(&cb, vec![cap_device(&ctx, "C", 2, 0, m)])
    };
    let d1 = build(1.0);
    let d2 = build(2.0);
    assert_eq!(d1.unknowns, d2.unknowns);
    assert_eq!(d1.unknowns, vec!["v1", "v2", "i_V1"]);
    let (cap, vdot2) = (1e-6, 7.0);
    let env = ctx.env(&[
        ("V1", 1.0),
        ("R", 1000.0),
        ("C", cap),
        ("v1", 1.3),
        ("v2", 0.4),
        ("vdot1", 2.0),
        ("vdot2", vdot2),
        ("i_V1", -0.6),
        ("t", 0.0),
    ]);
    // Row 1 is the node-2 KCL: its m=2 residual exceeds m=1 by exactly C*vdot2.
    let delta = (ctx.eval(d2.residuals[1], &env) - ctx.eval(d1.residuals[1], &env)).re;
    assert!((delta - cap * vdot2).abs() < 1e-12, "delta={}", delta);
    for i in [0usize, 2] {
        let d = (ctx.eval(d1.residuals[i], &env) - ctx.eval(d2.residuals[i], &env)).norm();
        assert!(d < 1e-12, "residual {} changed by {}", i, d);
    }
}

#[test]
fn rc_dae_consistent_point() {
    let ctx = Ctx::default();
    let dae = ctx.assemble(&rc(), vec![]);
    assert_eq!(dae.dim(), 3);
    assert_eq!(dae.unknowns, vec!["v1", "v2", "i_V1"]);
    assert_eq!(
        dae.unknown_kinds(),
        vec![UnknownKind::NodeVoltage, UnknownKind::NodeVoltage, UnknownKind::BranchCurrent]
    );
    // A consistent transient point: v1 forced, v2 free, vdot2 = (v1-v2)/(R*C).
    let (r, cap, v1, v2) = (1000.0, 1e-6, 1.0, 0.5);
    let vdot2 = (v1 - v2) / (r * cap);
    let iv = -(v1 - v2) / r;
    let env = ctx.env(&[
        ("V1", v1),
        ("R", r),
        ("C", cap),
        ("v1", v1),
        ("v2", v2),
        ("vdot1", 0.0),
        ("vdot2", vdot2),
        ("i_V1", iv),
        ("t", 0.0),
    ]);
    assert!(ctx.max_resid(&dae, &env) < 1e-9);
}

#[test]
fn stamps_add_up_to_their_rows() {
    let ctx = Ctx::default();
    let dae = ctx.assemble(&rc(), vec![]);
    let env = ctx.env(&[("V1", 1.0), ("R", 3.0), ("C", 2.0), ("v1", 5.0), ("v2", 7.0), ("vdot2", 11.0), ("i_V1", 13.0)]);
    for (row, &r) in dae.residuals.iter().enumerate() {
        let sum: Complex64 = dae.stamps.iter().filter(|s| s.row == row).map(|s| ctx.eval(s.expr, &env)).sum();
        assert!((sum - ctx.eval(r, &env)).norm() < 1e-12);
    }
}

#[test]
fn eliminate_resistive_node_preserves_point() {
    let ctx = Ctx::default();
    let mut c = Circuit::new();
    c.voltage_source("V1", 1, 0).resistor("R1", 1, 2).resistor("R2", 2, 3).resistor("Rload", 3, 0);
    let dae = ctx.assemble(&c, vec![]);
    assert_eq!(dae.unknowns, vec!["v1", "v2", "v3", "i_V1"]);
    // protect the probe; node 2 is eliminated
    let (red, gone) = eliminate_nodes(&ctx.algebra(), &dae, &vec!["v3".to_string()]);
    assert_eq!(gone, vec!["v2".to_string()]);
    assert_eq!(red.unknowns, vec!["v1", "v3", "i_V1"]);
    assert_eq!(red.n_nodes, 2);
    // Divider: v3 = 2 * Rload/(R1+R2+Rload) = 2/3, i_V1 = -(v1-v3)/(R1+R2).
    let env = ctx.env(&[
        ("V1", 2.0),
        ("R1", 1.0),
        ("R2", 1.0),
        ("Rload", 1.0),
        ("v1", 2.0),
        ("v3", 2.0 / 3.0),
        ("vdot1", 0.0),
        ("vdot3", 0.0),
        ("i_V1", -(2.0 - 2.0 / 3.0) / 2.0),
        ("t", 0.0),
    ]);
    assert!(ctx.max_resid(&red, &env) < 1e-9);
    // Without protection only the source node is left.
    let (all, gone) = eliminate_nodes(&ctx.algebra(), &dae, &Vec::new());
    assert_eq!(gone.len(), 2);
    assert_eq!(all.unknowns, vec!["v1", "i_V1"]);
}

#[test]
fn diode_rectifier_consistent_point() {
    let ctx = Ctx::default();
    let mut c = Circuit::new();
    c.voltage_source("V1", 1, 0).resistor("R", 1, 2);
    let dae = ctx.assemble(&c, vec![diode_device(&ctx, "D1", 2, 0)]);
    assert_eq!(dae.dim(), 3);
    let vt = K_OVER_Q * T_NOM;
    let (is, nn, r) = (1e-14_f64, 1.0_f64, 1000.0_f64);
    let v2 = 0.6_f64;
    let id = is * ((v2 / (nn * vt)).exp() - 1.0);
    let v1 = v2 + r * id;
    let env = ctx.env(&[
        ("V1", v1),
        ("R", r),
        ("D1.Is", is),
        ("D1.N", nn),
        ("v1", v1),
        ("v2", v2),
        ("i_V1", -id),
        ("vdot1", 0.0),
        ("vdot2", 0.0),
        ("t", 0.0),
        ("$temp", T_NOM),
    ]);
    let m = ctx.max_resid(&dae, &env);
    assert!(m < 1e-9 * (1.0 + id.abs()), "residual {}", m);
}

#[test]
fn ccvs_consistent_point() {
    // V1 1 0; R1 1 0; H1: V(2,0) = H1*I(V1); RL 2 0.
    let ctx = Ctx::default();
    let mut c = Circuit::new();
    c.voltage_source("V1", 1, 0).resistor("R1", 1, 0).ccvs("H1", 2, 0, "V1").resistor("RL", 2, 0);
    let dae = ctx.assemble(&c, vec![]);
    assert_eq!(dae.dim(), 4); // v1, v2, i_V1, i_H1
    let (vin, r1, gain, rl) = (1.0, 1000.0, 5.0, 2000.0);
    let i_v1 = -vin / r1;
    let v2 = gain * i_v1;
    let i_h1 = -v2 / rl;
    let env = ctx.env(&[
        ("V1", vin),
        ("R1", r1),
        ("H1", gain),
        ("RL", rl),
        ("v1", vin),
        ("v2", v2),
        ("i_V1", i_v1),
        ("i_H1", i_h1),
        ("t", 0.0),
    ]);
    assert!(ctx.max_resid(&dae, &env) < 1e-9);
}

#[test]
fn an_unknown_controller_is_found_out() {
    let mut c = Circuit::new();
    c.resistor("R1", 1, 0).ccvs("H1", 2, 0, "Vx");
    assert!(!check_controllers(&c));
}

#[test]
fn sin_source_residual_is_time_dependent() {
    let ctx = Ctx::default();
    let mut c = Circuit::new();
    c.voltage_source("V1", 1, 0).set_source(SourceFn::Sin);
    c.resistor("R1", 1, 0);
    let dae = ctx.assemble(&c, vec![]);
    let i_v1 = dae.unknowns.iter().position(|u| u == "i_V1").unwrap();
    let s = ctx.show(dae.residuals[i_v1]);
    assert!(s.contains("sin("), "V constraint should be a sine of t: {}", s);
}

#[test]
fn current_switch_uses_control_current() {
    let ctx = Ctx::default();
    let mut c = Circuit::new();
    c.voltage_source("Vc", 1, 0).resistor("R1", 1, 0);
    let sw = CSwitch::new("W1", "Vc");
    let al = ctx.algebra();
    // The assembly finds the current of the controlling element by its name.
    let d = device_inputs(&al, &c, &vec![2, 0], &sw.control_currents()).expect("Vc has a current");
    let frag = sw.lower_behavioral(&al, d.voltages[0], d.voltages[1], d.controls[0]);
    let dae = ctx.assemble(&c, vec![device(vec![2, 0], frag, 1.0)]);
    // node 2 KCL carries the switch conductance (a Select on I(Vc)).
    let v2 = dae.unknowns.iter().position(|u| u == "v2").unwrap();
    let s = ctx.show(dae.residuals[v2]);
    assert!(s.contains("select("), "switch should use Select: {}", s);
    assert!(s.contains("i_Vc"), "switch should reference control current: {}", s);
    assert!(!dae.events.is_empty(), "the window edges are switching events");
}

#[test]
fn device_inputs_are_found_by_node_and_by_name() {
    let ctx = Ctx::default();
    let al = ctx.algebra();
    let mut c = Circuit::new();
    c.voltage_source("Vc", 1, 0).resistor("R1", 1, 2).inductor("L1", 2, 0);
    let d = device_inputs(&al, &c, &vec![2, 0, 1], &vec!["VC".to_string(), "l1".to_string()]).expect("both have currents");
    let show = |v: &Vec<ExprId>| v.iter().map(|&e| ctx.show(e)).collect::<Vec<_>>();
    assert_eq!(show(&d.voltages), vec!["v2".to_string(), ctx.show(al.zero()), "v1".to_string()]);
    assert_eq!(show(&d.rates), vec!["vdot2".to_string(), ctx.show(al.zero()), "vdot1".to_string()]);
    assert_eq!(show(&d.controls), vec!["i_Vc", "i_L1"]);
    // A resistor has no current of its own.
    assert!(device_inputs(&al, &c, &vec![2], &vec!["R1".to_string()]).is_none());
}

#[test]
fn mutual_inductance_couples_constraints() {
    let ctx = Ctx::default();
    let mut c = Circuit::new();
    c.voltage_source("V1", 1, 0)
        .inductor("L1", 1, 0)
        .inductor("L2", 2, 0)
        .resistor("RL", 2, 0)
        .mutual("K1", "L1", "L2");
    let dae = ctx.assemble(&c, vec![]);
    let i_l1 = dae.unknowns.iter().position(|u| u == "i_L1").unwrap();
    let s = ctx.show(dae.residuals[i_l1]);
    assert!(s.contains("K1"), "L1 constraint missing mutual coeff: {}", s);
    assert!(s.contains("idot_L2"), "L1 constraint missing idot_L2: {}", s);
}

// ---------------------------------------------------------------------------
// Small signal.
// ---------------------------------------------------------------------------
#[test]
fn small_signal_rc_matches_analytic() {
    let ctx = Ctx::default();
    let dae = ctx.assemble(&rc(), vec![]);
    let h = small_signal_transfer(&ctx.algebra(), &dae, "V1", "v2").unwrap();
    let (r, cap) = (1000.0, 1e-6);
    for &f in &[10.0, 159.155, 1000.0, 10_000.0] {
        let w = 2.0 * std::f64::consts::PI * f;
        let mut env = ctx.env(&[("R", r), ("C", cap)]);
        let sval = Complex64::new(0.0, w);
        env.insert(ctx.symbol("s").0, sval);
        let got = ctx.eval(h, &env);
        let expected = Complex64::new(1.0, 0.0) / (Complex64::new(1.0, 0.0) + sval * r * cap);
        assert!((got - expected).norm() < 1e-9, "f={}: {} vs {}", f, got, expected);
    }
    assert!(small_signal_transfer(&ctx.algebra(), &dae, "V1", "v9").is_none());
}

#[test]
fn jacobian_dims_and_sparsity() {
    let ctx = Ctx::default();
    let al = ctx.algebra();
    let dae = ctx.assemble(&rc(), vec![]);
    let jx = dae.jacobian_x(&al);
    assert_eq!(jx.len(), 3);
    assert_eq!(jx[0].len(), 3);
    let sp = sparsity(&al, &dae.jacobian_xdot(&al));
    // Columns are [vdot1, vdot2, (branch -> None)]. Only the capacitor on node 2
    // makes vdot2 appear, and only in node 2's KCL (row index 1).
    assert!(sp[1][1], "vdot2 should appear in node-2 residual");
    assert!(sp.iter().all(|row| !row[0]), "vdot1 has no cap -> zero column");
    assert!(sp.iter().all(|row| !row[2]), "algebraic branch -> zero column");
}

#[test]
fn rc_lowpass_matches_analytic() {
    let ctx = Ctx::default();
    let mut cct = Circuit::new();
    cct.voltage_source("Vin", 1, 0).resistor("R", 1, 2).capacitor("C", 2, 0);
    let dae = ctx.assemble(&cct, vec![]);
    let h = small_signal_transfer(&ctx.algebra(), &dae, "Vin", "v2").expect("transfer exists");
    let (r, c) = (1000.0, 1e-6);
    let h_at = |f: f64| -> Complex64 {
        let mut env = ctx.env(&[("R", r), ("C", c)]);
        env.insert(ctx.symbol("s").0, Complex64::new(0.0, 2.0 * std::f64::consts::PI * f));
        ctx.eval(h, &env)
    };
    for &f in &[10.0, 100.0, 159.155, 1000.0, 10_000.0] {
        let s = Complex64::new(0.0, 2.0 * std::f64::consts::PI * f);
        let got = h_at(f);
        let expected = Complex64::new(1.0, 0.0) / (Complex64::new(1.0, 0.0) + s * r * c);
        assert!((got - expected).norm() < 1e-9, "f={} Hz: got {}, expected {}", f, got, expected);
    }
    // At the corner frequency the magnitude is 1/sqrt(2).
    let fc = 1.0 / (2.0 * std::f64::consts::PI * r * c);
    let mag = h_at(fc).norm();
    assert!((mag - 1.0 / 2.0_f64.sqrt()).abs() < 1e-6, "corner mag {}", mag);
}

#[test]
fn transconductance_into_load() {
    let ctx = Ctx::default();
    let mut cct = Circuit::new();
    cct.voltage_source("V1", 1, 0).vccs("G1", 2, 0, 1, 0).resistor("RL", 2, 0);
    let dae = ctx.assemble(&cct, vec![]);
    let h = small_signal_transfer(&ctx.algebra(), &dae, "V1", "v2").expect("transfer exists");
    let (gm, rl) = (0.01, 2000.0);
    let mut env = ctx.env(&[("G1", gm), ("RL", rl)]);
    env.insert(ctx.symbol("s").0, Complex64::new(0.0, 1.0)); // no s-dependence expected
    let got = ctx.eval(h, &env);
    assert!((got - Complex64::new(-gm * rl, 0.0)).norm() < 1e-9, "got {}", got);
}

// ---------------------------------------------------------------------------
// Linearisation.
// ---------------------------------------------------------------------------
fn rlc(ctx: &Ctx) -> Dae {
    let mut c = Circuit::new();
    c.current_source("I1", 0, 1).resistor("R1", 1, 0).inductor("L1", 1, 0).capacitor("C1", 1, 0);
    ctx.assemble(&c, vec![])
}

fn diode_rc(ctx: &Ctx) -> Dae {
    let mut c = Circuit::new();
    c.voltage_source("V1", 2, 0).resistor("R1", 1, 2).capacitor("C1", 1, 0);
    ctx.assemble(&c, vec![diode_device(ctx, "D1", 1, 0)])
}

/// Deterministic pseudo-random complex value for a symbol name.
fn pseudo(name: &str, salt: u64) -> Complex64 {
    let mut h = 0xcbf29ce484222325u64 ^ salt;
    for b in name.bytes() {
        h = (h ^ b as u64).wrapping_mul(0x100000001b3);
    }
    let re = (h % 30) as f64 / 1000.0 + 0.02;
    let im = ((h >> 17) % 30) as f64 / 1000.0 + 0.005;
    Complex64::new(re, im)
}

fn assert_matrix_eq(ctx: &Ctx, a: &[Vec<ExprId>], b: &[Vec<ExprId>]) {
    assert_eq!(a.len(), b.len(), "dimension mismatch");
    for salt in [1u64, 7, 31, 131] {
        let mut env = Env::new();
        for e in a.iter().flatten().chain(b.iter().flatten()) {
            for s in ctx.free(*e) {
                let name = ctx.name(SymbolId(s));
                let base = name.strip_suffix("#op").unwrap_or(&name);
                let val = if base == "$temp" { Complex64::new(T_NOM, 0.0) } else { pseudo(base, salt) };
                env.insert(s, val);
            }
        }
        for i in 0..a.len() {
            for j in 0..a.len() {
                let lhs = ctx.eval(a[i][j], &env);
                let rhs = ctx.eval(b[i][j], &env);
                let tol = 1e-9 * (1.0 + lhs.norm());
                assert!((lhs - rhs).norm() <= tol, "[{}][{}] mismatch at salt {}: {} vs {}", i, j, salt, lhs, rhs);
            }
        }
    }
}

fn assert_reassembles(ctx: &Ctx, dae: &Dae) {
    let al = ctx.algebra();
    let a_orig = small_signal_matrix(&al, dae);
    for gran in [Granularity::PerElement, Granularity::Canonical] {
        let lin = linearize_with(&al, dae, gran);
        assert_eq!(dae.dim(), lin.dim(), "dimension preserved");
        let a_lin = small_signal_matrix(&al, &lin);
        assert_matrix_eq(ctx, &a_orig, &a_lin);
    }
}

#[test]
fn linear_rlc_reassembles() {
    let ctx = Ctx::default();
    let dae = rlc(&ctx);
    assert_reassembles(&ctx, &dae);
}

#[test]
fn nonlinear_diode_reassembles() {
    let ctx = Ctx::default();
    let dae = diode_rc(&ctx);
    assert_reassembles(&ctx, &dae);
}

fn ports(dae: &Dae) -> BTreeSet<u64> {
    dae.x.iter().copied().chain(dae.xdot.iter().flatten().copied()).map(|s| s.0).collect()
}

#[test]
fn canonical_stamps_are_atomic() {
    let ctx = Ctx::default();
    let dae = rlc(&ctx);
    let lin = linearize_with(&ctx.algebra(), &dae, Granularity::Canonical);
    let ports = ports(&lin);
    for st in &lin.stamps {
        let touched = ctx.free(st.expr).intersection(&ports).count();
        assert_eq!(touched, 1, "a canonical stamp touches exactly one port");
    }
}

#[test]
fn coefficients_are_constant() {
    let ctx = Ctx::default();
    let al = ctx.algebra();
    let dae = diode_rc(&ctx);
    let lin = linearize(&al, &dae);
    let perturbations = ports(&lin);
    for mat in [lin.jacobian_x(&al), lin.jacobian_xdot(&al)] {
        for entry in mat.into_iter().flatten() {
            assert!(
                ctx.free(entry).is_disjoint(&perturbations),
                "linear coefficient still depends on a perturbation unknown"
            );
        }
    }
}

// ---------------------------------------------------------------------------
// Jacobians.
// ---------------------------------------------------------------------------
fn cells(ctx: &Ctx, b: &(Vec<usize>, Vec<usize>, Vec<ExprId>), env: &Env) -> Vec<(usize, usize, f64)> {
    let mut v: Vec<(usize, usize, f64)> =
        (0..b.0.len()).map(|k| (b.0[k], b.1[k], ctx.eval(b.2[k], env).re)).collect();
    v.sort_by(|a, b| (a.0, a.1).cmp(&(b.0, b.1)));
    v
}

fn same_cells(a: Vec<(usize, usize, f64)>, b: Vec<(usize, usize, f64)>) {
    assert_eq!(a.len(), b.len());
    for (x, y) in a.iter().zip(&b) {
        assert_eq!((x.0, x.1), (y.0, y.1));
        assert!((x.2 - y.2).abs() < 1e-9 * (1.0 + x.2.abs()), "{:?} vs {:?}", x, y);
    }
}

#[test]
fn templates_give_the_direct_jacobians() {
    let ctx = Ctx::default();
    let al = ctx.algebra();
    let mut c = Circuit::new();
    c.voltage_source("V1", 1, 0)
        .resistor("R1", 1, 2)
        .resistor("R2", 2, 0)
        .capacitor("C1", 2, 0)
        .capacitor("C2", 1, 2);
    let dae = ctx.assemble(&c, vec![diode_device(&ctx, "D1", 2, 0)]);
    let env = ctx.env(&[
        ("R1", 2.0),
        ("R2", 3.0),
        ("C1", 5.0),
        ("C2", 7.0),
        ("D1.Is", 1e-14),
        ("D1.N", 1.0),
        ("v1", 0.7),
        ("v2", 0.6),
        ("$temp", T_NOM),
    ]);
    let x = cells(&ctx, &dae.jacobian_x_coo(&al), &env);
    let xd = cells(&ctx, &dae.jacobian_xdot_coo(&al), &env);
    same_cells(x.clone(), cells(&ctx, &dae.jacobian_x_coo_templated(&al), &env));
    same_cells(xd.clone(), cells(&ctx, &dae.jacobian_xdot_coo_templated(&al), &env));
    let both = dae.jacobian_x_xdot_coo_templated(&al);
    same_cells(x, cells(&ctx, &both.0, &env));
    same_cells(xd, cells(&ctx, &both.1, &env));
    let params = dae.params(&al);
    same_cells(
        cells(&ctx, &dae.jacobian_p_coo(&al, &params), &env),
        cells(&ctx, &dae.jacobian_p_coo_templated(&al, &params), &env),
    );
}

#[test]
fn a_delay_reads_its_history_input() {
    let ctx = Ctx::default();
    let al = ctx.algebra();
    let mut c = Circuit::new();
    c.voltage_source("V1", 1, 0).resistor("R1", 1, 2);
    // `y` follows node 2 one delay later; half of it flows out of the node.
    let mut lo = Lowerer::new();
    let (x, _) = lo.unknown_of(&al, "T1", "x", false);
    let (y, _) = lo.unknown_of(&al, "T1", "y", false);
    let hist = ctx.sym("T1.hist");
    let node = device_inputs(&al, &c, &vec![2], &vec![]).unwrap();
    let mut frag = fragment(vec![al.times(al.number(bits(0.5)), y)]);
    frag.residuals = vec![al.minus(x, node.voltages[0]), al.minus(y, hist)];
    let mut d = device(vec![2], frag, 1.0);
    d.delays = vec![LoweredDelay { src_extra: 0, out_extra: 1, hist: ctx.symbol("T1.hist"), tau: ctx.sym("T1.td") }];
    d.extras = lo.extras;
    let dae = ctx.assemble(&c, vec![d]);
    assert_eq!(dae.unknowns, vec!["v1", "v2", "i_V1", "T1.x", "T1.y"]);
    assert_eq!((dae.delays[0].src, dae.delays[0].out), (3, 4));
    let env = ctx.env(&[]);
    assert_eq!(cells(&ctx, &dae.jacobian_hist_coo(&al), &env), vec![(4, 0, -1.0)]);
    // The history input is no parameter.
    let params: Vec<String> = dae.params(&al).iter().map(|&p| ctx.name(p)).collect();
    assert!(params.contains(&"R1".to_string()) && !params.contains(&"T1.hist".to_string()));
}

#[test]
fn several_blocks_come_out_of_one_pass() {
    let ctx = Ctx::default();
    let al = ctx.algebra();
    let dae = ctx.assemble(&rc(), vec![]);
    let env = ctx.env(&[("V1", 1.0), ("R", 2.0), ("C", 3.0), ("v1", 5.0), ("v2", 7.0)]);
    let column = vec![Some(ctx.symbol("v2")), None];
    let blocks = vec![column, vec![Some(ctx.symbol("vdot2"))]];
    let vars = vec![ctx.symbol("v1"), ctx.symbol("v2"), ctx.symbol("i_V1"), ctx.symbol("vdot2")];
    let out = assemble_jacobians(&al, &dae.stamps, dae.t, &vars, &blocks);
    assert_eq!(cells(&ctx, &out[0], &env), vec![(0, 0, -0.5), (1, 0, 0.5)]);
    assert_eq!(cells(&ctx, &out[1], &env), vec![(1, 0, 3.0)]);
}

#[test]
fn folding_removes_a_parameter() {
    let ctx = Ctx::default();
    let al = ctx.algebra();
    let dae = ctx.assemble(&rc(), vec![]);
    let names = |d: &Dae| {
        let mut v: Vec<String> = d.params(&al).iter().map(|&s| ctx.name(s)).collect();
        v.sort();
        v
    };
    assert_eq!(names(&dae), vec!["C", "R", "V1"]);
    let folded = dae.fold_params(&al, &ctx.values(&[("R", 2.0)]));
    assert_eq!(names(&folded), vec!["C", "V1"]);
    assert_eq!(folded.unknowns, dae.unknowns);
    assert_eq!(dae.fold_params(&al, &vec![]).residuals, dae.residuals);
    let env = ctx.env(&[("v1", 3.0), ("v2", 1.0), ("C", 0.0), ("i_V1", 0.0)]);
    assert!((ctx.eval(folded.residuals[0], &env).re - 1.0).abs() < 1e-12);
}

// ---------------------------------------------------------------------------
// Graph reduction.
// ---------------------------------------------------------------------------
#[test]
fn merged_nodes_share_one_current_law() {
    let ctx = Ctx::default();
    let mut c = Circuit::new();
    c.current_source("I1", 0, 1).resistor("R1", 1, 2).resistor("R2", 2, 3).resistor("R3", 3, 0);
    let dae = ctx.assemble(&c, vec![]);
    let (red, stay) = merge_nodes(&ctx.algebra(), &dae, &vec![(2, 1), (1, 9)]);
    assert_eq!(stay, vec![0, 1]);
    assert_eq!(red.unknowns, vec!["v1", "v2"]);
    assert_eq!(red.n_nodes, 2);
    // v1 -R1- v2 and v2 -R3- ground remain; R2 is shorted.
    let env = ctx.env(&[("I1", 1.0), ("R1", 1.0), ("R2", 1.0), ("R3", 2.0), ("v1", 3.0), ("v2", 2.0)]);
    assert!(ctx.max_resid(&red, &env) < 1e-12);
    // Shorting in a chain keeps the lowest index.
    let (one, stay) = merge_nodes(&ctx.algebra(), &dae, &vec![(2, 1), (0, 1)]);
    assert_eq!(stay, vec![0]);
    assert_eq!(one.unknowns, vec!["v1"]);
}

#[test]
fn negligible_branches_are_opened() {
    let ctx = Ctx::default();
    let h = host();
    let mut c = Circuit::new();
    c.current_source("I1", 0, 1).resistor("R1", 1, 2).resistor("R2", 2, 0).resistor("Rbig", 1, 0);
    let dae = ctx.assemble(&c, vec![]);
    let p = ctx.values(&[("I1", 1.0), ("R1", 1.0), ("R2", 1.0), ("Rbig", 1e9)]);
    let x = vec![bits(2.0), bits(1.0)];
    let (red, gone) = prune_graph(&h, &ctx.algebra(), &dae, &x, &p, &vec![bits(1.0)], bits(1e-3));
    assert_eq!(gone.len(), 1);
    assert_eq!(gone[0].0, "Rbig");
    assert!(num(gone[0].1) < 1e-3);
    assert_eq!(red.unknowns, dae.unknowns);
    assert!(!ctx.show(red.residuals[0]).contains("Rbig"));
    assert!(ctx.show(red.residuals[0]).contains("R1"));
    // A loose tolerance opens nothing that matters.
    let (_, none) = prune_graph(&h, &ctx.algebra(), &dae, &x, &p, &vec![bits(1.0)], bits(1e-12));
    assert!(none.is_empty());
}

#[test]
fn opened_branches_are_listed_before_shorted_ones() {
    let ctx = Ctx::default();
    let h = host();
    let mut c = Circuit::new();
    c.current_source("I1", 0, 1).resistor("Rw", 1, 2).resistor("R2", 2, 0).resistor("Rbig", 2, 0);
    let dae = ctx.assemble(&c, vec![]);
    let p = ctx.values(&[("I1", 1.0), ("Rw", 1e-9), ("R2", 1.0), ("Rbig", 1e12)]);
    let x = vec![bits(1.0), bits(1.0)];
    let (red, done) = reduce_graph(&h, &ctx.algebra(), &dae, &x, &p, &vec![bits(1.0)], bits(1e-3));
    assert_eq!(
        done,
        vec![("Rbig".to_string(), "open".to_string()), ("Rw".to_string(), "short".to_string())]
    );
    assert_eq!(red.unknowns, vec!["v1"]);
}

// ---------------------------------------------------------------------------
// Sensitivities.
// ---------------------------------------------------------------------------
#[test]
fn directional_derivatives_combine_state_and_parameter() {
    let ctx = Ctx::default();
    let al = ctx.algebra();
    // e = x*x*p at x=3, p=2 along (dx=0.5, dp=1): 2*3*2*0.5 + 9 = 15.
    let (x, p) = (ctx.sym("x"), ctx.sym("p"));
    let e = al.times(al.times(x, x), p);
    let d = directional(&host(), &al, e, &vec![bits(0.5)], &vec![ctx.symbol("x")], ctx.symbol("p"));
    let env = ctx.env(&[("x", 3.0), ("p", 2.0)]);
    assert!((ctx.eval(d, &env).re - 15.0).abs() < 1e-12);
    // A direction that does not move the state leaves the partial derivative.
    let d = directional(&host(), &al, e, &vec![bits(0.0)], &vec![ctx.symbol("x")], ctx.symbol("p"));
    assert!((ctx.eval(d, &env).re - 9.0).abs() < 1e-12);
}

#[test]
fn sensitivity_systems_are_appended() {
    let ctx = Ctx::default();
    let al = ctx.algebra();
    let dae = ctx.assemble(&rc(), vec![]);
    let aug = augment_with_sensitivities(&al, &dae, &vec![ctx.symbol("R"), ctx.symbol("C")]);
    assert_eq!(aug.dim(), 9);
    assert_eq!(aug.unknowns[..3], dae.unknowns[..]);
    assert_eq!(aug.unknowns[4], "d(v2)/d(R)");
    assert_eq!(aug.kinds[4], UnknownKind::DeviceState);
    assert_eq!(aug.xdot[4].is_some(), dae.xdot[1].is_some());
    assert_eq!(aug.xdot[5].is_some(), dae.xdot[2].is_some());
    // DC sensitivity of v2 = V1 is zero: s = 0 solves the rows of R.
    let env = ctx.env(&[
        ("V1", 1.0),
        ("R", 2.0),
        ("C", 3.0),
        ("v1", 1.0),
        ("v2", 1.0),
        ("i_V1", 0.0),
    ]);
    for r in &aug.residuals[3..6] {
        assert!(ctx.eval(*r, &env).norm() < 1e-12);
    }
    // Scaling multiplies the parameter derivative.
    let one = augment_with_scaled_sensitivities(&al, &dae, &ctx.values(&[("R", 1.0)]));
    let two = augment_with_scaled_sensitivities(&al, &dae, &ctx.values(&[("R", 2.0)]));
    let env = ctx.env(&[("R", 2.0), ("v1", 5.0), ("v2", 1.0)]);
    let (a, b) = (ctx.eval(one.residuals[3], &env).re, ctx.eval(two.residuals[3], &env).re);
    assert!(a != 0.0 && (b - 2.0 * a).abs() < 1e-12, "{} vs {}", a, b);
}

#[test]
fn second_order_sensitivities_are_symmetric() {
    let ctx = Ctx::default();
    let al = ctx.algebra();
    let mut c = Circuit::new();
    c.current_source("I1", 0, 1).resistor("R1", 1, 0);
    let dae = ctx.assemble(&c, vec![]);
    // F = v1/R1 - I1, y = v1: v1 = I1*R1, so d2y/dI1 dR1 = 1 and the squares
    // vanish. lambda = R1, s_R = I1, s_I = R1.
    let (r, i) = (4.0, 3.0);
    let env = ctx.values(&[("R1", r), ("I1", i), ("v1", r * i)]);
    let subset = vec![(ctx.symbol("R1"), vec![bits(i)]), (ctx.symbol("I1"), vec![bits(r)])];
    let m = hessian(&host(), &al, &dae, &vec![bits(r)], &subset, &env);
    assert!(num(m[0][0]).abs() < 1e-9, "{}", num(m[0][0]));
    assert!(num(m[1][1]).abs() < 1e-9);
    assert!((num(m[0][1]) - 1.0).abs() < 1e-9, "{}", num(m[0][1]));
    assert_eq!(m[0][1], m[1][0]);
}

#[test]
fn small_signal_matrices_move_with_a_parameter() {
    let ctx = Ctx::default();
    let al = ctx.algebra();
    let dae = ctx.assemble(&rc(), vec![]);
    let env = ctx.values(&[("R", 2.0), ("C", 3.0), ("V1", 1.0)]);
    let s = vec![bits(0.0); 3];
    let (dg, dc, db) = ac_param_derivatives(&host(), &al, &dae, ctx.symbol("V1"), ctx.symbol("R"), &s, &env);
    // d(1/R)/dR = -1/R^2 at the node diagonal.
    assert!((num(dg[0][0]) + 0.25).abs() < 1e-12, "{}", num(dg[0][0]));
    assert!((num(dg[0][1]) - 0.25).abs() < 1e-12);
    assert!(dc.iter().flatten().all(|v| num(*v) == 0.0));
    assert!(db.iter().all(|v| num(*v).abs() == 0.0));
    let (_, dc, _) = ac_param_derivatives(&host(), &al, &dae, ctx.symbol("V1"), ctx.symbol("C"), &s, &env);
    assert!((num(dc[1][1]) - 1.0).abs() < 1e-12);
}

#[test]
fn lagrangian_blocks_have_second_derivatives() {
    let ctx = Ctx::default();
    let al = ctx.algebra();
    let dae = ctx.assemble(&rc(), vec![]);
    let h = lagrangian_hessian(&al, &dae, &vec![ctx.symbol("R"), ctx.symbol("C")]);
    assert_eq!(h.lambda.len(), 3);
    assert_eq!(ctx.name(h.lambda[2]), "__lam2");
    assert!(h.xx.0.is_empty(), "the circuit is linear in its state");
    let env = ctx.env(&[("R", 2.0), ("C", 3.0), ("__lam0", 1.0), ("v1", 5.0), ("v2", 1.0), ("vdot2", 7.0)]);
    // d2/dv1 dR of lambda0*(v1-v2)/R = -1/R^2.
    let xp = cells(&ctx, &h.xp, &env);
    assert!(xp.iter().any(|c| c.0 == 0 && c.1 == 0 && (c.2 + 0.25).abs() < 1e-12), "{:?}", xp);
    // d2/dR2 of lambda0*(v1-v2)/R = 2*(v1-v2)/R^3.
    let pp = cells(&ctx, &h.pp, &env);
    assert!(pp.iter().any(|c| c.0 == 0 && c.1 == 0 && (c.2 - 1.0).abs() < 1e-12), "{:?}", pp);
    // The rate of node 2 meets the capacitance.
    assert!(h.xdp.0.iter().zip(&h.xdp.1).any(|(r, c)| (*r, *c) == (1, 1)));
}

// ---------------------------------------------------------------------------
// Devices.
// ---------------------------------------------------------------------------
#[test]
fn cswitch_on_and_off() {
    let ctx = Ctx::default();
    let al = ctx.algebra();
    let frag = CSwitch::new("W1", "V1").lower_behavioral(&al, ctx.sym("a"), ctx.sym("b"), ctx.sym("i_V1"));
    assert!(frag.residuals.is_empty(), "no extra unknowns");
    let i = &frag.terminal_currents;
    let pars = [("a", 2.0), ("b", 0.0), ("W1.Ron", 10.0), ("W1.Roff", 1e6), ("W1.It", 0.5e-3), ("W1.Ih", 1e-6)];
    // On: control current 1 mA >> It+Ih -> fully on, i = (Va-Vb)/Ron = 0.2.
    let mut on = pars.to_vec();
    on.push(("i_V1", 1e-3));
    let env = ctx.env(&on);
    assert!((ctx.eval(i[0], &env).re - 0.2).abs() < 1e-9);
    // Off: zero control current -> fully off, i = (Va-Vb)/Roff = 2e-6.
    let mut off = pars.to_vec();
    off.push(("i_V1", 0.0));
    let env = ctx.env(&off);
    assert!((ctx.eval(i[0], &env).re - 2e-6).abs() < 1e-12);
    // KCL closes.
    let s = ctx.eval(i[0], &env).re + ctx.eval(i[1], &env).re;
    assert!(s.abs() < 1e-15);
}

#[test]
fn safe_exp_is_exact_below_and_linear_above_the_knot() {
    let vc = 80.0_f64;
    let ctx = Ctx::default();
    let e = safe_exp(&ctx.algebra(), ctx.sym("x"), bits(vc));
    let at = |xv: f64| ctx.eval(e, &ctx.env(&[("x", xv)])).re;
    // Exact below the knot.
    assert!((at(1.5) - 1.5_f64.exp()).abs() < 1e-12 * 1.5_f64.exp());
    // Linear (finite) above it: exp(vc)*(1 + (x - vc)).
    let want = vc.exp() * (1.0 + 10.0);
    assert!((at(vc + 10.0) - want).abs() < 1e-9 * want);
}

#[test]
fn the_companion_is_a_star() {
    let star = companion(3, bits(2.0));
    assert_eq!(star.len(), 2);
    assert!(star.iter().all(|e| num(e.2) == 2.0));
}

#[test]
fn minted_unknowns_are_named_and_kept_apart() {
    let ctx = Ctx::default();
    let al = ctx.algebra();
    let mut lo = Lowerer::new();
    let (v, d) = lo.internal_node_of(&al, "U1", "ai");
    assert_eq!(ctx.show(v), "U1.ai");
    assert_eq!(ctx.show(d), "vdot_U1.ai");
    lo.branch_current_of(&al, "U1", "br0");
    lo.unknown(&al, "z", true);
    let kinds: Vec<UnknownKind> = lo.extras.iter().map(|u: &LoweredUnknown| u.kind).collect();
    assert_eq!(kinds, vec![UnknownKind::NodeVoltage, UnknownKind::BranchCurrent, UnknownKind::DeviceState]);
    assert!(lo.extras[2].differential);
}

#[test]
fn an_evaluation_fills_the_registered_slots() {
    let pair = |a: u32, b: u32| OsdiNodePair { node_1: a, node_2: b };
    let entry = |a: u32, b: u32, flags: u32| OsdiJacobianEntry { nodes: pair(a, b), react_ptr_off: 0, flags };
    // Node 2 is collapsed into node 1: its column adds up there.
    let report = Report {
        num_nodes: 3,
        num_terminals: 2,
        pairs: vec![pair(2, 1)],
        collapsed: vec![true],
        entries: vec![entry(0, 1, 4), entry(0, 2, 4), entry(1, 1, 8)],
        noise: vec![OsdiNoise { nodes: pair(0, 1), ty: 0 }],
    };
    assert!(report.is_sound());
    let t = report.resolve();
    let all = |v: &[f64]| -> Vec<u64> { v.iter().copied().map(bits).collect() };
    assert_eq!(solve_vector(&t, &all(&[5.0, 6.0, 7.0])), all(&[5.0, 6.0, 0.0]));
    let mut l = Loaded {
        resist: all(&[1.0, 2.0, 9.0]),
        react: all(&[3.0, 4.0, 9.0]),
        jr: all(&[10.0, 20.0]),
        jq: all(&[40.0]),
        power: all(&[50.0]),
        exponent: all(&[60.0]),
    };
    assert!(l.is_sized(&t));
    let slots = slot_values(&host(), &t, &l);
    assert_eq!(slots, all(&[1.0, 2.0, 3.0, 4.0, 30.0, 40.0, 50.0, 60.0, 0.0]));
    assert_eq!(slots.len(), slot_count(&t));
    // The registration reads each number from its slot.
    let r = registration("N1", &t);
    let read: Vec<f64> = r.outputs.iter().map(|&k| num(slots[k as usize])).collect();
    assert_eq!(read, vec![1.0, 2.0, 3.0, 4.0, 50.0, 60.0]);
    let slope = |out: u32, by: u32| {
        r.derivatives.iter().find(|d| (d.0, d.1) == (out, by)).and_then(|d| d.2).map(|k| num(slots[k as usize]))
    };
    assert_eq!((slope(0, 1), slope(3, 1), slope(0, 0)), (Some(30.0), Some(40.0), None));
    l.jq.push(0);
    assert!(!l.is_sized(&t));
}

#[test]
fn a_compiled_model_lowers_onto_the_graph() {
    let ctx = Ctx::default();
    let al = ctx.algebra();
    let module = OsdiModule {
        name: "m".to_string(),
        node_names: ["a", "c", "x", "ai"].iter().map(|n| n.to_string()).collect(),
        num_terminals: 3,
        params: vec![],
    };
    // The third terminal is shorted to the second; `ai` stays internal.
    let pair = |a: u32, b: u32| OsdiNodePair { node_1: a, node_2: b };
    let report = Report {
        num_nodes: 4,
        num_terminals: 3,
        pairs: vec![pair(2, 1)],
        collapsed: vec![true],
        entries: vec![
            OsdiJacobianEntry { nodes: pair(0, 0), react_ptr_off: 0, flags: 4 },
            OsdiJacobianEntry { nodes: pair(1, 2), react_ptr_off: 0, flags: 4 },
            OsdiJacobianEntry { nodes: pair(1, 1), react_ptr_off: 0, flags: 4 },
        ],
        noise: vec![
            OsdiNoise { nodes: pair(0, 1), ty: 1 },
            OsdiNoise { nodes: pair(1, 2), ty: 0 },
            OsdiNoise { nodes: pair(0, 1), ty: 2 },
        ],
    };
    let t = report.resolve();
    let mut lo = Lowerer::new();
    let v = vec![ctx.sym("v1"), ctx.sym("v2"), ctx.sym("v3")];
    let vd = vec![ctx.sym("vdot1"), ctx.sym("vdot2"), ctx.sym("vdot3")];
    let frag = lower_behavioral(&al, &mut lo, "N1", &module, &t, &v, &vd);
    let names: Vec<&str> = lo.extras.iter().map(|u| u.name.as_str()).collect();
    assert_eq!(names, vec!["N1.ai", "N1.short_x"]);
    assert_eq!(frag.terminal_currents.len(), 3);
    assert_eq!(frag.residuals.len(), 2);
    let i0 = ctx.show(frag.terminal_currents[0]);
    assert!(i0.contains("osdi.N1[0](v1, v2, N1.ai)"), "{}", i0);
    assert!(i0.contains("vdot1"), "charge enters by its rate: {}", i0);
    assert_eq!(ctx.show(frag.terminal_currents[2]), "N1.short_x");
    assert!(ctx.show(frag.terminal_currents[1]).contains("-N1.short_x"));
    assert_eq!(ctx.show(frag.residuals[1]), "(v3 + -v2)");
    // The merged pair and the table source inject nothing.
    assert_eq!(frag.noise.len(), 1);
    assert_eq!(frag.noise[0].hi, Some(ctx.symbol("v1")));
    assert_eq!(ctx.show(frag.noise[0].psd), "osdi.N1[6](v1, v2, N1.ai)");
    assert_eq!(ctx.show(frag.noise[0].flicker_exp), "osdi.N1[9](v1, v2, N1.ai)");
    // Both entries of the merged column add up.
    let sums = cell_values(&host(), &t.jr_cells, &vec![bits(1.0), bits(2.0), bits(4.0)]);
    assert_eq!(sums.iter().map(|v| num(*v)).collect::<Vec<_>>(), vec![1.0, 6.0]);
}

// ---------------------------------------------------------------------------
// Decks to systems.
// ---------------------------------------------------------------------------
fn module(name: &str, ports: usize) -> ModuleInfo {
    let list = match name {
        "diode" | "sane_diode" => vec!["Is", "N", "Vt"],
        "sane_mos" => vec!["Vto", "Kp", "L", "W"],
        "sw_r" => vec!["R", "shorted"],
        "vres" | "ra" => vec!["R"],
        "rb" => vec!["G"],
        "mostest" => vec!["type", "L", "W", "gain"],
        _ => vec![],
    };
    let aliases = if name == "vres" { vec![("mult2".to_string(), "$mfactor".to_string())] } else { vec![] };
    ModuleInfo {
        name: name.to_string(),
        names: ParamNames {
            params: list.iter().map(|n| (n.to_string(), Some(bits(1.0)))).collect(),
            aliases,
        },
        ports,
        fault: None,
    }
}

fn world() -> World {
    World {
        stock: Stock {
            tline: module("sane_tline", 4),
            vswitch: module("sane_vswitch", 4),
            diode: module("sane_diode", 2),
            mos: module("sane_mos", 4),
            bjt: module("sane_bjt", 3),
            jfet: module("sane_jfet", 3),
            mesfet: module("sane_mesfet", 3),
        },
        files: vec![],
        va: vec![],
        osdi: vec![],
        setups: vec![],
    }
}

fn deck(text: &str) -> (ParsedCircuit, World) {
    let mut w = world();
    loop {
        match parse(text, &w, &host()) {
            Ok(p) => return (p, w),
            Err(Stop::Need(Request::VaBlock(s))) => w.va.push(CompiledVa {
                file: false,
                result: VaResult::Modules(
                    [("diode", 2), ("vres", 2), ("sw_r", 2), ("ra", 2), ("rb", 2), ("mostest", 4)]
                        .iter()
                        .filter(|(n, _)| s.contains(&format!("module {}(", n)))
                        .map(|(n, ports)| module(n, *ports))
                        .collect(),
                ),
                source: s,
            }),
            Err(other) => panic!("{:?}", other),
        }
    }
}

/// The values of the parameters of a system, as a deck binds them.
fn bound(ctx: &Ctx, dae: &Dae, p: &ParsedCircuit, w: &World) -> Env {
    let params = dae.params(&ctx.algebra());
    let names: Vec<String> = params.iter().map(|&s| ctx.name(s)).collect();
    let vals = p.pvec(&names, w);
    params.iter().zip(vals).map(|(s, v)| (s.0, Complex64::new(num(v), 0.0))).collect()
}

fn solve_linear(mut a: Vec<Vec<f64>>, mut b: Vec<f64>) -> Vec<f64> {
    let n = b.len();
    for k in 0..n {
        let p = (k..n).max_by(|&i, &j| a[i][k].abs().total_cmp(&a[j][k].abs())).unwrap();
        a.swap(k, p);
        b.swap(k, p);
        for i in k + 1..n {
            let f = a[i][k] / a[k][k];
            for j in k..n {
                a[i][j] -= f * a[k][j];
            }
            b[i] -= f * b[k];
        }
    }
    for k in (0..n).rev() {
        for j in k + 1..n {
            b[k] -= a[k][j] * b[j];
        }
        b[k] /= a[k][k];
    }
    b
}

/// Newton iteration on `F(x, 0, 0) + pins*(x - target) = 0`.
fn newton(ctx: &Ctx, dae: &Dae, env: &Env, start: Vec<f64>, pins: &[(usize, f64)]) -> (Vec<f64>, bool) {
    let jac = dae.jacobian_x(&ctx.algebra());
    let mut x = start;
    for _ in 0..100 {
        let mut at = env.clone();
        for (s, v) in dae.x.iter().zip(&x) {
            at.insert(s.0, Complex64::new(*v, 0.0));
        }
        let mut f: Vec<f64> = dae.residuals.iter().map(|&r| -ctx.eval(r, &at).re).collect();
        let mut j: Vec<Vec<f64>> =
            jac.iter().map(|r| r.iter().map(|&e| ctx.eval(e, &at).re).collect()).collect();
        for &(k, target) in pins {
            j[k][k] += 1e6;
            f[k] -= 1e6 * (x[k] - target);
        }
        let dx = solve_linear(j, f);
        for (a, d) in x.iter_mut().zip(&dx) {
            *a += d;
        }
        if dx.iter().all(|d| d.abs() < 1e-12) {
            return (x, true);
        }
    }
    (x, false)
}

fn node_idx(p: &ParsedCircuit, dae: &Dae, node: &str) -> usize {
    let k = p.node(node).expect("node");
    dae.unknowns.iter().position(|u| *u == format!("v{}", k)).expect("node unknown")
}

/// The DC operating point of a deck at one node.
fn dc_node(src: &str, node: &str) -> f64 {
    let ctx = Ctx::default();
    let (p, w) = deck(src);
    let dae = ctx.assemble(&p.circuit, vec![]);
    let env = bound(&ctx, &dae, &p, &w);
    let (x, conv) = newton(&ctx, &dae, &env, vec![0.0; dae.dim()], &[]);
    assert!(conv, "DC did not converge for:\n{}", src);
    x[node_idx(&p, &dae, node)]
}

#[test]
fn conditional_selects_the_right_branch() {
    let hi = dc_node("V1 in 0 2\nB1 out 0 V=if(V(in) > 1.0, 5.0, 7.0)\n.end", "out");
    assert!((hi - 5.0).abs() < 1e-9, "got {}, expected 5", hi);
    let lo = dc_node("V1 in 0 0\nB1 out 0 V=if(V(in) > 1.0, 5.0, 7.0)\n.end", "out");
    assert!((lo - 7.0).abs() < 1e-9, "got {}, expected 7", lo);
}

#[test]
fn comparison_yields_indicator() {
    let t = dc_node("V1 in 0 3\nB1 out 0 V=V(in) > 2.0\n.end", "out");
    assert!((t - 1.0).abs() < 1e-9, "got {}, expected 1", t);
    let f = dc_node("V1 in 0 1\nB1 out 0 V=V(in) > 2.0\n.end", "out");
    assert!(f.abs() < 1e-9, "got {}, expected 0", f);
}

#[test]
fn lossless_line_is_dc_transparent() {
    let v = dc_node("V1 in 0 1\nT1 in 0 out 0 Z0=50 TD=1n N=8\nRL out 0 1k\n.end", "out");
    assert!((v - 1.0).abs() < 1e-6, "lossless line DC out = {}, expected 1.0", v);
}

#[test]
fn rc_line_drops_dc_through_series_r() {
    let v = dc_node("V1 in 0 1\nU1 in 0 out 0 R=1k C=1p N=8\nRL out 0 1Meg\n.end", "out");
    let expected = 1.0e6 / (1.0e6 + 1.0e3);
    assert!((v - expected).abs() < 1e-4, "RC line DC out = {}, expected {}", v, expected);
}

// Cross-coupled inverters: V(a) = g(V(b)), V(b) = g(V(a)) with a steep
// decreasing sigmoid g, bistable around the symmetric saddle a = b = 0.5.
const LATCH: &str = "\
R1 a 0 1
R2 b 0 1
B1 0 a I=0.5 - 0.3183098862*atan(10*(V(b)-0.5))
B2 0 b I=0.5 - 0.3183098862*atan(10*(V(a)-0.5))
.end";

#[test]
fn cold_solve_lands_on_the_unstable_symmetric_root() {
    let ctx = Ctx::default();
    let (p, w) = deck(LATCH);
    let dae = ctx.assemble(&p.circuit, vec![]);
    let env = bound(&ctx, &dae, &p, &w);
    let (ia, ib) = (node_idx(&p, &dae, "a"), node_idx(&p, &dae, "b"));
    let (x, conv) = newton(&ctx, &dae, &env, vec![0.0; dae.dim()], &[]);
    assert!(conv, "cold DC should converge");
    assert!((x[ia] - 0.5).abs() < 1e-6, "a = {} (expected ~0.5)", x[ia]);
    assert!((x[ib] - 0.5).abs() < 1e-6, "b = {} (expected ~0.5)", x[ib]);
}

#[test]
fn nodeset_breaks_symmetry_onto_a_stable_branch() {
    let ctx = Ctx::default();
    let (p, w) = deck(LATCH);
    let dae = ctx.assemble(&p.circuit, vec![]);
    let env = bound(&ctx, &dae, &p, &w);
    let (ia, ib) = (node_idx(&p, &dae, "a"), node_idx(&p, &dae, "b"));
    let pinned = |v: f64| {
        // A stiff pin first, released once the solve sits next to it.
        let (start, _) = newton(&ctx, &dae, &env, vec![0.0; dae.dim()], &[(ia, v)]);
        newton(&ctx, &dae, &env, start, &[])
    };
    let (xh, ch) = pinned(1.0);
    assert!(ch, "node-set DC should converge");
    assert!(xh[ia] > 0.6, "a = {} (expected high branch)", xh[ia]);
    assert!(xh[ib] < 0.4, "b = {} (expected low branch)", xh[ib]);
    let (xl, cl) = pinned(0.0);
    assert!(cl, "node-set DC should converge");
    assert!(xl[ia] < 0.4, "a = {} (expected low branch)", xl[ia]);
    assert!(xl[ib] > 0.6, "b = {} (expected high branch)", xl[ib]);
    assert!((xh[ia] - xl[ib]).abs() < 1e-3, "branches should mirror");
}

#[test]
fn rc_lowpass_from_netlist() {
    let src = "\
* RC lowpass
V1 in 0 1
R1 in out 1k
C1 out 0 1u
.end";
    let ctx = Ctx::default();
    let (p, _) = deck(src);
    let out = p.node("out").expect("out node");
    let dae = ctx.assemble(&p.circuit, vec![]);
    // The output node id maps to the unknown `v{id}`.
    let h = small_signal_transfer(&ctx.algebra(), &dae, "V1", &format!("v{}", out)).expect("transfer exists");
    let (r, c) = (num(p.values["R1"]), num(p.values["C1"]));
    for &f in &[10.0, 159.155, 1000.0, 10_000.0] {
        let sval = Complex64::new(0.0, 2.0 * std::f64::consts::PI * f);
        let mut env = ctx.env(&[("R1", r), ("C1", c)]);
        env.insert(ctx.symbol("s").0, sval);
        let got = ctx.eval(h, &env);
        let expected = Complex64::new(1.0, 0.0) / (Complex64::new(1.0, 0.0) + sval * r * c);
        assert!((got - expected).norm() < 1e-9, "f={}: {} vs {}", f, got, expected);
    }
}

#[test]
fn global_nodes_pass_through_subckts() {
    let (p, _) = deck(
        ".global vdd\nVd vdd 0 5\n.subckt stage out\nR1 vdd out 1k\n.ends\nX1 a stage\nR2 a 0 1k\n.end",
    );
    // X1's internal R1 must connect to the TOP vdd (voltage divider a = 2.5)
    let names: Vec<String> = p.circuit.elements().iter().map(|e| e.name.clone()).collect();
    assert!(names.iter().any(|n| n.contains("R1")), "{:?}", names);
    let dae = Ctx::default().assemble(&p.circuit, vec![]);
    assert!(dae.unknowns.iter().any(|u| u == "vvdd" || u == "v1"), "{:?}", dae.unknowns);
    let a = dc_node(
        ".global vdd\nVd vdd 0 5\n.subckt stage out\nR1 vdd out 1k\n.ends\nX1 a stage\nR2 a 0 1k\n.end",
        "a",
    );
    assert!((a - 2.5).abs() < 1e-9);
}

#[test]
fn inline_veriloga_diode_assembles_dae() {
    let text = r#"
.veriloga
module diode(a, c);
endmodule
.endveriloga
V1 1 0 0.7
R1 1 2 1k
N1 2 0 diode Is=2e-14
.end
"#;
    let ctx = Ctx::default();
    let (p, _) = deck(text);
    let t = &p.devices[0].terminals;
    let dae = ctx.assemble(&p.circuit, vec![diode_device(&ctx, &p.devices[0].name, t[0], t[1])]);
    // nodes v1, v2 + branch i_V1.
    assert!(dae.dim() >= 3, "dim {}", dae.dim());
    assert!(dae.unknowns.iter().any(|u| u == "v2"));
}

/// A two-terminal device of a deck through which `current(v_a - v_b)` flows.
fn two_terminal(ctx: &Ctx, d: &Placement, current: impl Fn(ExprId) -> ExprId) -> LoweredDevice {
    let al = ctx.algebra();
    let u = device_inputs(&al, &Circuit::new(), &d.terminals, &vec![]).unwrap();
    let i = current(al.minus(u.voltages[0], u.voltages[1]));
    device(d.terminals.clone(), fragment(vec![i, al.neg(i)]), num(d.mfactor))
}

/// A resistor module: `I(a,b) <+ V(a,b)/R`.
fn resistive(ctx: &Ctx, d: &Placement) -> LoweredDevice {
    two_terminal(ctx, d, |v| ctx.algebra().over(v, ctx.sym(&format!("{}.R", d.name))))
}

#[test]
fn aliasparam_mfactor_sets_multiplicity() {
    let head = "\
.veriloga
module vres(a,b);
  inout a,b; electrical a,b;
  parameter real R = 1k;
  aliasparam mult2 = $mfactor;
  analog I(a,b) <+ V(a,b)/R;
endmodule
.endveriloga
V1 1 0 1
";
    let (p1, _) = deck(&format!("{}N1 1 0 vres\n.end\n", head));
    let (p2, _) = deck(&format!("{}N1 1 0 vres mult2=2\n.end\n", head));
    let ctx = Ctx::default();
    let d1 = ctx.assemble(&p1.circuit, vec![resistive(&ctx, &p1.devices[0])]);
    let d2 = ctx.assemble(&p2.circuit, vec![resistive(&ctx, &p2.devices[0])]);
    // Evaluate the node-1 KCL residual at the same point: the m=2 device
    // contributes exactly twice the branch current.
    let env = ctx.env(&[("v1", 1.0), ("vdot1", 0.0), ("i_V1", 0.0), ("t", 0.0), ("N1.R", 1000.0)]);
    let r1 = ctx.eval(d1.residuals[0], &env).re;
    let r2 = ctx.eval(d2.residuals[0], &env).re;
    assert!(r1 != 0.0);
    assert!((r2 - 2.0 * r1).abs() < 1e-12, "m=2 doubles the flow: {} vs {}", r1, r2);
}

/// The current into the first terminal of a device of a deck.
fn terminal_current(p: &ParsedCircuit, w: &World, k: usize, volts: &[f64]) -> f64 {
    let ctx = Ctx::default();
    let al = ctx.algebra();
    let d = &p.devices[k];
    let of = |s: &str| ctx.sym(&format!("{}.{}", d.name, s));
    let lowered = if d.terminals.len() == 2 {
        let mut x = diode_device(&ctx, &d.name, d.terminals[0], d.terminals[1]);
        x.mfactor = d.mfactor;
        x
    } else {
        // The saturation current of a square law.
        let u = device_inputs(&al, &Circuit::new(), &d.terminals, &vec![]).unwrap();
        let over = al.minus(al.minus(u.voltages[1], u.voltages[2]), of("Vto"));
        let i = al.times(al.times(of("Kp"), al.over(of("W"), of("L"))), al.times(over, over));
        device(d.terminals.clone(), fragment(vec![i, al.zero(), al.neg(i), al.zero()]), num(d.mfactor))
    };
    let dae = ctx.assemble(&p.circuit, vec![lowered]);
    let mut env = bound(&ctx, &dae, p, w);
    for (i, s) in dae.x.iter().enumerate() {
        let v = d.terminals.iter().position(|&t| t == i + 1).map_or(0.0, |j| volts[j]);
        env.insert(s.0, Complex64::new(v, 0.0));
    }
    ctx.eval(dae.residuals[d.terminals[0] - 1], &env).re
}

#[test]
fn instance_modifiers_set_mfactor_and_scale() {
    let text = |mods: &str| {
        format!(
            ".option scale=0.5\n\
             .model dmod D Is=1e-15\n\
             .model nch NMOS Vto=0.5 Kp=1e-4\n\
             V1 a 0 1\n\
             D1 a 0 dmod {}\n\
             M1 a g 0 0 nch L=2u W=10u m=3 nf=2\n\
             .end",
            mods
        )
    };
    let (p1, w1) = deck(&text(""));
    let (p4, w4) = deck(&text("m=4"));
    // Devices are pushed in source order: D1 first, then M1.
    assert_eq!(p4.devices.len(), 2);
    // Diode m=4: the lowered terminal current scales fourfold.
    let i1 = terminal_current(&p1, &w1, 0, &[0.6, 0.0]);
    let i4 = terminal_current(&p4, &w4, 0, &[0.6, 0.0]);
    assert!((i4 / i1 - 4.0).abs() < 1e-9, "diode m=4 scales the current: {} vs {}", i1, i4);
    // MOSFET multiplicity = m * nf = 3 * 2 = 6.
    let im = terminal_current(&p4, &w4, 1, &[1.0, 1.0, 0.0, 0.0]);
    let (single, ws) = deck(
        ".option scale=0.5\n\
         .model nch NMOS Vto=0.5 Kp=1e-4\n\
         V1 a 0 1\n\
         M1 a g 0 0 nch L=2u W=10u\n\
         .end",
    );
    let im1 = terminal_current(&single, &ws, 0, &[1.0, 1.0, 0.0, 0.0]);
    assert!((im / im1 - 6.0).abs() < 1e-9, "mosfet m*nf=6 scales the current: {} vs {}", im1, im);
    // `.option scale=0.5` halves the drawn MOSFET geometry.
    let (l, w) = (num(p4.values["M1.L"]), num(p4.values["M1.W"]));
    assert!((l - 1e-6).abs() < 1e-15, "L={}", l);
    assert!((w - 5e-6).abs() < 1e-15, "W={}", w);
}

#[test]
fn switch_branch_lowers_per_instance() {
    let (p, _) = deck(
        r#"
.veriloga
module sw_r(a, b);
  inout a, b; electrical a, b;
  parameter real R = 1k;
  parameter real shorted = 0;
  analog begin
    if (shorted > 0) V(a,b) <+ 0.0;
    else I(a,b) <+ V(a,b)/R;
  end
endmodule
.endveriloga
V1 1 0 1
N1 1 2 sw_r shorted=1
N2 2 0 sw_r shorted=0
.end
"#,
    );
    assert_eq!(p.devices.len(), 2);
    let ctx = Ctx::default();
    let al = ctx.algebra();
    let lowered: Vec<LoweredDevice> = p
        .devices
        .iter()
        .map(|d| {
            // The gating parameter reaches each instance as it was stated.
            let shorted = d.params.iter().any(|(n, v)| n == "shorted" && num(*v) > 0.0);
            if !shorted {
                return resistive(&ctx, d);
            }
            let mut lo = Lowerer::new();
            let (i, _) = lo.branch_current_of(&al, &d.name, "i");
            let mut x = two_terminal(&ctx, d, |_| i);
            let u = device_inputs(&al, &p.circuit, &d.terminals, &vec![]).unwrap();
            x.frag.residuals = vec![al.minus(u.voltages[0], u.voltages[1])];
            x.extras = lo.extras;
            x
        })
        .collect();
    assert_eq!(lowered.iter().filter(|d| !d.extras.is_empty()).count(), 1);
    let dae = ctx.assemble(&p.circuit, lowered);
    // The shorted instance mints a branch-current unknown (voltage source);
    // the resistor instance mints none -> at least one extra branch unknown.
    assert!(dae.dim() >= 3, "dim {}", dae.dim());
    assert_eq!(dae.dim(), 4);
}

#[test]
fn compact_level_card_routes_to_va_via_model_alias() {
    let (p, w) = deck(
        r#"
.veriloga
module mostest(d, g, s, b);
  inout d, g, s, b;
  electrical d, g, s, b;
  parameter real type = 1;
  parameter real L = 1;
  parameter real W = 1;
  parameter real gain = 1e-3;
  analog I(d, s) <+ type * gain * (W / L) * V(d, s);
endmodule
.endveriloga
.model_alias level=54 mostest
.model nch nmos level=54 version=4.5 gain=2e-3
V1 d 0 1
M1 d g s 0 nch L=2 W=8
.end
"#,
    );
    assert_eq!(p.devices.len(), 1, "one routed VA device");
    // nmos type token -> module `type` = +1; geometry + card param bound.
    let param = |n: &str| p.param_value(n, &w).map(num);
    assert_eq!(param("M1.type"), Some(1.0), "nmos polarity");
    assert_eq!(param("M1.L"), Some(2.0));
    assert_eq!(param("M1.W"), Some(8.0));
    assert_eq!(param("M1.gain"), Some(2e-3), "card param bound");
    // It actually assembles into a DAE (the device lowered).
    let ctx = Ctx::default();
    let al = ctx.algebra();
    let d = &p.devices[0];
    let of = |s: &str| ctx.sym(&format!("{}.{}", d.name, s));
    let u = device_inputs(&al, &p.circuit, &d.terminals, &vec![]).unwrap();
    let slope = al.times(al.times(of("type"), of("gain")), al.over(of("W"), of("L")));
    let i = al.times(slope, al.minus(u.voltages[0], u.voltages[2]));
    let frag = fragment(vec![i, al.zero(), al.neg(i), al.zero()]);
    let dae = ctx.assemble(&p.circuit, vec![device(d.terminals.clone(), frag, num(d.mfactor))]);
    assert!(dae.unknowns.iter().any(|u| u == "v1"), "node d present: {:?}", dae.unknowns);
    // Two volts across it at `gain*W/L = 8e-3`, as the deck binds the parameters.
    let mut env = bound(&ctx, &dae, &p, &w);
    let at = |n: &str| ctx.symbol(&format!("v{}", p.node(n).unwrap())).0;
    for s in &dae.x {
        env.insert(s.0, Complex64::new(0.0, 0.0));
    }
    env.insert(at("d"), Complex64::new(2.0, 0.0));
    let row = p.node("s").unwrap() as usize - 1;
    assert!((ctx.eval(dae.residuals[row], &env).re + 16e-3).abs() < 1e-15);
}

#[test]
fn multiple_modules_per_block() {
    let (p, _) = deck(
        r#"
.veriloga
module ra(a, b); inout a,b; electrical a,b; parameter real R = 1k; analog I(a,b) <+ V(a,b)/R; endmodule
module rb(a, b); inout a,b; electrical a,b; parameter real G = 1m; analog I(a,b) <+ V(a,b)*G; endmodule
.endveriloga
V1 1 0 1
N1 1 2 ra
N2 2 0 rb
.end
"#,
    );
    assert_eq!(p.devices.len(), 2);
    assert!(matches!(p.devices[0].model, ModelRef::Va(0, 0)));
    assert!(matches!(p.devices[1].model, ModelRef::Va(0, 1)));
    let ctx = Ctx::default();
    let g = two_terminal(&ctx, &p.devices[1], |v| ctx.algebra().times(v, ctx.sym("N2.G")));
    let dae = ctx.assemble(&p.circuit, vec![resistive(&ctx, &p.devices[0]), g]);
    assert!(dae.unknowns.iter().any(|u| u == "v2"));
}

#[test]
fn latex_export_shape() {
    let ctx = Ctx::default();
    let mut c = Circuit::new();
    c.voltage_source("V1", 1, 0).resistor("R", 1, 2);
    let dae = ctx.assemble(&c, vec![diode_device(&ctx, "D1", 2, 0)]);
    let rows: Vec<Tree> = dae.residuals.iter().map(|r| ctx.tree(r.0)).collect();
    let tex = export_latex(&rows);
    assert!(tex.contains("\\begin{aligned}"));
    assert!(tex.contains("\\exp\\left"));
    assert_eq!(tex.matches("0 &=").count(), dae.dim());
    assert!(tex.ends_with("\\end{aligned}\n"));
}

// ---------------------------------------------------------------------------
// Waveforms.
// ---------------------------------------------------------------------------
fn table(vals: &[(&str, f64)]) -> Table {
    let mut t = Table::default();
    for (n, v) in vals {
        t.insert(n.to_string(), bits(*v));
    }
    t
}

#[test]
fn a_pulse_has_corners() {
    let t = table(&[
        ("pulse_td", 1.0),
        ("pulse_tr", 1.0),
        ("pulse_tf", 1.0),
        ("pulse_pw", 2.0),
        ("pulse_per", 10.0),
    ]);
    let mut out: Vec<u64> = Vec::new();
    SourceFn::Pulse.breakpoints(&t, bits(0.0), bits(10.5), &mut out, &host());
    let mut got: Vec<f64> = out.iter().map(|v| num(*v)).collect();
    got.sort_by(|a, b| a.total_cmp(b));
    assert_eq!(got, vec![1.0, 2.0, 4.0, 5.0]);
}

#[test]
fn corners_of_adjoining_intervals_add_up() {
    let t = table(&[
        ("pulse_td", 1.0),
        ("pulse_tr", 1.0),
        ("pulse_tf", 1.0),
        ("pulse_pw", 2.0),
        ("pulse_per", 5.0),
        ("exp_td1", 2.0),
        ("exp_td2", 8.0),
        ("pwl_t0", 0.0),
        ("pwl_t1", 4.0),
        ("pwl_t2", 9.0),
    ]);
    let corners = |s: &SourceFn, a: f64, b: f64| -> Vec<f64> {
        let mut out: Vec<u64> = vec![bits(-1.0)];
        s.breakpoints(&t, bits(a), bits(b), &mut out, &host());
        assert_eq!(num(out[0]), -1.0, "what was there stays");
        out[1..].iter().map(|v| num(*v)).collect()
    };
    for s in [SourceFn::Sin, SourceFn::Pulse, SourceFn::Exp, SourceFn::Pwl(3)] {
        for m in [0.0, 1.0, 3.5, 6.0, 7.25, 20.0] {
            let mut whole = corners(&s, 0.0, 20.0);
            let mut parts = corners(&s, 0.0, m);
            parts.extend(corners(&s, m, 20.0));
            whole.sort_by(|a, b| a.total_cmp(b));
            parts.sort_by(|a, b| a.total_cmp(b));
            assert_eq!(whole, parts, "{:?} at {}", s, m);
            assert!(whole.iter().all(|&x| x > 0.0 && x <= 20.0));
        }
    }
    assert!(corners(&SourceFn::Sin, 0.0, 20.0).is_empty());
    assert_eq!(corners(&SourceFn::Pwl(3), 0.0, 20.0), vec![4.0, 9.0]);
}

#[test]
fn a_sine_has_a_fundamental() {
    let w = 2.0 * std::f64::consts::PI * 50.0;
    let f = SourceFn::Sin.fundamental(&table(&[("sin_w", w)]), &host()).map(num);
    assert!((f.unwrap() - 50.0).abs() < 1e-9);
    assert_eq!(SourceFn::Pwl(2).fundamental(&table(&[]), &host()), None);
}

#[test]
fn a_lowered_sine_follows_its_parameters() {
    let ctx = Ctx::default();
    let e = SourceFn::Sin.lower(&ctx.algebra(), "V1", ctx.sym("t"));
    let env = ctx.env(&[("V1.sin_off", 1.0), ("V1.sin_amp", 2.0), ("V1.sin_w", std::f64::consts::PI), ("t", 0.5)]);
    assert!((ctx.eval(e, &env).re - 3.0).abs() < 1e-9, "{}", ctx.show(e));
}

// ---------------------------------------------------------------------------
// Scripts.
// ---------------------------------------------------------------------------
#[test]
fn environments_bind_exactly_the_free_symbols() {
    let ctx = Ctx::default();
    let al = ctx.algebra();
    let e = al.plus(ctx.sym("x"), ctx.sym("y"));
    let given = vec![("y".to_string(), bits(2.0)), ("z".to_string(), bits(3.0)), ("x".to_string(), bits(1.0))];
    let env = real_env(&al, e, &given).unwrap();
    assert_eq!(env, vec![(ctx.symbol("x"), bits(1.0)), (ctx.symbol("y"), bits(2.0))]);
    assert_eq!(real_env(&al, e, &given[..1].to_vec()), Err("unbound symbol 'x'".to_string()));
    let at: Env = env.iter().map(|(s, v)| (s.0, Complex64::new(num(*v), 0.0))).collect();
    assert_eq!(ctx.eval(e, &at).re, 3.0);
}

#[test]
fn only_symbols_are_differentiated_by() {
    let ctx = Ctx::default();
    let al = ctx.algebra();
    let (x, y) = (ctx.sym("x"), ctx.sym("y"));
    assert_eq!(symbol_ids(&al, &vec![x, y]), Ok(vec![ctx.symbol("x"), ctx.symbol("y")]));
    assert_eq!(
        symbol_ids(&al, &vec![x, al.plus(x, y)]),
        Err("`wrt` entries must be symbols".to_string())
    );
    let p = general_power(&al, x, y);
    assert!((ctx.eval(p, &ctx.env(&[("x", 2.0), ("y", 3.0)])).re - 8.0).abs() < 1e-9);
}

#[test]
fn a_value_must_be_a_number() {
    assert_eq!(check_value(&host(), bits(1.5)), Ok(bits(1.5)));
    assert!(check_value(&host(), bits(f64::NAN)).is_err());
}

#[test]
fn stages_are_totalled_in_order() {
    let run = |n: &str, ms: f64| (n.to_string(), bits(ms));
    let v = profile_take(&host(), &vec![run("dc/newton", 1.0), run("ac/eval", 5.0), run("dc/newton", 2.5)]);
    assert_eq!(v.len(), 2);
    assert_eq!((v[0].name.as_str(), num(v[0].total), v[0].count), ("dc/newton", 3.5, 2));
    assert_eq!((v[1].name.as_str(), num(v[1].total), v[1].count), ("ac/eval", 5.0, 1));
}

#[test]
fn drawn_symbols_are_states_or_parameters() {
    let ctx = Ctx::default();
    let al = ctx.algebra();
    let sum = al.plus(ctx.sym("v1"), ctx.sym("R"));
    let reached = vec![ctx.sym("v1"), ctx.sym("R"), sum, ctx.sym("i_V1"), ctx.sym("D1.Is"), ctx.sym("t")];
    let names: Vec<String> = drawn_params(&al, &reached).iter().map(|&s| ctx.name(s)).collect();
    assert_eq!(names, vec!["R", "D1.Is"]);
    let t = theme();
    assert_eq!((t.input.as_str(), t.param.as_str(), t.output.as_str()), ("#CFE7F0", "#D7EAC8", "#E89A9A"));
    assert_eq!(num(t.font_size), 11.0);
}

#[test]
fn nonlinearity_is_asked_of_rows_and_variables() {
    let ctx = Ctx::default();
    let dae = ctx.assemble(&rc(), vec![]);
    // Three rows; three unknowns and the one derivative that occurs.
    let slots = dae.xdot.iter().flatten().count();
    assert_eq!(dae.nonlinearity(&ctx.algebra()).degree as usize, 300 + 3 + slots);
}

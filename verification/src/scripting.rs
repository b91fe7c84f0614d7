//! What the scripting interface decides: names for introspection, the checks on
//! what a script hands in, and the tables it gets back.
use crate::circuit::Kind;
use crate::index2::Index2Path;
use crate::numerics::{apply2, compares, Answers, Ask, Host, Op2, Rel, Reply};
use crate::symbolic::{rows_of, Algebra, Answer, ExprId, Fun1, Graph, Query, SymbolId};
use crate::text::{concat2, concat3, copy_texts, decimal, decimal_text, same, texts};
use vstd::prelude::*;

verus! {

// ---------------------------------------------------------------------------
// Introspection.
// ---------------------------------------------------------------------------
pub open spec fn name_of(k: Kind) -> Seq<char> {
    match k {
        Kind::Resistor => "resistor"@,
        Kind::Capacitor => "capacitor"@,
        Kind::Inductor => "inductor"@,
        Kind::VoltageSource => "voltage_source"@,
        Kind::CurrentSource => "current_source"@,
        Kind::Vcvs => "vcvs"@,
        Kind::Vccs => "vccs"@,
        Kind::Cccs => "cccs"@,
        Kind::Ccvs => "ccvs"@,
    }
}

/// A short lowercase name for an element kind.
pub fn kind_name(k: Kind) -> (r: &'static str)
    ensures
        r@ == name_of(k),
{
    match k {
        Kind::Resistor => "resistor",
        Kind::Capacitor => "capacitor",
        Kind::Inductor => "inductor",
        Kind::VoltageSource => "voltage_source",
        Kind::CurrentSource => "current_source",
        Kind::Vcvs => "vcvs",
        Kind::Vccs => "vccs",
        Kind::Cccs => "cccs",
        Kind::Ccvs => "ccvs",
    }
}

/// The elements that form an index-2 path, the source first.
pub fn path_names(p: &Index2Path) -> (r: Vec<String>)
    ensures
        texts(r@) == seq![p.source@] + texts(p.storage@),
{
    let mut out: Vec<String> = Vec::new();
    out.push(p.source.clone());
    let mut rest = copy_texts(&p.storage);
    assert(texts(out@) =~= seq![p.source@]);
    let ghost a = out@;
    let ghost b = rest@;
    out.append(&mut rest);
    assert(texts(a + b) =~= texts(a) + texts(b));
    out
}

// ---------------------------------------------------------------------------
// Profiles.
// ---------------------------------------------------------------------------
/// A stage with its total time and how often it ran.
pub struct StageView {
    pub name: Seq<char>,
    pub total: u64,
    pub count: u32,
}

#[derive(Debug)]
pub struct Stage {
    pub name: String,
    pub total: u64,
    pub count: u32,
}

impl View for Stage {
    type V = StageView;

    open spec fn view(&self) -> StageView {
        StageView { name: self.name@, total: self.total, count: self.count }
    }
}

pub open spec fn stage_views(v: Seq<Stage>) -> Seq<StageView> {
    v.map_values(|s: Stage| s@)
}

/// A run added to the stages from `i` on: to its stage, or as a new one.
pub open spec fn clocked(h: Answers, v: Seq<StageView>, name: Seq<char>, ms: u64, i: int) -> Seq<StageView>
    decreases v.len() - i,
{
    if i < 0 || i >= v.len() {
        v.push(StageView { name, total: ms, count: 1 })
    } else if v[i].name == name {
        v.update(
            i,
            StageView { name, total: apply2(h, Op2::Add, v[i].total, ms), count: (v[i].count + 1) as u32 },
        )
    } else {
        clocked(h, v, name, ms, i + 1)
    }
}

/// The stages of the first `k` runs, in the order they were first seen.
pub open spec fn stages(h: Answers, runs: Seq<(String, u64)>, k: int) -> Seq<StageView>
    decreases k,
{
    if k <= 0 {
        seq![]
    } else {
        clocked(h, stages(h, runs, k - 1), runs[k - 1].0@, runs[k - 1].1, 0)
    }
}

/// No stage ran more often than there were runs.
proof fn clocked_counts(h: Answers, v: Seq<StageView>, name: Seq<char>, ms: u64, i: int, n: int)
    requires
        0 <= i <= v.len(),
        0 <= n < u32::MAX,
        forall|j: int| 0 <= j < v.len() ==> (#[trigger] v[j]).count <= n,
    ensures
        forall|j: int|
            0 <= j < clocked(h, v, name, ms, i).len() ==> (#[trigger] clocked(h, v, name, ms, i)[j]).count <= n + 1,
    decreases v.len() - i,
{
    if i < v.len() && v[i].name != name {
        clocked_counts(h, v, name, ms, i + 1, n);
        assert(clocked(h, v, name, ms, i) == clocked(h, v, name, ms, i + 1));
    } else {
        let w = clocked(h, v, name, ms, i);
        assert forall|j: int| 0 <= j < w.len() implies (#[trigger] w[j]).count <= n + 1 by {
            if j < v.len() {
                assert(v[j].count <= n);
            }
        }
    }
}

/// Per-stage totals and counts of a list of timed runs, in first-seen order.
pub fn profile_take<F: Fn(Ask) -> Reply>(host: &Host<F>, runs: &Vec<(String, u64)>) -> (r: Vec<Stage>)
    requires
        runs@.len() <= u32::MAX,
    ensures
        stage_views(r@) == stages(host.answers(), runs@, runs@.len() as int),
{
    let ghost h = host.answers();
    let mut out: Vec<Stage> = Vec::new();
    assert(stage_views(out@) =~= stages(h, runs@, 0));
    for k in 0..runs.len()
        invariant
            h == host.answers(),
            runs@.len() <= u32::MAX,
            stage_views(out@) == stages(h, runs@, k as int),
            forall|j: int| 0 <= j < out@.len() ==> (#[trigger] stage_views(out@)[j]).count <= k,
    {
        let name = &runs[k].0;
        let ms = runs[k].1;
        let ghost start = stage_views(out@);
        let ghost goal = clocked(h, start, name@, ms, 0);
        proof {
            clocked_counts(h, start, name@, ms, 0, k as int);
        }
        let n: usize = out.len();
        let mut i: usize = 0;
        while i < n && !same(&out[i].name, name)
            invariant
                n == out@.len(),
                i <= n,
                start == stage_views(out@),
                goal == clocked(h, start, name@, ms, i as int),
            ensures
                i <= n,
                i < n ==> out@[i as int].name@ == name@,
                goal == clocked(h, start, name@, ms, i as int),
            decreases n - i,
        {
            assert(start[i as int] == out@[i as int]@);
            i = i + 1;
        }
        if i < n {
            assert(start[i as int] == out@[i as int]@);
            let total = host.apply2(Op2::Add, out[i].total, ms);
            let count: u32 = out[i].count + 1;
            out.set(i, Stage { name: name.clone(), total, count });
        } else {
            out.push(Stage { name: name.clone(), total: ms, count: 1 });
        }
        assert(stage_views(out@) =~= goal);
    }
    out
}

// ---------------------------------------------------------------------------
// Checks.
// ---------------------------------------------------------------------------
/// The first of the names from `i` on that is not a parameter.
pub open spec fn first_unknown(params: Seq<Seq<char>>, names: Seq<Seq<char>>, i: int) -> Option<Seq<char>>
    decreases names.len() - i,
{
    if i < 0 || i >= names.len() {
        None
    } else if params.contains(names[i]) {
        first_unknown(params, names, i + 1)
    } else {
        Some(names[i])
    }
}

/// A bulk assignment is refused as a whole where one of its names is not a
/// parameter.
pub fn check_params(params: &Vec<String>, names: &Vec<String>) -> (r: Result<(), String>)
    ensures
        match (r, first_unknown(texts(params@), texts(names@), 0)) {
            (Ok(()), None) => true,
            (Err(m), Some(n)) => m@ == "'"@ + n + "' is not a parameter"@,
            _ => false,
        },
{
    let ghost goal = first_unknown(texts(params@), texts(names@), 0);
    for i in 0..names.len()
        invariant
            goal == first_unknown(texts(params@), texts(names@), 0),
            first_unknown(texts(params@), texts(names@), i as int) == goal,
    {
        assert(texts(names@)[i as int] == names@[i as int]@);
        if !crate::text::contains_text(params, &names[i]) {
            return Err(concat3("'", &names[i], "' is not a parameter"));
        }
    }
    Ok(())
}

/// The first `k` rows of both parts have the same number of entries.
pub open spec fn parts_fit(re: Seq<usize>, im: Seq<usize>, n: int, k: int) -> bool {
    forall|i: int| 0 <= i < k ==> (#[trigger] re[i]) == n && im[i] == n
}

/// Check the shape of tabulated port data: one row of real and one of imaginary
/// parts per frequency, each with as many entries as there are pairs of ports.
/// `re` and `im` are the lengths of the rows.
pub fn check_port_data(freqs: usize, re: &Vec<usize>, im: &Vec<usize>, ports: usize) -> (r: Result<(), String>)
    requires
        ports * ports <= usize::MAX,
    ensures
        r is Ok <==> re@.len() == freqs && im@.len() == freqs && parts_fit(re@, im@, ports * ports, freqs as int),
        r matches Err(m) ==> m@ == (if re@.len() != freqs || im@.len() != freqs {
            "y_re/y_im must have one row per frequency"@
        } else {
            "each row must carry "@ + decimal((ports * ports) as nat) + " flattened entries"@
        }),
{
    if re.len() != freqs || im.len() != freqs {
        return Err("y_re/y_im must have one row per frequency".to_string());
    }
    let pp: usize = ports * ports;
    for i in 0..freqs
        invariant
            re@.len() == freqs,
            im@.len() == freqs,
            pp == ports * ports,
            parts_fit(re@, im@, pp as int, i as int),
    {
        if re[i] != pp || im[i] != pp {
            let m = concat3("each row must carry ", &decimal_text(pp as u64), " flattened entries");
            assert(!(re@[i as int] == pp && im@[i as int] == pp));
            return Err(m);
        }
        assert(parts_fit(re@, im@, pp as int, i + 1)) by {
            assert forall|k: int| 0 <= k < i + 1 implies (#[trigger] re@[k]) == pp && im@[k] == pp by {
                if k < i {
                    assert(re@[k] == pp);
                }
            }
        }
    }
    Ok(())
}

/// The given port names, or `p1`, `p2` and so on.
pub fn port_labels(given: Option<Vec<String>>, ports: usize) -> (r: Vec<String>)
    requires
        ports < usize::MAX,
    ensures
        texts(r@) == (match given {
            Some(v) => texts(v@),
            None => Seq::new(ports as nat, |i: int| "p"@ + decimal((i + 1) as nat)),
        }),
{
    match given {
        Some(v) => v,
        None => {
            let ghost all = Seq::new(ports as nat, |i: int| "p"@ + decimal((i + 1) as nat));
            let mut out: Vec<String> = Vec::new();
            for i in 0..ports
                invariant
                    ports < usize::MAX,
                    all == Seq::new(ports as nat, |i: int| "p"@ + decimal((i + 1) as nat)),
                    texts(out@) =~= all.take(i as int),
            {
                let ghost before = texts(out@);
                let k: usize = i + 1;
                out.push(concat2("p", &decimal_text(k as u64)));
                assert(texts(out@) =~= before.push(all[i as int]));
            }
            assert(all.take(all.len() as int) =~= all);
            out
        },
    }
}

/// A compiled evaluator takes as many inputs as it was compiled for.
pub fn check_inputs(expected: usize, got: usize) -> (r: Result<(), String>)
    ensures
        r is Ok <==> expected == got,
        r matches Err(m) ==> m@ == "expected "@ + decimal(expected as nat) + " inputs, got "@ + decimal(got as nat),
{
    if expected != got {
        let head = concat3("expected ", &decimal_text(expected as u64), " inputs, got ");
        return Err(concat2(&head, &decimal_text(got as u64)));
    }
    Ok(())
}

/// A value that is a number; only one that is none differs from itself.
pub fn check_value<F: Fn(Ask) -> Reply>(host: &Host<F>, v: u64) -> (r: Result<u64, String>)
    ensures
        compares(host.answers(), Rel::Ne, v, v) ==> (r matches Err(m) && m@
            == "evaluation produced NaN (unbound symbol or opaque node)"@),
        !compares(host.answers(), Rel::Ne, v, v) ==> r == Ok::<u64, String>(v),
{
    if host.compares(Rel::Ne, v, v) {
        return Err("evaluation produced NaN (unbound symbol or opaque node)".to_string());
    }
    Ok(v)
}

// ---------------------------------------------------------------------------
// Expressions.
// ---------------------------------------------------------------------------
/// A power with an arbitrary exponent: `exp(b * ln(a))`.
pub fn general_power<G: Fn(Query) -> Answer>(al: &Algebra<G>, a: ExprId, b: ExprId) -> (r: ExprId)
    ensures
        r == al.graph().fun1(Fun1::Exp, al.graph().times(b, al.graph().fun1(Fun1::Ln, a))),
{
    let l = al.fun1(Fun1::Ln, a);
    al.fun1(Fun1::Exp, al.times(b, l))
}

/// The symbols that expressions are; `None` where one is no symbol.
pub open spec fn as_symbols(g: Graph, v: Seq<ExprId>, i: int) -> Option<Seq<SymbolId>>
    decreases v.len() - i,
{
    if i < 0 || i >= v.len() {
        Some(seq![])
    } else {
        match (g.as_symbol(v[i]), as_symbols(g, v, i + 1)) {
            (Some(s), Some(rest)) => Some(seq![s] + rest),
            _ => None,
        }
    }
}

/// The symbols to differentiate by.
pub fn symbol_ids<G: Fn(Query) -> Answer>(al: &Algebra<G>, wrt: &Vec<ExprId>) -> (r: Result<Vec<SymbolId>, String>)
    ensures
        match (r, as_symbols(al.graph(), wrt@, 0)) {
            (Ok(v), Some(w)) => v@ == w,
            (Err(m), None) => m@ == "`wrt` entries must be symbols"@,
            _ => false,
        },
{
    let ghost g = al.graph();
    let mut out: Vec<SymbolId> = Vec::new();
    let mut i: usize = wrt.len();
    assert(out@.reverse() =~= seq![]);
    while i > 0
        invariant
            g == al.graph(),
            i <= wrt@.len(),
            as_symbols(g, wrt@, i as int) == Some(out@),
        decreases i,
    {
        i = i - 1;
        match al.parts(wrt[i]).0 {
            Some(s) => {
                let ghost rest = out@;
                out.insert(0, s);
                assert(out@ =~= seq![s] + rest);
            },
            None => {
                proof {
                    missing_symbol(g, wrt@, 0, i as int);
                }
                return Err("`wrt` entries must be symbols".to_string());
            },
        }
    }
    Ok(out)
}

proof fn missing_symbol(g: Graph, v: Seq<ExprId>, i: int, k: int)
    requires
        0 <= i <= k < v.len(),
        g.as_symbol(v[k]) is None,
    ensures
        as_symbols(g, v, i) is None,
    decreases k - i,
{
    if i < k {
        missing_symbol(g, v, i + 1, k);
    }
}

/// Where entries of a matrix are not identically zero.
pub open spec fn pattern_of(g: Graph, m: Seq<Seq<ExprId>>) -> Seq<Seq<bool>> {
    m.map_values(|r: Seq<ExprId>| r.map_values(|e: ExprId| !g.is_zero(e)))
}

pub open spec fn bool_rows(m: Seq<Vec<bool>>) -> Seq<Seq<bool>> {
    m.map_values(|r: Vec<bool>| r@)
}

/// The structural sparsity pattern of a symbolic matrix.
pub fn sparsity<G: Fn(Query) -> Answer>(al: &Algebra<G>, m: &Vec<Vec<ExprId>>) -> (r: Vec<Vec<bool>>)
    ensures
        bool_rows(r@) == pattern_of(al.graph(), rows_of(m@)),
{
    let ghost g = al.graph();
    let ghost all = pattern_of(g, rows_of(m@));
    let mut out: Vec<Vec<bool>> = Vec::new();
    for i in 0..m.len()
        invariant
            g == al.graph(),
            all == pattern_of(g, rows_of(m@)),
            bool_rows(out@) =~= all.take(i as int),
    {
        let row = &m[i];
        let ghost line = row@.map_values(|e: ExprId| !g.is_zero(e));
        let mut flags: Vec<bool> = Vec::new();
        for j in 0..row.len()
            invariant
                g == al.graph(),
                line == row@.map_values(|e: ExprId| !g.is_zero(e)),
                flags@ =~= line.take(j as int),
        {
            flags.push(!al.is_zero(row[j]));
        }
        proof {
            assert(line.take(line.len() as int) =~= line);
            assert(all[i as int] == line);
        }
        let ghost before = bool_rows(out@);
        out.push(flags);
        assert(bool_rows(out@) =~= before.push(all[i as int]));
    }
    assert(all.take(all.len() as int) =~= all);
    out
}

/// The value given to a name, the first one that is.
pub open spec fn given(v: Seq<(String, u64)>, name: Seq<char>, i: int) -> Option<u64>
    decreases v.len() - i,
{
    if i < 0 || i >= v.len() {
        None
    } else if v[i].0@ == name {
        Some(v[i].1)
    } else {
        given(v, name, i + 1)
    }
}

/// The values of the symbols from `k` on, or the name of the first one without.
pub open spec fn bindings(g: Graph, free: Seq<SymbolId>, v: Seq<(String, u64)>, k: int) -> Result<
    Seq<(SymbolId, u64)>,
    Seq<char>,
>
    decreases free.len() - k,
{
    if k < 0 || k >= free.len() {
        Ok(seq![])
    } else {
        let name = g.symbol_name(free[k]);
        match given(v, name, 0) {
            None => Err(name),
            Some(x) => match bindings(g, free, v, k + 1) {
                Err(n) => Err(n),
                Ok(rest) => Ok(seq![(free[k], x)] + rest),
            },
        }
    }
}

fn find_given(v: &Vec<(String, u64)>, name: &str) -> (r: Option<u64>)
    ensures
        r == given(v@, name@, 0),
{
    for i in 0..v.len()
        invariant
            given(v@, name@, i as int) == given(v@, name@, 0),
    {
        if same(&v[i].0, name) {
            return Some(v[i].1);
        }
    }
    None
}

/// The evaluation environment of an expression: exactly its free symbols, by
/// name.
pub fn real_env<G: Fn(Query) -> Answer>(al: &Algebra<G>, e: ExprId, v: &Vec<(String, u64)>) -> (r: Result<
    Vec<(SymbolId, u64)>,
    String,
>)
    ensures
        match (r, bindings(al.graph(), al.graph().free(e), v@, 0)) {
            (Ok(a), Ok(b)) => a@ == b,
            (Err(m), Err(n)) => m@ == "unbound symbol '"@ + n + "'"@,
            _ => false,
        },
{
    let ghost g = al.graph();
    let free = al.free_symbols(e);
    let ghost goal = bindings(g, free@, v@, 0);
    let mut out: Vec<(SymbolId, u64)> = Vec::new();
    proof {
        if let Ok(w) = goal {
            assert(out@ + w =~= w);
        }
    }
    for k in 0..free.len()
        invariant
            g == al.graph(),
            free@ == g.free(e),
            goal == bindings(g, free@, v@, 0),
            match (goal, bindings(g, free@, v@, k as int)) {
                (Ok(all), Ok(rest)) => out@ + rest == all,
                (Err(a), Err(b)) => a == b,
                _ => false,
            },
    {
        let s = free[k];
        let name = al.symbol_name(s);
        match find_given(v, &name) {
            None => {
                return Err(concat3("unbound symbol '", &name, "'"));
            },
            Some(x) => {
                let ghost before = out@;
                out.push((s, x));
                proof {
                    if let Ok(rest) = bindings(g, free@, v@, k + 1) {
                        assert(before.push((s, x)) + rest =~= before + (seq![(s, x)] + rest));
                    }
                }
            },
        }
    }
    assert(out@ + seq![] =~= out@);
    Ok(out)
}

} // verus!

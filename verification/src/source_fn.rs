//! Independent-source stimulus shapes.
use crate::netlist::model_cards::values_text;
use crate::numerics::{apply2, Answers, Ask, Host, Op2, Reply, TWO_PI};
use crate::text::{concat2, decimal, decimal_text, lower, same, to_lower};
use vstd::prelude::*;

verus! {

/// Time-domain stimulus shape of an independent source. An element without one
/// is a constant whose value is the element's own symbol.
#[derive(Clone, Copy, Debug, PartialEq, Eq, Structural)]
pub enum SourceFn {
    /// `offset + amplitude * sin(w * t)`.
    Sin,
    /// Trapezoidal pulse train (`v1 v2 td tr tf pw per`).
    Pulse,
    /// Double-exponential (`v1 v2 td1 tau1 td2 tau2`).
    Exp,
    /// Piecewise-linear over `n` breakpoints `(t_i, v_i)`.
    Pwl(usize),
}

/// The shape that a function name stands for, given its argument count.
pub open spec fn shape_of(func: Seq<char>, nargs: usize) -> Option<SourceFn> {
    if lower(func) == "sin"@ {
        Some(SourceFn::Sin)
    } else if lower(func) == "pulse"@ {
        Some(SourceFn::Pulse)
    } else if lower(func) == "exp"@ {
        Some(SourceFn::Exp)
    } else if lower(func) == "pwl"@ {
        Some(SourceFn::Pwl((nargs / 2) as usize))
    } else {
        None
    }
}

impl SourceFn {
    /// Identify a source shape from its netlist function name and argument count
    /// (`pwl` carries its point count); `None` for an unknown function.
    pub fn from_func(func: &str, nargs: usize) -> (r: Option<SourceFn>)
        ensures
            r == shape_of(func@, nargs),
    {
        let f = to_lower(func);
        if same(&f, "sin") {
            Some(SourceFn::Sin)
        } else if same(&f, "pulse") {
            Some(SourceFn::Pulse)
        } else if same(&f, "exp") {
            Some(SourceFn::Exp)
        } else if same(&f, "pwl") {
            Some(SourceFn::Pwl(nargs / 2))
        } else {
            None
        }
    }
}


// ---------------------------------------------------------------------------
// Parameters.
// ---------------------------------------------------------------------------
/// The argument at a position, where there is one and it has a value.
pub open spec fn argument(args: Seq<Option<u64>>, i: int) -> Option<u64> {
    if 0 <= i < args.len() {
        args[i]
    } else {
        None
    }
}

/// The names of a pulse's parameters, in order.
pub open spec fn pulse_suffixes() -> Seq<Seq<char>> {
    seq![
        "pulse_v1"@,
        "pulse_v2"@,
        "pulse_td"@,
        "pulse_tr"@,
        "pulse_tf"@,
        "pulse_pw"@,
        "pulse_per"@,
    ]
}

/// The names of a double exponential's parameters, in order.
pub open spec fn exp_suffixes() -> Seq<Seq<char>> {
    seq!["exp_v1"@, "exp_v2"@, "exp_td1"@, "exp_tau1"@, "exp_td2"@, "exp_tau2"@]
}

/// A name bound to a value, where there is one.
pub open spec fn bind_one(suffix: Seq<char>, v: Option<u64>) -> Seq<(Seq<char>, u64)> {
    match v {
        Some(x) => seq![(suffix, x)],
        None => seq![],
    }
}

/// The arguments from `i` on bound to the names from `i` on.
pub open spec fn bind_names(names: Seq<Seq<char>>, args: Seq<Option<u64>>, i: int) -> Seq<(Seq<char>, u64)>
    decreases names.len() - i,
{
    if i < 0 || i >= names.len() {
        seq![]
    } else {
        bind_one(names[i], argument(args, i)) + bind_names(names, args, i + 1)
    }
}

/// The points from `i` on of a piecewise-linear shape with `n` points.
pub open spec fn bind_points(n: int, args: Seq<Option<u64>>, i: int) -> Seq<(Seq<char>, u64)>
    decreases n - i,
{
    if i < 0 || i >= n {
        seq![]
    } else {
        bind_one("pwl_t"@ + decimal(i as nat), argument(args, 2 * i)) + bind_one(
            "pwl_v"@ + decimal(i as nat),
            argument(args, 2 * i + 1),
        ) + bind_points(n, args, i + 1)
    }
}

impl SourceFn {
    /// The names and values that positional arguments bind. The frequency of a
    /// sine is kept as the angular `sin_w`.
    pub open spec fn bound(self, h: Answers, args: Seq<Option<u64>>) -> Seq<(Seq<char>, u64)> {
        match self {
            SourceFn::Sin => bind_one("sin_off"@, argument(args, 0)) + bind_one(
                "sin_amp"@,
                argument(args, 1),
            ) + bind_one(
                "sin_w"@,
                match argument(args, 2) {
                    Some(f) => Some(apply2(h, Op2::Mul, TWO_PI, f)),
                    None => None,
                },
            ),
            SourceFn::Pulse => bind_names(pulse_suffixes(), args, 0),
            SourceFn::Exp => bind_names(exp_suffixes(), args, 0),
            SourceFn::Pwl(n) => bind_points(n as int, args, 0),
        }
    }

    /// Bind positional netlist arguments to parameter `(suffix, value)` pairs
    /// (the caller prefixes each suffix with the element name). A missing
    /// argument (`None`) is left unbound, so its symbol stays free.
    pub fn bind_params<F: Fn(Ask) -> Reply>(&self, args: &Vec<Option<u64>>, host: &Host<F>) -> (r: Vec<
        (String, u64),
    >)
        requires
            self matches SourceFn::Pwl(n) ==> *n <= usize::MAX / 2,
        ensures
            values_text(r@) == self.bound(host.answers(), args@),
    {
        let mut out: Vec<(String, u64)> = Vec::new();
        assert(values_text(out@) =~= seq![]);
        match self {
            SourceFn::Sin => {
                put(&mut out, "sin_off", arg_at(args, 0));
                put(&mut out, "sin_amp", arg_at(args, 1));
                let w: Option<u64> = match arg_at(args, 2) {
                    Some(f) => Some(host.apply2(Op2::Mul, TWO_PI, f)),
                    None => None,
                };
                put(&mut out, "sin_w", w);
                assert(values_text(out@) =~= self.bound(host.answers(), args@));
            },
            SourceFn::Pulse => {
                let mut names: Vec<String> = Vec::new();
                names.push("pulse_v1".to_owned());
                names.push("pulse_v2".to_owned());
                names.push("pulse_td".to_owned());
                names.push("pulse_tr".to_owned());
                names.push("pulse_tf".to_owned());
                names.push("pulse_pw".to_owned());
                names.push("pulse_per".to_owned());
                assert(crate::text::texts(names@) =~= pulse_suffixes());
                put_all(&mut out, &names, args);
                assert(values_text(out@) =~= self.bound(host.answers(), args@));
            },
            SourceFn::Exp => {
                let mut names: Vec<String> = Vec::new();
                names.push("exp_v1".to_owned());
                names.push("exp_v2".to_owned());
                names.push("exp_td1".to_owned());
                names.push("exp_tau1".to_owned());
                names.push("exp_td2".to_owned());
                names.push("exp_tau2".to_owned());
                assert(crate::text::texts(names@) =~= exp_suffixes());
                put_all(&mut out, &names, args);
                assert(values_text(out@) =~= self.bound(host.answers(), args@));
            },
            SourceFn::Pwl(n) => {
                let ghost goal = bind_points(*n as int, args@, 0);
                assert(values_text(out@) + goal =~= goal);
                for i in 0..*n
                    invariant
                        *n <= usize::MAX / 2,
                        goal == bind_points(*n as int, args@, 0),
                        values_text(out@) + bind_points(*n as int, args@, i as int) == goal,
                {
                    let ghost before = values_text(out@);
                    let d = decimal_text(i as u64);
                    let ghost t = bind_one("pwl_t"@ + d@, argument(args@, 2 * i));
                    let ghost v = bind_one("pwl_v"@ + d@, argument(args@, 2 * i + 1));
                    put(&mut out, &concat2("pwl_t", &d), arg_at(args, 2 * i));
                    put(&mut out, &concat2("pwl_v", &d), arg_at(args, 2 * i + 1));
                    proof {
                        let rest = bind_points(*n as int, args@, i + 1);
                        assert(values_text(out@) + rest =~= before + (t + v + rest));
                    }
                }
                assert(values_text(out@) + seq![] =~= values_text(out@));
            },
        }
        out
    }
}

fn arg_at(args: &Vec<Option<u64>>, i: usize) -> (r: Option<u64>)
    ensures
        r == argument(args@, i as int),
{
    if i < args.len() {
        args[i]
    } else {
        None
    }
}

fn put(out: &mut Vec<(String, u64)>, suffix: &str, v: Option<u64>)
    ensures
        values_text(final(out)@) == values_text(old(out)@) + bind_one(suffix@, v),
{
    let ghost before = values_text(out@);
    match v {
        Some(x) => {
            out.push((suffix.to_owned(), x));
            assert(values_text(out@) =~= before + seq![(suffix@, x)]);
        },
        None => {
            assert(values_text(out@) =~= before + seq![]);
        },
    }
}

fn put_all(out: &mut Vec<(String, u64)>, names: &Vec<String>, args: &Vec<Option<u64>>)
    ensures
        values_text(final(out)@) == values_text(old(out)@) + bind_names(crate::text::texts(names@), args@, 0),
{
    let ghost base = values_text(out@);
    let ghost n = crate::text::texts(names@);
    let ghost goal = base + bind_names(n, args@, 0);
    for i in 0..names.len()
        invariant
            n == crate::text::texts(names@),
            values_text(out@) + bind_names(n, args@, i as int) == goal,
    {
        let ghost before = values_text(out@);
        assert(n[i as int] == names@[i as int]@);
        put(out, &names[i], arg_at(args, i));
        proof {
            let rest = bind_names(n, args@, i + 1);
            assert(values_text(out@) + rest =~= before + (bind_one(n[i as int], argument(args@, i as int)) + rest));
        }
    }
    assert(values_text(out@) + seq![] =~= values_text(out@));
}

} // verus!

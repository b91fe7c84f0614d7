//! What the scaled values of placed devices are, where the host computes without
//! rounding: lumped lines, areas, copies, and the settings of sources.
use crate::circuit::value_symbol;
use crate::corners::Reading;
use crate::netlist::devices::{keyed, multiplicity, or_value, PlacedView};
use crate::netlist::elements::{ElemView, Tables, FIFTY};
use crate::netlist::expr::NANO;
use crate::netlist::placement::{multiplied, sections_of, with_area, Ladder};
use crate::netlist::world::{NamesView, StopView};
use crate::numerics::{apply2, count, Answers, Op2, ONE, TWO_PI, ZERO};
use crate::source_fn::{argument, bind_names, bind_one, bind_points, exp_suffixes, pulse_suffixes, SourceFn};
use crate::text::decimal;
use vstd::prelude::*;

verus! {

// ---------------------------------------------------------------------------
// Lines.
// ---------------------------------------------------------------------------
impl Reading {
    /// A line given by its impedance and its delay has the inductance and the
    /// capacitance of such a line: their quotient is the square of the impedance,
    /// their product the square of the delay, and it is lossless.
    pub proof fn lines_have_their_impedance_and_delay(self, t: Tables, el: ElemView)
        requires
            self.exact(t.h),
            el.kind == 'T',
            (self.number)(or_value(keyed(t.h, t.env, el.tok, 5, "Z0"@), FIFTY)),
            (self.number)(or_value(keyed(t.h, t.env, el.tok, 5, "TD"@), NANO)),
            (self.number)(t.line_totals(el).1),
            (self.number)(t.line_totals(el).3),
        ensures
            ({
                let z0 = (self.value)(or_value(keyed(t.h, t.env, el.tok, 5, "Z0"@), FIFTY));
                let td = (self.value)(or_value(keyed(t.h, t.env, el.tok, 5, "TD"@), NANO));
                let (r, l, g, c) = t.line_totals(el);
                &&& (self.value)(l) == z0 * z0 * (self.value)(c)
                &&& (self.value)(l) * (self.value)(c) == td * td
                &&& (self.value)(r) == 0real && (self.value)(g) == 0real
            }),
    {
        let (a, b) = (
            or_value(keyed(t.h, t.env, el.tok, 5, "Z0"@), FIFTY),
            or_value(keyed(t.h, t.env, el.tok, 5, "TD"@), NANO),
        );
        self.constants(t.h);
        self.multiplies(t.h, a, b);
        self.divides(t.h, b, a);
        let (z0, td, c) = ((self.value)(a), (self.value)(b), (self.value)(apply2(t.h, Op2::Div, b, a)));
        assert(z0 * td == z0 * z0 * c) by (nonlinear_arith)
            requires
                c * z0 == td,
        ;
        assert(z0 * td * c == td * td) by (nonlinear_arith)
            requires
                c * z0 == td,
        ;
    }

    /// The sections of a lumped line have equal parts of its totals: as many of them
    /// as there are sections make up the whole line.
    pub proof fn sections_make_up_the_line(self, t: Tables, s: PlacedView, el: ElemView, n: u64)
        requires
            self.exact(t.h),
            el.tok.len() >= 5,
            n == count(t.h, sections_of(t.h, keyed(t.h, t.env, el.tok, 5, "N"@)) as i64),
            (self.number)(n),
            ({
                let (r, l, g, c) = t.line_totals(el);
                &&& (self.number)(r) && (self.number)(l) && (self.number)(g) && (self.number)(c)
                &&& (self.number)(apply2(t.h, Op2::Div, r, n)) && (self.number)(apply2(t.h, Op2::Div, l, n))
                &&& (self.number)(apply2(t.h, Op2::Div, g, n)) && (self.number)(apply2(t.h, Op2::Div, c, n))
            }),
        ensures
            exists|k: Ladder, s1: PlacedView, inp: usize|
                {
                    let (r, l, g, c) = t.line_totals(el);
                    &&& t.lossy_line(s, el) == Ok::<PlacedView, StopView>(
                        #[trigger] k.from(t.h, s1, 0, inp),
                    )
                    &&& k.sections == sections_of(t.h, keyed(t.h, t.env, el.tok, 5, "N"@))
                    &&& (self.value)(k.rs) * (self.value)(n) == (self.value)(r)
                    &&& (self.value)(k.ls) * (self.value)(n) == (self.value)(l)
                    &&& (self.value)(k.gs) * (self.value)(n) == (self.value)(g)
                    &&& (self.value)(k.cs) * (self.value)(n) == (self.value)(c)
                },
    {
        let (r, l, g, c) = t.line_totals(el);
        self.divides(t.h, r, n);
        self.divides(t.h, l, n);
        self.divides(t.h, g, n);
        self.divides(t.h, c, n);
        let (inp, s1) = s.node(el.tok[1]);
        let (out, s2) = s1.node(el.tok[3]);
        let (reference, s3) = s2.node(el.tok[2]);
        let (_, s4) = s3.node(el.tok[4]);
        let k = Ladder {
            name: el.name,
            sections: sections_of(t.h, keyed(t.h, t.env, el.tok, 5, "N"@)),
            out,
            reference,
            rs: apply2(t.h, Op2::Div, r, n),
            ls: apply2(t.h, Op2::Div, l, n),
            gs: apply2(t.h, Op2::Div, g, n),
            cs: apply2(t.h, Op2::Div, c, n),
        };
        assert(t.lossy_line(s, el) == Ok::<PlacedView, StopView>(k.from(t.h, s4, 0, inp)));
    }

    /// A shunt conductance is placed as the resistor of that conductance.
    pub proof fn shunts_are_resistors(self, h: Answers, l: Ladder, s: PlacedView, k: int, node: usize)
        requires
            self.exact(h),
            (self.number)(l.gs),
            (self.value)(l.gs) != 0real,
            (self.number)(apply2(h, Op2::Div, ONE, l.gs)),
        ensures
            ({
                let key = value_symbol(l.name + ".G"@ + decimal(k as nat));
                let v = l.shunt(h, s, k, node).values;
                v.contains_key(key) && (self.value)(v[key]) * (self.value)(l.gs) == 1real
            }),
    {
        self.constants(h);
        self.compared(h, l.gs, ZERO);
        self.divides(h, ONE, l.gs);
    }

    // -----------------------------------------------------------------------
    // Multiples.
    // -----------------------------------------------------------------------
    /// As many copies as stated, each with as many fingers as stated.
    pub proof fn copies_and_fingers_multiply(
        self,
        h: Answers,
        env: Map<Seq<char>, u64>,
        toks: Seq<Seq<char>>,
        m: u64,
        nf: u64,
    )
        requires
            self.exact(h),
            keyed(h, env, toks, 0, "m"@) == Some(m),
            keyed(h, env, toks, 0, "nf"@) == Some(nf),
            (self.number)(m) && (self.number)(nf),
            (self.number)(multiplicity(h, env, toks, true)),
            (self.number)(multiplicity(h, env, toks, false)),
        ensures
            (self.value)(multiplicity(h, env, toks, true)) == (self.value)(m) * (self.value)(nf),
            (self.value)(multiplicity(h, env, toks, false)) == (self.value)(m),
    {
        self.constants(h);
        self.multiplies(h, m, nf);
        self.multiplies(h, m, ONE);
        let x = (self.value)(m);
        assert(x * 1real == x) by (nonlinear_arith);
    }

    /// The value that a parameter has before it is multiplied: the bound one, or the
    /// default of the module.
    pub open spec fn start(self, n: NamesView, full: Seq<char>, key: Seq<char>, v: Map<Seq<char>, u64>) -> Option<u64> {
        if v.contains_key(full) {
            Some(v[full])
        } else {
            n.default_of(key, 0)
        }
    }

    /// A multiplied parameter is bound to its product, and nothing else changes.
    pub proof fn multiplying_binds_the_product(
        self,
        h: Answers,
        n: NamesView,
        name: Seq<char>,
        key: Seq<char>,
        f: u64,
        v: Map<Seq<char>, u64>,
        other: Seq<char>,
    )
        requires
            self.exact(h),
        ensures
            ({
                let full = name + "."@ + key;
                let after = multiplied(h, n, name, key, f, v);
                let base = self.start(n, full, key, v);
                &&& base is Some ==> after.contains_key(full)
                &&& base is Some && (self.number)(base->0) && (self.number)(f) && (self.number)(after[full]) ==> (
                self.value)(after[full]) == (self.value)(base->0) * (self.value)(f)
                &&& other != full ==> (after.contains_key(other) <==> v.contains_key(other)) && after[other] == v[other]
            }),
    {
        let full = name + "."@ + key;
        let base = self.start(n, full, key, v);
        if base is Some && (self.number)(base->0) && (self.number)(f) && (self.number)(
            apply2(h, Op2::Mul, base->0, f),
        ) {
            self.multiplies(h, base->0, f);
        }
    }
}

/// The parameters of a bipolar transistor that are currents.
pub open spec fn is_current(key: Seq<char>) -> bool {
    key == "Is"@ || key == "IKF"@ || key == "IKR"@ || key == "ISE"@ || key == "ISC"@
}

/// Those that are resistances.
pub open spec fn is_resistance(key: Seq<char>) -> bool {
    key == "Rb"@ || key == "Rc"@ || key == "Re"@
}

proof fn keys_apart(name: Seq<char>, a: Seq<char>, b: Seq<char>)
    requires
        is_current(a) || is_resistance(a),
        is_current(b) || is_resistance(b),
        a != b,
    ensures
        name + "."@ + a != name + "."@ + b,
{
    reveal_strlit(".");
    let (x, y) = (name + "."@ + a, name + "."@ + b);
    let n = (name.len() + 1) as int;
    if x == y {
        assert(x.skip(n) =~= a);
        assert(y.skip(n) =~= b);
    }
}

/// What tells the parameters apart: their length and their letters.
spec fn tag(k: Seq<char>) -> (nat, char, char, char) {
    (k.len(), k[0], k[1], if k.len() > 2 { k[2] } else { ' ' })
}

proof fn tags()
    ensures
        tag("Is"@) == (2nat, 'I', 's', ' '),
        tag("IKF"@) == (3nat, 'I', 'K', 'F'),
        tag("IKR"@) == (3nat, 'I', 'K', 'R'),
        tag("ISE"@) == (3nat, 'I', 'S', 'E'),
        tag("ISC"@) == (3nat, 'I', 'S', 'C'),
        tag("Rb"@) == (2nat, 'R', 'b', ' '),
        tag("Rc"@) == (2nat, 'R', 'c', ' '),
        tag("Re"@) == (2nat, 'R', 'e', ' '),
{
    reveal_strlit("Is");
    reveal_strlit("IKF");
    reveal_strlit("IKR");
    reveal_strlit("ISE");
    reveal_strlit("ISC");
    reveal_strlit("Rb");
    reveal_strlit("Rc");
    reveal_strlit("Re");
}

/// Multiplying one parameter leaves another one's start and binding as they are.
proof fn passes_by(
    r: Reading,
    h: Answers,
    n: NamesView,
    name: Seq<char>,
    key: Seq<char>,
    f: u64,
    v: Map<Seq<char>, u64>,
    other: Seq<char>,
)
    requires
        r.exact(h),
        is_current(key) || is_resistance(key),
        is_current(other) || is_resistance(other),
        key != other,
    ensures
        ({
            let full = name + "."@ + other;
            let after = multiplied(h, n, name, key, f, v);
            &&& after.contains_key(full) <==> v.contains_key(full)
            &&& after[full] == v[full]
        }),
{
    keys_apart(name, key, other);
    r.multiplying_binds_the_product(h, n, name, key, f, v, name + "."@ + other);
}

/// A transistor with an area is that many unit ones side by side: its currents are
/// multiplied by the area, and its resistances times the area are those of the unit
/// one.
pub proof fn areas_multiply_currents_and_divide_resistances(
    r: Reading,
    h: Answers,
    n: NamesView,
    name: Seq<char>,
    area: u64,
    v: Map<Seq<char>, u64>,
    key: Seq<char>,
)
    requires
        r.exact(h),
        is_current(key) || is_resistance(key),
        (r.number)(area) && (r.number)(apply2(h, Op2::Div, ONE, area)),
        r.start(n, name + "."@ + key, key, v) is Some,
        (r.number)(r.start(n, name + "."@ + key, key, v)->0),
        (r.number)(with_area(h, n, name, area, v)[name + "."@ + key]),
    ensures
        with_area(h, n, name, area, v).contains_key(name + "."@ + key),
        is_current(key) ==> (r.value)(with_area(h, n, name, area, v)[name + "."@ + key]) == (r.value)(
            r.start(n, name + "."@ + key, key, v)->0,
        ) * (r.value)(area),
        is_resistance(key) ==> (r.value)(with_area(h, n, name, area, v)[name + "."@ + key]) * (r.value)(area) == (
        r.value)(r.start(n, name + "."@ + key, key, v)->0),
{
    tags();
    let full = name + "."@ + key;
    let g = apply2(h, Op2::Div, ONE, area);
    r.constants(h);
    r.divides(h, ONE, area);
    let v1 = multiplied(h, n, name, "Is"@, area, v);
    let v2 = multiplied(h, n, name, "IKF"@, area, v1);
    let v3 = multiplied(h, n, name, "IKR"@, area, v2);
    let v4 = multiplied(h, n, name, "ISE"@, area, v3);
    let v5 = multiplied(h, n, name, "ISC"@, area, v4);
    let v6 = multiplied(h, n, name, "Rb"@, g, v5);
    let v7 = multiplied(h, n, name, "Rc"@, g, v6);
    step(r, h, n, name, "Is"@, area, v, key);
    step(r, h, n, name, "IKF"@, area, v1, key);
    step(r, h, n, name, "IKR"@, area, v2, key);
    step(r, h, n, name, "ISE"@, area, v3, key);
    step(r, h, n, name, "ISC"@, area, v4, key);
    step(r, h, n, name, "Rb"@, g, v5, key);
    step(r, h, n, name, "Rc"@, g, v6, key);
    step(r, h, n, name, "Re"@, g, v7, key);
    let base = (r.value)(r.start(n, full, key, v)->0);
    let (a, b) = ((r.value)(area), (r.value)(g));
    assert(base * b * a == base) by (nonlinear_arith)
        requires
            b * a == 1real,
    ;
}

proof fn step(
    r: Reading,
    h: Answers,
    n: NamesView,
    name: Seq<char>,
    key: Seq<char>,
    f: u64,
    v: Map<Seq<char>, u64>,
    other: Seq<char>,
)
    requires
        r.exact(h),
        is_current(key) || is_resistance(key),
        is_current(other) || is_resistance(other),
    ensures
        ({
            let full = name + "."@ + other;
            let after = multiplied(h, n, name, key, f, v);
            let base = r.start(n, full, other, v);
            &&& key != other ==> (after.contains_key(full) <==> v.contains_key(full)) && after[full] == v[full]
            &&& key == other && base is Some ==> after.contains_key(full)
            &&& key == other && base is Some && (r.number)(base->0) && (r.number)(f) && (r.number)(after[full]) ==> (
            r.value)(after[full]) == (r.value)(base->0) * (r.value)(f)
        }),
{
    if key == other {
        r.multiplying_binds_the_product(h, n, name, key, f, v, seq![]);
    } else {
        passes_by(r, h, n, name, key, f, v, other);
    }
}

// ---------------------------------------------------------------------------
// Sources.
// ---------------------------------------------------------------------------
proof fn names_are_bound(names: Seq<Seq<char>>, args: Seq<Option<u64>>, i: int, k: int)
    requires
        0 <= i <= k < names.len(),
        argument(args, k) is Some,
    ensures
        bind_names(names, args, i).contains((names[k], argument(args, k)->0)),
    decreases k - i,
{
    let all = bind_names(names, args, i);
    let own = bind_one(names[i], argument(args, i));
    let rest = bind_names(names, args, i + 1);
    assert(all == own + rest);
    if i == k {
        assert(all[0] == (names[k], argument(args, k)->0));
    } else {
        names_are_bound(names, args, i + 1, k);
        let j = choose|j: int| 0 <= j < rest.len() && rest[j] == (names[k], argument(args, k)->0);
        assert(all[own.len() + j] == rest[j]);
    }
}

/// The arguments of a pulse in their order: the two levels, the delay, the rise and
/// fall times, the width and the period.
pub proof fn pulse_arguments_in_order(h: Answers, args: Seq<Option<u64>>)
    requires
        args.len() == 7,
        forall|i: int| 0 <= i < 7 ==> (#[trigger] args[i]) is Some,
    ensures
        SourceFn::Pulse.bound(h, args).contains(("pulse_v1"@, args[0]->0)),
        SourceFn::Pulse.bound(h, args).contains(("pulse_v2"@, args[1]->0)),
        SourceFn::Pulse.bound(h, args).contains(("pulse_td"@, args[2]->0)),
        SourceFn::Pulse.bound(h, args).contains(("pulse_tr"@, args[3]->0)),
        SourceFn::Pulse.bound(h, args).contains(("pulse_tf"@, args[4]->0)),
        SourceFn::Pulse.bound(h, args).contains(("pulse_pw"@, args[5]->0)),
        SourceFn::Pulse.bound(h, args).contains(("pulse_per"@, args[6]->0)),
{
    let names = pulse_suffixes();
    assert(args[0] is Some && args[1] is Some && args[2] is Some && args[3] is Some && args[4] is Some && args[5] is Some
        && args[6] is Some);
    names_are_bound(names, args, 0, 0);
    names_are_bound(names, args, 0, 1);
    names_are_bound(names, args, 0, 2);
    names_are_bound(names, args, 0, 3);
    names_are_bound(names, args, 0, 4);
    names_are_bound(names, args, 0, 5);
    names_are_bound(names, args, 0, 6);
}

/// The arguments of an exponential in their order: the two levels, and a delay with a
/// time constant for the rise and for the fall.
pub proof fn exponential_arguments_in_order(h: Answers, args: Seq<Option<u64>>)
    requires
        args.len() == 6,
        forall|i: int| 0 <= i < 6 ==> (#[trigger] args[i]) is Some,
    ensures
        SourceFn::Exp.bound(h, args).contains(("exp_v1"@, args[0]->0)),
        SourceFn::Exp.bound(h, args).contains(("exp_v2"@, args[1]->0)),
        SourceFn::Exp.bound(h, args).contains(("exp_td1"@, args[2]->0)),
        SourceFn::Exp.bound(h, args).contains(("exp_tau1"@, args[3]->0)),
        SourceFn::Exp.bound(h, args).contains(("exp_td2"@, args[4]->0)),
        SourceFn::Exp.bound(h, args).contains(("exp_tau2"@, args[5]->0)),
{
    let names = exp_suffixes();
    assert(args[0] is Some && args[1] is Some && args[2] is Some && args[3] is Some && args[4] is Some && args[5] is Some);
    names_are_bound(names, args, 0, 0);
    names_are_bound(names, args, 0, 1);
    names_are_bound(names, args, 0, 2);
    names_are_bound(names, args, 0, 3);
    names_are_bound(names, args, 0, 4);
    names_are_bound(names, args, 0, 5);
}

/// The arguments of a piecewise linear source come in pairs: an instant and a level
/// for each point.
pub proof fn points_come_in_pairs(h: Answers, args: Seq<Option<u64>>, n: usize, i: int, k: int)
    requires
        0 <= i <= k < n,
        2 * n <= args.len(),
        args[2 * k] is Some,
        args[2 * k + 1] is Some,
    ensures
        bind_points(n as int, args, i).contains(("pwl_t"@ + decimal(k as nat), args[2 * k]->0)),
        bind_points(n as int, args, i).contains(("pwl_v"@ + decimal(k as nat), args[2 * k + 1]->0)),
        SourceFn::Pwl(n).bound(h, args) == bind_points(n as int, args, 0),
    decreases k - i,
{
    let all = bind_points(n as int, args, i);
    let (a, b) = (
        bind_one("pwl_t"@ + decimal(i as nat), argument(args, 2 * i)),
        bind_one("pwl_v"@ + decimal(i as nat), argument(args, 2 * i + 1)),
    );
    let rest = bind_points(n as int, args, i + 1);
    assert(all == a + b + rest);
    let (x, y) = (
        ("pwl_t"@ + decimal(k as nat), args[2 * k]->0),
        ("pwl_v"@ + decimal(k as nat), args[2 * k + 1]->0),
    );
    if i == k {
        assert(all[0] == x);
        assert(all[1] == y);
    } else {
        points_come_in_pairs(h, args, n, i + 1, k);
        let j = choose|j: int| 0 <= j < rest.len() && rest[j] == x;
        let l = choose|l: int| 0 <= l < rest.len() && rest[l] == y;
        assert(all[a.len() + b.len() + j] == x);
        assert(all[a.len() + b.len() + l] == y);
    }
}

impl Reading {
    /// The arguments of a sine are its offset, its amplitude and its frequency, which
    /// is kept as an angular one; the tone is that frequency again.
    pub proof fn sines_keep_their_frequency(
        self,
        h: Answers,
        args: Seq<Option<u64>>,
        v: Map<Seq<char>, u64>,
        f: u64,
    )
        requires
            self.exact(h),
            args.len() == 3,
            args[0] is Some && args[1] is Some,
            args[2] == Some(f),
            (self.number)(f) && (self.number)(TWO_PI),
            (self.number)(apply2(h, Op2::Mul, TWO_PI, f)),
            v.contains_key("sin_w"@) && v["sin_w"@] == apply2(h, Op2::Mul, TWO_PI, f),
            SourceFn::Sin.tone(h, v) is Some ==> (self.number)(SourceFn::Sin.tone(h, v)->0),
        ensures
            SourceFn::Sin.bound(h, args).contains(("sin_off"@, args[0]->0)),
            SourceFn::Sin.bound(h, args).contains(("sin_amp"@, args[1]->0)),
            SourceFn::Sin.bound(h, args).contains(("sin_w"@, apply2(h, Op2::Mul, TWO_PI, f))),
            SourceFn::Sin.tone(h, v) is Some,
            (self.value)(SourceFn::Sin.tone(h, v)->0) == (self.value)(f),
    {
        let all = SourceFn::Sin.bound(h, args);
        assert(all[0] == ("sin_off"@, args[0]->0));
        assert(all[1] == ("sin_amp"@, args[1]->0));
        assert(all[2] == ("sin_w"@, apply2(h, Op2::Mul, TWO_PI, f)));
        let w = apply2(h, Op2::Mul, TWO_PI, f);
        assert(v.get("sin_w"@) == Some(w));
        assert(SourceFn::Sin.tone(h, v) == Some(apply2(h, Op2::Div, w, TWO_PI)));
        self.multiplies(h, TWO_PI, f);
        self.divides(h, w, TWO_PI);
        let (p, x, y) = ((self.value)(TWO_PI), (self.value)(f), (self.value)(apply2(h, Op2::Div, w, TWO_PI)));
        assert(y == x) by (nonlinear_arith)
            requires
                y * p == p * x,
                p != 0real,
        ;
    }

    /// The tone of a pulse has one period in the period of the pulse.
    pub proof fn pulses_ring_once_a_period(self, h: Answers, v: Map<Seq<char>, u64>, per: u64)
        requires
            self.exact(h),
            v.contains_key("pulse_per"@) && v["pulse_per"@] == per,
            (self.number)(per),
            SourceFn::Pulse.tone(h, v) is Some,
            (self.number)(SourceFn::Pulse.tone(h, v)->0),
        ensures
            (self.value)(SourceFn::Pulse.tone(h, v)->0) * (self.value)(per) == 1real,
            (self.value)(per) > 0real,
    {
        self.constants(h);
        assert(v.get("pulse_per"@) == Some(per));
        self.compared(h, per, ZERO);
        self.divides(h, ONE, per);
    }
}

} // verus!

//! What the settings of a deck do, where the host computes without rounding: scaled
//! geometry, the DC value of a source, pulse times, stage clocks and suffixes.
use crate::corners::Reading;
use crate::netlist::devices::{first_factor, keyed, rescaled, scaled, VaJob};
use crate::netlist::expr::{engineering, mantissa_end, resolved};
use crate::netlist::options::{constants, with_option, NetlistOptions};
use crate::netlist::source::dc_from;
use crate::netlist::values::numeral;
use crate::netlist::world::NamesView;
use crate::numerics::{apply2, parsed, Answers, Op2, ONE, ZERO};
use crate::reals::greater;
use crate::scripting::{clocked, StageView};
use crate::text::{halves, has_prefix, is_alpha, is_digit, is_space, lower, lower_char, trim};
use crate::waveform::{train_of, value_or_zero};
use vstd::prelude::*;

verus! {

impl Reading {
    /// A scaled parameter is its value times the factor, where it is bound; nothing
    /// else changes.
    pub proof fn scaling_multiplies_one_parameter(
        self,
        h: Answers,
        n: NamesView,
        name: Seq<char>,
        key: Seq<char>,
        f: u64,
        v: Map<Seq<char>, u64>,
        other: Seq<char>,
    )
        requires
            self.exact(h),
            n.find(key, 0) is Some,
            (self.number)(f),
        ensures
            ({
                let full = name + "."@ + n.params[n.find(key, 0)->0].0;
                let after = scaled(h, n, name, key, f, v);
                &&& v.contains_key(full) && (self.number)(v[full]) && (self.number)(after[full])
                    ==> after.contains_key(full) && (self.value)(after[full]) == (self.value)(v[full]) * (self.value)(f)
                &&& other != full || !v.contains_key(full) ==> (after.contains_key(other) <==> v.contains_key(other))
                    && after[other] == v[other]
            }),
    {
        let full = name + "."@ + n.params[n.find(key, 0)->0].0;
        if v.contains_key(full) && (self.number)(v[full]) && (self.number)(apply2(h, Op2::Mul, v[full], f)) {
            self.multiplies(h, v[full], f);
        }
    }

    /// A scale of one, or none, changes no geometry; another one scales the length and
    /// then the width.
    pub proof fn geometry_is_scaled_in_both_directions(
        self,
        h: Answers,
        n: NamesView,
        name: Seq<char>,
        f: u64,
        v: Map<Seq<char>, u64>,
    )
        requires
            self.exact(h),
            (self.number)(f),
        ensures
            rescaled(h, n, name, None, v) == v,
            (self.value)(f) == 1real ==> rescaled(h, n, name, Some(f), v) == v,
            (self.value)(f) != 1real ==> rescaled(h, n, name, Some(f), v) == scaled(
                h,
                n,
                name,
                "W"@,
                f,
                scaled(h, n, name, "L"@, f, v),
            ),
    {
        self.constants(h);
        self.compared(h, f, ONE);
    }

    /// The corner times of a pulse: the high level ends a width after the rise, and the
    /// fall ends a fall time later. Negative times count as none.
    pub proof fn pulse_times_follow_one_another(self, h: Answers, v: Map<Seq<char>, u64>)
        requires
            self.exact(h),
            (self.number)(value_or_zero(v, "pulse_tr"@)),
            (self.number)(value_or_zero(v, "pulse_tf"@)),
            (self.number)(value_or_zero(v, "pulse_pw"@)),
            (self.number)(train_of(h, v).high),
            (self.number)(train_of(h, v).low),
        ensures
            ({
                let p = train_of(h, v);
                let tr = greater((self.value)(value_or_zero(v, "pulse_tr"@)), 0real);
                let tf = greater((self.value)(value_or_zero(v, "pulse_tf"@)), 0real);
                let pw = greater((self.value)(value_or_zero(v, "pulse_pw"@)), 0real);
                &&& p.td == value_or_zero(v, "pulse_td"@)
                &&& (self.value)(p.tr) == tr
                &&& (self.value)(p.high) == tr + pw
                &&& (self.value)(p.low) == tr + pw + tf
            }),
    {
        self.constants(h);
        let (a, b, c) = (
            value_or_zero(v, "pulse_tr"@),
            value_or_zero(v, "pulse_tf"@),
            value_or_zero(v, "pulse_pw"@),
        );
        self.picks(h, a, ZERO);
        self.picks(h, b, ZERO);
        self.picks(h, c, ZERO);
        let (tr, tf, pw) = (
            apply2(h, Op2::Max, a, ZERO),
            apply2(h, Op2::Max, b, ZERO),
            apply2(h, Op2::Max, c, ZERO),
        );
        self.adds(h, tr, pw);
        self.adds(h, apply2(h, Op2::Add, tr, pw), tf);
    }

    /// The time of all stages together.
    pub open spec fn time_of_all(self, v: Seq<StageView>) -> real
        decreases v.len(),
    {
        if v.len() == 0 {
            0real
        } else {
            self.time_of_all(v.drop_last()) + (self.value)(v.last().total)
        }
    }

    proof fn time_changes_at(self, v: Seq<StageView>, i: int, s: StageView)
        requires
            0 <= i < v.len(),
        ensures
            self.time_of_all(v.update(i, s)) == self.time_of_all(v) - (self.value)(v[i].total) + (self.value)(s.total),
        decreases v.len(),
    {
        if i == v.len() - 1 {
            assert(v.update(i, s).drop_last() =~= v.drop_last());
        } else {
            assert(v.update(i, s).drop_last() =~= v.drop_last().update(i, s));
            self.time_changes_at(v.drop_last(), i, s);
        }
    }

    /// A run adds its time to the stages, whichever of them it belongs to.
    pub proof fn runs_add_their_time(
        self,
        h: Answers,
        v: Seq<StageView>,
        name: Seq<char>,
        ms: u64,
        i: int,
    )
        requires
            self.exact(h),
            0 <= i <= v.len(),
            (self.number)(ms),
            forall|j: int| 0 <= j < v.len() ==> (self.number)((#[trigger] v[j]).total),
            forall|j: int|
                0 <= j < v.len() ==> (self.number)(apply2(h, Op2::Add, (#[trigger] v[j]).total, ms)),
        ensures
            self.time_of_all(clocked(h, v, name, ms, i)) == self.time_of_all(v) + (self.value)(ms),
        decreases v.len() - i,
    {
        if i == v.len() {
            assert(v.push(StageView { name, total: ms, count: 1 }).drop_last() =~= v);
        } else if v[i].name == name {
            let s = StageView {
                name,
                total: apply2(h, Op2::Add, v[i].total, ms),
                count: (v[i].count + 1) as u32,
            };
            assert((self.number)(v[i].total));
            self.adds(h, v[i].total, ms);
            self.time_changes_at(v, i, s);
        } else {
            self.runs_add_their_time(h, v, name, ms, i + 1);
        }
    }
}

/// The first DC value that is found counts.
pub proof fn the_first_dc_value_counts(h: Answers, env: Map<Seq<char>, u64>, toks: Seq<Seq<char>>, i: int, d: u64)
    ensures
        dc_from(h, env, toks, i, Some(d)) == Some(d),
    decreases toks.len() - i,
{
    if 0 <= i < toks.len() {
        the_first_dc_value_counts(h, env, toks, i + 1, d);
        if i + 2 <= toks.len() {
            the_first_dc_value_counts(h, env, toks, i + 2, d);
        }
    }
}

/// The DC value of a source is the value behind `DC`; the magnitude behind `AC` is
/// passed over.
pub proof fn dc_values_stand_behind_their_keyword(h: Answers, env: Map<Seq<char>, u64>, toks: Seq<Seq<char>>, i: int)
    requires
        0 <= i,
        i + 1 < toks.len(),
    ensures
        lower(toks[i]) == "dc"@ && resolved(h, env, toks[i + 1]) is Some ==> dc_from(h, env, toks, i, None) == resolved(
            h,
            env,
            toks[i + 1],
        ),
        lower(toks[i]) == "ac"@ ==> dc_from(h, env, toks, i, None) == dc_from(h, env, toks, i + 2, None),
{
    reveal_strlit("dc");
    reveal_strlit("ac");
    reveal_strlit("dc=");
    assert("dc"@[0] == 'd' && "ac"@[0] == 'a');
    assert("ac"@.len() == 2 && "dc="@.len() == 3);
    if resolved(h, env, toks[i + 1]) is Some {
        the_first_dc_value_counts(h, env, toks, i + 2, resolved(h, env, toks[i + 1])->0);
    }
}

// ---------------------------------------------------------------------------
// Engineering suffixes.
// ---------------------------------------------------------------------------
/// The factor that a letter stands for, by its bits: a power of a thousand.
pub open spec fn factor_bits(c: char) -> u64 {
    if c == 't' {
        0x426d_1a94_a200_0000
    } else if c == 'g' {
        0x41cd_cd65_0000_0000
    } else if c == 'k' {
        0x408f_4000_0000_0000
    } else if c == 'm' {
        0x3f50_624d_d2f1_a9fc
    } else if c == 'u' {
        0x3eb0_c6f7_a0b5_ed8d
    } else if c == 'n' {
        0x3e11_2e0b_e826_d695
    } else if c == 'p' {
        0x3d71_9799_812d_ea11
    } else {
        0x3cd2_03af_9ee7_5616
    }
}

proof fn digits_end(s: Seq<char>, i: int, j: int)
    requires
        0 <= i <= j < s.len(),
        forall|k: int| 0 <= k < j ==> is_digit(#[trigger] s[k]),
        j > 0,
        is_alpha(s[j]) && s[j] != 'e' && s[j] != 'E',
    ensures
        mantissa_end(s, i, false) == j,
    decreases j - i,
{
    if i < j {
        assert(is_digit(s[i]));
        digits_end(s, i + 1, j);
    }
}

/// Digits with a suffix are the number of the digits times the factor of the suffix,
/// in whatever case it is written and whatever unit follows; `meg` is a million,
/// not a thousandth.
pub proof fn suffixes_are_powers_of_a_thousand(h: Answers, x: Seq<char>, c: char, unit: Seq<char>, v: u64)
    requires
        numeral(x),
        is_alpha(c),
        forall|k: int| 0 <= k < unit.len() ==> is_alpha(#[trigger] unit[k]),
        parsed(h, x + seq![c] + unit) is None,
        parsed(h, x) == Some(v),
        ({
            let l = lower_char(c);
            l == 't' || l == 'g' || l == 'k' || l == 'm' || l == 'u' || l == 'n' || l == 'p' || l == 'f'
        }),
    ensures
        ({
            let million = lower_char(c) == 'm' && unit.len() >= 2 && lower_char(unit[0]) == 'e' && lower_char(unit[1])
                == 'g';
            engineering(h, x + seq![c] + unit) == Some(
                apply2(
                    h,
                    Op2::Mul,
                    v,
                    if million {
                        0x412e_8480_0000_0000u64
                    } else {
                        factor_bits(lower_char(c))
                    },
                ),
            )
        }),
{
    let s = x + seq![c] + unit;
    let n = x.len() as int;
    assert(is_digit(x[0]));
    assert(s[0] == x[0] && s[n] == c);
    assert(!is_space(s[0]));
    assert(is_alpha(s.last())) by {
        if unit.len() > 0 {
            assert(s.last() == unit[unit.len() - 1]);
        }
    }
    assert(!is_space(s.last()));
    assert(trim(s) == s);
    assert forall|k: int| 0 <= k < n implies is_digit(#[trigger] s[k]) by {
        assert(s[k] == x[k]);
    }
    digits_end(s, 0, n);
    assert(s.take(n) =~= x);
    let rest = lower(s.skip(n));
    assert(rest.len() == 1 + unit.len());
    assert(rest[0] == lower_char(c));
    reveal_strlit("meg");
    let meg = "meg"@;
    assert(meg.len() == 3 && meg[0] == 'm' && meg[1] == 'e' && meg[2] == 'g');
    if unit.len() >= 2 {
        assert(s.skip(n)[1] == unit[0] && s.skip(n)[2] == unit[1]);
        assert(rest[1] == lower_char(unit[0]) && rest[2] == lower_char(unit[1]));
        if lower_char(c) == 'm' && lower_char(unit[0]) == 'e' && lower_char(unit[1]) == 'g' {
            assert(rest.take(3) =~= meg);
        }
    }
    if has_prefix(rest, meg) {
        assert(rest.take(3) =~= meg);
        assert(rest[0] == rest.take(3)[0] && rest[1] == rest.take(3)[1] && rest[2] == rest.take(3)[2]);
    }
}

// ---------------------------------------------------------------------------
// Options.
// ---------------------------------------------------------------------------
/// An option sets what it names, in whatever case, and nothing else; one that is not
/// known, or whose value cannot be resolved, sets nothing.
pub proof fn options_set_what_they_name(
    h: Answers,
    o: NetlistOptions,
    t: Seq<char>,
    k: Seq<char>,
    v: Seq<char>,
)
    requires
        halves(t, '=') == Some((k, v)),
    ensures
        ({
            let r = with_option(h, o, t);
            let x = resolved(h, constants(), v);
            &&& x is None ==> r == o
            &&& x is Some && lower(k) == "scale"@ ==> r.scale == x && r.gmin == o.gmin && r.temp_c == o.temp_c
            &&& x is Some && lower(k) == "gmin"@ ==> r.gmin == x && r.scale == o.scale && r.temp_c == o.temp_c
            &&& x is Some && (lower(k) == "temp"@ || lower(k) == "temper"@) ==> r.temp_c == x && r.scale == o.scale
                && r.gmin == o.gmin
            &&& r.scale != o.scale ==> lower(k) == "scale"@
            &&& r.gmin != o.gmin ==> lower(k) == "gmin"@
            &&& r.temp_c != o.temp_c ==> lower(k) == "temp"@ || lower(k) == "temper"@
        }),
{
    reveal_strlit("scale");
    reveal_strlit("gmin");
    reveal_strlit("temp");
    reveal_strlit("temper");
    assert("scale"@.len() == 5 && "gmin"@.len() == 4 && "temp"@.len() == 4 && "temper"@.len() == 6);
    assert("gmin"@[0] == 'g' && "temp"@[0] == 't');
}

impl Reading {
    /// A device is placed as many times as its line states, times its fingers where
    /// they count.
    pub proof fn devices_multiply_by_their_fingers(
        self,
        h: Answers,
        env: Map<Seq<char>, u64>,
        job: VaJob,
        m: u64,
        nf: u64,
    )
        requires
            self.exact(h),
            first_factor(h, env, job.names, job.toks, 0) == Some(m),
            keyed(h, env, job.toks, 0, "nf"@) == Some(nf),
            (self.number)(m) && (self.number)(nf),
            (self.number)(job.factor(h, env)),
        ensures
            job.fingers ==> (self.value)(job.factor(h, env)) == (self.value)(m) * (self.value)(nf),
            !job.fingers ==> job.factor(h, env) == m,
    {
        if job.fingers {
            self.multiplies(h, m, nf);
        }
    }
}

} // verus!

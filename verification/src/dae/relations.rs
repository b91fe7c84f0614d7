//! What the assembled rows say of the circuit: the relation of every element, on
//! values.
use crate::circuit::{value_symbol, BKind, BehavioralView, CouplingView, ElementView, Kind};
use crate::dae::assemble::{
    behavioral_terms, behavioral_terms_len, branch_row, branch_rows, control_voltage, controlling, coupled,
    current_through, device_terms, device_terms_len, element_terms, element_terms_len, forced_current,
    inductor_row, last_named, source_of, terminal_current, terminal_terms, terminal_terms_len, translated, value_of,
    volt, volt_rate, with_coupling, with_current, with_term, Assembly, LoweredDevice,
};
use crate::dae::meaning::{Env, Meaning};
use crate::dae::reading::Functions;
use crate::numerics::{compares, Answers, Rel, ONE};
use crate::symbolic::{ExprId, Fun1, Graph};
use crate::text::{decimal, lower};
use vstd::prelude::*;

verus! {

/// The name at `k` is the last one that is the key but for case.
pub open spec fn named_last(names: Seq<Seq<char>>, key: Seq<char>, k: int) -> bool {
    &&& 0 <= k < names.len()
    &&& lower(names[k]) == lower(key)
    &&& forall|j: int| k < j < names.len() ==> lower(#[trigger] names[j]) != lower(key)
}

pub(crate) proof fn last_named_is(names: Seq<Seq<char>>, key: Seq<char>, k: int, n: int)
    requires
        named_last(names, key, k),
        k < n <= names.len(),
    ensures
        last_named(names, key, n) == Some(names[k]),
    decreases n,
{
    if n - 1 > k {
        last_named_is(names, key, k, n - 1);
    }
}

impl<V> Meaning<V> {
    /// The voltage of a node: ground has none.
    pub open spec fn potential(self, g: Graph, k: usize, env: Env<V>) -> V {
        if k == 0 {
            self.field.zero
        } else {
            env(g.symbol("v"@ + decimal(k as nat)))
        }
    }

    /// The voltage from one node to another.
    pub open spec fn across(self, g: Graph, a: usize, b: usize, env: Env<V>) -> V {
        self.field.less(self.potential(g, a, env), self.potential(g, b, env))
    }

    /// How fast the voltage of a node changes.
    pub open spec fn drift(self, g: Graph, k: usize, env: Env<V>) -> V {
        if k == 0 {
            self.field.zero
        } else {
            env(g.symbol("vdot"@ + decimal(k as nat)))
        }
    }

    /// The value of an element.
    pub open spec fn worth(self, g: Graph, name: Seq<char>, env: Env<V>) -> V {
        env(g.symbol(value_symbol(name)))
    }

    pub(crate) proof fn volt_is(self, g: Graph, k: usize, env: Env<V>)
        requires
            self.sound(g),
            self.lives(volt(g, k)),
        ensures
            self.at(volt(g, k), env) == self.potential(g, k, env),
    {
        self.zero_is(g, env);
        if k != 0 {
            self.symbol_is(g, "v"@ + decimal(k as nat), env);
        }
    }

    pub(crate) proof fn difference_is(self, g: Graph, c: Functions<V>, a: usize, b: usize, env: Env<V>)
        requires
            self.sound(g),
            self.reads(g, c),
            self.lives(g.minus(volt(g, a), volt(g, b))),
        ensures
            self.at(g.minus(volt(g, a), volt(g, b)), env) == self.across(g, a, b, env),
    {
        self.minus_is(g, c, volt(g, a), volt(g, b), env);
        self.volt_is(g, a, env);
        self.volt_is(g, b, env);
    }

    /// The constraint row of a branch between `a` and `b` vanishes exactly where the
    /// relation of its element holds: the voltage from `a` to `b` is
    /// - for an inductor, its inductance times the rate of its current;
    /// - for a source, its value, or its waveform at the time;
    /// - for a voltage-controlled source, its gain times the controlling voltage;
    /// - for a current-controlled source, its transresistance times the current of
    ///   the branch that it names.
    pub proof fn branch_rows_are_the_relations_of_their_elements(
        self,
        g: Graph,
        c: Functions<V>,
        names: Seq<Seq<char>>,
        e: ElementView,
        env: Env<V>,
    )
        requires
            self.sound(g),
            self.reads(g, c),
            self.lives(branch_row(g, names, e)),
        ensures
            e.kind == Kind::Inductor ==> (self.at(branch_row(g, names, e), env) == self.field.zero <==> self.across(
                g,
                e.a,
                e.b,
                env,
            ) == (self.field.times)(self.worth(g, e.name, env), env(g.symbol("idot_"@ + e.name)))),
            e.kind == Kind::VoltageSource && e.source is None ==> (self.at(branch_row(g, names, e), env)
                == self.field.zero <==> self.across(g, e.a, e.b, env) == self.worth(g, e.name, env)),
            e.kind == Kind::VoltageSource && e.source is Some ==> (self.at(branch_row(g, names, e), env)
                == self.field.zero <==> self.across(g, e.a, e.b, env) == self.at(
                e.source->0.waveform(g, e.name, g.symbol_expr(g.symbol("t"@))),
                env,
            )),
            e.kind == Kind::Vcvs && e.ctrl is Some ==> (self.at(branch_row(g, names, e), env) == self.field.zero
                <==> self.across(g, e.a, e.b, env) == (self.field.times)(
                self.worth(g, e.name, env),
                self.across(g, (e.ctrl->0).0, (e.ctrl->0).1, env),
            )),
            forall|k: int|
                #![trigger names[k]]
                e.kind == Kind::Ccvs && e.ctrl_elem is Some && named_last(names, e.ctrl_elem->0, k) ==> (self.at(
                    branch_row(g, names, e),
                    env,
                ) == self.field.zero <==> self.across(g, e.a, e.b, env) == (self.field.times)(
                    self.worth(g, e.name, env),
                    env(g.symbol("i_"@ + names[k])),
                )),
    {
        let f = self.field;
        let dv = g.minus(volt(g, e.a), volt(g, e.b));
        let gap = self.across(g, e.a, e.b, env);
        let own = value_of(g, e.name);
        self.zero_is(g, env);
        match e.kind {
            Kind::VoltageSource => {
                self.minus_is(g, c, dv, source_of(g, e), env);
                if e.source is None {
                    self.symbol_is(g, value_symbol(e.name), env);
                }
                f.differs_by_nothing(gap, self.at(source_of(g, e), env));
            },
            Kind::Inductor => {
                let rate = g.sym("idot_"@ + e.name);
                self.minus_is(g, c, dv, g.times(own, rate), env);
                self.times_is(g, own, rate, env);
                self.symbol_is(g, value_symbol(e.name), env);
                self.symbol_is(g, "idot_"@ + e.name, env);
                f.differs_by_nothing(gap, self.at(g.times(own, rate), env));
            },
            Kind::Vcvs => {
                let u = control_voltage(g, e);
                self.minus_is(g, c, dv, g.times(own, u), env);
                self.times_is(g, own, u, env);
                self.symbol_is(g, value_symbol(e.name), env);
                if e.ctrl is Some {
                    self.difference_is(g, c, (e.ctrl->0).0, (e.ctrl->0).1, env);
                }
                f.differs_by_nothing(gap, self.at(g.times(own, u), env));
            },
            _ => {
                let u = controlling(g, names, e);
                self.minus_is(g, c, dv, g.times(own, u), env);
                self.times_is(g, own, u, env);
                self.symbol_is(g, value_symbol(e.name), env);
                self.controlling_is(g, names, e, env);
                f.differs_by_nothing(gap, self.at(g.times(own, u), env));
            },
        }
        self.difference_is(g, c, e.a, e.b, env);
    }

    /// A controlling current is that of the branch of that name.
    proof fn controlling_is(self, g: Graph, names: Seq<Seq<char>>, e: ElementView, env: Env<V>)
        requires
            self.sound(g),
            self.lives(controlling(g, names, e)),
        ensures
            forall|k: int|
                #![trigger names[k]]
                e.ctrl_elem is Some && named_last(names, e.ctrl_elem->0, k) ==> self.at(
                    controlling(g, names, e),
                    env,
                ) == env(g.symbol("i_"@ + names[k])),
    {
        assert forall|k: int|
            #![trigger names[k]]
            e.ctrl_elem is Some && named_last(names, e.ctrl_elem->0, k) implies self.at(
            controlling(g, names, e),
            env,
        ) == env(g.symbol("i_"@ + names[k])) by {
            last_named_is(names, e.ctrl_elem->0, k, names.len() as int);
            self.symbol_is(g, "i_"@ + names[k], env);
        }
    }

    /// The current that an element draws at `a` and delivers at `b`:
    /// - through a resistor it takes the voltage across it to drive it;
    /// - through a capacitor it is the capacitance times the rate of the voltage;
    /// - of a source it is its value, or its waveform at the time;
    /// - of a controlled source it is the gain times the controlling voltage or
    ///   current;
    /// - through a branch it is the unknown of that branch.
    pub proof fn currents_are_the_relations_of_their_elements(
        self,
        g: Graph,
        c: Functions<V>,
        names: Seq<Seq<char>>,
        e: ElementView,
        env: Env<V>,
    )
        requires
            self.sound(g),
            self.reads(g, c),
            self.lives(current_through(g, names, e)),
        ensures
            e.kind == Kind::Resistor && self.worth(g, e.name, env) != self.field.zero ==> (self.field.times)(
                self.at(current_through(g, names, e), env),
                self.worth(g, e.name, env),
            ) == self.across(g, e.a, e.b, env),
            e.kind == Kind::Capacitor ==> self.at(current_through(g, names, e), env) == (self.field.times)(
                self.worth(g, e.name, env),
                self.field.less(self.drift(g, e.a, env), self.drift(g, e.b, env)),
            ),
            e.kind == Kind::CurrentSource && e.source is None ==> self.at(current_through(g, names, e), env)
                == self.worth(g, e.name, env),
            e.kind == Kind::CurrentSource && e.source is Some ==> self.at(current_through(g, names, e), env) == self.at(
                e.source->0.waveform(g, e.name, g.symbol_expr(g.symbol("t"@))),
                env,
            ),
            e.kind == Kind::Vccs && e.ctrl is Some ==> self.at(current_through(g, names, e), env) == (
            self.field.times)(
                self.worth(g, e.name, env),
                self.across(g, (e.ctrl->0).0, (e.ctrl->0).1, env),
            ),
            forall|k: int|
                #![trigger names[k]]
                e.kind == Kind::Cccs && e.ctrl_elem is Some && named_last(names, e.ctrl_elem->0, k) ==> self.at(
                    current_through(g, names, e),
                    env,
                ) == (self.field.times)(self.worth(g, e.name, env), env(g.symbol("i_"@ + names[k]))),
            e.kind == Kind::VoltageSource || e.kind == Kind::Inductor || e.kind == Kind::Vcvs || e.kind == Kind::Ccvs
                ==> self.at(current_through(g, names, e), env) == env(g.symbol("i_"@ + e.name)),
    {
        let f = self.field;
        let own = value_of(g, e.name);
        self.zero_is(g, env);
        match e.kind {
            Kind::Resistor => {
                let dv = g.minus(volt(g, e.a), volt(g, e.b));
                self.times_is(g, dv, g.recip(own), env);
                self.recip_is(g, c, own, env);
                self.symbol_is(g, value_symbol(e.name), env);
                self.difference_is(g, c, e.a, e.b, env);
                if self.worth(g, e.name, env) != f.zero {
                    f.divided(self.across(g, e.a, e.b, env), self.worth(g, e.name, env));
                }
            },
            Kind::Capacitor => {
                let (x, y) = (volt_rate(g, e.a), volt_rate(g, e.b));
                self.times_is(g, own, g.minus(x, y), env);
                self.symbol_is(g, value_symbol(e.name), env);
                self.minus_is(g, c, x, y, env);
                if e.a != 0 {
                    self.symbol_is(g, "vdot"@ + decimal(e.a as nat), env);
                }
                if e.b != 0 {
                    self.symbol_is(g, "vdot"@ + decimal(e.b as nat), env);
                }
            },
            Kind::CurrentSource => {
                if e.source is None {
                    self.symbol_is(g, value_symbol(e.name), env);
                }
            },
            Kind::Vccs => {
                self.times_is(g, own, control_voltage(g, e), env);
                self.symbol_is(g, value_symbol(e.name), env);
                if e.ctrl is Some {
                    self.difference_is(g, c, (e.ctrl->0).0, (e.ctrl->0).1, env);
                }
            },
            Kind::Cccs => {
                self.times_is(g, own, controlling(g, names, e), env);
                self.symbol_is(g, value_symbol(e.name), env);
                self.controlling_is(g, names, e, env);
            },
            _ => {
                self.symbol_is(g, "i_"@ + e.name, env);
            },
        }
    }
}

// ---------------------------------------------------------------------------
// Couplings.
// ---------------------------------------------------------------------------
/// The branch at `x` is the last inductor of a name, but for case.
pub open spec fn coil(b: Seq<ElementView>, key: Seq<char>, x: int) -> bool {
    &&& 0 <= x < b.len()
    &&& b[x].kind == Kind::Inductor
    &&& lower(b[x].name) == lower(key)
    &&& forall|j: int|
        x < j < b.len() ==> !((#[trigger] b[j]).kind == Kind::Inductor && lower(b[j].name) == lower(key))
}

proof fn coil_is_found(b: Seq<ElementView>, key: Seq<char>, x: int, n: int)
    requires
        coil(b, key, x),
        x < n <= b.len(),
    ensures
        inductor_row(b, key, n) == Some(x),
    decreases n,
{
    if n - 1 > x {
        assert(!(b[n - 1].kind == Kind::Inductor && lower(b[n - 1].name) == lower(key)));
        coil_is_found(b, key, x, n - 1);
    }
}

/// Each coupling joins the two coils at the given places.
pub open spec fn wound(b: Seq<ElementView>, ks: Seq<CouplingView>, at: Seq<(int, int)>) -> bool {
    &&& at.len() == ks.len()
    &&& forall|i: int|
        0 <= i < ks.len() ==> coil(b, (#[trigger] ks[i]).l1, at[i].0) && coil(b, ks[i].l2, at[i].1)
}

impl<V> Meaning<V> {
    /// The mutual inductance of two coupled coils: the coupling factor times the
    /// root of the product of their inductances.
    pub open spec fn mutual(self, g: Graph, c: Functions<V>, k: CouplingView, env: Env<V>) -> V {
        (self.field.times)(
            self.worth(g, k.name, env),
            (c.fun)(Fun1::Sqrt, (self.field.times)(self.worth(g, k.l1, env), self.worth(g, k.l2, env))),
        )
    }

    /// The voltage that one coupling induces in the coil at `r`: the mutual
    /// inductance times the rate of the current of the other coil.
    pub open spec fn induced(
        self,
        g: Graph,
        c: Functions<V>,
        b: Seq<ElementView>,
        k: CouplingView,
        at: (int, int),
        r: int,
        env: Env<V>,
    ) -> V {
        let m = self.mutual(g, c, k, env);
        (self.field.plus)(
            if at.0 == r {
                (self.field.times)(m, env(g.symbol("idot_"@ + b[at.1].name)))
            } else {
                self.field.zero
            },
            if at.1 == r {
                (self.field.times)(m, env(g.symbol("idot_"@ + b[at.0].name)))
            } else {
                self.field.zero
            },
        )
    }

    /// The voltage that the couplings from `i` on induce in the coil at `r`.
    pub open spec fn induced_by_all(
        self,
        g: Graph,
        c: Functions<V>,
        b: Seq<ElementView>,
        ks: Seq<CouplingView>,
        at: Seq<(int, int)>,
        i: int,
        r: int,
        env: Env<V>,
    ) -> V
        decreases ks.len() - i,
    {
        if i < 0 || i >= ks.len() {
            self.field.zero
        } else {
            (self.field.plus)(
                self.induced(g, c, b, ks[i], at[i], r, env),
                self.induced_by_all(g, c, b, ks, at, i + 1, r, env),
            )
        }
    }

    /// One coupling takes from a row what it induces there.
    proof fn coupling_takes(
        self,
        g: Graph,
        c: Functions<V>,
        b: Seq<ElementView>,
        rows: Seq<ExprId>,
        k: CouplingView,
        at: (int, int),
        r: int,
        env: Env<V>,
    )
        requires
            self.sound(g),
            self.reads(g, c),
            coil(b, k.l1, at.0),
            coil(b, k.l2, at.1),
            rows.len() == b.len(),
            0 <= r < b.len(),
            self.lives(with_coupling(g, b, rows, k)[r]),
        ensures
            self.lives(rows[r]),
            (self.field.plus)(self.at(with_coupling(g, b, rows, k)[r], env), self.induced(g, c, b, k, at, r, env))
                == self.at(rows[r], env),
    {
        let f = self.field;
        let (x, y) = at;
        coil_is_found(b, k.l1, x, b.len() as int);
        coil_is_found(b, k.l2, y, b.len() as int);
        let prod = g.times(value_of(g, k.l1), value_of(g, k.l2));
        let root = g.fun1(Fun1::Sqrt, prod);
        let m = g.times(value_of(g, k.name), root);
        let (dx, dy) = (g.sym("idot_"@ + b[x].name), g.sym("idot_"@ + b[y].name));
        let first = rows.update(x, g.minus(rows[x], g.times(m, dy)));
        let new = with_coupling(g, b, rows, k);
        assert(new == first.update(y, g.minus(first[y], g.times(m, dx))));
        self.zero_is(g, env);
        let (px, py) = ((f.times)(self.mutual(g, c, k, env), env(g.symbol("idot_"@ + b[y].name))), (f.times)(
            self.mutual(g, c, k, env),
            env(g.symbol("idot_"@ + b[x].name)),
        ));
        if r == y {
            self.minus_is(g, c, first[y], g.times(m, dx), env);
            self.times_is(g, m, dx, env);
            self.symbol_is(g, "idot_"@ + b[x].name, env);
            self.mutual_is(g, c, k, env);
            f.completes(self.at(first[y], env), py);
        }
        if r == x {
            assert(self.lives(first[x]));
            self.minus_is(g, c, rows[x], g.times(m, dy), env);
            self.times_is(g, m, dy, env);
            self.symbol_is(g, "idot_"@ + b[y].name, env);
            self.mutual_is(g, c, k, env);
            f.completes(self.at(rows[x], env), px);
        }
        let n = self.at(new[r], env);
        f.sums(n, px, f.zero);
        f.sums(py, f.zero, f.zero);
        f.sums(px, f.zero, f.zero);
        f.sums(f.zero, f.zero, f.zero);
        f.sums(n, f.zero, f.zero);
        f.sums(n, py, px);
        f.sums(px, py, py);
    }

    proof fn mutual_is(self, g: Graph, c: Functions<V>, k: CouplingView, env: Env<V>)
        requires
            self.sound(g),
            self.reads(g, c),
            self.lives(
                g.times(
                    value_of(g, k.name),
                    g.fun1(Fun1::Sqrt, g.times(value_of(g, k.l1), value_of(g, k.l2))),
                ),
            ),
        ensures
            self.at(
                g.times(
                    value_of(g, k.name),
                    g.fun1(Fun1::Sqrt, g.times(value_of(g, k.l1), value_of(g, k.l2))),
                ),
                env,
            ) == self.mutual(g, c, k, env),
    {
        let prod = g.times(value_of(g, k.l1), value_of(g, k.l2));
        let root = g.fun1(Fun1::Sqrt, prod);
        self.times_is(g, value_of(g, k.name), root, env);
        self.fun_is(g, c, Fun1::Sqrt, prod, env);
        self.times_is(g, value_of(g, k.l1), value_of(g, k.l2), env);
        self.symbol_is(g, value_symbol(k.name), env);
        self.symbol_is(g, value_symbol(k.l1), env);
        self.symbol_is(g, value_symbol(k.l2), env);
    }

    proof fn couplings_take(
        self,
        g: Graph,
        c: Functions<V>,
        b: Seq<ElementView>,
        rows: Seq<ExprId>,
        ks: Seq<CouplingView>,
        at: Seq<(int, int)>,
        i: int,
        r: int,
        env: Env<V>,
    )
        requires
            self.sound(g),
            self.reads(g, c),
            wound(b, ks, at),
            rows.len() == b.len(),
            0 <= i <= ks.len(),
            0 <= r < b.len(),
            self.lives(coupled(g, b, ks, i, rows)[r]),
        ensures
            self.lives(rows[r]),
            (self.field.plus)(
                self.at(coupled(g, b, ks, i, rows)[r], env),
                self.induced_by_all(g, c, b, ks, at, i, r, env),
            ) == self.at(rows[r], env),
        decreases ks.len() - i,
    {
        let f = self.field;
        self.zero_is(g, env);
        if i == ks.len() {
            f.sums(self.at(rows[r], env), f.zero, f.zero);
        } else {
            let next = with_coupling(g, b, rows, ks[i]);
            coil_is_found(b, ks[i].l1, at[i].0, b.len() as int);
            coil_is_found(b, ks[i].l2, at[i].1, b.len() as int);
            assert(next.len() == rows.len());
            self.couplings_take(g, c, b, next, ks, at, i + 1, r, env);
            self.coupling_takes(g, c, b, rows, ks[i], at[i], r, env);
            let n = self.at(coupled(g, b, ks, i, rows)[r], env);
            let own = self.induced(g, c, b, ks[i], at[i], r, env);
            let rest = self.induced_by_all(g, c, b, ks, at, i + 1, r, env);
            f.sums(n, rest, own);
            f.sums(rest, own, own);
        }
    }

    /// The row of a coil vanishes exactly where the voltage across it is what its own
    /// current and those of the coils coupled with it induce: its inductance times
    /// the rate of its current, and for each coupling the mutual inductance times
    /// the rate of the other current. Both coils of a coupling have the same mutual
    /// inductance.
    pub proof fn coupled_rows_are_the_relations_of_their_coils(
        self,
        g: Graph,
        c: Functions<V>,
        names: Seq<Seq<char>>,
        b: Seq<ElementView>,
        ks: Seq<CouplingView>,
        at: Seq<(int, int)>,
        r: int,
        env: Env<V>,
    )
        requires
            self.sound(g),
            self.reads(g, c),
            wound(b, ks, at),
            0 <= r < b.len(),
            b[r].kind == Kind::Inductor,
            self.lives(coupled(g, b, ks, 0, branch_rows(g, names, b))[r]),
        ensures
            self.at(coupled(g, b, ks, 0, branch_rows(g, names, b))[r], env) == self.field.zero <==> self.across(
                g,
                b[r].a,
                b[r].b,
                env,
            ) == (self.field.plus)(
                (self.field.times)(self.worth(g, b[r].name, env), env(g.symbol("idot_"@ + b[r].name))),
                self.induced_by_all(g, c, b, ks, at, 0, r, env),
            ),
    {
        let f = self.field;
        let rows = branch_rows(g, names, b);
        let e = b[r];
        let row = branch_row(g, names, e);
        self.zero_is(g, env);
        self.couplings_take(g, c, b, rows, ks, at, 0, r, env);
        let dv = g.minus(volt(g, e.a), volt(g, e.b));
        let own = g.times(value_of(g, e.name), g.sym("idot_"@ + e.name));
        self.minus_is(g, c, dv, own, env);
        self.difference_is(g, c, e.a, e.b, env);
        self.times_is(g, value_of(g, e.name), g.sym("idot_"@ + e.name), env);
        self.symbol_is(g, value_symbol(e.name), env);
        self.symbol_is(g, "idot_"@ + e.name, env);
        let (gap, ind) = (self.across(g, e.a, e.b, env), self.induced_by_all(g, c, b, ks, at, 0, r, env));
        let n = self.at(coupled(g, b, ks, 0, rows)[r], env);
        let o = self.at(own, env);
        // n + ind == gap - own
        f.completes(gap, o);
        f.sums(n, ind, o);
        f.sums(ind, o, o);
        let all = (f.plus)(o, ind);
        assert((f.plus)(n, all) == gap);
        f.sums(n, all, all);
        f.sums(all, f.zero, f.zero);
        if gap == all {
            f.sums(n, all, (f.neg)(all));
            f.sums(all, (f.neg)(all), all);
            f.sums(n, f.zero, f.zero);
        }
    }
}

/// A row that is no coil's is left alone by the couplings.
pub proof fn couplings_leave_other_rows(
    g: Graph,
    b: Seq<ElementView>,
    ks: Seq<CouplingView>,
    at: Seq<(int, int)>,
    i: int,
    rows: Seq<ExprId>,
    r: int,
)
    requires
        wound(b, ks, at),
        rows.len() == b.len(),
        0 <= i <= ks.len(),
        0 <= r < b.len(),
        b[r].kind != Kind::Inductor,
    ensures
        coupled(g, b, ks, i, rows)[r] == rows[r],
    decreases ks.len() - i,
{
    if i < ks.len() {
        coil_is_found(b, ks[i].l1, at[i].0, b.len() as int);
        coil_is_found(b, ks[i].l2, at[i].1, b.len() as int);
        let next = with_coupling(g, b, rows, ks[i]);
        assert(next[r] == rows[r]);
        couplings_leave_other_rows(g, b, ks, at, i + 1, next, r);
    }
}

// ---------------------------------------------------------------------------
// Nodes.
// ---------------------------------------------------------------------------
impl<V> Meaning<V> {
    /// What a current from `a` to `b` takes out of a node.
    pub open spec fn taken(self, a: usize, b: usize, node: int, i: V) -> V {
        (self.field.plus)(
            if a == node {
                i
            } else {
                self.field.zero
            },
            if b == node {
                (self.field.neg)(i)
            } else {
                self.field.zero
            },
        )
    }

    /// What the elements from `i` on take out of a node.
    pub open spec fn taken_by_elements(
        self,
        g: Graph,
        names: Seq<Seq<char>>,
        els: Seq<ElementView>,
        i: int,
        node: int,
        env: Env<V>,
    ) -> V
        decreases els.len() - i,
    {
        if i < 0 || i >= els.len() {
            self.field.zero
        } else {
            (self.field.plus)(
                self.taken(els[i].a, els[i].b, node, self.at(current_through(g, names, els[i]), env)),
                self.taken_by_elements(g, names, els, i + 1, node, env),
            )
        }
    }

    /// What the terminals of a device from `k` on take out of a node: its current
    /// there, as many times as it is placed.
    pub open spec fn taken_by_terminals(self, d: LoweredDevice, k: int, node: int, env: Env<V>) -> V
        decreases d.terminals@.len() - k,
    {
        if k < 0 || k >= d.terminals@.len() {
            self.field.zero
        } else {
            (self.field.plus)(
                if d.terminals@[k] == node {
                    (self.field.times)(
                        (self.literal)(d.mfactor),
                        self.at(d.frag.terminal_currents@[k], env),
                    )
                } else {
                    self.field.zero
                },
                self.taken_by_terminals(d, k + 1, node, env),
            )
        }
    }

    /// What the devices from `i` on take out of a node.
    pub open spec fn taken_by_devices(self, devs: Seq<LoweredDevice>, i: int, node: int, env: Env<V>) -> V
        decreases devs.len() - i,
    {
        if i < 0 || i >= devs.len() {
            self.field.zero
        } else {
            (self.field.plus)(
                self.taken_by_terminals(devs[i], 0, node, env),
                self.taken_by_devices(devs, i + 1, node, env),
            )
        }
    }

    /// What the behavioral sources from `i` on take out of a node: a current source
    /// what its formula says, a voltage source its branch current.
    pub open spec fn taken_by_sources(
        self,
        h: Answers,
        g: Graph,
        names: Seq<Seq<char>>,
        b: Seq<BehavioralView>,
        i: int,
        node: int,
        env: Env<V>,
    ) -> V
        decreases b.len() - i,
    {
        if i < 0 || i >= b.len() {
            self.field.zero
        } else {
            (self.field.plus)(
                self.taken(
                    b[i].a,
                    b[i].b,
                    node,
                    match b[i].kind {
                        BKind::I => self.at(translated(h, g, names, b[i].expr), env),
                        BKind::V => env(g.symbol("i_"@ + b[i].name)),
                    },
                ),
                self.taken_by_sources(h, g, names, b, i + 1, node, env),
            )
        }
    }

    /// A term more at a node adds its value there.
    proof fn term_adds(self, g: Graph, terms: Seq<Seq<ExprId>>, node: usize, e: ExprId, k: int, env: Env<V>)
        requires
            self.sound(g),
            0 <= k < terms.len(),
            self.all_live(with_term(terms, node, e)[k]),
        ensures
            self.all_live(terms[k]),
            node == k + 1 ==> self.lives(e),
            self.total(with_term(terms, node, e)[k], env) == (self.field.plus)(
                self.total(terms[k], env),
                if node == k + 1 {
                    self.at(e, env)
                } else {
                    self.field.zero
                },
            ),
    {
        let new = with_term(terms, node, e)[k];
        self.zero_is(g, env);
        self.field.sums(self.total(terms[k], env), self.field.zero, self.field.zero);
        if node == k + 1 {
            assert(new == terms[k].push(e));
            assert(new.drop_last() =~= terms[k]);
            assert(new[new.len() - 1] == e);
            assert forall|j: int| 0 <= j < terms[k].len() implies self.lives(#[trigger] terms[k][j]) by {
                assert(new[j] == terms[k][j]);
            }
        }
    }

    /// A current more takes its value out of one node and puts it into the other.
    proof fn current_adds(
        self,
        g: Graph,
        terms: Seq<Seq<ExprId>>,
        a: usize,
        b: usize,
        e: ExprId,
        k: int,
        env: Env<V>,
    )
        requires
            self.sound(g),
            0 <= k < terms.len(),
            self.all_live(with_current(g, terms, a, b, e)[k]),
        ensures
            self.all_live(terms[k]),
            a == k + 1 || b == k + 1 ==> self.lives(e),
            self.total(with_current(g, terms, a, b, e)[k], env) == (self.field.plus)(
                self.total(terms[k], env),
                self.taken(a, b, k + 1, self.at(e, env)),
            ),
    {
        let f = self.field;
        let first = with_term(terms, a, e);
        self.term_adds(g, first, b, g.neg(e), k, env);
        self.term_adds(g, terms, a, e, k, env);
        self.zero_is(g, env);
        if b == k + 1 {
            self.neg_is(g, e, env);
        }
        let x = if a == k + 1 {
            self.at(e, env)
        } else {
            f.zero
        };
        let y = if b == k + 1 {
            (f.neg)(self.at(e, env))
        } else {
            f.zero
        };
        f.sums(self.total(terms[k], env), x, y);
    }

    proof fn elements_add(
        self,
        g: Graph,
        names: Seq<Seq<char>>,
        els: Seq<ElementView>,
        i: int,
        terms: Seq<Seq<ExprId>>,
        k: int,
        env: Env<V>,
    )
        requires
            self.sound(g),
            0 <= i <= els.len(),
            0 <= k < terms.len(),
            self.all_live(element_terms(g, names, els, i, terms)[k]),
        ensures
            self.all_live(terms[k]),
            self.total(element_terms(g, names, els, i, terms)[k], env) == (self.field.plus)(
                self.total(terms[k], env),
                self.taken_by_elements(g, names, els, i, k + 1, env),
            ),
        decreases els.len() - i,
    {
        let f = self.field;
        self.zero_is(g, env);
        let t = self.total(terms[k], env);
        if i == els.len() {
            f.sums(t, t, t);
        } else {
            let e = els[i];
            let cur = current_through(g, names, e);
            self.elements_add(g, names, els, i + 1, with_current(g, terms, e.a, e.b, cur), k, env);
            self.current_adds(g, terms, e.a, e.b, cur, k, env);
            f.sums(
                t,
                self.taken(e.a, e.b, k + 1, self.at(cur, env)),
                self.taken_by_elements(g, names, els, i + 1, k + 1, env),
            );
        }
    }

    /// The number of copies is read as it is written: where it is not told apart from
    /// one, it is one.
    pub open spec fn counts_copies(self, h: Answers, devs: Seq<LoweredDevice>) -> bool {
        forall|i: int|
            0 <= i < devs.len() && !compares(h, Rel::Ne, (#[trigger] devs[i]).mfactor, ONE) ==> (self.literal)(
                devs[i].mfactor,
            ) == self.field.one
    }

    proof fn terminals_add(
        self,
        h: Answers,
        g: Graph,
        d: LoweredDevice,
        j: int,
        terms: Seq<Seq<ExprId>>,
        k: int,
        env: Env<V>,
    )
        requires
            self.sound(g),
            0 <= j <= d.terminals@.len(),
            0 <= k < terms.len(),
            !compares(h, Rel::Ne, d.mfactor, ONE) ==> (self.literal)(d.mfactor) == self.field.one,
            self.all_live(terminal_terms(h, g, d, j, terms)[k]),
        ensures
            self.all_live(terms[k]),
            self.total(terminal_terms(h, g, d, j, terms)[k], env) == (self.field.plus)(
                self.total(terms[k], env),
                self.taken_by_terminals(d, j, k + 1, env),
            ),
        decreases d.terminals@.len() - j,
    {
        let f = self.field;
        self.zero_is(g, env);
        let t = self.total(terms[k], env);
        if j == d.terminals@.len() {
            f.sums(t, t, t);
        } else {
            let cur = terminal_current(h, g, d, j);
            let raw = d.frag.terminal_currents@[j];
            self.terminals_add(h, g, d, j + 1, with_term(terms, d.terminals@[j], cur), k, env);
            self.term_adds(g, terms, d.terminals@[j], cur, k, env);
            if d.terminals@[j] == k + 1 {
                if compares(h, Rel::Ne, d.mfactor, ONE) {
                    self.times_is(g, g.number(d.mfactor), raw, env);
                    self.number_is(g, d.mfactor, env);
                } else {
                    let x = self.at(raw, env);
                    f.products(x, f.one, x);
                    f.products(f.one, x, x);
                }
            }
            let own = if d.terminals@[j] == k + 1 {
                (f.times)((self.literal)(d.mfactor), self.at(raw, env))
            } else {
                f.zero
            };
            f.sums(t, own, self.taken_by_terminals(d, j + 1, k + 1, env));
        }
    }

    proof fn devices_add(
        self,
        h: Answers,
        g: Graph,
        devs: Seq<LoweredDevice>,
        i: int,
        terms: Seq<Seq<ExprId>>,
        k: int,
        env: Env<V>,
    )
        requires
            self.sound(g),
            self.counts_copies(h, devs),
            0 <= i <= devs.len(),
            0 <= k < terms.len(),
            self.all_live(device_terms(h, g, devs, i, terms)[k]),
        ensures
            self.all_live(terms[k]),
            self.total(device_terms(h, g, devs, i, terms)[k], env) == (self.field.plus)(
                self.total(terms[k], env),
                self.taken_by_devices(devs, i, k + 1, env),
            ),
        decreases devs.len() - i,
    {
        let f = self.field;
        self.zero_is(g, env);
        let t = self.total(terms[k], env);
        if i == devs.len() {
            f.sums(t, t, t);
        } else {
            let next = terminal_terms(h, g, devs[i], 0, terms);
            terminal_terms_len(h, g, devs[i], 0, terms);
            self.devices_add(h, g, devs, i + 1, next, k, env);
            self.terminals_add(h, g, devs[i], 0, terms, k, env);
            f.sums(
                t,
                self.taken_by_terminals(devs[i], 0, k + 1, env),
                self.taken_by_devices(devs, i + 1, k + 1, env),
            );
        }
    }

    proof fn sources_add(
        self,
        h: Answers,
        g: Graph,
        names: Seq<Seq<char>>,
        b: Seq<BehavioralView>,
        i: int,
        terms: Seq<Seq<ExprId>>,
        k: int,
        env: Env<V>,
    )
        requires
            self.sound(g),
            0 <= i <= b.len(),
            0 <= k < terms.len(),
            self.all_live(behavioral_terms(h, g, names, b, i, terms)[k]),
        ensures
            self.all_live(terms[k]),
            self.total(behavioral_terms(h, g, names, b, i, terms)[k], env) == (self.field.plus)(
                self.total(terms[k], env),
                self.taken_by_sources(h, g, names, b, i, k + 1, env),
            ),
        decreases b.len() - i,
    {
        let f = self.field;
        self.zero_is(g, env);
        let t = self.total(terms[k], env);
        if i == b.len() {
            f.sums(t, t, t);
        } else {
            let s = b[i];
            let cur = forced_current(h, g, names, s);
            self.sources_add(h, g, names, b, i + 1, with_current(g, terms, s.a, s.b, cur), k, env);
            self.current_adds(g, terms, s.a, s.b, cur, k, env);
            if s.kind == BKind::V && (s.a == k + 1 || s.b == k + 1) {
                self.symbol_is(g, "i_"@ + s.name, env);
            }
            let own = match s.kind {
                BKind::I => self.at(translated(h, g, names, s.expr), env),
                BKind::V => env(g.symbol("i_"@ + s.name)),
            };
            f.sums(
                t,
                self.taken(s.a, s.b, k + 1, own),
                self.taken_by_sources(h, g, names, b, i + 1, k + 1, env),
            );
        }
    }

    /// The row of a node is the sum of the currents that leave it: those of the
    /// elements, of the devices and of the behavioral sources. It vanishes exactly
    /// where as much flows in as flows out.
    pub proof fn node_rows_balance_the_currents(self, s: Assembly, k: int, env: Env<V>)
        requires
            self.sound(s.g),
            self.counts_copies(s.h, s.devs),
            0 <= k < s.node_rows().len(),
            self.lives(s.node_rows()[k]),
        ensures
            self.at(s.node_rows()[k], env) == (self.field.plus)(
                (self.field.plus)(
                    self.taken_by_elements(s.g, s.names(), s.c.elements, 0, k + 1, env),
                    self.taken_by_devices(s.devs, 0, k + 1, env),
                ),
                self.taken_by_sources(s.h, s.g, s.names(), s.c.behavioral, 0, k + 1, env),
            ),
    {
        let f = self.field;
        let none = s.no_terms();
        let a = element_terms(s.g, s.names(), s.c.elements, 0, none);
        let b = device_terms(s.h, s.g, s.devs, 0, a);
        let all = s.node_terms();
        element_terms_len(s.g, s.names(), s.c.elements, 0, none);
        device_terms_len(s.h, s.g, s.devs, 0, a);
        behavioral_terms_len(s.h, s.g, s.names(), s.c.behavioral, 0, b);
        assert(self.all_live(all[k]) && self.at(s.g.sum(all[k]), env) == self.total(all[k], env)) by {
            reveal(Meaning::sound);
        }
        self.sources_add(s.h, s.g, s.names(), s.c.behavioral, 0, b, k, env);
        self.devices_add(s.h, s.g, s.devs, 0, a, k, env);
        self.elements_add(s.g, s.names(), s.c.elements, 0, none, k, env);
        self.zero_is(s.g, env);
        assert(none[k].len() == 0);
        let t = self.taken_by_elements(s.g, s.names(), s.c.elements, 0, k + 1, env);
        f.sums(t, f.zero, f.zero);
        f.sums(f.zero, t, t);
    }
}

} // verus!

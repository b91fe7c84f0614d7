//! Linearisation: the small-signal *linear mass-matrix DAE* `G dx + C dx' = 0`
//! with `G = dF/dx`, `C = dF/dx'`.
//!
//! The residual rows are linear forms in the perturbation unknowns, whose
//! coefficients are the operating-point Jacobians. The bias unknowns inside
//! those coefficients are *frozen* to constant operating-point symbols
//! (`name#op`), so the system is genuinely linear in the perturbations.
use crate::dae::jacobian::holds_symbol;
use crate::dae::system::{
    copy_delays, copy_kinds, copy_slots, copy_symbols, of_row, Dae, DaeView, Stamp,
};
use crate::symbolic::{Algebra, Answer, ExprId, Graph, Query, SymbolId};
use crate::table::symbol_table_clone;
use crate::text::{concat2, copy_texts};
use vstd::prelude::*;

verus! {

/// How finely the linearised stamps are split.
#[derive(Clone, Copy, Debug, PartialEq, Eq, Structural)]
pub enum Granularity {
    /// One stamp per source-element contribution.
    PerElement,
    /// One stamp per canonical matrix entry: a single `coefficient * port` or
    /// `coefficient * port'` monomial.
    Canonical,
}

impl Default for Granularity {
    fn default() -> (r: Granularity)
        ensures
            r == Granularity::PerElement,
    {
        Granularity::PerElement
    }
}

/// The constant that an unknown is frozen to.
pub open spec fn frozen(g: Graph, s: SymbolId) -> (SymbolId, ExprId) {
    (s, g.sym(g.symbol_name(s) + "#op"@))
}

/// The derivative symbols that there are, from slot `i` on.
pub open spec fn rates_from(slots: Seq<Option<SymbolId>>, i: int) -> Seq<SymbolId>
    decreases slots.len() - i,
{
    if i < 0 || i >= slots.len() {
        seq![]
    } else {
        match slots[i] {
            Some(s) => seq![s] + rates_from(slots, i + 1),
            None => rates_from(slots, i + 1),
        }
    }
}

pub fn list_rates(slots: &Vec<Option<SymbolId>>) -> (r: Vec<SymbolId>)
    ensures
        r@ == rates_from(slots@, 0),
{
    let mut out: Vec<SymbolId> = Vec::new();
    assert(out@ + rates_from(slots@, 0) =~= rates_from(slots@, 0));
    for i in 0..slots.len()
        invariant
            out@ + rates_from(slots@, i as int) == rates_from(slots@, 0),
    {
        if let Some(s) = slots[i] {
            let ghost before = out@;
            out.push(s);
            proof {
                let rest = rates_from(slots@, i + 1);
                assert(before.push(s) + rest =~= before + (seq![s] + rest));
            }
        }
    }
    assert(out@ + seq![] =~= out@);
    out
}

/// Every unknown and derivative with the constant it is frozen to.
pub open spec fn freeze_map(g: Graph, d: DaeView) -> Seq<(SymbolId, ExprId)> {
    (d.x + rates_from(d.xdot, 0)).map_values(|s: SymbolId| frozen(g, s))
}

/// The operating-point freeze map: every unknown symbol and its derivative
/// symbol is mapped to a constant symbol named `"{name}#op"`.
pub fn freeze_op_point<G: Fn(Query) -> Answer>(al: &Algebra<G>, dae: &Dae) -> (r: Vec<(SymbolId, ExprId)>)
    ensures
        r@ == freeze_map(al.graph(), dae@),
{
    let ghost g = al.graph();
    let mut all: Vec<SymbolId> = copy_symbols(&dae.x);
    let mut rates = list_rates(&dae.xdot);
    all.append(&mut rates);
    let ghost goal = freeze_map(g, dae@);
    assert(all@ =~= dae@.x + rates_from(dae@.xdot, 0));
    let mut out: Vec<(SymbolId, ExprId)> = Vec::new();
    for i in 0..all.len()
        invariant
            g == al.graph(),
            all@ == dae@.x + rates_from(dae@.xdot, 0),
            goal == freeze_map(g, dae@),
            out@ =~= goal.take(i as int),
    {
        let s = all[i];
        let e = al.sym(&concat2(&al.symbol_name(s), "#op"));
        out.push((s, e));
    }
    assert(goal.take(goal.len() as int) =~= goal);
    out
}

/// One monomial of the first-order expansion: the frozen slope times the port.
pub open spec fn monomial(g: Graph, freeze: Seq<(SymbolId, ExprId)>, e: ExprId, s: SymbolId) -> ExprId {
    g.times(g.substitute(g.derive(e, s), freeze), g.symbol_expr(s))
}

/// The nonzero monomials in the ports from `j` on.
pub open spec fn monomials(g: Graph, freeze: Seq<(SymbolId, ExprId)>, e: ExprId, ports: Seq<SymbolId>, j: int) -> Seq<
    ExprId,
>
    decreases ports.len() - j,
{
    if j < 0 || j >= ports.len() {
        seq![]
    } else {
        let rest = monomials(g, freeze, e, ports, j + 1);
        if g.free(e).contains(ports[j]) && !g.is_zero(monomial(g, freeze, e, ports[j])) {
            seq![monomial(g, freeze, e, ports[j])] + rest
        } else {
            rest
        }
    }
}

/// The linear form of an expression: its monomials in the unknowns, then in the
/// derivatives. The constant term, zero at the operating point, is dropped.
pub open spec fn linear_form(g: Graph, d: DaeView, e: ExprId) -> Seq<ExprId> {
    let freeze = freeze_map(g, d);
    monomials(g, freeze, e, d.x, 0) + monomials(g, freeze, e, rates_from(d.xdot, 0), 0)
}

fn add_monomials<G: Fn(Query) -> Answer>(
    al: &Algebra<G>,
    freeze: &Vec<(SymbolId, ExprId)>,
    e: ExprId,
    ports: &Vec<SymbolId>,
    out: &mut Vec<ExprId>,
)
    ensures
        final(out)@ == old(out)@ + monomials(al.graph(), freeze@, e, ports@, 0),
{
    let ghost g = al.graph();
    let ghost start = out@;
    let free = al.free_symbols(e);
    for j in 0..ports.len()
        invariant
            g == al.graph(),
            free@ == g.free(e),
            out@ + monomials(g, freeze@, e, ports@, j as int) == start + monomials(g, freeze@, e, ports@, 0),
    {
        if holds_symbol(&free, ports[j]) {
            let d = al.substitute(al.derive(e, ports[j]), freeze);
            let m = al.times(d, al.symbol_expr(ports[j]));
            if !al.is_zero(m) {
                let ghost before = out@;
                out.push(m);
                proof {
                    let rest = monomials(g, freeze@, e, ports@, j + 1);
                    assert(before.push(m) + rest =~= before + (seq![m] + rest));
                }
            }
        }
    }
    assert(out@ + seq![] =~= out@);
}

/// A sum built up term by term.
pub open spec fn running_sum(g: Graph, from: ExprId, v: Seq<ExprId>) -> ExprId
    decreases v.len(),
{
    if v.len() == 0 {
        from
    } else {
        g.plus(running_sum(g, from, v.drop_last()), v.last())
    }
}

/// What one source stamp becomes.
pub open spec fn linear_parts(g: Graph, d: DaeView, e: ExprId, gran: Granularity) -> Seq<ExprId> {
    match gran {
        Granularity::PerElement => seq![running_sum(g, g.zero(), linear_form(g, d, e))],
        Granularity::Canonical => linear_form(g, d, e),
    }
}

/// The stamps of the first `i` source stamps.
pub open spec fn linear_stamps(g: Graph, d: DaeView, gran: Granularity, i: int) -> Seq<Stamp>
    decreases i,
{
    if i <= 0 {
        seq![]
    } else {
        let s = d.stamps[i - 1];
        linear_stamps(g, d, gran, i - 1) + crate::dae::system::row_stamps(
            s.row,
            linear_parts(g, d, s.expr, gran),
        )
    }
}

/// The linearised system: each row is the running sum of its stamps; the
/// registries of the nonlinear system stay behind with it.
pub open spec fn linearized(g: Graph, d: DaeView, gran: Granularity) -> DaeView {
    let stamps = linear_stamps(g, d, gran, d.stamps.len() as int);
    DaeView {
        residuals: Seq::new(
            d.residuals.len(),
            |i: int| running_sum(g, g.zero(), of_row(stamps, i as usize)),
        ),
        stamps,
        events: seq![],
        companion: seq![],
        noise_sources: seq![],
        op_vars: seq![],
        dc_seeds: seq![],
        limits: seq![],
        sources: seq![],
        source_names: seq![],
        ..d
    }
}

proof fn of_row_push(stamps: Seq<Stamp>, s: Stamp, row: usize)
    ensures
        of_row(stamps.push(s), row) == (if s.row == row {
            of_row(stamps, row).push(s.expr)
        } else {
            of_row(stamps, row)
        }),
{
    assert(stamps.push(s).drop_last() =~= stamps);
}

fn add_stamp<G: Fn(Query) -> Answer>(
    al: &Algebra<G>,
    row: usize,
    e: ExprId,
    residuals: &mut Vec<ExprId>,
    stamps: &mut Vec<Stamp>,
)
    requires
        row < old(residuals)@.len(),
        old(residuals)@.len() <= usize::MAX,
        forall|i: int|
            0 <= i < old(residuals)@.len() ==> #[trigger] old(residuals)@[i] == running_sum(
                al.graph(),
                al.graph().zero(),
                of_row(old(stamps)@, i as usize),
            ),
    ensures
        final(residuals)@.len() == old(residuals)@.len(),
        final(stamps)@ == old(stamps)@.push(Stamp { row, expr: e }),
        forall|i: int|
            0 <= i < final(residuals)@.len() ==> #[trigger] final(residuals)@[i] == running_sum(
                al.graph(),
                al.graph().zero(),
                of_row(final(stamps)@, i as usize),
            ),
{
    let ghost g = al.graph();
    let ghost rows = residuals@;
    let ghost before = stamps@;
    let sum = al.plus(residuals[row], e);
    residuals.set(row, sum);
    stamps.push(Stamp::new(row, e));
    proof {
        assert forall|i: int| 0 <= i < residuals@.len() implies #[trigger] residuals@[i] == running_sum(
            g,
            g.zero(),
            of_row(stamps@, i as usize),
        ) by {
            of_row_push(before, Stamp { row, expr: e }, i as usize);
            assert(rows[i] == running_sum(g, g.zero(), of_row(before, i as usize)));
            if i == row {
                let v = of_row(before, row);
                assert(v.push(e).drop_last() =~= v);
            }
        }
    }
}

/// Linearise the system about its operating point, with one stamp per element.
pub fn linearize<G: Fn(Query) -> Answer>(al: &Algebra<G>, dae: &Dae) -> (r: Dae)
    requires
        dae@.wf(),
    ensures
        r@ == linearized(al.graph(), dae@, Granularity::PerElement),
        r@.wf(),
{
    linearize_with(al, dae, Granularity::PerElement)
}

/// Linearise the system about its operating point. The returned system keeps the
/// same unknowns, derivative symbols and time symbol; its residuals are linear
/// forms. Either granularity has each row as the sum of its stamps.
pub fn linearize_with<G: Fn(Query) -> Answer>(al: &Algebra<G>, dae: &Dae, gran: Granularity) -> (r: Dae)
    requires
        dae@.wf(),
    ensures
        r@ == linearized(al.graph(), dae@, gran),
        r@.wf(),
{
    let ghost g = al.graph();
    let ghost d = dae@;
    let freeze = freeze_op_point(al, dae);
    let rates = list_rates(&dae.xdot);
    let zero = al.zero();
    let n: usize = dae.residuals.len();
    let mut residuals: Vec<ExprId> = Vec::new();
    let mut stamps: Vec<Stamp> = Vec::new();
    for i in 0..n
        invariant
            residuals@ =~= Seq::new(i as nat, |k: int| zero),
    {
        residuals.push(zero);
    }
    assert(stamps@ =~= seq![]);
    assert forall|i: int| 0 <= i < residuals@.len() implies #[trigger] residuals@[i] == running_sum(
        g,
        g.zero(),
        of_row(stamps@, i as usize),
    ) by {
        assert(of_row(stamps@, i as usize).len() == 0);
    }
    for i in 0..dae.stamps.len()
        invariant
            d == dae@,
            d.wf(),
            g == al.graph(),
            zero == g.zero(),
            freeze@ == freeze_map(g, d),
            rates@ == rates_from(d.xdot, 0),
            n == d.residuals.len(),
            residuals@.len() == n,
            stamps@ == linear_stamps(g, d, gran, i as int),
            forall|k: int|
                0 <= k < residuals@.len() ==> #[trigger] residuals@[k] == running_sum(
                    g,
                    g.zero(),
                    of_row(stamps@, k as usize),
                ),
    {
        let st = dae.stamps[i];
        assert(d.stamps[i as int].row < d.x.len());
        let mut terms: Vec<ExprId> = Vec::new();
        add_monomials(al, &freeze, st.expr, &dae.x, &mut terms);
        add_monomials(al, &freeze, st.expr, &rates, &mut terms);
        assert(terms@ =~= linear_form(g, d, st.expr));
        let ghost before = stamps@;
        let ghost parts = linear_parts(g, d, st.expr, gran);
        let ghost made = crate::dae::system::row_stamps(st.row, parts);
        match gran {
            Granularity::PerElement => {
                let mut acc = zero;
                for k in 0..terms.len()
                    invariant
                        g == al.graph(),
                        acc == running_sum(g, g.zero(), terms@.take(k as int)),
                {
                    assert(terms@.take(k + 1).drop_last() =~= terms@.take(k as int));
                    acc = al.plus(acc, terms[k]);
                }
                assert(terms@.take(terms@.len() as int) =~= terms@);
                add_stamp(al, st.row, acc, &mut residuals, &mut stamps);
                assert(stamps@ =~= before + made);
            },
            Granularity::Canonical => {
                for k in 0..terms.len()
                    invariant
                        g == al.graph(),
                        n == residuals@.len(),
                        st.row < n,
                        parts == terms@,
                        made == crate::dae::system::row_stamps(st.row, parts),
                        stamps@ =~= before + made.take(k as int),
                        forall|k: int|
                            0 <= k < residuals@.len() ==> #[trigger] residuals@[k] == running_sum(
                                g,
                                g.zero(),
                                of_row(stamps@, k as usize),
                            ),
                {
                    add_stamp(al, st.row, terms[k], &mut residuals, &mut stamps);
                }
                assert(made.take(made.len() as int) =~= made);
            },
        }
    }
    let r = Dae {
        residuals,
        unknowns: copy_texts(&dae.unknowns),
        kinds: copy_kinds(&dae.kinds),
        x: copy_symbols(&dae.x),
        xdot: copy_slots(&dae.xdot),
        t: dae.t,
        n_nodes: dae.n_nodes,
        param_defaults: symbol_table_clone(&dae.param_defaults),
        events: Vec::new(),
        delays: copy_delays(&dae.delays),
        stamps,
        companion: Vec::new(),
        noise_sources: Vec::new(),
        op_vars: Vec::new(),
        dc_seeds: Vec::new(),
        limits: Vec::new(),
        sources: Vec::new(),
        source_names: Vec::new(),
    };
    proof {
        let l = linearized(g, d, gran);
        linear_stamps_have_rows(g, d, gran, d.stamps.len() as int);
        assert(r@.residuals =~= l.residuals);
        assert(r@.events =~= l.events);
        assert(r@.companion =~= l.companion);
        assert(r@.noise_sources =~= l.noise_sources);
        assert(r@.op_vars =~= l.op_vars);
        assert(r@.dc_seeds =~= l.dc_seeds);
        assert(r@.limits =~= l.limits);
        assert(r@.sources =~= l.sources);
        assert(r@.source_names =~= l.source_names);
    }
    r
}

proof fn linear_stamps_have_rows(g: Graph, d: DaeView, gran: Granularity, i: int)
    requires
        d.wf(),
        0 <= i <= d.stamps.len(),
    ensures
        forall|k: int|
            0 <= k < linear_stamps(g, d, gran, i).len() ==> (#[trigger] linear_stamps(g, d, gran, i)[k]).row
                < d.x.len(),
    decreases i,
{
    if i > 0 {
        linear_stamps_have_rows(g, d, gran, i - 1);
        let before = linear_stamps(g, d, gran, i - 1);
        let s = d.stamps[i - 1];
        assert forall|k: int| 0 <= k < linear_stamps(g, d, gran, i).len() implies (
        #[trigger] linear_stamps(g, d, gran, i)[k]).row < d.x.len() by {
            if k < before.len() {
                assert(linear_stamps(g, d, gran, i)[k] == before[k]);
            } else {
                assert(linear_stamps(g, d, gran, i)[k].row == s.row);
            }
        }
    }
}

/// Linearisation keeps the dimension and the unknowns, and every row is the sum
/// of its stamps.
pub proof fn linear_rows_are_their_stamps(g: Graph, d: DaeView, gran: Granularity, row: usize)
    requires
        d.wf(),
        row < d.residuals.len(),
    ensures
        linearized(g, d, gran).residuals.len() == d.residuals.len(),
        linearized(g, d, gran).x == d.x,
        linearized(g, d, gran).residuals[row as int] == running_sum(
            g,
            g.zero(),
            of_row(linearized(g, d, gran).stamps, row),
        ),
{
}

/// With canonical granularity every stamp is one monomial: a frozen coefficient
/// times one port.
pub proof fn canonical_stamps_are_monomials(g: Graph, d: DaeView, i: int)
    requires
        d.wf(),
        0 <= i < linearized(g, d, Granularity::Canonical).stamps.len(),
    ensures
        exists|e: ExprId, s: SymbolId|
            linearized(g, d, Granularity::Canonical).stamps[i].expr == #[trigger] monomial(
                g,
                freeze_map(g, d),
                e,
                s,
            ) && (d.x.contains(s) || d.xdot.contains(Some(s))),
{
    canonical_from(g, d, d.stamps.len() as int, i);
}

pub(crate) proof fn canonical_from(g: Graph, d: DaeView, n: int, i: int)
    requires
        0 <= n <= d.stamps.len(),
        0 <= i < linear_stamps(g, d, Granularity::Canonical, n).len(),
    ensures
        exists|e: ExprId, s: SymbolId|
            linear_stamps(g, d, Granularity::Canonical, n)[i].expr == #[trigger] monomial(
                g,
                freeze_map(g, d),
                e,
                s,
            ) && !g.is_zero(linear_stamps(g, d, Granularity::Canonical, n)[i].expr) && (d.x.contains(s)
                || d.xdot.contains(Some(s))),
    decreases n,
{
    let before = linear_stamps(g, d, Granularity::Canonical, n - 1);
    let e = d.stamps[n - 1].expr;
    if i < before.len() {
        canonical_from(g, d, n - 1, i);
    } else {
        let freeze = freeze_map(g, d);
        let rates = rates_from(d.xdot, 0);
        let k = i - before.len();
        let a = monomials(g, freeze, e, d.x, 0);
        if k < a.len() {
            monomial_at(g, freeze, e, d.x, 0, k);
        } else {
            monomial_at(g, freeze, e, rates, 0, k - a.len());
            let s = choose|s: SymbolId|
                monomials(g, freeze, e, rates, 0)[k - a.len()] == #[trigger] monomial(g, freeze, e, s)
                    && !g.is_zero(monomial(g, freeze, e, s)) && rates.contains(s);
            rate_has_slot(d.xdot, 0, s);
        }
    }
}

proof fn monomial_at(g: Graph, freeze: Seq<(SymbolId, ExprId)>, e: ExprId, ports: Seq<SymbolId>, j: int, k: int)
    requires
        0 <= j,
        0 <= k < monomials(g, freeze, e, ports, j).len(),
    ensures
        exists|s: SymbolId|
            monomials(g, freeze, e, ports, j)[k] == #[trigger] monomial(g, freeze, e, s) && !g.is_zero(
                monomial(g, freeze, e, s),
            ) && ports.contains(s),
    decreases ports.len() - j,
{
    let rest = monomials(g, freeze, e, ports, j + 1);
    if g.free(e).contains(ports[j]) && !g.is_zero(monomial(g, freeze, e, ports[j])) {
        if k == 0 {
            assert(monomials(g, freeze, e, ports, j)[0] == monomial(g, freeze, e, ports[j]));
        } else {
            monomial_at(g, freeze, e, ports, j + 1, k - 1);
            assert(monomials(g, freeze, e, ports, j)[k] == rest[k - 1]);
        }
    } else {
        monomial_at(g, freeze, e, ports, j + 1, k);
    }
}

proof fn rate_has_slot(slots: Seq<Option<SymbolId>>, i: int, s: SymbolId)
    requires
        0 <= i,
        rates_from(slots, i).contains(s),
    ensures
        slots.contains(Some(s)),
    decreases slots.len() - i,
{
    if i < slots.len() {
        let k = choose|k: int| 0 <= k < rates_from(slots, i).len() && rates_from(slots, i)[k] == s;
        let rest = rates_from(slots, i + 1);
        if slots[i] is Some {
            if k == 0 {
                assert(slots[i] == Some(s));
            } else {
                assert(rest[k - 1] == s);
                rate_has_slot(slots, i + 1, s);
            }
        } else {
            rate_has_slot(slots, i + 1, s);
        }
    }
}

} // verus!

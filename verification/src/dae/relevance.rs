//! What the weights of branches mean, where the host computes without rounding:
//! which branches are opened, and which nodes are merged.
use crate::corners::Reading;
use crate::dae::eliminate::touches;
use crate::dae::reduce::{
    admittance, admittance_scale, alike, current_scale, dropped, load, negligible, partner, place_of, ranked, relevance, share,
    total, Branch, Link, Point, Weight, TINY,
};
use crate::numerics::{apply1, apply2, Answers, Op1, Op2, ZERO};
use crate::reals::magnitude;
use crate::symbolic::{ExprId, SymbolId};
use vstd::prelude::*;

verus! {

// ---------------------------------------------------------------------------
// Admittances.
// ---------------------------------------------------------------------------
impl Reading {
    /// The admittance of a weight is computed without rounding.
    pub open spec fn gauges(self, h: Answers, w: Weight, om: u64) -> bool {
        let oc = apply2(h, Op2::Mul, om, w.c);
        let (gg, cc) = (apply2(h, Op2::Mul, w.g, w.g), apply2(h, Op2::Mul, oc, oc));
        &&& (self.number)(om) && (self.number)(w.g) && (self.number)(w.c) && (self.number)(oc)
        &&& (self.number)(gg) && (self.number)(cc) && (self.number)(apply2(h, Op2::Add, gg, cc))
        &&& (self.number)(apply1(h, Op1::Sqrt, apply2(h, Op2::Add, gg, cc)))
    }

    /// The admittance of a weight is the non-negative number whose square is the sum
    /// of the squares of its conductance and of its susceptance, the frequency times
    /// the capacitance.
    pub proof fn admittance_is_the_length_of_its_parts(self, h: Answers, w: Weight, om: u64)
        requires
            self.exact(h),
            self.gauges(h, w, om),
        ensures
            ({
                let y = (self.value)(admittance(h, w, om));
                let (g, b) = ((self.value)(w.g), (self.value)(om) * (self.value)(w.c));
                &&& (self.number)(admittance(h, w, om))
                &&& y >= 0real
                &&& y * y == g * g + b * b
            }),
    {
        let oc = apply2(h, Op2::Mul, om, w.c);
        let (gg, cc) = (apply2(h, Op2::Mul, w.g, w.g), apply2(h, Op2::Mul, oc, oc));
        self.multiplies(h, om, w.c);
        self.multiplies(h, w.g, w.g);
        self.multiplies(h, oc, oc);
        self.adds(h, gg, cc);
        self.roots(h, apply2(h, Op2::Add, gg, cc));
    }

    /// Weights of the same conductance and capacitance have the same admittance; a
    /// larger conductance or susceptance makes it no smaller.
    pub proof fn admittance_grows_with_its_parts(self, h: Answers, a: Weight, b: Weight, om: u64)
        requires
            self.exact(h),
            self.gauges(h, a, om),
            self.gauges(h, b, om),
            magnitude((self.value)(a.g)) <= magnitude((self.value)(b.g)),
            magnitude((self.value)(om) * (self.value)(a.c)) <= magnitude((self.value)(om) * (self.value)(b.c)),
        ensures
            (self.value)(admittance(h, a, om)) <= (self.value)(admittance(h, b, om)),
    {
        self.admittance_is_the_length_of_its_parts(h, a, om);
        self.admittance_is_the_length_of_its_parts(h, b, om);
        let (x, y) = ((self.value)(admittance(h, a, om)), (self.value)(admittance(h, b, om)));
        let (p, q) = ((self.value)(a.g), (self.value)(b.g));
        let (s, t) = ((self.value)(om) * (self.value)(a.c), (self.value)(om) * (self.value)(b.c));
        squares_follow(p, q);
        squares_follow(s, t);
        if x > y {
            assert(x * x > y * y) by (nonlinear_arith)
                requires
                    x > y >= 0real,
            ;
        }
    }
}

proof fn squares_follow(p: real, q: real)
    requires
        magnitude(p) <= magnitude(q),
    ensures
        p * p <= q * q,
{
    let (a, b) = (magnitude(p), magnitude(q));
    assert(a * a <= b * b) by (nonlinear_arith)
        requires
            0real <= a <= b,
    ;
    assert((0real - p) * (0real - p) == p * p) by (nonlinear_arith);
    assert((0real - q) * (0real - q) == q * q) by (nonlinear_arith);
}

// ---------------------------------------------------------------------------
// Scales.
// ---------------------------------------------------------------------------
impl Reading {
    /// The currents of a row's branches are numbers.
    pub open spec fn currents_known(self, br: Seq<Branch>, row: int) -> bool {
        forall|k: int| 0 <= k < br.len() && (#[trigger] br[k]).row == row ==> (self.number)(br[k].weight.i)
    }

    /// The admittances of a row's branches are computed without rounding.
    pub open spec fn admittances_known(self, h: Answers, br: Seq<Branch>, row: int, om: u64) -> bool {
        forall|k: int| 0 <= k < br.len() && (#[trigger] br[k]).row == row ==> self.gauges(h, br[k].weight, om)
    }

    /// The current scale of a row is the largest current of its branches: none of
    /// them is larger, and it is the current of one of them, or zero.
    pub proof fn current_scale_is_the_largest(self, h: Answers, br: Seq<Branch>, row: int, n: int)
        requires
            self.exact(h),
            self.currents_known(br, row),
            0 <= n <= br.len(),
        ensures
            ({
                let s = (self.value)(current_scale(h, br, row, n));
                &&& (self.number)(current_scale(h, br, row, n))
                &&& s >= 0real
                &&& forall|k: int|
                    0 <= k < n && (#[trigger] br[k]).row == row ==> (self.value)(br[k].weight.i) <= s
                &&& s == 0real || exists|k: int|
                    0 <= k < n && (#[trigger] br[k]).row == row && (self.value)(br[k].weight.i) == s
            }),
        decreases n,
    {
        self.constants(h);
        if n > 0 {
            self.current_scale_is_the_largest(h, br, row, n - 1);
            if br[n - 1].row == row {
                self.picks(h, current_scale(h, br, row, n - 1), br[n - 1].weight.i);
            }
            let (s, before) = (
                (self.value)(current_scale(h, br, row, n)),
                (self.value)(current_scale(h, br, row, n - 1)),
            );
            if s != 0real {
                if s == before {
                    let k = choose|k: int|
                        0 <= k < n - 1 && (#[trigger] br[k]).row == row && (self.value)(br[k].weight.i) == before;
                    assert(br[k].row == row && (self.value)(br[k].weight.i) == s);
                } else {
                    assert(br[n - 1].row == row && (self.value)(br[n - 1].weight.i) == s);
                }
            }
        }
    }

    /// The admittance scale of a row is the largest admittance of its branches.
    pub proof fn admittance_scale_is_the_largest(self, h: Answers, br: Seq<Branch>, row: int, om: u64, n: int)
        requires
            self.exact(h),
            self.admittances_known(h, br, row, om),
            0 <= n <= br.len(),
        ensures
            ({
                let s = (self.value)(admittance_scale(h, br, row, om, n));
                &&& (self.number)(admittance_scale(h, br, row, om, n))
                &&& s >= 0real
                &&& forall|k: int|
                    0 <= k < n && (#[trigger] br[k]).row == row ==> (self.value)(admittance(h, br[k].weight, om)) <= s
                &&& s == 0real || exists|k: int|
                    0 <= k < n && (#[trigger] br[k]).row == row && (self.value)(admittance(h, br[k].weight, om)) == s
            }),
        decreases n,
    {
        self.constants(h);
        if n > 0 {
            self.admittance_scale_is_the_largest(h, br, row, om, n - 1);
            if br[n - 1].row == row {
                self.admittance_is_the_length_of_its_parts(h, br[n - 1].weight, om);
                self.picks(h, admittance_scale(h, br, row, om, n - 1), admittance(h, br[n - 1].weight, om));
            }
            let (s, before) = (
                (self.value)(admittance_scale(h, br, row, om, n)),
                (self.value)(admittance_scale(h, br, row, om, n - 1)),
            );
            if s != 0real {
                if s == before {
                    let k = choose|k: int|
                        0 <= k < n - 1 && (#[trigger] br[k]).row == row && (self.value)(
                            admittance(h, br[k].weight, om),
                        ) == before;
                    assert(br[k].row == row && (self.value)(admittance(h, br[k].weight, om)) == s);
                } else {
                    assert(br[n - 1].row == row && (self.value)(admittance(h, br[n - 1].weight, om)) == s);
                }
            }
        }
    }

    /// A scale that is not below the tiny one: it counts as it is.
    pub open spec fn stands(self, h: Answers, scale: u64) -> bool {
        &&& (self.number)(scale)
        &&& (self.value)(scale) > 0real
        &&& apply2(h, Op2::Max, scale, TINY) == scale
    }

    /// A share times its scale is the part.
    pub proof fn share_is_a_quotient(self, h: Answers, part: u64, scale: u64)
        requires
            self.exact(h),
            self.stands(h, scale),
            (self.number)(part) && (self.number)(share(h, part, scale)),
        ensures
            (self.value)(share(h, part, scale)) * (self.value)(scale) == (self.value)(part),
    {
        self.divides(h, part, scale);
    }

    /// What is no smaller than its scale has a share of at least one.
    proof fn full_share(self, h: Answers, part: u64, scale: u64)
        requires
            self.exact(h),
            self.stands(h, scale),
            (self.number)(part) && (self.number)(share(h, part, scale)),
            (self.value)(part) >= (self.value)(scale),
        ensures
            (self.value)(share(h, part, scale)) >= 1real,
    {
        self.share_is_a_quotient(h, part, scale);
        let (s, m, p) = ((self.value)(share(h, part, scale)), (self.value)(scale), (self.value)(part));
        assert(s >= 1real) by (nonlinear_arith)
            requires
                s * m == p,
                p >= m > 0real,
        ;
    }
}

// ---------------------------------------------------------------------------
// Relevance.
// ---------------------------------------------------------------------------
impl Point {
    /// The share of a branch in the current of a row.
    pub open spec fn current_share(self, br: Seq<Branch>, b: Branch, row: usize) -> u64 {
        share(self.h, b.weight.i, current_scale(self.h, br, row as int, br.len() as int))
    }

    /// The share of a branch in the admittance of a row at the `w`-th frequency.
    pub open spec fn admittance_share(self, br: Seq<Branch>, b: Branch, row: usize, w: int) -> u64 {
        let om = self.omegas[w];
        share(
            self.h,
            admittance(self.h, b.weight, om),
            admittance_scale(self.h, br, row as int, om, br.len() as int),
        )
    }

    /// A row that a branch couples.
    pub open spec fn couples(self, br: Seq<Branch>, b: Branch, row: usize) -> bool {
        row == b.row || partner(self.g, br, b) == Some(row)
    }

    /// All shares of a branch are numbers.
    pub open spec fn shares_known(self, r: Reading, br: Seq<Branch>, b: Branch) -> bool {
        &&& forall|row: usize| self.couples(br, b, row) ==> (r.number)(#[trigger] self.current_share(br, b, row))
        &&& forall|row: usize, w: int|
            self.couples(br, b, row) && 0 <= w < self.omegas.len() ==> (r.number)(
                #[trigger] self.admittance_share(br, b, row, w),
            )
    }

    /// The relevance of a branch is its largest share: of the current or of the
    /// admittance at any of the frequencies, at either row that it couples. A number
    /// is above the relevance exactly where it is above all the shares.
    pub proof fn relevance_is_the_largest_share(self, r: Reading, br: Seq<Branch>, b: Branch, n: int, bound: real)
        requires
            r.exact(self.h),
            self.shares_known(r, br, b),
            0 <= n <= self.omegas.len(),
        ensures
            (r.number)(relevance(self, br, b, n)),
            (r.value)(relevance(self, br, b, n)) < bound <==> {
                &&& forall|row: usize|
                    self.couples(br, b, row) ==> (r.value)(#[trigger] self.current_share(br, b, row)) < bound
                &&& forall|row: usize, w: int|
                    self.couples(br, b, row) && 0 <= w < n ==> (r.value)(
                        #[trigger] self.admittance_share(br, b, row, w),
                    ) < bound
            },
        decreases n,
    {
        let h = self.h;
        let other = partner(self.g, br, b);
        if n <= 0 {
            let own = self.current_share(br, b, b.row);
            assert(self.couples(br, b, b.row));
            assert((r.number)(own));
            if other is Some {
                let j = other->0;
                assert(self.couples(br, b, j));
                assert((r.number)(self.current_share(br, b, j)));
                r.picks(h, own, self.current_share(br, b, j));
            }
        } else {
            self.relevance_is_the_largest_share(r, br, b, n - 1, bound);
            let own = self.admittance_share(br, b, b.row, n - 1);
            assert(self.couples(br, b, b.row));
            assert((r.number)(own));
            let top = match other {
                Some(j) => apply2(h, Op2::Max, own, self.admittance_share(br, b, j, n - 1)),
                None => own,
            };
            if other is Some {
                let j = other->0;
                assert(self.couples(br, b, j));
                assert((r.number)(self.admittance_share(br, b, j, n - 1)));
                r.picks(h, own, self.admittance_share(br, b, j, n - 1));
            }
            r.picks(h, relevance(self, br, b, n - 1), top);
            if (r.value)(relevance(self, br, b, n)) < bound {
                assert forall|row: usize, w: int| self.couples(br, b, row) && 0 <= w < n implies (r.value)(
                    #[trigger] self.admittance_share(br, b, row, w),
                ) < bound by {
                    if w < n - 1 {
                        assert((r.value)(relevance(self, br, b, n - 1)) < bound);
                    }
                }
            }
        }
    }

    /// A branch is opened exactly where each of its shares is below the tolerance and
    /// it touches no branch current.
    pub proof fn opened_branches_matter_nowhere(self, r: Reading, br: Seq<Branch>, b: Branch)
        requires
            r.exact(self.h),
            self.shares_known(r, br, b),
            (r.number)(self.rel_tol),
        ensures
            negligible(self, br, b) <==> {
                &&& forall|row: usize|
                    self.couples(br, b, row) ==> (r.value)(#[trigger] self.current_share(br, b, row)) < (r.value)(
                        self.rel_tol,
                    )
                &&& forall|row: usize, w: int|
                    self.couples(br, b, row) && 0 <= w < self.omegas.len() ==> (r.value)(
                        #[trigger] self.admittance_share(br, b, row, w),
                    ) < (r.value)(self.rel_tol)
                &&& !touches(self.g, b.term, self.d.x.skip(self.d.n_nodes as int))
            },
    {
        let n = self.omegas.len() as int;
        self.relevance_is_the_largest_share(r, br, b, n, (r.value)(self.rel_tol));
        r.compared(self.h, relevance(self, br, b, n), self.rel_tol);
    }

    /// A branch that has the largest admittance of a row that it couples, at some
    /// frequency, has a relevance of at least one, and is never opened for a
    /// tolerance below one. Only where all is tiny may it be.
    pub proof fn the_largest_admittance_is_never_opened(
        self,
        r: Reading,
        br: Seq<Branch>,
        b: Branch,
        row: usize,
        w: int,
    )
        requires
            r.exact(self.h),
            self.shares_known(r, br, b),
            self.couples(br, b, row),
            0 <= w < self.omegas.len(),
            r.stands(
                self.h,
                admittance_scale(self.h, br, row as int, self.omegas[w], br.len() as int),
            ),
            r.gauges(self.h, b.weight, self.omegas[w]),
            r.admittances_known(self.h, br, row as int, self.omegas[w]),
            forall|k: int|
                0 <= k < br.len() && (#[trigger] br[k]).row == row ==> (r.value)(
                    admittance(self.h, br[k].weight, self.omegas[w]),
                ) <= (r.value)(admittance(self.h, b.weight, self.omegas[w])),
        ensures
            (r.value)(relevance(self, br, b, self.omegas.len() as int)) >= 1real,
            (r.number)(self.rel_tol) && (r.value)(self.rel_tol) <= 1real ==> !negligible(self, br, b),
    {
        let om = self.omegas[w];
        let n = self.omegas.len() as int;
        let part = admittance(self.h, b.weight, om);
        r.constants(self.h);
        let scale = admittance_scale(self.h, br, row as int, om, br.len() as int);
        r.admittance_is_the_length_of_its_parts(self.h, b.weight, om);
        r.admittance_scale_is_the_largest(self.h, br, row as int, om, br.len() as int);
        assert((r.number)(self.admittance_share(br, b, row, w)));
        r.full_share(self.h, part, scale);
        self.relevance_is_the_largest_share(r, br, b, n, 1real);
        assert((r.value)(self.admittance_share(br, b, row, w)) >= 1real);
        if (r.number)(self.rel_tol) {
            r.compared(self.h, relevance(self, br, b, n), self.rel_tol);
        }
    }

    /// A branch that carries the largest current of a row that it couples is never
    /// opened for a tolerance below one. Only where all is tiny may it be.
    pub proof fn the_largest_current_is_never_opened(self, r: Reading, br: Seq<Branch>, b: Branch, row: usize)
        requires
            r.exact(self.h),
            self.shares_known(r, br, b),
            self.couples(br, b, row),
            r.stands(self.h, current_scale(self.h, br, row as int, br.len() as int)),
            (r.number)(b.weight.i),
            r.currents_known(br, row as int),
            forall|k: int|
                0 <= k < br.len() && (#[trigger] br[k]).row == row ==> (r.value)(br[k].weight.i) <= (r.value)(
                    b.weight.i,
                ),
        ensures
            (r.value)(relevance(self, br, b, self.omegas.len() as int)) >= 1real,
            (r.number)(self.rel_tol) && (r.value)(self.rel_tol) <= 1real ==> !negligible(self, br, b),
    {
        let n = self.omegas.len() as int;
        r.current_scale_is_the_largest(self.h, br, row as int, br.len() as int);
        assert((r.number)(self.current_share(br, b, row)));
        r.full_share(self.h, b.weight.i, current_scale(self.h, br, row as int, br.len() as int));
        self.relevance_is_the_largest_share(r, br, b, n, 1real);
        assert((r.value)(self.current_share(br, b, row)) >= 1real);
        if (r.number)(self.rel_tol) {
            r.compared(self.h, relevance(self, br, b, n), self.rel_tol);
        }
    }
}

/// Only negligible branches leave a row: what is dropped is such a branch, or its
/// negation at the other row.
pub proof fn only_negligible_branches_are_dropped(p: Point, br: Seq<Branch>, n: int, row: usize, e: ExprId)
    requires
        0 <= n <= br.len(),
        dropped(p, br, n).contains((row, e)),
    ensures
        exists|k: int|
            0 <= k < n && negligible(p, br, #[trigger] br[k]) && ((row == br[k].row && e == br[k].term) || (partner(
                p.g,
                br,
                br[k],
            ) == Some(row) && e == p.g.neg(br[k].term))),
    decreases n,
{
    let all = dropped(p, br, n);
    let i = choose|i: int| 0 <= i < all.len() && all[i] == (row, e);
    if n > 0 {
        let before = dropped(p, br, n - 1);
        let b = br[n - 1];
        if i < before.len() {
            assert(before[i] == (row, e));
            only_negligible_branches_are_dropped(p, br, n - 1, row, e);
            let k = choose|k: int|
                0 <= k < n - 1 && negligible(p, br, #[trigger] br[k]) && ((row == br[k].row && e == br[k].term) || (
                partner(p.g, br, br[k]) == Some(row) && e == p.g.neg(br[k].term)));
            assert(negligible(p, br, br[k]));
        } else {
            assert(negligible(p, br, b));
            assert((row == b.row && e == b.term) || (partner(p.g, br, b) == Some(row) && e == p.g.neg(b.term)));
            assert(br[n - 1] == b);
        }
    }
}

// ---------------------------------------------------------------------------
// Weights.
// ---------------------------------------------------------------------------
impl Reading {
    /// The sum of the magnitudes of the first `k` slopes of one sort.
    pub open spec fn lengths(self, vals: Seq<u64>, parts: Seq<(SymbolId, bool)>, sort: bool, k: int) -> real
        decreases k,
    {
        if k <= 0 {
            0real
        } else {
            self.lengths(vals, parts, sort, k - 1) + (if parts[k - 1].1 == sort {
                magnitude((self.value)(vals[k]))
            } else {
                0real
            })
        }
    }

    /// The conductance of a branch is the sum of the magnitudes of its slopes in the
    /// voltages, its capacitance that of its slopes in their rates. Neither is
    /// negative.
    pub proof fn slopes_add_up_by_magnitude(
        self,
        h: Answers,
        vals: Seq<u64>,
        parts: Seq<(SymbolId, bool)>,
        sort: bool,
        k: int,
    )
        requires
            self.exact(h),
            0 <= k <= parts.len(),
            vals.len() == parts.len() + 1,
            forall|i: int| 0 <= i < vals.len() ==> (self.number)(#[trigger] vals[i]),
            forall|i: int| 0 <= i <= k ==> (self.number)(#[trigger] total(h, vals, parts, sort, i)),
        ensures
            (self.value)(total(h, vals, parts, sort, k)) == self.lengths(vals, parts, sort, k),
            self.lengths(vals, parts, sort, k) >= 0real,
        decreases k,
    {
        self.constants(h);
        if k > 0 {
            self.slopes_add_up_by_magnitude(h, vals, parts, sort, k - 1);
            assert((self.number)(total(h, vals, parts, sort, k)));
            assert((self.number)(total(h, vals, parts, sort, k - 1)));
            assert((self.number)(vals[k]));
            self.turns(h, vals[k]);
            if parts[k - 1].1 == sort {
                self.adds(h, total(h, vals, parts, sort, k - 1), apply1(h, Op1::Abs, vals[k]));
            }
        }
    }
}

// ---------------------------------------------------------------------------
// Loads.
// ---------------------------------------------------------------------------
impl Reading {
    /// The summed admittance of a node's branches from `k` on.
    pub open spec fn all_admittances(self, h: Answers, br: Seq<Branch>, node: int, om: u64, k: int) -> real
        decreases br.len() - k,
    {
        if k < 0 || k >= br.len() {
            0real
        } else {
            self.all_admittances(h, br, node, om, k + 1) + (if br[k].row == node {
                (self.value)(admittance(h, br[k].weight, om))
            } else {
                0real
            })
        }
    }

    /// The sums that make up a load are numbers.
    pub open spec fn loads(
        self,
        h: Answers,
        br: Seq<Branch>,
        node: int,
        own: Weight,
        om: u64,
        k: int,
        removed: bool,
        sum: u64,
    ) -> bool
        decreases br.len() - k,
    {
        &&& (self.number)(sum)
        &&& 0 <= k < br.len() ==> if br[k].row != node {
            self.loads(h, br, node, own, om, k + 1, removed, sum)
        } else if !removed && alike(h, br[k].weight, own) {
            self.loads(h, br, node, own, om, k + 1, true, sum)
        } else {
            self.loads(
                h,
                br,
                node,
                own,
                om,
                k + 1,
                removed,
                apply2(h, Op2::Add, sum, admittance(h, br[k].weight, om)),
            )
        }
    }

    /// A branch of the node from `k` on weighs the same.
    pub open spec fn has_alike(self, br: Seq<Branch>, node: int, own: Weight, k: int) -> bool {
        exists|j: int|
            k <= j < br.len() && (#[trigger] br[j]).row == node && (self.value)(br[j].weight.g) == (self.value)(own.g)
                && (self.value)(br[j].weight.c) == (self.value)(own.c)
    }

    /// The load of a node is all admittance there but the link's own: together with
    /// that one it is the sum over all the branches of the node.
    pub proof fn load_is_all_but_the_link(
        self,
        h: Answers,
        br: Seq<Branch>,
        node: int,
        own: Weight,
        om: u64,
        k: int,
        removed: bool,
        sum: u64,
    )
        requires
            self.exact(h),
            0 <= k <= br.len(),
            self.admittances_known(h, br, node, om),
            self.gauges(h, own, om),
            self.loads(h, br, node, own, om, k, removed, sum),
        ensures
            (self.value)(load(h, br, node, own, om, k, removed, sum)) + (if !removed && self.has_alike(
                br,
                node,
                own,
                k,
            ) {
                (self.value)(admittance(h, own, om))
            } else {
                0real
            }) == (self.value)(sum) + self.all_admittances(h, br, node, om, k),
        decreases br.len() - k,
    {
        if k < br.len() {
            let w = br[k].weight;
            let next = apply2(h, Op2::Add, sum, admittance(h, w, om));
            if br[k].row != node {
                self.load_is_all_but_the_link(h, br, node, own, om, k + 1, removed, sum);
                if self.has_alike(br, node, own, k) {
                    let j = choose|j: int|
                        k <= j < br.len() && (#[trigger] br[j]).row == node && (self.value)(br[j].weight.g) == (
                        self.value)(own.g) && (self.value)(br[j].weight.c) == (self.value)(own.c);
                    assert(k + 1 <= j && br[j].row == node);
                }
            } else {
                self.admittance_is_the_length_of_its_parts(h, w, om);
                self.compared(h, w.g, own.g);
                self.compared(h, w.c, own.c);
                if !removed && alike(h, w, own) {
                    self.load_is_all_but_the_link(h, br, node, own, om, k + 1, true, sum);
                    assert(br[k].row == node);
                    self.admittance_grows_with_its_parts(h, w, own, om);
                    self.admittance_grows_with_its_parts(h, own, w, om);
                } else {
                    assert((self.number)(next)) by {
                        assert(self.loads(h, br, node, own, om, k + 1, removed, next));
                    }
                    self.adds(h, sum, admittance(h, w, om));
                    self.load_is_all_but_the_link(h, br, node, own, om, k + 1, removed, next);
                    if !removed && self.has_alike(br, node, own, k) {
                        let j = choose|j: int|
                            k <= j < br.len() && (#[trigger] br[j]).row == node && (self.value)(br[j].weight.g) == (
                            self.value)(own.g) && (self.value)(br[j].weight.c) == (self.value)(own.c);
                        assert(k + 1 <= j && br[j].row == node);
                    }
                }
            }
        }
    }
}

impl Point {
    /// The loads of a link's two nodes are known at the `w`-th frequency.
    pub open spec fn link_known(self, r: Reading, br: Seq<Branch>, l: Link, w: int) -> bool {
        let om = self.omegas[w];
        &&& r.gauges(self.h, l.weight, om)
        &&& (r.number)(apply2(self.h, Op2::Mul, admittance(self.h, l.weight, om), self.rel_tol))
        &&& (r.number)(load(self.h, br, l.a as int, l.weight, om, 0, false, ZERO))
        &&& (r.number)(load(self.h, br, l.b as int, l.weight, om, 0, false, ZERO))
    }

    /// A link outweighs its nodes at one frequency: its admittance times the tolerance
    /// is above the load of either.
    pub open spec fn outweighs(self, r: Reading, br: Seq<Branch>, l: Link, w: int) -> bool {
        let om = self.omegas[w];
        let s = (r.value)(admittance(self.h, l.weight, om)) * (r.value)(self.rel_tol);
        &&& s > (r.value)(load(self.h, br, l.a as int, l.weight, om, 0, false, ZERO))
        &&& s > (r.value)(load(self.h, br, l.b as int, l.weight, om, 0, false, ZERO))
    }

    /// A link makes its nodes one exactly where it outweighs both at every frequency.
    pub proof fn links_swamp_at_every_frequency(self, r: Reading, br: Seq<Branch>, l: Link, n: int)
        requires
            r.exact(self.h),
            (r.number)(self.rel_tol),
            0 <= n <= self.omegas.len(),
            forall|w: int| 0 <= w < n ==> #[trigger] self.link_known(r, br, l, w),
        ensures
            self.swamps(br, l, n) <==> forall|w: int| 0 <= w < n ==> #[trigger] self.outweighs(r, br, l, w),
        decreases n,
    {
        if n > 0 {
            self.links_swamp_at_every_frequency(r, br, l, n - 1);
            let om = self.omegas[n - 1];
            let y = admittance(self.h, l.weight, om);
            assert(self.link_known(r, br, l, n - 1));
            r.admittance_is_the_length_of_its_parts(self.h, l.weight, om);
            r.multiplies(self.h, y, self.rel_tol);
            let s = apply2(self.h, Op2::Mul, y, self.rel_tol);
            r.compared(self.h, s, load(self.h, br, l.a as int, l.weight, om, 0, false, ZERO));
            r.compared(self.h, s, load(self.h, br, l.b as int, l.weight, om, 0, false, ZERO));
            if self.swamps(br, l, n) {
                assert forall|w: int| 0 <= w < n implies #[trigger] self.outweighs(r, br, l, w) by {
                    if w == n - 1 {
                    }
                }
            } else if forall|w: int| 0 <= w < n ==> #[trigger] self.outweighs(r, br, l, w) {
                assert(self.outweighs(r, br, l, n - 1));
            }
        }
    }
}

// ---------------------------------------------------------------------------
// Ranking.
// ---------------------------------------------------------------------------
impl Reading {
    /// From the least relevant to the most.
    pub open spec fn in_rank(self, v: Seq<(Seq<char>, u64)>) -> bool {
        forall|i: int, j: int|
            0 <= i <= j < v.len() ==> (self.value)((#[trigger] v[i]).1) <= (self.value)((#[trigger] v[j]).1)
    }

    pub open spec fn all_numbers(self, v: Seq<(Seq<char>, u64)>) -> bool {
        forall|i: int| 0 <= i < v.len() ==> (self.number)((#[trigger] v[i]).1)
    }

    /// What stands behind the place is larger, what stands before it is not.
    proof fn place_parts(self, h: Answers, v: Seq<(Seq<char>, u64)>, val: u64, i: int)
        requires
            self.exact(h),
            self.all_numbers(v),
            (self.number)(val),
            0 <= i <= v.len(),
        ensures
            ({
                let p = place_of(h, v, val, i);
                &&& 0 <= p <= i
                &&& p > 0 ==> (self.value)(v[p - 1].1) <= (self.value)(val)
                &&& forall|j: int| p <= j < i ==> (self.value)(val) < (self.value)((#[trigger] v[j]).1)
            }),
        decreases i,
    {
        if i > 0 {
            assert((self.number)(v[i - 1].1));
            self.compared(h, val, v[i - 1].1);
            if (self.value)(val) < (self.value)(v[i - 1].1) {
                self.place_parts(h, v, val, i - 1);
            }
        }
    }

    /// The opened elements are listed from the least relevant to the most, and none is
    /// lost or added.
    pub proof fn ranking_sorts(self, h: Answers, v: Seq<(Seq<char>, u64)>, k: int)
        requires
            self.exact(h),
            self.all_numbers(v),
            0 <= k <= v.len(),
        ensures
            self.in_rank(ranked(h, v, k)),
            self.all_numbers(ranked(h, v, k)),
            ranked(h, v, k).to_multiset() == v.take(k).to_multiset(),
        decreases k,
    {
        broadcast use vstd::seq_lib::group_to_multiset_ensures;

        if k > 0 {
            self.ranking_sorts(h, v, k - 1);
            let before = ranked(h, v, k - 1);
            let new = v[k - 1];
            let p = place_of(h, before, new.1, before.len() as int);
            assert((self.number)(v[k - 1].1));
            self.place_parts(h, before, new.1, before.len() as int);
            let all = before.insert(p, new);
            assert(all == ranked(h, v, k));
            assert forall|i: int| 0 <= i < all.len() implies (self.number)((#[trigger] all[i]).1) by {
                if i < p {
                    assert(all[i] == before[i]);
                } else if i > p {
                    assert(all[i] == before[i - 1]);
                }
            }
            assert forall|i: int, j: int| 0 <= i <= j < all.len() implies (self.value)((#[trigger] all[i]).1) <= (
            self.value)((#[trigger] all[j]).1) by {
                if i < p {
                    assert(all[i] == before[i]);
                    assert(before[i] == before[i] && before[p - 1] == before[p - 1]);
                } else if i > p {
                    assert(all[i] == before[i - 1]);
                }
                if j < p {
                    assert(all[j] == before[j]);
                } else if j > p {
                    assert(all[j] == before[j - 1]);
                }
            }
            assert(v.take(k) =~= v.take(k - 1).push(new));
            vstd::seq_lib::to_multiset_insert(before, p, new);
            assert(all.to_multiset() =~= before.to_multiset().insert(new));
            assert(v.take(k).to_multiset() =~= v.take(k - 1).to_multiset().insert(new));
        } else {
            assert(v.take(0) =~= Seq::<(Seq<char>, u64)>::empty());
        }
    }
}

} // verus!

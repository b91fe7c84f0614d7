//! What the second-order sensitivities are, where the host computes without
//! rounding.
use crate::corners::Reading;
use crate::dae::sens::{all_directed, curvature, curvature_at, dot, shorter};
use crate::dae::system::DaeView;
use crate::numerics::{apply1, apply2, Answers, Op1, Op2};
use crate::symbolic::{Graph, SymbolId};
use vstd::prelude::*;

verus! {

/// A second-order matrix about to be computed.
pub struct Curving {
    pub r: Reading,
    pub h: Answers,
    pub g: Graph,
    pub d: DaeView,
    pub subset: Seq<(SymbolId, Vec<u64>)>,
    pub env: Seq<(SymbolId, u64)>,
}

impl Curving {
    /// The numeric values of the residuals' derivatives along two of the directions.
    pub open spec fn bends(self, i: int, j: int) -> Seq<u64> {
        let (p, q) = (self.subset[i], self.subset[j]);
        let first = all_directed(self.g, self.h, self.d.residuals, p.1@, self.d.x, p.0);
        self.g.eval(all_directed(self.g, self.h, first, q.1@, self.d.x, q.0), self.env)
    }
}

impl Reading {
    /// The sum of the first `k` products of values.
    pub open spec fn weighed(self, a: Seq<u64>, b: Seq<u64>, k: int) -> real
        decreases k,
    {
        if k <= 0 {
            0real
        } else {
            self.weighed(a, b, k - 1) + (self.value)(a[k - 1]) * (self.value)(b[k - 1])
        }
    }

    /// The first `n` products and their running sums are numbers.
    pub open spec fn sums_up(self, h: Answers, a: Seq<u64>, b: Seq<u64>, n: int) -> bool {
        &&& forall|k: int| 0 <= k < n ==> (self.number)(#[trigger] a[k])
        &&& forall|k: int| 0 <= k < n ==> (self.number)(#[trigger] b[k])
        &&& forall|k: int| 0 <= k < n ==> (self.number)(#[trigger] apply2(h, Op2::Mul, a[k], b[k]))
        &&& forall|k: int| 0 <= k <= n ==> (self.number)(#[trigger] dot(h, a, b, k))
    }

    pub(crate) proof fn dot_is(self, h: Answers, a: Seq<u64>, b: Seq<u64>, k: int, n: int)
        requires
            self.exact(h),
            self.sums_up(h, a, b, n),
            0 <= k <= n <= a.len(),
            n <= b.len(),
        ensures
            (self.value)(dot(h, a, b, k)) == self.weighed(a, b, k),
        decreases k,
    {
        self.constants(h);
        if k > 0 {
            self.dot_is(h, a, b, k - 1, n);
            assert((self.number)(dot(h, a, b, k - 1)) && (self.number)(dot(h, a, b, k)));
            assert((self.number)(apply2(h, Op2::Mul, a[k - 1], b[k - 1])));
            self.multiplies(h, a[k - 1], b[k - 1]);
            self.adds(h, dot(h, a, b, k - 1), apply2(h, Op2::Mul, a[k - 1], b[k - 1]));
        }
    }

    /// Exchanging two entries of both lists leaves the sum as it is.
    proof fn exchange(self, a: Seq<u64>, b: Seq<u64>, x: int, y: int, k: int)
        requires
            0 <= x < y < a.len(),
            a.len() == b.len(),
            0 <= k <= a.len(),
        ensures
            ({
                let (c, d) = (swapped(a, x, y), swapped(b, x, y));
                let (px, py) = ((self.value)(a[x]) * (self.value)(b[x]), (self.value)(a[y]) * (self.value)(b[y]));
                self.weighed(c, d, k) == self.weighed(a, b, k) + (if x < k {
                    py - px
                } else {
                    0real
                }) + (if y < k {
                    px - py
                } else {
                    0real
                })
            }),
        decreases k,
    {
        if k > 0 {
            self.exchange(a, b, x, y, k - 1);
        }
    }
}

/// A list with two entries exchanged.
pub open spec fn swapped(v: Seq<u64>, x: int, y: int) -> Seq<u64> {
    v.update(x, v[y]).update(y, v[x])
}

impl Curving {
    /// An entry is minus the sum, over all residuals, of the multiplier times the
    /// second derivative of the residual along the two directions: every residual
    /// enters with the same sign. The entry mirrored in the diagonal is the same.
    pub proof fn curvature_sums_over_all_rows(self, lambda: Seq<u64>, i: int, j: int)
        requires
            0 <= i <= j < self.subset.len(),
            self.r.exact(self.h),
            self.r.sums_up(self.h, lambda, self.bends(i, j), shorter(lambda.len(), self.bends(i, j).len())),
        ensures
            (self.r.value)(curvature_at(self.g, self.h, self.d, lambda, self.subset, self.env, i, j)) == 0real
                - self.r.weighed(lambda, self.bends(i, j), shorter(lambda.len(), self.bends(i, j).len())),
            (self.r.value)(curvature_at(self.g, self.h, self.d, lambda, self.subset, self.env, j, i)) == 0real
                - self.r.weighed(lambda, self.bends(i, j), shorter(lambda.len(), self.bends(i, j).len())),
    {
        let vals = self.bends(i, j);
        let n = shorter(lambda.len(), vals.len());
        self.r.dot_is(self.h, lambda, vals, n, n);
        assert((self.r.number)(dot(self.h, lambda, vals, n)));
        self.r.turns(self.h, dot(self.h, lambda, vals, n));
        assert(curvature(self.g, self.h, self.d, lambda, self.subset, self.env, i, j) == apply1(
            self.h,
            Op1::Neg,
            dot(self.h, lambda, vals, n),
        ));
    }
}

/// The order of the rows does not matter: exchanging two of them together with their
/// multipliers leaves the entry as it is.
pub proof fn curvature_forgets_the_order_of_rows(
    a: Curving,
    b: Curving,
    lambda: Seq<u64>,
    i: int,
    j: int,
    x: int,
    y: int,
)
    requires
        0 <= i <= j < a.subset.len(),
        b.subset.len() == a.subset.len(),
        a.r == b.r,
        a.r.exact(a.h),
        b.r.exact(b.h),
        lambda.len() == a.bends(i, j).len(),
        0 <= x < y < lambda.len(),
        b.bends(i, j) == swapped(a.bends(i, j), x, y),
        a.r.sums_up(a.h, lambda, a.bends(i, j), lambda.len() as int),
        b.r.sums_up(b.h, swapped(lambda, x, y), b.bends(i, j), lambda.len() as int),
    ensures
        (a.r.value)(curvature_at(a.g, a.h, a.d, lambda, a.subset, a.env, i, j)) == (a.r.value)(
            curvature_at(b.g, b.h, b.d, swapped(lambda, x, y), b.subset, b.env, i, j),
        ),
{
    a.curvature_sums_over_all_rows(lambda, i, j);
    b.curvature_sums_over_all_rows(swapped(lambda, x, y), i, j);
    a.r.exchange(lambda, a.bends(i, j), x, y, lambda.len() as int);
}

} // verus!

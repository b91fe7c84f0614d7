//! Numbers read as reals: what the host's operations are where they do not round.
//!
//! A host has finitely many numbers, so not every result is one of them. A reading
//! names numbers on which the host computes exactly as long as it stays among them,
//! such as the whole numbers that doubles hold.
use crate::corners::Reading;
use crate::numerics::{apply1, apply2, compares, Answers, Op1, Op2, Rel, ONE, ZERO};
use vstd::prelude::*;

verus! {

pub open spec fn magnitude(a: real) -> real {
    if a < 0real {
        0real - a
    } else {
        a
    }
}

pub open spec fn greater(a: real, b: real) -> real {
    if a < b {
        b
    } else {
        a
    }
}

impl Reading {
    /// Between numbers whose result is one again, the host computes without
    /// rounding, and it compares numbers by their values.
    #[verifier::opaque]
    pub open spec fn exact(self, h: Answers) -> bool {
        let (n, v) = (self.number, self.value);
        &&& n(ZERO) && v(ZERO) == 0real
        &&& n(ONE) && v(ONE) == 1real
        &&& forall|a: u64, b: u64|
            n(a) && n(b) && n(#[trigger] apply2(h, Op2::Add, a, b)) ==> v(apply2(h, Op2::Add, a, b)) == v(a) + v(b)
        &&& forall|a: u64, b: u64|
            n(a) && n(b) && n(#[trigger] apply2(h, Op2::Sub, a, b)) ==> v(apply2(h, Op2::Sub, a, b)) == v(a) - v(b)
        &&& forall|a: u64, b: u64|
            n(a) && n(b) && n(#[trigger] apply2(h, Op2::Mul, a, b)) ==> v(apply2(h, Op2::Mul, a, b)) == v(a) * v(b)
        &&& forall|a: u64, b: u64|
            n(a) && n(b) && n(#[trigger] apply2(h, Op2::Div, a, b)) ==> v(b) != 0real && v(apply2(h, Op2::Div, a, b))
                * v(b) == v(a)
        &&& forall|a: u64, b: u64|
            n(a) && n(b) ==> n(#[trigger] apply2(h, Op2::Max, a, b)) && v(apply2(h, Op2::Max, a, b)) == greater(
                v(a),
                v(b),
            )
        &&& forall|a: u64, b: u64|
            n(a) && n(b) ==> n(#[trigger] apply2(h, Op2::Min, a, b)) && v(apply2(h, Op2::Min, a, b)) == v(a) + v(b)
                - greater(v(a), v(b))
        &&& forall|a: u64|
            n(a) ==> n(#[trigger] apply1(h, Op1::Neg, a)) && v(apply1(h, Op1::Neg, a)) == 0real - v(a)
        &&& forall|a: u64|
            n(a) ==> n(#[trigger] apply1(h, Op1::Abs, a)) && v(apply1(h, Op1::Abs, a)) == magnitude(v(a))
        &&& forall|a: u64|
            n(a) && n(#[trigger] apply1(h, Op1::Sqrt, a)) ==> v(apply1(h, Op1::Sqrt, a)) >= 0real && v(
                apply1(h, Op1::Sqrt, a),
            ) * v(apply1(h, Op1::Sqrt, a)) == v(a)
        &&& forall|a: u64, b: u64| n(a) && n(b) ==> (#[trigger] compares(h, Rel::Lt, a, b) <==> v(a) < v(b))
        &&& forall|a: u64, b: u64| n(a) && n(b) ==> (#[trigger] compares(h, Rel::Gt, a, b) <==> v(a) > v(b))
        &&& forall|a: u64, b: u64| n(a) && n(b) ==> (#[trigger] compares(h, Rel::Le, a, b) <==> v(a) <= v(b))
        &&& forall|a: u64, b: u64| n(a) && n(b) ==> (#[trigger] compares(h, Rel::Ge, a, b) <==> v(a) >= v(b))
        &&& forall|a: u64, b: u64| n(a) && n(b) ==> (#[trigger] compares(h, Rel::Eq, a, b) <==> v(a) == v(b))
        &&& forall|a: u64, b: u64| n(a) && n(b) ==> (#[trigger] compares(h, Rel::Ne, a, b) <==> v(a) != v(b))
    }

    pub(crate) proof fn constants(self, h: Answers)
        requires
            self.exact(h),
        ensures
            (self.number)(ZERO) && (self.value)(ZERO) == 0real,
            (self.number)(ONE) && (self.value)(ONE) == 1real,
    {
        reveal(Reading::exact);
    }

    pub(crate) proof fn adds(self, h: Answers, a: u64, b: u64)
        requires
            self.exact(h),
            (self.number)(a) && (self.number)(b) && (self.number)(apply2(h, Op2::Add, a, b)),
        ensures
            (self.value)(apply2(h, Op2::Add, a, b)) == (self.value)(a) + (self.value)(b),
    {
        reveal(Reading::exact);
    }

    pub(crate) proof fn subtracts(self, h: Answers, a: u64, b: u64)
        requires
            self.exact(h),
            (self.number)(a) && (self.number)(b) && (self.number)(apply2(h, Op2::Sub, a, b)),
        ensures
            (self.value)(apply2(h, Op2::Sub, a, b)) == (self.value)(a) - (self.value)(b),
    {
        reveal(Reading::exact);
    }

    pub(crate) proof fn multiplies(self, h: Answers, a: u64, b: u64)
        requires
            self.exact(h),
            (self.number)(a) && (self.number)(b) && (self.number)(apply2(h, Op2::Mul, a, b)),
        ensures
            (self.value)(apply2(h, Op2::Mul, a, b)) == (self.value)(a) * (self.value)(b),
    {
        reveal(Reading::exact);
    }

    pub(crate) proof fn divides(self, h: Answers, a: u64, b: u64)
        requires
            self.exact(h),
            (self.number)(a) && (self.number)(b) && (self.number)(apply2(h, Op2::Div, a, b)),
        ensures
            (self.value)(b) != 0real,
            (self.value)(apply2(h, Op2::Div, a, b)) * (self.value)(b) == (self.value)(a),
    {
        reveal(Reading::exact);
    }

    pub(crate) proof fn picks(self, h: Answers, a: u64, b: u64)
        requires
            self.exact(h),
            (self.number)(a) && (self.number)(b),
        ensures
            (self.number)(apply2(h, Op2::Max, a, b)),
            (self.value)(apply2(h, Op2::Max, a, b)) == greater((self.value)(a), (self.value)(b)),
            (self.number)(apply2(h, Op2::Min, a, b)),
            (self.value)(apply2(h, Op2::Min, a, b)) == (self.value)(a) + (self.value)(b) - greater(
                (self.value)(a),
                (self.value)(b),
            ),
    {
        reveal(Reading::exact);
    }

    pub(crate) proof fn turns(self, h: Answers, a: u64)
        requires
            self.exact(h),
            (self.number)(a),
        ensures
            (self.number)(apply1(h, Op1::Neg, a)),
            (self.value)(apply1(h, Op1::Neg, a)) == 0real - (self.value)(a),
            (self.number)(apply1(h, Op1::Abs, a)),
            (self.value)(apply1(h, Op1::Abs, a)) == magnitude((self.value)(a)),
    {
        reveal(Reading::exact);
    }

    pub(crate) proof fn roots(self, h: Answers, a: u64)
        requires
            self.exact(h),
            (self.number)(a) && (self.number)(apply1(h, Op1::Sqrt, a)),
        ensures
            (self.value)(apply1(h, Op1::Sqrt, a)) >= 0real,
            (self.value)(apply1(h, Op1::Sqrt, a)) * (self.value)(apply1(h, Op1::Sqrt, a)) == (self.value)(a),
    {
        reveal(Reading::exact);
    }

    pub(crate) proof fn compared(self, h: Answers, a: u64, b: u64)
        requires
            self.exact(h),
            (self.number)(a) && (self.number)(b),
        ensures
            compares(h, Rel::Lt, a, b) <==> (self.value)(a) < (self.value)(b),
            compares(h, Rel::Gt, a, b) <==> (self.value)(a) > (self.value)(b),
            compares(h, Rel::Le, a, b) <==> (self.value)(a) <= (self.value)(b),
            compares(h, Rel::Ge, a, b) <==> (self.value)(a) >= (self.value)(b),
            compares(h, Rel::Eq, a, b) <==> (self.value)(a) == (self.value)(b),
            compares(h, Rel::Ne, a, b) <==> (self.value)(a) != (self.value)(b),
    {
        reveal(Reading::exact);
    }
}

} // verus!

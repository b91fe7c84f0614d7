//! A host that computes with whole numbers: what the laws over exact numbers ask of a
//! host can be had, with numbers of any size up to a bound.
use crate::corners::Reading;
use crate::numerics::{apply1, apply2, compares, Answers, AskView, Op1, Op2, Rel, ReplyView, ONE, ZERO};
use crate::reals::{greater, magnitude};
use vstd::prelude::*;

verus! {

/// Below this in magnitude, whole numbers have bits.
pub open spec fn bound() -> int {
    0x4000_0000
}

/// The bits of a whole number.
pub open spec fn bits(k: int) -> u64 {
    if k == 0 {
        ZERO
    } else if k == 1 {
        ONE
    } else if 1 < k < bound() {
        k as u64
    } else if -bound() < k < 0 {
        (bound() - k) as u64
    } else {
        u64::MAX
    }
}

/// The whole number that bits stand for.
pub open spec fn whole_of(a: u64) -> int {
    if a == ONE {
        1
    } else if a < bound() {
        a as int
    } else {
        bound() - a
    }
}

pub open spec fn has_bits(a: u64) -> bool {
    a == ONE || (a < 2 * bound() && a != 1 && a != bound())
}

/// Bits read as whole numbers.
pub open spec fn whole_reading() -> Reading {
    Reading { number: |a: u64| has_bits(a), value: |a: u64| whole_of(a) as real }
}

pub open spec fn is_root(r: int, x: int) -> bool {
    r >= 0 && r * r == x
}

/// A host that computes with whole numbers, and gives what is none for a result that
/// has no bits.
pub open spec fn whole_answer(q: AskView) -> ReplyView {
    match q {
        AskView::Apply1(f, a) => {
            let x = whole_of(a);
            ReplyView::Number(
                match f {
                    Op1::Neg => bits(-x),
                    Op1::Abs => bits(if x < 0 { -x } else { x }),
                    Op1::Sqrt => if exists|r: int| is_root(r, x) {
                        bits(choose|r: int| is_root(r, x))
                    } else {
                        u64::MAX
                    },
                    _ => u64::MAX,
                },
            )
        },
        AskView::Apply2(f, a, b) => {
            let (x, y) = (whole_of(a), whole_of(b));
            ReplyView::Number(
                match f {
                    Op2::Add => bits(x + y),
                    Op2::Sub => bits(x - y),
                    Op2::Mul => bits(x * y),
                    Op2::Div => if y != 0 && exists|k: int| #[trigger] (k * y) == x {
                        bits(choose|k: int| #[trigger] (k * y) == x)
                    } else {
                        u64::MAX
                    },
                    Op2::Max => bits(if x < y { y } else { x }),
                    Op2::Min => bits(if x < y { x } else { y }),
                    Op2::Pow => u64::MAX,
                },
            )
        },
        AskView::Compare(r, a, b) => {
            let (x, y) = (whole_of(a), whole_of(b));
            ReplyView::Truth(
                match r {
                    Rel::Lt => x < y,
                    Rel::Gt => x > y,
                    Rel::Le => x <= y,
                    Rel::Ge => x >= y,
                    Rel::Eq => x == y,
                    Rel::Ne => x != y,
                },
            )
        },
        _ => ReplyView::Nothing,
    }
}

pub open spec fn whole_host() -> Answers {
    |q: AskView| whole_answer(q)
}

proof fn bits_stand(k: int)
    ensures
        has_bits(bits(k)) <==> -bound() < k < bound(),
        has_bits(bits(k)) ==> whole_of(bits(k)) == k,
{
}

proof fn products_agree(x: int, y: int)
    ensures
        (x * y) as real == (x as real) * (y as real),
{
    assert((x * y) as real == (x as real) * (y as real)) by (nonlinear_arith);
}

/// The host that computes with whole numbers computes them exactly.
pub proof fn whole_numbers_are_exact()
    ensures
        whole_reading().exact(whole_host()),
{
    let h = whole_host();
    let (n, v) = (whole_reading().number, whole_reading().value);
    assert forall|a: u64, b: u64|
        n(a) && n(b) && n(#[trigger] apply2(h, Op2::Add, a, b)) implies v(apply2(h, Op2::Add, a, b)) == v(a) + v(b) by {
        bits_stand(whole_of(a) + whole_of(b));
    }
    assert forall|a: u64, b: u64|
        n(a) && n(b) && n(#[trigger] apply2(h, Op2::Sub, a, b)) implies v(apply2(h, Op2::Sub, a, b)) == v(a) - v(b) by {
        bits_stand(whole_of(a) - whole_of(b));
    }
    assert forall|a: u64, b: u64|
        n(a) && n(b) && n(#[trigger] apply2(h, Op2::Mul, a, b)) implies v(apply2(h, Op2::Mul, a, b)) == v(a) * v(b) by {
        bits_stand(whole_of(a) * whole_of(b));
        products_agree(whole_of(a), whole_of(b));
    }
    assert forall|a: u64, b: u64| n(a) && n(b) && n(#[trigger] apply2(h, Op2::Div, a, b)) implies v(b) != 0real && v(
        apply2(h, Op2::Div, a, b),
    ) * v(b) == v(a) by {
        let (x, y) = (whole_of(a), whole_of(b));
        if y != 0 && exists|k: int| #[trigger] (k * y) == x {
            let k = choose|k: int| #[trigger] (k * y) == x;
            bits_stand(k);
            products_agree(k, y);
        }
    }
    assert forall|a: u64, b: u64| n(a) && n(b) implies n(#[trigger] apply2(h, Op2::Max, a, b)) && v(
        apply2(h, Op2::Max, a, b),
    ) == greater(v(a), v(b)) by {
        bits_stand(whole_of(a));
        bits_stand(whole_of(b));
    }
    assert forall|a: u64, b: u64| n(a) && n(b) implies n(#[trigger] apply2(h, Op2::Min, a, b)) && v(
        apply2(h, Op2::Min, a, b),
    ) == v(a) + v(b) - greater(v(a), v(b)) by {
        bits_stand(whole_of(a));
        bits_stand(whole_of(b));
    }
    assert forall|a: u64| n(a) implies n(#[trigger] apply1(h, Op1::Neg, a)) && v(apply1(h, Op1::Neg, a)) == 0real - v(
        a,
    ) by {
        bits_stand(-whole_of(a));
    }
    assert forall|a: u64| n(a) implies n(#[trigger] apply1(h, Op1::Abs, a)) && v(apply1(h, Op1::Abs, a)) == magnitude(
        v(a),
    ) by {
        bits_stand(-whole_of(a));
        bits_stand(whole_of(a));
    }
    assert forall|a: u64| n(a) && n(#[trigger] apply1(h, Op1::Sqrt, a)) implies v(apply1(h, Op1::Sqrt, a)) >= 0real
        && v(apply1(h, Op1::Sqrt, a)) * v(apply1(h, Op1::Sqrt, a)) == v(a) by {
        let x = whole_of(a);
        if exists|r: int| is_root(r, x) {
            let r = choose|r: int| is_root(r, x);
            bits_stand(r);
            products_agree(r, r);
        }
    }
    assert(forall|a: u64, b: u64| n(a) && n(b) ==> (#[trigger] compares(h, Rel::Lt, a, b) <==> v(a) < v(b)));
    assert(forall|a: u64, b: u64| n(a) && n(b) ==> (#[trigger] compares(h, Rel::Eq, a, b) <==> v(a) == v(b)));
    reveal(Reading::exact);
}

} // verus!

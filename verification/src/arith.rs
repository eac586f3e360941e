//! Small facts of integer arithmetic.

use vstd::prelude::*;

verus! {

/// `a - b`, or zero where `b` is the larger.
pub open spec fn monus(a: int, b: int) -> int {
    if a >= b {
        a - b
    } else {
        0
    }
}

/// A product of two bounded naturals is bounded by the product of the bounds.
pub proof fn lemma_product_bounded(a: int, b: int, a_max: int, b_max: int)
    requires
        0 <= a <= a_max,
        0 <= b <= b_max,
    ensures
        0 <= a * b <= a_max * b_max,
{
    assert(0 <= a * b <= a_max * b_max) by (nonlinear_arith)
        requires
            0 <= a <= a_max,
            0 <= b <= b_max,
    ;
}

} // verus!

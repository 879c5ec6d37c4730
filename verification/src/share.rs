//! Shares in percent, compared without rounding and without overflow.

use vstd::prelude::*;

verus! {

/// Whether `part` is at most `percent` percent of `whole`.
pub fn is_at_most(part: usize, whole: usize, percent: usize) -> (holds: bool)
    ensures
        holds == (part * 100 <= whole * percent),
{
    proof {
        lemma_product_fits(whole as int, percent as int);
    }
    part as u128 * 100 <= whole as u128 * percent as u128
}

/// Whether `part` is at least `percent` percent of `whole`.
pub fn is_at_least(part: usize, whole: usize, percent: usize) -> (holds: bool)
    ensures
        holds == (part * 100 >= whole * percent),
{
    proof {
        lemma_product_fits(whole as int, percent as int);
    }
    part as u128 * 100 >= whole as u128 * percent as u128
}

/// The product of two machine words fits in a number twice as wide.
proof fn lemma_product_fits(a: int, b: int)
    requires
        0 <= a <= usize::MAX,
        0 <= b <= usize::MAX,
    ensures
        0 <= a * b <= u128::MAX,
{
    assert(0 <= a * b <= 0xffff_ffff_ffff_ffff * 0xffff_ffff_ffff_ffff) by (nonlinear_arith)
        requires
            0 <= a <= 0xffff_ffff_ffff_ffff,
            0 <= b <= 0xffff_ffff_ffff_ffff,
    ;
}

} // verus!

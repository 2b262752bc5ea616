//! Integer division helpers shared by the scoring and loan components.

use vstd::prelude::*;
use vstd::arithmetic::div_mod::lemma_div_nonincreasing;
use vstd::arithmetic::div_mod::lemma_div_pos_is_pos;

verus! {

/// Signed division that truncates toward zero, the behaviour of the
/// executable `/` operator on machine integers.
pub open spec fn div_trunc(a: int, b: int) -> int {
    if a >= 0 {
        a / b
    } else {
        -((-a) / b)
    }
}

/// Truncating division never grows the magnitude of the dividend.
pub proof fn lemma_div_trunc_bounds(a: int, b: int)
    requires
        b >= 1,
    ensures
        a >= 0 ==> 0 <= div_trunc(a, b) <= a,
        a < 0 ==> a <= div_trunc(a, b) <= 0,
{
    if a >= 0 {
        lemma_div_nonincreasing(a, b);
        lemma_div_pos_is_pos(a, b);
    } else {
        lemma_div_nonincreasing(-a, b);
        lemma_div_pos_is_pos(-a, b);
    }
}

/// Truncating division of two machine-width amounts.
pub fn div_trunc_i128(a: i128, b: i128) -> (r: i128)
    requires
        b >= 1,
    ensures
        r as int == div_trunc(a as int, b as int),
{
    a / b
}

} // verus!

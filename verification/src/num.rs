//! Saturating calorie arithmetic. Servings, quantities and calorie rates are
//! unsigned 64-bit values; products and sums that would exceed the range
//! saturate, and every contract states the result exactly through [`clamp64`].

use vstd::prelude::*;

verus! {

/// `x` clamped from above into the u64 range.
pub open spec fn clamp64(x: int) -> int {
    if x > u64::MAX {
        u64::MAX as int
    } else {
        x
    }
}

/// Saturating addition never loses information relative to clamping the
/// exact sum, as long as both addends are nonnegative.
pub proof fn lemma_clamp_add(a: int, b: int)
    requires
        a >= 0,
        b >= 0,
    ensures
        clamp64(clamp64(a) + clamp64(b)) == clamp64(a + b),
{
}

pub fn sat_mul(a: u64, b: u64) -> (r: u64)
    ensures
        r as int == clamp64(a as int * b as int),
{
    match a.checked_mul(b) {
        Some(v) => v,
        None => u64::MAX,
    }
}

pub fn sat_add(a: u64, b: u64) -> (r: u64)
    ensures
        r as int == clamp64(a as int + b as int),
{
    a.saturating_add(b)
}

} // verus!

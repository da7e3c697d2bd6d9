//! Linear interpolation between two 16-bit samples.

use vstd::arithmetic::div_mod::lemma_hoist_over_denominator;
use vstd::prelude::*;

verus! {

/// The weighted mean of `a` and `b`, rounded down: `b` has the weight
/// `weight / scale`, and `a` has the rest.
pub open spec fn blend(a: int, b: int, weight: int, scale: int) -> int {
    ((scale - weight) * a + weight * b) / scale
}

/// With no weight on the second value the first is returned as it is.
pub proof fn lemma_blend_at_zero(a: int, b: int, scale: int)
    requires
        scale > 0,
    ensures
        blend(a, b, 0, scale) == a,
{
    assert((scale * a) / scale == a) by (nonlinear_arith)
        requires
            scale > 0,
    ;
}

/// A blend lies between the two values that it is made of.
pub proof fn lemma_blend_between(a: int, b: int, weight: int, scale: int)
    requires
        0 <= weight <= scale,
        scale > 0,
    ensures
        a <= b ==> a <= blend(a, b, weight, scale) <= b,
        b <= a ==> b <= blend(a, b, weight, scale) <= a,
{
    let sum = (scale - weight) * a + weight * b;
    assert(a <= b ==> scale * a <= sum <= scale * b) by (nonlinear_arith)
        requires
            0 <= weight <= scale,
            sum == (scale - weight) * a + weight * b,
    ;
    assert(b <= a ==> scale * b <= sum <= scale * a) by (nonlinear_arith)
        requires
            0 <= weight <= scale,
            sum == (scale - weight) * a + weight * b,
    ;
    let quotient = sum / scale;
    assert(scale * a <= sum ==> a <= quotient) by (nonlinear_arith)
        requires
            scale > 0,
            quotient == sum / scale,
    ;
    assert(scale * b <= sum ==> b <= quotient) by (nonlinear_arith)
        requires
            scale > 0,
            quotient == sum / scale,
    ;
    assert(sum <= scale * a ==> quotient <= a) by (nonlinear_arith)
        requires
            scale > 0,
            quotient == sum / scale,
    ;
    assert(sum <= scale * b ==> quotient <= b) by (nonlinear_arith)
        requires
            scale > 0,
            quotient == sum / scale,
    ;
}

/// Computes the blend of two samples.
pub fn interpolate(a: i16, b: i16, weight: u64, scale: u64) -> (sample: i16)
    requires
        weight <= scale,
        scale > 0,
    ensures
        sample == blend(a as int, b as int, weight as int, scale as int),
{
    // Shifted by 2^15 both samples are non-negative, and the unsigned division
    // below rounds down as the blend does.
    let lifted_a: u128 = (a as i32 + 32768) as u128;
    let lifted_b: u128 = (b as i32 + 32768) as u128;
    let rest: u128 = (scale - weight) as u128;
    proof {
        assert(rest * lifted_a <= 0xffff_ffff_ffff_ffff * 0xffff) by (nonlinear_arith)
            requires
                rest <= 0xffff_ffff_ffff_ffff,
                lifted_a <= 0xffff,
        ;
        assert((weight as u128) * lifted_b <= 0xffff_ffff_ffff_ffff * 0xffff) by (nonlinear_arith)
            requires
                weight <= 0xffff_ffff_ffff_ffff,
                lifted_b <= 0xffff,
        ;
    }
    let sum: u128 = rest * lifted_a + (weight as u128) * lifted_b;
    let lifted: u128 = sum / (scale as u128);
    proof {
        let plain = (scale - weight) * a + weight * b;
        assert(sum == plain + 32768 * scale) by (nonlinear_arith)
            requires
                sum == (scale - weight) * (a + 32768) + weight * (b + 32768),
                plain == (scale - weight) * a + weight * b,
        ;
        lemma_hoist_over_denominator(plain, 32768, scale as nat);
        lemma_blend_between(a as int, b as int, weight as int, scale as int);
    }
    (lifted as i32 - 32768) as i16
}

} // verus!

//! Half-precision numbers as single-precision ones, both as bit patterns.

use vstd::arithmetic::power2;
use vstd::prelude::*;

verus! {

/// The exponent and the fraction of a number with a given weight, without a
/// leading one yet: the weight is doubled until it has one.
pub open spec fn normalized(weight: nat, exponent: nat) -> nat
    decreases exponent,
{
    if weight >= 1024 || exponent == 0 {
        (exponent * 8_388_608 + (weight - 1024) * 8192) as nat
    } else {
        normalized(weight * 2, (exponent - 1) as nat)
    }
}

/// The bits of a single-precision number that equals a half-precision one.
pub open spec fn single_of(half: u16) -> nat {
    let sign = (half as nat / 32_768) * 2_147_483_648;
    let exponent = (half as nat / 1024) % 32;
    let fraction = half as nat % 1024;
    if exponent == 31 {
        sign + 2_139_095_040 + fraction * 8192
    } else if exponent > 0 {
        sign + (exponent + 112) * 8_388_608 + fraction * 8192
    } else if fraction == 0 {
        sign
    } else {
        sign + normalized(fraction, 113)
    }
}

/// A finite half-precision number without its sign, in units of its smallest
/// positive one.
pub open spec fn half_magnitude(half: u16) -> nat {
    let exponent = (half as nat / 1024) % 32;
    let fraction = half as nat % 1024;
    if exponent == 0 {
        fraction
    } else {
        (1024 + fraction) * power2::pow2((exponent - 1) as nat)
    }
}

/// A finite single-precision number without its sign, in units of its smallest
/// positive one.
pub open spec fn single_magnitude(single: nat) -> nat {
    let exponent = (single / 8_388_608) % 256;
    let fraction = single % 8_388_608;
    if exponent == 0 {
        fraction
    } else {
        (8_388_608 + fraction) * power2::pow2((exponent - 1) as nat)
    }
}

/// Whether the bits of a single-precision number stand for a finite one.
pub open spec fn is_finite_single(single: nat) -> bool {
    (single / 8_388_608) % 256 != 255
}

/// A weight below a leading one is that of a number with fraction bits only
/// below it.
proof fn lemma_normalized(weight: nat, exponent: nat, shifts: nat)
    requires
        0 < weight < 2048,
        weight * power2::pow2(shifts) >= 1024,
        shifts < exponent <= 113,
    ensures
        normalized(weight, exponent) / 8_388_608 >= 1,
        normalized(weight, exponent) / 8_388_608 <= exponent,
        single_magnitude(normalized(weight, exponent)) == weight * power2::pow2(
            (exponent + 12) as nat,
        ),
    decreases exponent,
{
    if weight >= 1024 {
        let bits = normalized(weight, exponent);
        let fraction = (weight - 1024) * 8192;
        assert(bits == exponent * 8_388_608 + fraction);
        assert(bits / 8_388_608 == exponent && bits % 8_388_608 == fraction);
        power2::lemma_pow2_adds(13, (exponent - 1) as nat);
        vstd::arithmetic::power2::lemma2_to64();
        let unit = power2::pow2((exponent - 1) as nat);
        assert(power2::pow2(13) == 8192);
        assert(weight * (8192 * unit) == (8192 * weight) * unit) by (nonlinear_arith);
    } else {
        if shifts == 0 {
            power2::lemma2_to64();
        } else {
            power2::lemma_pow2_unfold(shifts);
            let less = power2::pow2((shifts - 1) as nat);
            assert(weight * (2 * less) == (weight * 2) * less) by (nonlinear_arith);
            lemma_normalized(weight * 2, (exponent - 1) as nat, (shifts - 1) as nat);
            power2::lemma_pow2_unfold((exponent + 12) as nat);
            let half = power2::pow2((exponent + 11) as nat);
            assert(weight * (2 * half) == (weight * 2) * half) by (nonlinear_arith);
        }
    }
}

/// Every finite half-precision number is turned into the single-precision
/// number of the same value and sign.
pub proof fn law_half_conversion_is_exact(half: u16)
    requires
        (half as nat / 1024) % 32 != 31,
    ensures
        single_of(half) <= u32::MAX,
        is_finite_single(single_of(half)),
        single_of(half) / 2_147_483_648 == half as nat / 32_768,
        single_magnitude(single_of(half)) == half_magnitude(half) * power2::pow2(125),
{
    let sign = half as nat / 32_768;
    let exponent = (half as nat / 1024) % 32;
    let fraction = half as nat % 1024;
    let single = single_of(half);
    if exponent > 0 {
        let rest = (exponent + 112) * 8_388_608 + fraction * 8192;
        assert(single == sign * 2_147_483_648 + rest);
        assert((single / 8_388_608) % 256 == exponent + 112);
        assert(single % 8_388_608 == fraction * 8192);
        power2::lemma_pow2_adds((exponent - 1) as nat, 125);
        power2::lemma_pow2_adds(13, (exponent + 111) as nat);
        power2::lemma2_to64();
        let a = power2::pow2((exponent - 1) as nat);
        let b = power2::pow2(125);
        let c = power2::pow2((exponent + 111) as nat);
        let weight = 1024 + fraction;
        assert(8192 * c == a * b);
        assert(single_magnitude(single) == (8192 * weight) * c);
        assert((8192 * weight) * c == (weight * a) * b) by (nonlinear_arith)
            requires
                8192 * c == a * b,
        ;
    } else if fraction > 0 {
        let low = normalized(fraction, 113);
        power2::lemma2_to64();
        lemma_normalized(fraction, 113, 10);
        lemma_normalized_bound(fraction, 113);
        assert(single == sign * 2_147_483_648 + low);
        assert((single / 8_388_608) % 256 == low / 8_388_608);
        assert(single % 8_388_608 == low % 8_388_608);
    } else {
        assert(single == sign * 2_147_483_648);
        assert((single / 8_388_608) % 256 == 0);
        assert(single % 8_388_608 == 0);
        assert(0 * power2::pow2(125) == 0) by (nonlinear_arith);
    }
}

proof fn lemma_normalized_bound(weight: nat, exponent: nat)
    requires
        0 < weight < 2048,
        weight * power2::pow2(10) >= 1024,
        10 < exponent <= 113,
    ensures
        normalized(weight, exponent) < 114 * 8_388_608,
{
    lemma_normalized(weight, exponent, 10);
}

/// Turns a half-precision number into a single-precision one.
pub fn f16_to_f32(bits: u16) -> (single: u32)
    ensures
        single == single_of(bits),
{
    let sign: u32 = (bits as u32 / 32_768) * 2_147_483_648;
    let exponent: u32 = (bits as u32 / 1024) % 32;
    let fraction: u32 = bits as u32 % 1024;
    if exponent == 31 {
        sign + 2_139_095_040 + fraction * 8192
    } else if exponent > 0 {
        sign + (exponent + 112) * 8_388_608 + fraction * 8192
    } else if fraction == 0 {
        sign
    } else {
        let mut weight: u32 = fraction;
        let mut shifted: u32 = 113;
        let mut shifts: u32 = 10;
        proof {
            power2::lemma2_to64();
        }
        while weight < 1024
            invariant
                0 < weight < 2048,
                shifts + 103 == shifted,
                0 <= shifts <= 10,
                weight * power2::pow2(shifts as nat) >= 1024,
                normalized(fraction as nat, 113) == normalized(weight as nat, shifted as nat),
            decreases shifts,
        {
            proof {
                if shifts == 0 {
                    power2::lemma2_to64();
                } else {
                    power2::lemma_pow2_unfold(shifts as nat);
                    let less = power2::pow2((shifts - 1) as nat);
                    assert(weight * (2 * less) == (weight * 2) * less) by (nonlinear_arith);
                }
            }
            weight = weight * 2;
            shifted = shifted - 1;
            shifts = shifts - 1;
        }
        sign + shifted * 8_388_608 + (weight - 1024) * 8192
    }
}

/// A half-precision number that is not finite becomes a single-precision one that
/// is not, with the same sign. Infinities stay infinite, and others keep their
/// fraction as its upper bits.
pub proof fn law_halves_that_are_not_finite(half: u16, single: u32)
    requires
        call_ensures(f16_to_f32, (half,), single),
        (half as nat / 1024) % 32 == 31,
    ensures
        !is_finite_single(single as nat),
        single as nat / 2_147_483_648 == half as nat / 32_768,
        single as nat % 8_388_608 == 0 <==> half as nat % 1024 == 0,
        (single as nat % 8_388_608) / 8192 == half as nat % 1024,
{
}

} // verus!

//! IEEE-754 single-precision values handled as their 32-bit patterns.
//!
//! The library never computes with floating point: a float constant is its
//! bit pattern, produced by the caller. The two operations the compiler
//! itself needs are value equality of two patterns (for constant
//! deduplication) and the conversion of an `i32` to the pattern of the
//! nearest `f32` (integer constants are promoted to floats in the compiled
//! graph). Both are exact integer functions of their arguments.

use vstd::prelude::*;

verus! {

/// The exponent field (8 bits) of a single-precision pattern.
pub open spec fn spec_f32_exponent(bits: u32) -> u32 {
    (bits >> 23) & 0xff
}

/// The fraction field (23 bits) of a single-precision pattern.
pub open spec fn spec_f32_fraction(bits: u32) -> u32 {
    bits & 0x7fffff
}

/// Whether the pattern denotes a NaN: exponent all ones, fraction nonzero.
pub open spec fn spec_f32_is_nan(bits: u32) -> bool {
    spec_f32_exponent(bits) == 0xff && spec_f32_fraction(bits) != 0
}

/// Whether the pattern denotes a zero (positive or negative).
pub open spec fn spec_f32_is_zero(bits: u32) -> bool {
    bits & 0x7fffffff == 0
}

/// IEEE-754 equality of two single-precision patterns: NaN equals nothing,
/// the two zeros are equal, and any other value is equal only to itself.
pub open spec fn spec_f32_eq(a: u32, b: u32) -> bool {
    &&& !spec_f32_is_nan(a)
    &&& !spec_f32_is_nan(b)
    &&& (a == b || (spec_f32_is_zero(a) && spec_f32_is_zero(b)))
}

/// Decides IEEE-754 equality of two single-precision patterns.
pub fn f32_bits_eq(a: u32, b: u32) -> (r: bool)
    ensures
        r == spec_f32_eq(a, b),
{
    let a_nan: bool = (a >> 23) & 0xff == 0xff && a & 0x7fffff != 0;
    let b_nan: bool = (b >> 23) & 0xff == 0xff && b & 0x7fffff != 0;
    if a_nan || b_nan {
        false
    } else {
        a == b || (a & 0x7fffffff == 0 && b & 0x7fffffff == 0)
    }
}

/// The floor of the base-two logarithm.
pub open spec fn spec_ilog2(m: nat) -> nat
    decreases m,
{
    if m < 2 {
        0
    } else {
        1 + spec_ilog2(m / 2)
    }
}

/// `pow2(e) <= m < pow2(e + 1)` for `e` the floor logarithm of `m >= 1`.
pub proof fn lemma_ilog2_bounds(m: nat)
    requires
        m >= 1,
    ensures
        vstd::arithmetic::power2::pow2(spec_ilog2(m)) <= m,
        m < vstd::arithmetic::power2::pow2(spec_ilog2(m) + 1),
    decreases m,
{
    vstd::arithmetic::power2::lemma2_to64();
    if m >= 2 {
        lemma_ilog2_bounds(m / 2);
        vstd::arithmetic::power2::lemma_pow2_unfold(spec_ilog2(m));
        vstd::arithmetic::power2::lemma_pow2_unfold(spec_ilog2(m) + 1);
    }
}

/// The IEEE-754 single-precision pattern of `sign * m`, for a magnitude
/// `1 <= m <= 2^31`, rounding to nearest with ties to even.
pub open spec fn spec_f32_bits_of_mag(sign: int, m: nat) -> u32 {
    let e = spec_ilog2(m);
    let p23 = vstd::arithmetic::power2::pow2(23);
    if e <= 23 {
        (sign * 0x80000000 + (e + 127) * p23 + (m * vstd::arithmetic::power2::pow2(
            (23 - e) as nat,
        ) - p23)) as u32
    } else {
        let sh = (e - 23) as nat;
        let q = m / vstd::arithmetic::power2::pow2(sh);
        let r = m % vstd::arithmetic::power2::pow2(sh);
        let half = vstd::arithmetic::power2::pow2((sh - 1) as nat);
        let q1: nat = if r > half || (r == half && q % 2 == 1) {
            q + 1
        } else {
            q
        };
        if q1 == vstd::arithmetic::power2::pow2(24) {
            (sign * 0x80000000 + (e + 1 + 127) * p23) as u32
        } else {
            (sign * 0x80000000 + (e + 127) * p23 + (q1 - p23)) as u32
        }
    }
}

/// The IEEE-754 single-precision pattern nearest to an `i32`, ties to even:
/// the promotion applied to integer constants.
pub open spec fn spec_f32_bits_of_i32(i: int) -> u32 {
    if i == 0 {
        0u32
    } else if i > 0 {
        spec_f32_bits_of_mag(0, i as nat)
    } else {
        spec_f32_bits_of_mag(1, (-i) as nat)
    }
}

/// Returns `2^e`.
fn pow2_u64(e: u32) -> (r: u64)
    requires
        e <= 62,
    ensures
        r == vstd::arithmetic::power2::pow2(e as nat),
        r >= 1,
{
    proof {
        vstd::arithmetic::power2::lemma2_to64();
        vstd::arithmetic::power2::lemma_pow2_strictly_increases(e as nat, 63);
    }
    let mut i: u32 = 0;
    let mut p: u64 = 1;
    while i < e
        invariant
            i <= e,
            e <= 62,
            p == vstd::arithmetic::power2::pow2(i as nat),
            p >= 1,
        decreases e - i,
    {
        proof {
            vstd::arithmetic::power2::lemma_pow2_unfold((i + 1) as nat);
            vstd::arithmetic::power2::lemma_pow2_strictly_increases((i + 1) as nat, 63);
            vstd::arithmetic::power2::lemma2_to64_rest();
            vstd::arithmetic::power2::lemma2_to64();
        }
        p = p * 2;
        i = i + 1;
    }
    p
}

/// Converts an integer to the bit pattern of the nearest `f32`, rounding
/// ties to even: the promotion applied to integer constants.
pub fn f32_bits_of_i32(num: i32) -> (r: u32)
    ensures
        r == spec_f32_bits_of_i32(num as int),
{
    if num == 0 {
        return 0u32;
    }
    let sign: u32 = if num < 0 {
        1
    } else {
        0
    };
    let m: u64 = if num < 0 {
        (-(num as i64)) as u64
    } else {
        num as u64
    };
    proof {
        assert(1 <= m <= 0x80000000);
    }
    let ghost mn: nat = m as nat;
    proof {
        lemma_ilog2_bounds(mn);
        vstd::arithmetic::power2::lemma2_to64();
        if spec_ilog2(mn) > 31 {
            vstd::arithmetic::power2::lemma_pow2_strictly_increases(31nat, spec_ilog2(mn));
            assert(false);
        }
    }
    let mut e: u32 = 0;
    let mut t: u64 = m;
    while t >= 2
        invariant
            t >= 1,
            spec_ilog2(mn) == e + spec_ilog2(t as nat),
            spec_ilog2(mn) <= 31,
            t <= 0x80000000,
        decreases t,
    {
        proof {
            if t / 2 >= 2 {
                lemma_ilog2_bounds((t / 2) as nat);
            }
            lemma_ilog2_bounds(t as nat);
            vstd::arithmetic::power2::lemma2_to64();
        }
        t = t / 2;
        e = e + 1;
    }
    proof {
        assert(spec_ilog2(t as nat) == 0);
        assert(spec_ilog2(mn) == e);
        lemma_ilog2_bounds(mn);
        vstd::arithmetic::power2::lemma2_to64();
    }
    let sbit: u32 = sign * 0x80000000u32;
    if e <= 23 {
        let scale = pow2_u64(23 - e);
        proof {
            vstd::arithmetic::power2::lemma_pow2_adds((23 - e) as nat, (e + 1) as nat);
            vstd::arithmetic::mul::lemma_mul_strict_inequality(
                mn as int,
                vstd::arithmetic::power2::pow2((e + 1) as nat) as int,
                vstd::arithmetic::power2::pow2((23 - e) as nat) as int,
            );
            vstd::arithmetic::mul::lemma_mul_inequality(
                vstd::arithmetic::power2::pow2(e as nat) as int,
                mn as int,
                vstd::arithmetic::power2::pow2((23 - e) as nat) as int,
            );
            vstd::arithmetic::power2::lemma_pow2_adds((23 - e) as nat, e as nat);
            vstd::arithmetic::mul::lemma_mul_is_commutative(
                vstd::arithmetic::power2::pow2(e as nat) as int,
                vstd::arithmetic::power2::pow2((23 - e) as nat) as int,
            );
            vstd::arithmetic::mul::lemma_mul_is_commutative(
                vstd::arithmetic::power2::pow2((e + 1) as nat) as int,
                vstd::arithmetic::power2::pow2((23 - e) as nat) as int,
            );
            vstd::arithmetic::power2::lemma2_to64();
            assert(mn * vstd::arithmetic::power2::pow2((23 - e) as nat)
                >= vstd::arithmetic::power2::pow2(23nat));
            assert(mn * vstd::arithmetic::power2::pow2((23 - e) as nat)
                < vstd::arithmetic::power2::pow2(24nat));
        }
        let frac: u64 = m * scale - 8388608u64;
        sbit + (e + 127) * 8388608u32 + (frac as u32)
    } else {
        let sh: u32 = e - 23;
        let psh = pow2_u64(sh);
        let q: u64 = m / psh;
        let r: u64 = m % psh;
        let half: u64 = pow2_u64(sh - 1);
        proof {
            vstd::arithmetic::power2::lemma_pow2_adds(sh as nat, 23nat);
            vstd::arithmetic::power2::lemma_pow2_adds(sh as nat, 24nat);
            vstd::arithmetic::div_mod::lemma_div_multiples_vanish_fancy(
                mn as int,
                vstd::arithmetic::power2::pow2(sh as nat) as int,
                vstd::arithmetic::power2::pow2(23nat) as int,
            );
            vstd::arithmetic::power2::lemma2_to64();
            vstd::arithmetic::power2::lemma2_to64_rest();
        }
        proof {
            vstd::arithmetic::div_mod::lemma_div_is_ordered_by_denominator(
                mn as int,
                1,
                vstd::arithmetic::power2::pow2(sh as nat) as int,
            );
            assert(vstd::arithmetic::power2::pow2(23nat) <= mn / vstd::arithmetic::power2::pow2(
                sh as nat,
            ) < vstd::arithmetic::power2::pow2(24nat)) by {
                vstd::arithmetic::div_mod::lemma_div_by_multiple_is_strongly_ordered(
                    mn as int,
                    vstd::arithmetic::power2::pow2((e + 1) as nat) as int,
                    vstd::arithmetic::power2::pow2(24nat) as int,
                    vstd::arithmetic::power2::pow2(sh as nat) as int,
                );
                vstd::arithmetic::div_mod::lemma_div_multiples_vanish(
                    vstd::arithmetic::power2::pow2(23nat) as int,
                    vstd::arithmetic::power2::pow2(sh as nat) as int,
                );
                vstd::arithmetic::div_mod::lemma_div_multiples_vanish(
                    vstd::arithmetic::power2::pow2(24nat) as int,
                    vstd::arithmetic::power2::pow2(sh as nat) as int,
                );
                vstd::arithmetic::div_mod::lemma_div_is_ordered(
                    vstd::arithmetic::power2::pow2(e as nat) as int,
                    mn as int,
                    vstd::arithmetic::power2::pow2(sh as nat) as int,
                );
                vstd::arithmetic::div_mod::lemma_div_multiples_vanish(
                    vstd::arithmetic::power2::pow2(23nat) as int,
                    vstd::arithmetic::power2::pow2(sh as nat) as int,
                );
            }
        }
        let q1: u64 = if r > half || (r == half && q % 2 == 1) {
            q + 1
        } else {
            q
        };
        if q1 == 16777216u64 {
            sbit + (e + 1 + 127) * 8388608u32
        } else {
            sbit + (e + 127) * 8388608u32 + (q1 as u32 - 8388608u32)
        }
    }
}

} // verus!

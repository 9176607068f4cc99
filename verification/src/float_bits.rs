//! The values that IEEE 754 bit patterns stand for, and the tests and
//! roundings that rendering makes on them.
//!
//! A finite binary32 value is an integer multiple of 2^-149, and a finite
//! binary64 value one of 2^-1074. The specifications below give the value of
//! a bit pattern as that integer, so every comparison is between integers.

use vstd::arithmetic::power2::{
    lemma2_to64, lemma2_to64_rest, lemma_pow2_adds, lemma_pow2_pos, lemma_pow2_strictly_increases,
    lemma_pow2_unfold, pow2,
};
use vstd::prelude::*;

verus! {

/// The biased exponent field of a binary32 bit pattern.
pub open spec fn f32_exponent(bits: u32) -> u32 {
    (bits >> 23) & 0xff
}

/// The fraction field of a binary32 bit pattern.
pub open spec fn f32_fraction(bits: u32) -> u32 {
    bits & 0x7f_ffff
}

/// Whether a binary32 bit pattern is a number, rather than an infinity or a NaN.
pub open spec fn f32_is_finite(bits: u32) -> bool {
    f32_exponent(bits) != 0xff
}

/// The magnitude of a finite binary32 value, in units of 2^-149.
pub open spec fn f32_magnitude(bits: u32) -> int {
    let fraction = f32_fraction(bits) as int;
    if f32_exponent(bits) == 0 {
        fraction
    } else {
        (0x80_0000 + fraction) * pow2((f32_exponent(bits) - 1) as nat)
    }
}

/// A finite binary32 value, in units of 2^-149.
pub open spec fn f32_units(bits: u32) -> int {
    if bits >> 31 == 0 {
        f32_magnitude(bits)
    } else {
        -f32_magnitude(bits)
    }
}

/// The value 1 in units of 2^-149.
pub open spec fn f32_one() -> int {
    pow2(149) as int
}

/// The distance from 1 to the next larger binary32 value, in units of 2^-149.
pub open spec fn f32_epsilon() -> int {
    pow2(126) as int
}

/// Whether a binary32 value is a number within one epsilon of `center`
/// (which is given in units of 2^-149).
pub open spec fn f32_within_epsilon(bits: u32, center: int) -> bool {
    &&& f32_is_finite(bits)
    &&& center - f32_epsilon() <= f32_units(bits) <= center + f32_epsilon()
}

/// The magnitude of a finite value grows with the pattern of its lower 31 bits.
proof fn lemma_f32_magnitude_increases(a: u32, b: u32)
    requires
        a < b,
        b < 0x7f80_0000,
    ensures
        f32_magnitude(a) < f32_magnitude(b),
        f32_is_finite(a),
        f32_is_finite(b),
{
    assert(a < b && b < 0x7f80_0000 ==> {
        let ea = (a >> 23) & 0xff;
        let eb = (b >> 23) & 0xff;
        let fa = a & 0x7f_ffff;
        let fb = b & 0x7f_ffff;
        &&& ea <= eb < 0xff
        &&& (ea == eb ==> fa < fb)
        &&& fa < 0x80_0000
        &&& fb < 0x80_0000
    }) by (bit_vector);
    let ea = f32_exponent(a);
    let eb = f32_exponent(b);
    let fa = f32_fraction(a) as int;
    let fb = f32_fraction(b) as int;
    if eb == 0 {
    } else if ea == eb {
        let p = pow2((eb - 1) as nat) as int;
        lemma_pow2_pos((eb - 1) as nat);
        assert((0x80_0000 + fa) * p < (0x80_0000 + fb) * p) by (nonlinear_arith)
            requires
                fa < fb,
                p > 0,
        ;
    } else {
        let p = pow2((eb - 1) as nat) as int;
        lemma_pow2_pos((eb - 1) as nat);
        assert(f32_magnitude(b) >= 0x80_0000 * p) by (nonlinear_arith)
            requires
                f32_magnitude(b) == (0x80_0000 + fb) * p,
                fb >= 0,
                p > 0,
        ;
        if ea == 0 {
            assert(0x80_0000 * p >= 0x80_0000) by (nonlinear_arith)
                requires
                    p > 0,
            ;
        } else {
            let q = pow2((ea - 1) as nat) as int;
            lemma_pow2_pos((ea - 1) as nat);
            assert(2 * q <= p) by {
                lemma_pow2_adds(1, (ea - 1) as nat);
                vstd::arithmetic::power2::lemma2_to64();
                if ea < eb - 1 {
                    lemma_pow2_strictly_increases(ea as nat, (eb - 1) as nat);
                }
            }
            assert((0x80_0000 + fa) * q < 0x80_0000 * p) by (nonlinear_arith)
                requires
                    0 <= fa < 0x80_0000,
                    q > 0,
                    2 * q <= p,
            ;
        }
    }
}

/// The magnitudes of the three patterns that the tests below compare with.
proof fn lemma_f32_landmarks()
    ensures
        f32_magnitude(0x3400_0000) == f32_epsilon(),
        f32_magnitude(0x3f7f_fffe) == f32_one() - f32_epsilon(),
        f32_magnitude(0x3f80_0001) == f32_one() + f32_epsilon(),
{
    assert((0x3400_0000u32 >> 23) & 0xff == 104 && 0x3400_0000u32 & 0x7f_ffff == 0) by (bit_vector);
    assert((0x3f7f_fffeu32 >> 23) & 0xff == 126 && 0x3f7f_fffeu32 & 0x7f_ffff == 0x7f_fffe)
        by (bit_vector);
    assert((0x3f80_0001u32 >> 23) & 0xff == 127 && 0x3f80_0001u32 & 0x7f_ffff == 1)
        by (bit_vector);
    vstd::arithmetic::power2::lemma2_to64();
    lemma_pow2_adds(23, 103);
    lemma_pow2_adds(23, 126);
    lemma_pow2_adds(24, 125);
    lemma_pow2_adds(1, 125);
    assert(f32_magnitude(0x3f7f_fffe) == 0xff_fffe * pow2(125));
    assert(f32_magnitude(0x3f80_0001) == 0x80_0001 * pow2(126));
}

/// Whether a binary32 value is within one epsilon of zero.
pub fn f32_is_near_zero(bits: u32) -> (near: bool)
    ensures
        near == f32_within_epsilon(bits, 0),
{
    let magnitude: u32 = bits & 0x7fff_ffff;
    proof {
        assert(bits & 0x7fff_ffff < 0x8000_0000 && ((bits & 0x7fff_ffff) >> 23) & 0xff == (bits >> 23)
            & 0xff && (bits & 0x7fff_ffff) & 0x7f_ffff == bits & 0x7f_ffff) by (bit_vector);
        assert(f32_magnitude(bits) == f32_magnitude(magnitude));
        lemma_f32_landmarks();
        assert(magnitude >= 0x7f80_0000 && magnitude < 0x8000_0000 ==> (magnitude >> 23) & 0xff == 0xff)
            by (bit_vector);
        lemma_pow2_pos(126);
        if magnitude < 0x3400_0000 {
            lemma_f32_magnitude_increases(magnitude, 0x3400_0000);
            if f32_exponent(bits) != 0 {
                lemma_pow2_pos((f32_exponent(bits) - 1) as nat);
                assert(f32_magnitude(bits) >= 0) by (nonlinear_arith)
                    requires
                        f32_magnitude(bits) == (0x80_0000 + f32_fraction(bits)) * pow2(
                            (f32_exponent(bits) - 1) as nat,
                        ),
                ;
            }
        } else if 0x3400_0000 < magnitude && magnitude < 0x7f80_0000 {
            lemma_f32_magnitude_increases(0x3400_0000, magnitude);
        }
        assert((0x3400_0000u32 >> 23) & 0xff == 104) by (bit_vector);
    }
    magnitude <= 0x3400_0000
}

/// Whether a binary32 value is within one epsilon of one.
pub fn f32_is_near_one(bits: u32) -> (near: bool)
    ensures
        near == f32_within_epsilon(bits, f32_one()),
{
    proof {
        lemma_f32_landmarks();
        lemma_pow2_pos(126);
        lemma_pow2_strictly_increases(126, 149);
        if bits < 0x8000_0000 {
            assert(bits < 0x8000_0000 ==> bits >> 31 == 0) by (bit_vector);
            assert(bits >= 0x7f80_0000 && bits < 0x8000_0000 ==> (bits >> 23) & 0xff == 0xff)
                by (bit_vector);
            if bits < 0x3f7f_fffe {
                lemma_f32_magnitude_increases(bits, 0x3f7f_fffe);
            }
            if 0x3f7f_fffe < bits && bits < 0x7f80_0000 {
                lemma_f32_magnitude_increases(0x3f7f_fffe, bits);
            }
            if bits < 0x3f80_0001 {
                lemma_f32_magnitude_increases(bits, 0x3f80_0001);
            }
            if 0x3f80_0001 < bits && bits < 0x7f80_0000 {
                lemma_f32_magnitude_increases(0x3f80_0001, bits);
            }
            assert((0x3f7f_fffeu32 >> 23) & 0xff == 126) by (bit_vector);
            assert((0x3f80_0001u32 >> 23) & 0xff == 127) by (bit_vector);
        } else {
            assert(bits >= 0x8000_0000 ==> bits >> 31 != 0) by (bit_vector);
            if f32_exponent(bits) != 0 {
                lemma_pow2_pos((f32_exponent(bits) - 1) as nat);
                assert(f32_magnitude(bits) >= 0) by (nonlinear_arith)
                    requires
                        f32_magnitude(bits) == (0x80_0000 + f32_fraction(bits)) * pow2(
                            (f32_exponent(bits) - 1) as nat,
                        ),
                ;
            }
        }
    }
    0x3f7f_fffe <= bits && bits <= 0x3f80_0001
}

/// The biased exponent field of a binary64 bit pattern.
pub open spec fn f64_exponent(bits: u64) -> u64 {
    (bits >> 52) & 0x7ff
}

/// The fraction field of a binary64 bit pattern.
pub open spec fn f64_fraction(bits: u64) -> u64 {
    bits & 0xf_ffff_ffff_ffff
}

/// Whether the sign bit of a binary64 bit pattern is set.
pub open spec fn f64_is_negative(bits: u64) -> bool {
    bits >> 63 != 0
}

/// Whether a binary64 bit pattern is a NaN.
pub open spec fn f64_is_nan(bits: u64) -> bool {
    f64_exponent(bits) == 0x7ff && f64_fraction(bits) != 0
}

/// Whether a binary64 bit pattern is an infinity.
pub open spec fn f64_is_infinite(bits: u64) -> bool {
    f64_exponent(bits) == 0x7ff && f64_fraction(bits) == 0
}

/// Whether a binary64 bit pattern is a zero.
pub open spec fn f64_is_zero(bits: u64) -> bool {
    f64_exponent(bits) == 0 && f64_fraction(bits) == 0
}

/// The magnitude of a finite binary64 value, in units of 2^-1074.
pub open spec fn f64_magnitude(bits: u64) -> int {
    let fraction = f64_fraction(bits) as int;
    if f64_exponent(bits) == 0 {
        fraction
    } else {
        (0x10_0000_0000_0000 + fraction) * pow2((f64_exponent(bits) - 1) as nat)
    }
}

/// A finite binary64 value, in units of 2^-1074.
pub open spec fn f64_units(bits: u64) -> int {
    if f64_is_negative(bits) {
        -f64_magnitude(bits)
    } else {
        f64_magnitude(bits)
    }
}

/// The value 1 in units of 2^-1074.
pub open spec fn f64_one() -> int {
    pow2(1074) as int
}

/// The largest integer that is not above a finite binary64 value.
pub open spec fn f64_floor(bits: u64) -> int {
    f64_units(bits) / f64_one()
}

/// The smallest integer that is not below a finite binary64 value.
pub open spec fn f64_ceil(bits: u64) -> int {
    -((-f64_units(bits)) / f64_one())
}

/// The value nearest to `value` among those from zero to `limit`.
pub open spec fn clamped(value: int, limit: u32) -> int {
    if value < 0 {
        0
    } else if value > limit {
        limit as int
    } else {
        value
    }
}

/// A binary64 value other than a NaN, rounded down and brought between zero and
/// `limit`.
pub open spec fn f64_clamped_floor(bits: u64, limit: u32) -> int {
    if !f64_is_infinite(bits) {
        clamped(f64_floor(bits), limit)
    } else if f64_is_negative(bits) {
        0
    } else {
        limit as int
    }
}

/// A binary64 value other than a NaN, rounded up and brought between zero and
/// `limit`.
pub open spec fn f64_clamped_ceil(bits: u64, limit: u32) -> int {
    if !f64_is_infinite(bits) {
        clamped(f64_ceil(bits), limit)
    } else if f64_is_negative(bits) {
        0
    } else {
        limit as int
    }
}

/// Rounding of a magnitude that is a whole number of ones and a rest.
proof fn lemma_round_parts(magnitude: int, whole: int, rest: int)
    requires
        magnitude == whole * f64_one() + rest,
        0 <= rest < f64_one(),
    ensures
        magnitude / f64_one() == whole,
        -((-magnitude) / f64_one()) == if rest == 0 {
            whole
        } else {
            whole + 1
        },
{
    let one = f64_one();
    vstd::arithmetic::div_mod::lemma_fundamental_div_mod_converse(magnitude, one, whole, rest);
    if rest == 0 {
        assert(-magnitude == (-whole) * one + 0) by (nonlinear_arith)
            requires
                magnitude == whole * one,
        ;
        vstd::arithmetic::div_mod::lemma_fundamental_div_mod_converse(-magnitude, one, -whole, 0);
    } else {
        assert(-magnitude == (-whole - 1) * one + (one - rest)) by (nonlinear_arith)
            requires
                magnitude == whole * one + rest,
        ;
        vstd::arithmetic::div_mod::lemma_fundamental_div_mod_converse(
            -magnitude,
            one,
            -whole - 1,
            one - rest,
        );
    }
}

/// Rounding of a value without a positive part.
proof fn lemma_round_negative(bits: u64)
    requires
        f64_is_negative(bits),
    ensures
        f64_floor(bits) <= 0,
        f64_ceil(bits) <= 0,
{
    let one = f64_one();
    let magnitude = f64_magnitude(bits);
    lemma_pow2_pos(1074);
    assert(magnitude >= 0) by {
        if f64_exponent(bits) != 0 {
            let p = pow2((f64_exponent(bits) - 1) as nat) as int;
            lemma_pow2_pos((f64_exponent(bits) - 1) as nat);
            assert((0x10_0000_0000_0000 + f64_fraction(bits)) * p >= 0) by (nonlinear_arith)
                requires
                    p > 0,
            ;
        }
    }
    assert((-magnitude) / one <= 0) by (nonlinear_arith)
        requires
            magnitude >= 0,
            one > 0,
    ;
    assert(magnitude / one >= 0) by (nonlinear_arith)
        requires
            magnitude >= 0,
            one > 0,
    ;
    assert(-(-magnitude) == magnitude);
}

/// Rounding of a value below one.
proof fn lemma_round_small(bits: u64)
    requires
        !f64_is_negative(bits),
        f64_exponent(bits) < 1023,
    ensures
        f64_floor(bits) == 0,
        f64_ceil(bits) == if f64_exponent(bits) == 0 && f64_fraction(bits) == 0 {
            0int
        } else {
            1
        },
{
    let magnitude = f64_magnitude(bits);
    let fraction = f64_fraction(bits);
    assert(bits & 0xf_ffff_ffff_ffff < 0x10_0000_0000_0000) by (bit_vector);
    vstd::arithmetic::power2::lemma2_to64();
    vstd::arithmetic::power2::lemma2_to64_rest();
    if f64_exponent(bits) == 0 {
        lemma_pow2_strictly_increases(52, 1074);
    } else {
        let e = (f64_exponent(bits) - 1) as nat;
        let p = pow2(e) as int;
        lemma_pow2_pos(e);
        lemma_pow2_adds(53, e);
        if 53 + e < 1074 {
            lemma_pow2_strictly_increases(53 + e, 1074);
        }
        assert(0 < (0x10_0000_0000_0000 + fraction) * p < 0x20_0000_0000_0000 * p)
            by (nonlinear_arith)
            requires
                0 <= fraction < 0x10_0000_0000_0000,
                p > 0,
        ;
    }
    lemma_round_parts(magnitude, 0, magnitude);
}

/// Rounding of a value of at least 2^32.
proof fn lemma_round_large(bits: u64)
    requires
        !f64_is_negative(bits),
        1055 <= f64_exponent(bits) < 0x7ff,
    ensures
        f64_floor(bits) > u32::MAX,
        f64_ceil(bits) > u32::MAX,
{
    let one = f64_one();
    let magnitude = f64_magnitude(bits);
    let e = (f64_exponent(bits) - 1) as nat;
    let p = pow2(e) as int;
    lemma_pow2_pos(e);
    lemma_pow2_pos(1074);
    vstd::arithmetic::power2::lemma2_to64();
    vstd::arithmetic::power2::lemma2_to64_rest();
    lemma_pow2_adds(52, e);
    lemma_pow2_adds(32, 1074);
    if 1106 < 52 + e {
        lemma_pow2_strictly_increases(1106, 52 + e);
    }
    assert(magnitude >= 0x10_0000_0000_0000 * p) by (nonlinear_arith)
        requires
            magnitude == (0x10_0000_0000_0000 + f64_fraction(bits)) * p,
            p > 0,
    ;
    assert(magnitude >= 0x1_0000_0000 * one);
    assert(magnitude / one >= 0x1_0000_0000) by (nonlinear_arith)
        requires
            magnitude >= 0x1_0000_0000 * one,
            one > 0,
    ;
    assert((-magnitude) / one <= -0x1_0000_0000) by (nonlinear_arith)
        requires
            magnitude >= 0x1_0000_0000 * one,
            one > 0,
    ;
}

/// Rounding of a value from one to 2^32.
proof fn lemma_round_middle(bits: u64)
    requires
        !f64_is_negative(bits),
        1023 <= f64_exponent(bits) < 1055,
    ensures
        ({
            let significand = 0x10_0000_0000_0000 + f64_fraction(bits);
            let unit = pow2((1075 - f64_exponent(bits)) as nat) as int;
            &&& f64_floor(bits) == significand / unit
            &&& f64_ceil(bits) == if significand % unit == 0 {
                significand / unit
            } else {
                significand / unit + 1
            }
        }),
{
    let significand = 0x10_0000_0000_0000 + f64_fraction(bits);
    let e = (f64_exponent(bits) - 1) as nat;
    let s = (1075 - f64_exponent(bits)) as nat;
    let p = pow2(e) as int;
    let unit = pow2(s) as int;
    lemma_pow2_pos(e);
    lemma_pow2_pos(s);
    lemma_pow2_adds(e, s);
    vstd::arithmetic::div_mod::lemma_fundamental_div_mod(significand, unit);
    let whole = significand / unit;
    let rest = significand % unit;
    assert(significand * p == whole * (p * unit) + rest * p) by (nonlinear_arith)
        requires
            significand == unit * whole + rest,
    ;
    assert(0 <= rest * p < p * unit) by (nonlinear_arith)
        requires
            0 <= rest < unit,
            p > 0,
    ;
    assert(rest * p == 0 <==> rest == 0) by (nonlinear_arith)
        requires
            0 <= rest,
            p > 0,
    ;
    lemma_round_parts(significand * p, whole, rest * p);
}

/// Whether a binary64 bit pattern is a NaN.
pub fn f64_nan(bits: u64) -> (nan: bool)
    ensures
        nan == f64_is_nan(bits),
{
    (bits >> 52) & 0x7ff == 0x7ff && bits & 0xf_ffff_ffff_ffff != 0
}

/// Rounds a binary64 value other than a NaN down, or up where `up` holds, and
/// brings the result between zero and `limit`.
pub fn f64_rounded_clamped(bits: u64, up: bool, limit: u32) -> (rounded: u32)
    requires
        !f64_is_nan(bits),
    ensures
        rounded == if up {
            f64_clamped_ceil(bits, limit)
        } else {
            f64_clamped_floor(bits, limit)
        },
{
    let exponent: u64 = (bits >> 52) & 0x7ff;
    let fraction: u64 = bits & 0xf_ffff_ffff_ffff;
    if bits >> 63 != 0 {
        proof {
            lemma_round_negative(bits);
        }
        return 0;
    }
    if exponent >= 1055 {
        proof {
            assert((bits >> 52) & 0x7ff <= 0x7ff) by (bit_vector);
            if exponent < 0x7ff {
                lemma_round_large(bits);
            }
        }
        return limit;
    }
    let rounded: u64 = if exponent < 1023 {
        proof {
            lemma_round_small(bits);
        }
        if up && (exponent != 0 || fraction != 0) {
            1
        } else {
            0
        }
    } else {
        proof {
            lemma_round_middle(bits);
            assert(bits & 0xf_ffff_ffff_ffff < 0x10_0000_0000_0000) by (bit_vector);
        }
        let significand: u64 = 0x10_0000_0000_0000 + fraction;
        let shift: u64 = 1075 - exponent;
        let whole: u64 = significand >> shift;
        proof {
            vstd::bits::lemma_u64_shr_is_div(significand, shift);
            vstd::bits::lemma_u64_pow2_no_overflow(shift as nat);
            lemma_pow2_pos(shift as nat);
            vstd::arithmetic::div_mod::lemma_fundamental_div_mod(
                significand as int,
                pow2(shift as nat) as int,
            );
            assert(whole * pow2(shift as nat) == pow2(shift as nat) * whole) by (nonlinear_arith);
            vstd::bits::lemma_u64_shl_is_mul(whole, shift);
            assert(whole <= significand) by (nonlinear_arith)
                requires
                    whole == significand as int / (pow2(shift as nat) as int),
                    pow2(shift as nat) > 0,
            ;
        }
        if up && (whole << shift) != significand {
            whole + 1
        } else {
            whole
        }
    };
    if rounded > limit as u64 {
        limit
    } else {
        rounded as u32
    }
}

/// A binary64 bit pattern, taken apart: its value is its significand, in units of a
/// power of two.
#[derive(Clone, Copy, Debug, PartialEq, Eq)]
pub struct F64Parts {
    pub significand: u64,
    /// The exponent of the unit, in steps above 2^-1074.
    pub exponent: u32,
    pub is_negative: bool,
    /// Whether the bit pattern is an infinity or a NaN.
    pub is_special: bool,
}

impl F64Parts {
    /// Whether the parts are in the range of binary64 values.
    pub open spec fn wf(self) -> bool {
        self.significand < 0x20_0000_0000_0000 && self.exponent <= 0x7fe
    }

    /// Their magnitude, in units of 2^-1074.
    pub open spec fn magnitude(self) -> int {
        self.significand * pow2(self.exponent as nat)
    }

    /// Whether these are the parts of a bit pattern.
    pub open spec fn are_of(self, bits: u64) -> bool {
        &&& self.wf()
        &&& self.magnitude() == f64_magnitude(bits)
        &&& self.significand == 0 <==> f64_is_zero(bits)
        &&& self.is_negative == f64_is_negative(bits)
        &&& self.is_special == (f64_exponent(bits) == 0x7ff)
        &&& f64_exponent(bits) <= 0x7ff
    }
}

/// Takes a binary64 bit pattern apart.
pub fn f64_parts(bits: u64) -> (parts: F64Parts)
    ensures
        parts.are_of(bits),
{
    let exponent: u64 = (bits >> 52) & 0x7ff;
    let fraction: u64 = bits & 0xf_ffff_ffff_ffff;
    assert((bits >> 52) & 0x7ff <= 0x7ff && bits & 0xf_ffff_ffff_ffff <= 0xf_ffff_ffff_ffff)
        by (bit_vector);
    let (significand, exponent_above): (u64, u32) = if exponent == 0 {
        proof {
            lemma2_to64();
        }
        (fraction, 0)
    } else {
        (0x10_0000_0000_0000 + fraction, (exponent - 1) as u32)
    };
    F64Parts {
        significand,
        exponent: exponent_above,
        is_negative: bits >> 63 != 0,
        is_special: exponent == 0x7ff,
    }
}

/// A number, doubled some times.
fn doubled(value: u64, times: u32) -> (product: u128)
    requires
        value < 0x20_0000_0000_0000,
        times <= 53,
    ensures
        product == value * pow2(times as nat),
{
    let mut product: u128 = value as u128;
    let mut i: u32 = 0;
    proof {
        lemma2_to64();
    }
    while i < times
        invariant
            i <= times <= 53,
            value < 0x20_0000_0000_0000,
            product == value * pow2(i as nat),
        decreases times - i,
    {
        proof {
            lemma_pow2_unfold((i + 1) as nat);
            lemma_pow2_monotone(i as nat, 53);
            lemma2_to64_rest();
            assert(value * pow2(i as nat) <= 0x20_0000_0000_0000 * 0x20_0000_0000_0000)
                by (nonlinear_arith)
                requires
                    value < 0x20_0000_0000_0000,
                    pow2(i as nat) <= 0x20_0000_0000_0000,
            ;
            assert(value * (2 * pow2(i as nat)) == 2 * (value * pow2(i as nat)))
                by (nonlinear_arith);
        }
        product = 2 * product;
        i += 1;
    }
    product
}

/// Powers of two do not decrease.
proof fn lemma_pow2_monotone(a: nat, b: nat)
    requires
        a <= b,
    ensures
        pow2(a) <= pow2(b),
{
    if a < b {
        lemma_pow2_strictly_increases(a, b);
    }
}

/// Numbers times a common power of two are in the same order as without it.
proof fn lemma_common_power(a: int, b: int, power: nat)
    ensures
        a * pow2(power) >= b * pow2(power) <==> a >= b,
{
    lemma_pow2_pos(power);
    assert(a * pow2(power) >= b * pow2(power) <==> a >= b) by (nonlinear_arith)
        requires
            pow2(power) > 0,
    ;
}

/// Whether a magnitude is at least another one, times a power of two.
pub fn f64_at_least(a: F64Parts, exponent: u32, b: F64Parts) -> (at_least: bool)
    requires
        a.wf(),
        b.wf(),
        exponent <= 0x7fe,
    ensures
        at_least == (a.magnitude() >= pow2(exponent as nat) * b.magnitude()),
{
    let above: u32 = exponent + b.exponent;
    proof {
        lemma_pow2_adds(exponent as nat, b.exponent as nat);
        assert(pow2(exponent as nat) * (b.significand * pow2(b.exponent as nat)) == b.significand
            * pow2(above as nat)) by (nonlinear_arith)
            requires
                pow2(above as nat) == pow2(exponent as nat) * pow2(b.exponent as nat),
        ;
    }
    if a.exponent >= above {
        let steps: u32 = a.exponent - above;
        proof {
            lemma_pow2_adds(steps as nat, above as nat);
            assert(a.significand * pow2(a.exponent as nat) == (a.significand * pow2(steps as nat))
                * pow2(above as nat)) by (nonlinear_arith)
                requires
                    pow2(a.exponent as nat) == pow2(steps as nat) * pow2(above as nat),
            ;
            lemma_common_power(
                a.significand * pow2(steps as nat),
                b.significand as int,
                above as nat,
            );
        }
        if steps > 53 {
            proof {
                lemma_pow2_monotone(53, steps as nat);
                lemma2_to64_rest();
                let product = a.significand * pow2(steps as nat);
                assert(a.significand > 0 ==> product >= 0x20_0000_0000_0000)
                    by (nonlinear_arith)
                    requires
                        product == a.significand * pow2(steps as nat),
                        pow2(steps as nat) >= 0x20_0000_0000_0000,
                ;
                assert(a.significand == 0 ==> product == 0) by (nonlinear_arith)
                    requires
                        product == a.significand * pow2(steps as nat),
                ;
            }
            a.significand > 0 || b.significand == 0
        } else {
            doubled(a.significand, steps) >= b.significand as u128
        }
    } else {
        let steps: u32 = above - a.exponent;
        proof {
            lemma_pow2_adds(steps as nat, a.exponent as nat);
            assert(b.significand * pow2(above as nat) == (b.significand * pow2(steps as nat)) * pow2(
                a.exponent as nat,
            )) by (nonlinear_arith)
                requires
                    pow2(above as nat) == pow2(steps as nat) * pow2(a.exponent as nat),
            ;
            lemma_common_power(
                a.significand as int,
                b.significand * pow2(steps as nat),
                a.exponent as nat,
            );
        }
        if steps > 53 {
            proof {
                lemma_pow2_monotone(53, steps as nat);
                lemma2_to64_rest();
                let product = b.significand * pow2(steps as nat);
                assert(b.significand > 0 ==> product >= 0x20_0000_0000_0000)
                    by (nonlinear_arith)
                    requires
                        product == b.significand * pow2(steps as nat),
                        pow2(steps as nat) >= 0x20_0000_0000_0000,
                ;
                assert(b.significand == 0 ==> product == 0) by (nonlinear_arith)
                    requires
                        product == b.significand * pow2(steps as nat),
                ;
            }
            b.significand == 0
        } else {
            a.significand as u128 >= doubled(b.significand, steps)
        }
    }
}

} // verus!

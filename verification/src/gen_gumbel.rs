//! The integer side of the Gumbel variate engine.
//!
//! A uniform value in `[0, 1)` is held as a 23-bit numerator over `UNIT`, the
//! same 23 bits that make up the mantissa of a single-precision number in
//! `[1, 2)`. A register code is the floor of a variate, cut down to
//! `MIN_REGISTER_VALUE..=MAX_REGISTER_VALUE` and moved up by `BIAS`.

use vstd::prelude::*;

verus! {

/// The least level that a register can record.
pub const MIN_REGISTER_VALUE: i32 = -16;

/// The greatest level that a register can record.
pub const MAX_REGISTER_VALUE: i32 = 15;

/// What is added to a level to make it a register code.
pub const BIAS: i32 = 16;

/// The denominator of uniform values and calibration constants: `2^23`.
pub const UNIT: u32 = 0x80_0000;

/// The bit pattern of the single-precision number 1.0: sign 0, exponent 127,
/// mantissa 0.
pub const ONE_BITS: u32 = 0x3f80_0000;

/// The numerator over `UNIT` of the uniform value that `bits` stand for:
/// their 23 high bits.
pub open spec fn spec_mantissa(bits: u32) -> u32 {
    bits / 512
}

/// The register code of a variate whose floor is `level`.
pub open spec fn spec_shift_round(level: int) -> int {
    if level < MIN_REGISTER_VALUE {
        MIN_REGISTER_VALUE + BIAS
    } else if level > MAX_REGISTER_VALUE {
        MAX_REGISTER_VALUE + BIAS
    } else {
        level + BIAS
    }
}

/// The level that a register recorded, with the calibration constant taken
/// off again, as a numerator over `UNIT`.
pub open spec fn spec_recovered(code: u32, calibration: u32) -> int {
    (code - BIAS) * UNIT - calibration
}

/// The 23 high bits of `bits`: the numerator over `UNIT` of a uniform value
/// in `[0, 1)`.
pub fn mantissa(bits: u32) -> (m: u32)
    ensures
        m == spec_mantissa(bits),
        m < UNIT,
{
    let m: u32 = bits >> 9;
    proof {
        assert(bits >> 9 == bits / 512 && (bits >> 9) < 0x80_0000u32) by (bit_vector);
    }
    m
}

/// The bit pattern of the single-precision number in `[1, 2)` whose mantissa
/// is the 23 high bits of `bits`: exponent field 127, sign 0. That number
/// less one is the uniform value `spec_mantissa(bits) / UNIT`.
pub fn mantissa_to_float_bits(bits: u32) -> (pattern: u32)
    ensures
        pattern == ONE_BITS + spec_mantissa(bits),
        ONE_BITS <= pattern < ONE_BITS + UNIT,
{
    let exponent_bits: u32 = 127u32 << 23;
    let mantissa_bits: u32 = bits >> 9;
    let pattern: u32 = exponent_bits | mantissa_bits;
    proof {
        assert(((127u32 << 23) | (bits >> 9)) == 0x3f80_0000u32 + bits / 512 && bits / 512
            < 0x80_0000u32) by (bit_vector);
    }
    pattern
}

/// The register code of a variate whose floor is `level`: the level cut down
/// to `MIN_REGISTER_VALUE..=MAX_REGISTER_VALUE`, then raised by `BIAS`.
pub fn shift_round(level: i32) -> (code: u32)
    ensures
        code == spec_shift_round(level as int),
        code <= 31,
{
    let clamped: i32 = if level < MIN_REGISTER_VALUE {
        MIN_REGISTER_VALUE
    } else if level > MAX_REGISTER_VALUE {
        MAX_REGISTER_VALUE
    } else {
        level
    };
    (clamped + BIAS) as u32
}

/// A higher level never gives a lower register code.
pub proof fn lemma_shift_round_monotonic(low: int, high: int)
    requires
        low <= high,
    ensures
        spec_shift_round(low) <= spec_shift_round(high),
        0 <= spec_shift_round(low) <= 31,
{
}

/// The level that a register recorded, with the calibration constant taken
/// off again, as a numerator over `UNIT`.
pub fn recovered(code: u32, calibration: u32) -> (value: i64)
    ensures
        value == spec_recovered(code, calibration),
{
    let level: i64 = code as i64 - BIAS as i64;
    let unit: i64 = UNIT as i64;
    assert(-16 * 0x80_0000 <= level * unit <= 0xffff_ffff * 0x80_0000) by (nonlinear_arith)
        requires
            -16 <= level <= 0xffff_ffff,
            unit == 0x80_0000,
    ;
    level * unit - calibration as i64
}

} // verus!

//! `f32` values as the telemetry formats carry them: by their IEEE 754 bit
//! patterns. The comparisons the decoders make (finite or not, below zero,
//! above one) are questions about those bits, and the clamps they apply
//! are answered with bits too.

use vstd::prelude::*;

verus! {

/// The exponent field of an `f32`'s bits: all ones for NaN and infinity.
pub const F32_EXP_MASK: u32 = 0x7f80_0000;

/// The fraction field of an `f32`'s bits.
pub const F32_FRACTION_MASK: u32 = 0x007f_ffff;

/// The sign bit of an `f32`.
pub const F32_SIGN: u32 = 0x8000_0000;

/// The bits of the `f32` 1.0.
pub const F32_ONE: u32 = 0x3f80_0000;

/// The bits of the `f32` -1.0.
pub const F32_MINUS_ONE: u32 = 0xbf80_0000;

/// Whether the `f32` with these bits is finite (neither NaN nor infinite).
pub open spec fn f32_bits_finite(b: u32) -> bool {
    b & F32_EXP_MASK != F32_EXP_MASK
}

/// Whether the `f32` with these bits is a NaN.
pub open spec fn f32_bits_nan(b: u32) -> bool {
    b & F32_EXP_MASK == F32_EXP_MASK && b & F32_FRACTION_MASK != 0
}

/// Whether the `f32` with these bits compares below zero: a negative
/// number or -infinity, but not -0.0 and not a NaN.
pub open spec fn f32_bits_below_zero(b: u32) -> bool {
    b & F32_SIGN != 0 && b != F32_SIGN && !f32_bits_nan(b)
}

/// Whether the `f32` with these bits compares above 1.0 (+infinity
/// included, a NaN not).
pub open spec fn f32_bits_above_one(b: u32) -> bool {
    b & F32_SIGN == 0 && b > F32_ONE && !f32_bits_nan(b)
}

/// `f32::clamp(x, 0.0, 1.0)` on bits: a NaN stays as it is, anything below
/// zero becomes 0.0, anything above one becomes 1.0, the rest (-0.0
/// included) is unchanged.
pub open spec fn clamp_unit_interval(b: u32) -> u32 {
    if f32_bits_below_zero(b) {
        0
    } else if f32_bits_above_one(b) {
        F32_ONE
    } else {
        b
    }
}

/// `f32::clamp(x, 0.0, 1.0)` on the bits of `x`.
pub fn clamp01(b: u32) -> (r: u32)
    ensures
        r == clamp_unit_interval(b),
{
    let nan = b & F32_EXP_MASK == F32_EXP_MASK && b & F32_FRACTION_MASK != 0;
    if b & F32_SIGN != 0 && b != F32_SIGN && !nan {
        0
    } else if b & F32_SIGN == 0 && b > F32_ONE && !nan {
        F32_ONE
    } else {
        b
    }
}

/// Whether the bits are those of a finite `f32`.
pub fn is_finite(b: u32) -> (r: bool)
    ensures
        r == f32_bits_finite(b),
{
    b & F32_EXP_MASK != F32_EXP_MASK
}

/// Whether the bits are those of a NaN.
pub fn is_nan(b: u32) -> (r: bool)
    ensures
        r == f32_bits_nan(b),
{
    b & F32_EXP_MASK == F32_EXP_MASK && b & F32_FRACTION_MASK != 0
}

/// The little-endian `u32` at `off` in `b`.
pub open spec fn u32_le(b: Seq<u8>, off: int) -> u32 {
    (b[off] as int + b[off + 1] as int * 0x100 + b[off + 2] as int * 0x1_0000 + b[off + 3] as int
        * 0x100_0000) as u32
}

/// Read the little-endian `u32` at `off`.
pub fn u32_at(buf: &[u8], off: usize) -> (r: u32)
    requires
        off + 4 <= buf@.len(),
    ensures
        r == u32_le(buf@, off as int),
{
    let v: u32 = buf[off] as u32 + buf[off + 1] as u32 * 0x100 + buf[off + 2] as u32 * 0x1_0000
        + buf[off + 3] as u32 * 0x100_0000;
    v
}

} // verus!

//! Decoder for Assetto Corsa's `acpmf_physics` / `acpmf_static` shared
//! memory blocks.
//!
//! Everything read from the physics block sits in its first 24 bytes,
//! which have not moved since the game's first release. The redline sits
//! at offset 412 of the static block, behind five UTF-16 name fields, so
//! that offset is only trusted once the block's opening `smVersion` string
//! has been seen to really be UTF-16 (see [`static_layout_looks_right`]).
//!
//! Assetto Corsa numbers reverse 0, neutral 1 and first 2, one higher than
//! every other source the daemon reads; the decoder shifts them down.
//!
//! The throttle is an `f32` on the wire and is carried here as its bit
//! pattern; the decoder tames it on those bits: a NaN or an infinity
//! reads as 0.0, and a finite value is clamped into 0.0..=1.0.

use vstd::prelude::*;
use crate::relay::RelayTelemetry;
use crate::floatbits::{clamp01, clamp_unit_interval, f32_bits_finite, is_finite, u32_at, u32_le};

verus! {

/// The relay wire id for this game.
pub const ID: &'static str = "assetto";

/// Windows named section carrying the per-tick physics block.
pub const SECTION_PHYSICS: &'static str = "Local\\acpmf_physics";

/// Windows named section carrying the per-session static block.
pub const SECTION_STATIC: &'static str = "Local\\acpmf_static";

/// Offset of `gas` (f32, 0.0..=1.0) in the physics block.
pub const OFF_GAS: usize = 4;

/// Offset of `gear` (i32, 0 reverse, 1 neutral, 2 first) in the physics block.
pub const OFF_GEAR: usize = 16;

/// Offset of `rpms` (i32) in the physics block.
pub const OFF_RPMS: usize = 20;

/// The physics block is read through `rpms`.
pub const MIN_PHYSICS_LEN: usize = OFF_RPMS + 4;

/// Offset of `maxRpm` (i32) in the static block.
pub const OFF_MAX_RPM: usize = 412;

/// The static block is read through `maxRpm`.
pub const MIN_STATIC_LEN: usize = OFF_MAX_RPM + 4;

/// Above this, an engine speed is not engine data however plausible the
/// buffer looked.
pub const MAX_PLAUSIBLE_RPM: i32 = 30000;

/// The little-endian `i32` at `off` in `b`.
pub open spec fn i32_le(b: Seq<u8>, off: int) -> i32 {
    u32_le(b, off) as i32
}

/// The little-endian `u16` at `off` in `b`.
pub open spec fn u16_le(b: Seq<u8>, off: int) -> int {
    b[off] as int + b[off + 1] as int * 0x100
}

/// The throttle as the decoder reports it: 0.0 for a non-finite reading,
/// else the reading clamped into 0.0..=1.0 (bits in, bits out).
pub open spec fn tamed_throttle(b: u32) -> u32 {
    if !f32_bits_finite(b) {
        0
    } else {
        clamp_unit_interval(b)
    }
}

/// Whether a 16-bit unit is a printable ASCII character.
pub open spec fn printable(u: int) -> bool {
    0x20 <= u < 0x7f
}

/// The static block opens with two printable UTF-16 units, which is what a
/// UTF-16 `smVersion` such as "1.7" looks like, and what any other
/// character width would not.
pub open spec fn static_layout_ok(b: Seq<u8>) -> bool {
    b.len() >= 4 && printable(u16_le(b, 0)) && printable(u16_le(b, 2))
}

/// Assetto Corsa's gear number rebased to the relay's: reverse -1,
/// neutral 0, first 1. Numbers outside 0..=16 read as neutral.
pub open spec fn relay_gear(g: i32) -> i16 {
    if 0 <= g <= 16 {
        (g - 1) as i16
    } else {
        0
    }
}

/// What one read of the two blocks decodes to.
pub open spec fn decoded(physics: Seq<u8>, statics: Seq<u8>) -> Option<RelayTelemetry> {
    if physics.len() < MIN_PHYSICS_LEN || statics.len() < MIN_STATIC_LEN || !static_layout_ok(
        statics,
    ) {
        None
    } else {
        let max_rpm = i32_le(statics, OFF_MAX_RPM as int);
        let rpm = i32_le(physics, OFF_RPMS as int);
        if max_rpm <= 0 || rpm < 0 || rpm > MAX_PLAUSIBLE_RPM || max_rpm > MAX_PLAUSIBLE_RPM {
            None
        } else {
            Some(
                RelayTelemetry {
                    game_id: ID,
                    rpm,
                    max_rpm,
                    throttle_bits: tamed_throttle(u32_le(physics, OFF_GAS as int)),
                    gear: relay_gear(i32_le(physics, OFF_GEAR as int)),
                },
            )
        }
    }
}

fn i32_at(buf: &[u8], off: usize) -> (r: i32)
    requires
        off + 4 <= buf@.len(),
    ensures
        r == i32_le(buf@, off as int),
{
    u32_at(buf, off) as i32
}

/// The throttle bits tamed as [`tamed_throttle`] says.
fn tame_throttle(b: u32) -> (r: u32)
    ensures
        r == tamed_throttle(b),
{
    if !is_finite(b) {
        0
    } else {
        clamp01(b)
    }
}

/// Confirm the static block really begins with a UTF-16 `smVersion`
/// string, which is what makes [`OFF_MAX_RPM`] correct.
pub fn static_layout_looks_right(buf: &[u8]) -> (r: bool)
    ensures
        r == static_layout_ok(buf@),
{
    if buf.len() < 4 {
        return false;
    }
    let first: u16 = buf[0] as u16 + buf[1] as u16 * 0x100;
    let second: u16 = buf[2] as u16 + buf[3] as u16 * 0x100;
    0x20 <= first && first < 0x7f && 0x20 <= second && second < 0x7f
}

/// Decode one read of the physics and static blocks.
///
/// Both are needed: the physics block carries engine speed but no
/// redline. `None` for a short buffer, a static block whose layout fails
/// its guard, a session that is not running (no redline), or engine
/// values no engine produces.
pub fn decode(physics: &[u8], statics: &[u8]) -> (r: Option<RelayTelemetry>)
    ensures
        r == decoded(physics@, statics@),
{
    if physics.len() < MIN_PHYSICS_LEN || statics.len() < MIN_STATIC_LEN {
        return None;
    }
    if !static_layout_looks_right(statics) {
        return None;
    }
    let max_rpm = i32_at(statics, OFF_MAX_RPM);
    let rpm = i32_at(physics, OFF_RPMS);
    if max_rpm <= 0 || rpm < 0 || rpm > MAX_PLAUSIBLE_RPM || max_rpm > MAX_PLAUSIBLE_RPM {
        return None;
    }
    let throttle_bits = tame_throttle(u32_at(physics, OFF_GAS));
    let g = i32_at(physics, OFF_GEAR);
    let gear: i16 = if 0 <= g && g <= 16 {
        (g - 1) as i16
    } else {
        0
    };
    Some(RelayTelemetry { game_id: ID, rpm, max_rpm, throttle_bits, gear })
}

} // verus!

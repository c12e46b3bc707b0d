//! BeamNG.drive OutGauge UDP telemetry.
//!
//! BeamNG emits the Live for Speed "OutGauge" protocol: one fixed, packed,
//! little-endian struct of 92 bytes, or 96 with the optional trailing
//! OutGauge ID. Fields read here, from the packet start:
//!
//! | offset | field       | type | unit    |
//! |--------|-------------|------|---------|
//! | 10     | gear        | i8   | R0 N1.. |
//! | 12     | speed       | f32  | m/s     |
//! | 16     | rpm         | f32  | rpm     |
//! | 44     | showLights  | u32  | DL_*    |
//! | 48     | throttle    | f32  | 0..1    |
//! | 52     | brake       | f32  | 0..1    |
//! | 56     | clutch      | f32  | 0..1    |
//!
//! OutGauge carries no redline, so the redline reported is the running
//! maximum engine speed seen this session, which the [`Decoder`] keeps.
//! Floating-point fields are handled as their bit patterns.

use vstd::prelude::*;
use crate::floatbits::{
    clamp01, clamp_unit_interval, f32_bits_finite, f32_bits_nan, is_finite, is_nan, u32_at, u32_le,
    F32_ONE, F32_SIGN,
};
use crate::telemetry::Telemetry;

verus! {

/// Game id for BeamNG.drive.
pub const ID: &'static str = "beamng";

/// Default OutGauge listen port (the BeamNG / LFS default).
pub const DEFAULT_PORT: u16 = 4444;

/// OutGauge without the optional trailing ID field.
pub const LEN_NO_ID: usize = 92;

/// OutGauge with the optional trailing ID field.
pub const LEN_WITH_ID: usize = 96;

pub const OFF_GEAR: usize = 10;

pub const OFF_SPEED: usize = 12;

pub const OFF_RPM: usize = 16;

pub const OFF_THROTTLE: usize = 48;

pub const OFF_BRAKE: usize = 52;

pub const OFF_CLUTCH: usize = 56;

/// OutGauge `showLights`: the dashboard lamps lit, as a DL_* bitfield.
pub const OFF_SHOW_LIGHTS: usize = 44;

/// `DL_PITSPEED`: the pit limiter lamp.
pub const DL_PITSPEED: u32 = 0x0000_0008;

/// `DL_TC`: the traction-control lamp.
pub const DL_TC: u32 = 0x0000_0010;

/// `DL_ABS`: the ABS lamp.
pub const DL_ABS: u32 = 0x0000_0400;

/// The bits of the `f32` 30000.0: engine rates above it are not a real
/// OutGauge sample.
pub const RPM_CEILING_BITS: u32 = 0x46ea_6000;

/// Whether an engine rate is refused: zero or below, or above the ceiling
/// (so +infinity is refused). A NaN compares as neither and passes.
pub open spec fn rpm_refused(b: u32) -> bool {
    !f32_bits_nan(b) && (b & F32_SIGN != 0 || b == 0 || b > RPM_CEILING_BITS)
}

/// `f32::max(running, rpm)` for a running maximum that is never a NaN and
/// never negative: a NaN rate leaves it, a higher rate replaces it.
pub open spec fn raised(running: u32, rpm: u32) -> u32 {
    if f32_bits_nan(rpm) || rpm <= running {
        running
    } else {
        rpm
    }
}

/// The redline reported: the running maximum, but never below 1.0.
pub open spec fn redline(running: u32) -> u32 {
    if running > F32_ONE {
        running
    } else {
        F32_ONE
    }
}

/// OutGauge numbers gears from reverse (0 R, 1 N, 2 first); the
/// normalized form counts from neutral, saturating at the bottom.
pub open spec fn rebased_gear(wire: u8) -> i8 {
    let g = wire as i8;
    if g == i8::MIN {
        g
    } else {
        (g - 1) as i8
    }
}

/// What one datagram decodes to, for a decoder whose running maximum is
/// `running`: `None` for a wrong length, a non-finite speed or throttle,
/// or a refused engine rate; else the new running maximum and the sample.
pub open spec fn outgauge(running: u32, p: Seq<u8>) -> Option<(u32, Telemetry)> {
    if p.len() != LEN_NO_ID && p.len() != LEN_WITH_ID {
        None
    } else {
        let speed = u32_le(p, OFF_SPEED as int);
        let rpm = u32_le(p, OFF_RPM as int);
        let throttle = u32_le(p, OFF_THROTTLE as int);
        if !f32_bits_finite(speed) || !f32_bits_finite(throttle) || rpm_refused(rpm) {
            None
        } else {
            let lamps = u32_le(p, OFF_SHOW_LIGHTS as int);
            let running2 = raised(running, rpm);
            Some(
                (
                    running2,
                    Telemetry {
                        rpm_bits: rpm,
                        max_rpm_bits: redline(running2),
                        throttle_bits: clamp_unit_interval(throttle),
                        speed_bits: speed,
                        pit_limiter: lamps & DL_PITSPEED != 0,
                        gear: rebased_gear(p[OFF_GEAR as int]),
                        brake_bits: clamp_unit_interval(u32_le(p, OFF_BRAKE as int)),
                        clutch_bits: clamp_unit_interval(u32_le(p, OFF_CLUTCH as int)),
                        abs_active: lamps & DL_ABS != 0,
                        traction_control: lamps & DL_TC != 0,
                        wheel_slip_bits: 0,
                        airborne: false,
                        surface_roughness_bits: 0,
                        impact_g_bits: 0,
                        drs_active: false,
                    },
                ),
            )
        }
    }
}

/// A stateful OutGauge decoder: stateful only to track the running
/// redline the protocol omits.
pub struct Decoder {
    running_max_rpm: u32,
}

impl Decoder {
    /// The running maximum is 0.0 or an engine rate that was accepted: a
    /// positive, finite number no higher than the ceiling.
    #[verifier::type_invariant]
    spec fn inv(self) -> bool {
        self.running_max_rpm & F32_SIGN == 0 && self.running_max_rpm <= RPM_CEILING_BITS
    }

    /// The learned redline so far, as bits.
    pub closed spec fn learned(self) -> u32 {
        self.running_max_rpm
    }

    pub fn new() -> (r: Decoder)
        ensures
            r.learned() == 0,
    {
        assert(0u32 & F32_SIGN == 0) by (bit_vector);
        Decoder { running_max_rpm: 0 }
    }

    /// Forget the learned redline (when the stream is torn down).
    pub fn reset(&mut self)
        ensures
            final(self).learned() == 0,
    {
        assert(0u32 & F32_SIGN == 0) by (bit_vector);
        self.running_max_rpm = 0;
    }

    /// Parse one OutGauge datagram: [`ID`] and a sample for a running
    /// engine, or `None` for a wrong length or an engine-off sample. The
    /// learned redline only ever rises.
    pub fn parse(&mut self, pkt: &[u8]) -> (r: Option<(&'static str, Telemetry)>)
        ensures
            match outgauge(old(self).learned(), pkt@) {
                None => r is None && final(self).learned() == old(self).learned(),
                Some((running, t)) => r == Some((ID, t)) && final(self).learned() == running,
            },
            final(self).learned() >= old(self).learned(),
    {
        proof {
            use_type_invariant(&*self);
        }
        if pkt.len() != LEN_NO_ID && pkt.len() != LEN_WITH_ID {
            return None;
        }
        let speed = u32_at(pkt, OFF_SPEED);
        let rpm = u32_at(pkt, OFF_RPM);
        let throttle = u32_at(pkt, OFF_THROTTLE);
        let rpm_nan = is_nan(rpm);
        if !is_finite(speed) || !is_finite(throttle) || (!rpm_nan && (rpm & F32_SIGN != 0 || rpm == 0
            || rpm > RPM_CEILING_BITS)) {
            return None;
        }
        if !rpm_nan && rpm > self.running_max_rpm {
            self.running_max_rpm = rpm;
        }
        let running = self.running_max_rpm;
        let max_rpm = if running > F32_ONE {
            running
        } else {
            F32_ONE
        };
        let lamps = u32_at(pkt, OFF_SHOW_LIGHTS);
        let g = pkt[OFF_GEAR] as i8;
        let gear: i8 = if g == i8::MIN {
            g
        } else {
            g - 1
        };
        let brake = clamp01(u32_at(pkt, OFF_BRAKE));
        let clutch = clamp01(u32_at(pkt, OFF_CLUTCH));
        Some(
            (
                ID,
                Telemetry {
                    rpm_bits: rpm,
                    max_rpm_bits: max_rpm,
                    throttle_bits: clamp01(throttle),
                    speed_bits: speed,
                    pit_limiter: lamps & DL_PITSPEED != 0,
                    gear,
                    brake_bits: brake,
                    clutch_bits: clutch,
                    abs_active: lamps & DL_ABS != 0,
                    traction_control: lamps & DL_TC != 0,
                    wheel_slip_bits: 0,
                    airborne: false,
                    surface_roughness_bits: 0,
                    impact_g_bits: 0,
                    drs_active: false,
                },
            ),
        )
    }
}

impl Default for Decoder {
    fn default() -> (r: Decoder)
        ensures
            r.learned() == 0,
    {
        Decoder::new()
    }
}

/// The redline a sample reports covers its engine speed: for every
/// accepted packet whose rate is a number, the redline is at least that
/// rate and at least 1.0 (as bits of non-negative values, which order as
/// the values do), and it is the new running maximum unless that is below
/// 1.0.
pub proof fn lemma_redline_covers_rpm(running: u32, p: Seq<u8>)
    requires
        outgauge(running, p) is Some,
    ensures
        ({
            let (r2, t) = outgauge(running, p)->Some_0;
            &&& r2 >= running
            &&& t.max_rpm_bits >= F32_ONE
            &&& t.max_rpm_bits >= r2
            &&& !f32_bits_nan(t.rpm_bits) ==> t.max_rpm_bits >= t.rpm_bits && r2 >= t.rpm_bits
        }),
{
}

} // verus!

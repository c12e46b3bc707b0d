//! The normalized telemetry sample every parser decodes into.
//!
//! Each `f32` quantity is carried as its bit pattern (`*_bits`). The
//! default sample is the inert one: engine stopped, nothing intervening,
//! nothing hit. A format that does not carry a field leaves it at its
//! default, so its effects stay silent rather than wrong.

use vstd::prelude::*;

verus! {

/// One decoded telemetry sample, normalized across wire formats.
#[derive(Debug, Clone, Copy, PartialEq, Eq, Structural)]
pub struct Telemetry {
    /// Engine speed in revolutions per minute.
    pub rpm_bits: u32,
    /// Engine redline in revolutions per minute (> 0 for a valid sample).
    pub max_rpm_bits: u32,
    /// Throttle position, 0.0 to 1.0.
    pub throttle_bits: u32,
    /// Vehicle speed in meters per second.
    pub speed_bits: u32,
    /// Whether the car's pit limiter is engaged, where the format says so.
    pub pit_limiter: bool,
    /// Selected gear: negative reverse, 0 neutral, 1.. forward.
    pub gear: i8,
    /// Brake pedal, 0..1.
    pub brake_bits: u32,
    /// Clutch pedal, 0..1.
    pub clutch_bits: u32,
    /// ABS is actively modulating, not merely fitted.
    pub abs_active: bool,
    /// Traction or stability control is intervening.
    pub traction_control: bool,
    /// Driven-wheel slip, 0 none .. 1 fully broken away.
    pub wheel_slip_bits: u32,
    /// All wheels off the ground.
    pub airborne: bool,
    /// Surface roughness underneath, 0 smooth .. 1 coarse.
    pub surface_roughness_bits: u32,
    /// Impact magnitude in g for this sample, 0 when nothing was hit.
    pub impact_g_bits: u32,
    /// DRS (or any push-to-pass equivalent) is open.
    pub drs_active: bool,
}

/// The inert sample: every quantity 0.0, every flag false, neutral.
pub open spec fn inert() -> Telemetry {
    Telemetry {
        rpm_bits: 0,
        max_rpm_bits: 0,
        throttle_bits: 0,
        speed_bits: 0,
        pit_limiter: false,
        gear: 0,
        brake_bits: 0,
        clutch_bits: 0,
        abs_active: false,
        traction_control: false,
        wheel_slip_bits: 0,
        airborne: false,
        surface_roughness_bits: 0,
        impact_g_bits: 0,
        drs_active: false,
    }
}

impl Default for Telemetry {
    fn default() -> (r: Telemetry)
        ensures
            r == inert(),
    {
        Telemetry {
            rpm_bits: 0,
            max_rpm_bits: 0,
            throttle_bits: 0,
            speed_bits: 0,
            pit_limiter: false,
            gear: 0,
            brake_bits: 0,
            clutch_bits: 0,
            abs_active: false,
            traction_control: false,
            wheel_slip_bits: 0,
            airborne: false,
            surface_roughness_bits: 0,
            impact_g_bits: 0,
            drs_active: false,
        }
    }
}

} // verus!

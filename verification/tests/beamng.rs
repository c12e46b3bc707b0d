use logi_wheel::beamng::{
    Decoder, DL_ABS, DL_PITSPEED, DL_TC, ID, LEN_NO_ID, LEN_WITH_ID, OFF_BRAKE, OFF_CLUTCH, OFF_GEAR, OFF_RPM,
    OFF_SHOW_LIGHTS, OFF_SPEED, OFF_THROTTLE,
};
use logi_wheel::telemetry::Telemetry;

fn f(bits: u32) -> f32 {
    f32::from_bits(bits)
}

/// Build an OutGauge fixture (92 bytes, no trailing ID) with known engine
/// values.
fn packet(rpm: f32, throttle: f32, speed: f32) -> Vec<u8> {
    let mut pkt = vec![0u8; LEN_NO_ID];
    pkt[OFF_SPEED..OFF_SPEED + 4].copy_from_slice(&speed.to_le_bytes());
    pkt[OFF_RPM..OFF_RPM + 4].copy_from_slice(&rpm.to_le_bytes());
    pkt[OFF_THROTTLE..OFF_THROTTLE + 4].copy_from_slice(&throttle.to_le_bytes());
    pkt
}

#[test]
fn pit_limiter_follows_the_dl_pitspeed_lamp() {
    let mut dec = Decoder::new();
    let plain = packet(4000.0, 0.5, 30.0);
    let (_, tel) = dec.parse(&plain).unwrap();
    assert!(!tel.pit_limiter, "no lamps lit means no limiter");

    let mut lit = packet(4000.0, 0.5, 30.0);
    lit[OFF_SHOW_LIGHTS..OFF_SHOW_LIGHTS + 4].copy_from_slice(&DL_PITSPEED.to_le_bytes());
    let (_, tel) = dec.parse(&lit).unwrap();
    assert!(tel.pit_limiter);

    let mut other = packet(4000.0, 0.5, 30.0);
    other[OFF_SHOW_LIGHTS..OFF_SHOW_LIGHTS + 4].copy_from_slice(&4u32.to_le_bytes());
    let (_, tel) = dec.parse(&other).unwrap();
    assert!(!tel.pit_limiter);

    let mut both = packet(4000.0, 0.5, 30.0);
    both[OFF_SHOW_LIGHTS..OFF_SHOW_LIGHTS + 4].copy_from_slice(&(DL_PITSPEED | 4 | 256).to_le_bytes());
    let (_, tel) = dec.parse(&both).unwrap();
    assert!(tel.pit_limiter);
}

#[test]
fn outgauge_packet_parses() {
    let mut d = Decoder::new();
    let (id, t) = d.parse(&packet(3500.0, 0.75, 27.5)).unwrap();
    assert_eq!(id, ID);
    assert_eq!(f(t.rpm_bits), 3500.0);
    assert_eq!(f(t.max_rpm_bits), 3500.0, "first sample: running max == rpm");
    assert!((f(t.throttle_bits) - 0.75).abs() < 1e-6);
    assert!((f(t.speed_bits) - 27.5).abs() < 1e-6);
}

#[test]
fn the_96_byte_variant_with_the_id_field_parses() {
    let mut d = Decoder::new();
    let mut pkt = packet(4000.0, 1.0, 10.0);
    pkt.extend_from_slice(&42i32.to_le_bytes());
    assert_eq!(pkt.len(), LEN_WITH_ID);
    let (_, t) = d.parse(&pkt).unwrap();
    assert_eq!(f(t.rpm_bits), 4000.0);
}

#[test]
fn running_max_tracks_the_session_high() {
    let mut d = Decoder::new();
    d.parse(&packet(2000.0, 0.3, 5.0)).unwrap();
    let (_, t) = d.parse(&packet(7200.0, 1.0, 50.0)).unwrap();
    assert_eq!(f(t.max_rpm_bits), 7200.0);
    let (_, t2) = d.parse(&packet(3000.0, 0.4, 20.0)).unwrap();
    assert_eq!(f(t2.max_rpm_bits), 7200.0, "keeps the learned high");
    d.reset();
    let (_, t3) = d.parse(&packet(3000.0, 0.4, 20.0)).unwrap();
    assert_eq!(f(t3.max_rpm_bits), 3000.0, "reset re-learns");
}

#[test]
fn engine_off_and_wrong_lengths_are_rejected() {
    let mut d = Decoder::new();
    assert!(d.parse(&packet(0.0, 0.0, 0.0)).is_none(), "engine off");
    let mut short = packet(3000.0, 0.5, 10.0);
    short.pop();
    assert!(d.parse(&short).is_none(), "91 bytes");
    assert!(d.parse(&[]).is_none(), "empty");
    assert!(d.parse(&vec![0u8; 264]).is_none());
}

#[test]
fn gear_is_rebased_from_outgauges_reverse_origin() {
    for (wire, want) in [(0u8, -1i8), (1, 0), (2, 1), (7, 6)] {
        let mut pkt = packet(3000.0, 0.5, 20.0);
        pkt[OFF_GEAR] = wire;
        let (_, t) = Decoder::default().parse(&pkt).expect("valid packet");
        assert_eq!(t.gear, want, "wire gear {wire}");
    }
}

#[test]
fn the_pedals_are_read_and_clamped() {
    let mut pkt = packet(3000.0, 0.5, 20.0);
    pkt[OFF_BRAKE..OFF_BRAKE + 4].copy_from_slice(&0.75f32.to_le_bytes());
    pkt[OFF_CLUTCH..OFF_CLUTCH + 4].copy_from_slice(&1.5f32.to_le_bytes());
    let (_, t) = Decoder::default().parse(&pkt).expect("valid packet");
    assert!((f(t.brake_bits) - 0.75).abs() < 1e-6);
    assert_eq!(f(t.clutch_bits), 1.0, "an out-of-range pedal clamps, it does not wrap");
}

#[test]
fn the_abs_and_tc_lamps_are_read_independently() {
    let cases = [
        (0u32, false, false),
        (DL_ABS, true, false),
        (DL_TC, false, true),
        (DL_ABS | DL_TC, true, true),
        (DL_PITSPEED | 0x0000_0100, false, false),
    ];
    for (lamps, want_abs, want_tc) in cases {
        let mut pkt = packet(3000.0, 0.5, 20.0);
        pkt[OFF_SHOW_LIGHTS..OFF_SHOW_LIGHTS + 4].copy_from_slice(&lamps.to_le_bytes());
        let (_, t) = Decoder::default().parse(&pkt).expect("valid packet");
        assert_eq!(t.abs_active, want_abs, "lamps {lamps:#x}");
        assert_eq!(t.traction_control, want_tc, "lamps {lamps:#x}");
    }
}

#[test]
fn what_outgauge_does_not_carry_stays_inert() {
    let mut pkt = packet(7000.0, 1.0, 60.0);
    pkt[OFF_SHOW_LIGHTS..OFF_SHOW_LIGHTS + 4].copy_from_slice(&(DL_ABS | DL_TC | DL_PITSPEED).to_le_bytes());
    let (_, t) = Decoder::default().parse(&pkt).expect("valid packet");
    assert_eq!(f(t.wheel_slip_bits), 0.0);
    assert_eq!(f(t.surface_roughness_bits), 0.0);
    assert_eq!(f(t.impact_g_bits), 0.0);
    assert!(!t.airborne);
    assert!(!t.drs_active);
}

// --- beyond the original's cases ---

#[test]
fn the_engine_rate_limits_and_non_finite_inputs() {
    let mut d = Decoder::new();
    assert!(d.parse(&packet(30_000.0, 0.5, 1.0)).is_some(), "the ceiling itself is accepted");
    assert!(d.parse(&packet(30_000.5, 0.5, 1.0)).is_none());
    assert!(d.parse(&packet(f32::INFINITY, 0.5, 1.0)).is_none());
    assert!(d.parse(&packet(-10.0, 0.5, 1.0)).is_none());
    assert!(d.parse(&packet(3000.0, f32::NAN, 1.0)).is_none());
    assert!(d.parse(&packet(3000.0, 0.5, f32::INFINITY)).is_none());
    // A NaN rate compares as neither too low nor too high: the sample is
    // kept, and the learned redline is left alone.
    let (_, t) = d.parse(&packet(f32::NAN, 0.5, 1.0)).expect("NaN passes the range check");
    assert!(f(t.rpm_bits).is_nan());
    assert_eq!(f(t.max_rpm_bits), 30_000.0);
}

#[test]
fn the_redline_is_never_below_one_and_the_gear_saturates() {
    let mut d = Decoder::new();
    let (_, t) = d.parse(&packet(0.5, 0.5, 1.0)).unwrap();
    assert_eq!(f(t.max_rpm_bits), 1.0);
    let mut pkt = packet(3000.0, 0.5, 1.0);
    pkt[OFF_GEAR] = 0x80; // i8::MIN on the wire
    let (_, t) = d.parse(&pkt).unwrap();
    assert_eq!(t.gear, i8::MIN);
}

#[test]
fn pedals_clamp_like_f32_clamp() {
    let mut pkt = packet(3000.0, 2.0, 1.0);
    pkt[OFF_BRAKE..OFF_BRAKE + 4].copy_from_slice(&(-0.25f32).to_le_bytes());
    pkt[OFF_CLUTCH..OFF_CLUTCH + 4].copy_from_slice(&f32::NAN.to_le_bytes());
    let (_, t) = Decoder::default().parse(&pkt).unwrap();
    assert_eq!(f(t.throttle_bits), 1.0);
    assert_eq!(f(t.brake_bits), 0.0);
    assert!(f(t.clutch_bits).is_nan(), "f32::clamp keeps a NaN");
}

#[test]
fn the_default_sample_is_inert() {
    let t = Telemetry::default();
    assert_eq!(t.rpm_bits, 0);
    assert_eq!(t.gear, 0);
    assert!(!t.pit_limiter && !t.abs_active && !t.traction_control && !t.airborne && !t.drs_active);
}

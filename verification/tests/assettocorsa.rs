use logi_wheel::relay_cli::{decode_tick, TickSample};
use logi_wheel::assettocorsa::{
    decode, static_layout_looks_right, ID, MIN_PHYSICS_LEN, MIN_STATIC_LEN, OFF_GAS, OFF_GEAR, OFF_MAX_RPM,
    OFF_RPMS, SECTION_PHYSICS, SECTION_STATIC,
};

fn physics(gas: f32, gear: i32, rpms: i32) -> Vec<u8> {
    let mut b = vec![0u8; MIN_PHYSICS_LEN];
    b[OFF_GAS..][..4].copy_from_slice(&gas.to_le_bytes());
    b[OFF_GEAR..][..4].copy_from_slice(&gear.to_le_bytes());
    b[OFF_RPMS..][..4].copy_from_slice(&rpms.to_le_bytes());
    b
}

/// A static block with a believable UTF-16 `smVersion` of "1.7".
fn statics(max_rpm: i32) -> Vec<u8> {
    let mut b = vec![0u8; MIN_STATIC_LEN];
    for (i, c) in "1.7".encode_utf16().enumerate() {
        b[i * 2..][..2].copy_from_slice(&c.to_le_bytes());
    }
    b[OFF_MAX_RPM..][..4].copy_from_slice(&max_rpm.to_le_bytes());
    b
}

fn throttle(bits: u32) -> f32 {
    f32::from_bits(bits)
}

#[test]
fn offsets_match_the_documented_layout() {
    assert_eq!(OFF_GAS, 4);
    assert_eq!(OFF_GEAR, 16);
    assert_eq!(OFF_RPMS, 20);
    assert_eq!(OFF_MAX_RPM, 412);
    assert_eq!(SECTION_PHYSICS, "Local\\acpmf_physics");
    assert_eq!(SECTION_STATIC, "Local\\acpmf_static");
}

#[test]
fn decodes_a_running_session() {
    let s = decode(&physics(0.75, 3, 6200), &statics(7500)).expect("valid buffers");
    assert_eq!(s.game_id, ID);
    assert_eq!(s.rpm, 6200);
    assert_eq!(s.max_rpm, 7500);
    assert!((throttle(s.throttle_bits) - 0.75).abs() < 1e-6);
}

#[test]
fn gears_shift_down_by_one_from_assetto_corsas_numbering() {
    let cases = [(0, -1), (1, 0), (2, 1), (3, 2), (8, 7)];
    for (ac, expected) in cases {
        let s = decode(&physics(0.5, ac, 6000), &statics(7500)).unwrap();
        assert_eq!(s.gear, expected, "AC gear {ac} should relay as {expected}");
    }
}

#[test]
fn a_static_block_that_is_not_utf16_is_refused() {
    let mut wrong = statics(7500);
    // UTF-32-shaped: '1', 0, 0, 0. The second 16-bit unit reads zero.
    wrong[2] = 0;
    wrong[3] = 0;
    assert!(decode(&physics(0.5, 3, 6000), &wrong).is_none());

    let mut zeroed = statics(7500);
    zeroed[0..4].fill(0);
    assert!(decode(&physics(0.5, 3, 6000), &zeroed).is_none(), "unwritten block");
}

#[test]
fn short_buffers_are_refused_rather_than_read_past() {
    let p = physics(0.5, 3, 6000);
    let s = statics(7500);
    assert!(decode(&p[..MIN_PHYSICS_LEN - 1], &s).is_none());
    assert!(decode(&p, &s[..MIN_STATIC_LEN - 1]).is_none());
    assert!(decode(&[], &[]).is_none());
}

#[test]
fn a_session_that_is_not_running_yields_nothing() {
    assert!(decode(&physics(0.0, 0, 0), &statics(0)).is_none(), "no redline");
    assert!(decode(&physics(0.0, 0, 0), &statics(7500)).is_some(), "idle is still a session");
}

#[test]
fn implausible_engine_values_are_refused() {
    assert!(decode(&physics(0.5, 3, -100), &statics(7500)).is_none());
    assert!(decode(&physics(0.5, 3, 90_000), &statics(7500)).is_none());
    assert!(decode(&physics(0.5, 3, 6000), &statics(90_000)).is_none());
}

#[test]
fn a_non_finite_or_out_of_range_throttle_is_tamed() {
    assert_eq!(throttle(decode(&physics(f32::NAN, 3, 6000), &statics(7500)).unwrap().throttle_bits), 0.0);
    assert_eq!(throttle(decode(&physics(5.0, 3, 6000), &statics(7500)).unwrap().throttle_bits), 1.0);
    assert_eq!(throttle(decode(&physics(-5.0, 3, 6000), &statics(7500)).unwrap().throttle_bits), 0.0);
}

// --- beyond the original's cases ---

#[test]
fn infinite_throttles_read_as_zero_and_in_range_ones_pass_unchanged() {
    for (gas, want) in [(f32::INFINITY, 0.0f32), (f32::NEG_INFINITY, 0.0), (0.25, 0.25), (1.0, 1.0), (0.0, 0.0)] {
        let s = decode(&physics(gas, 3, 6000), &statics(7500)).unwrap();
        assert_eq!(throttle(s.throttle_bits), want, "gas {gas}");
    }
    // -0.0 is not below zero, so clamping leaves it as it is.
    let s = decode(&physics(-0.0, 3, 6000), &statics(7500)).unwrap();
    assert_eq!(s.throttle_bits, (-0.0f32).to_bits());
}

#[test]
fn gears_outside_the_range_read_as_neutral() {
    for ac in [-1, 17, 1000] {
        let s = decode(&physics(0.5, ac, 6000), &statics(7500)).unwrap();
        assert_eq!(s.gear, 0, "AC gear {ac}");
    }
    assert_eq!(decode(&physics(0.5, 16, 6000), &statics(7500)).unwrap().gear, 15);
}

#[test]
fn the_plausibility_limits_are_inclusive() {
    assert!(decode(&physics(0.5, 3, 30_000), &statics(30_000)).is_some());
    assert!(decode(&physics(0.5, 3, 30_001), &statics(30_000)).is_none());
    assert!(decode(&physics(0.5, 3, 100), &statics(30_001)).is_none());
    assert!(decode(&physics(0.5, 3, 100), &statics(-1)).is_none());
}

#[test]
fn the_layout_guard_wants_two_printable_utf16_units() {
    assert!(static_layout_looks_right(&[b'1', 0, b'.', 0]));
    assert!(static_layout_looks_right(&[b'~', 0, b' ', 0, 9, 9]));
    assert!(!static_layout_looks_right(&[b'1', 0, b'.']));
    assert!(!static_layout_looks_right(&[0x7f, 0, b'.', 0]));
    assert!(!static_layout_looks_right(&[b'1', 1, b'.', 0]), "0x0131 is not ASCII");
    assert!(!static_layout_looks_right(&[0x1f, 0, b'.', 0]));
}

#[test]
fn a_stream_tick_decodes_assetto_corsa_from_both_sections() {
    let p = physics(0.5, 3, 6000);
    let s = statics(8000);
    match decode_tick(ID, &p, Some(&s)) {
        TickSample::Sample(sample) => {
            assert_eq!(Some(sample), decode(&p, &s));
            assert_eq!(sample.rpm, 6000);
        }
        other => panic!("expected a sample, got {other:?}"),
    }
    assert_eq!(decode_tick(ID, &p, None), TickSample::Nothing);
    assert_eq!(decode_tick(ID, &p[..10], Some(&s)), TickSample::Nothing);
    assert_eq!(decode_tick("iracing", &p, None), TickSample::NoDecoder);
    assert_eq!(decode_tick("raceroom", &p, Some(&s)), TickSample::NoDecoder);
}

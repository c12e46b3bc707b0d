use logi_wheel::tfstream::{decode, encode, GOLDEN, MAGIC, MAX_PACKET_LEN, MAX_SAMPLES, VERSION};

fn bits(samples: &[f32]) -> Vec<u32> {
    samples.iter().map(|s| s.to_bits()).collect()
}

fn floats(samples: &[u32]) -> Vec<f32> {
    samples.iter().map(|b| f32::from_bits(*b)).collect()
}

#[test]
fn round_trips() {
    let samples = [0.0, 0.25, -0.5, 1.0, -1.0];
    assert_eq!(floats(&decode(&encode(&bits(&samples)).unwrap()).unwrap()), samples);
}

#[test]
fn golden_bytes_match_the_documented_layout() {
    assert_eq!(encode(&bits(&[0.5, -1.0])).unwrap(), GOLDEN);
    assert_eq!(floats(&decode(&GOLDEN).unwrap()), vec![0.5, -1.0]);
}

#[test]
fn a_full_packet_fits_inside_a_normal_mtu() {
    let samples = vec![0.1f32; MAX_SAMPLES];
    let pkt = encode(&bits(&samples)).unwrap();
    assert_eq!(pkt.len(), MAX_PACKET_LEN);
    assert!(pkt.len() < 1400, "{} bytes would fragment", pkt.len());
    assert_eq!(decode(&pkt).unwrap().len(), MAX_SAMPLES);
}

#[test]
fn empty_and_oversized_runs_are_refused() {
    assert!(encode(&[]).is_none());
    assert!(encode(&bits(&vec![0.0f32; MAX_SAMPLES + 1])).is_none());
}

#[test]
fn a_count_that_lies_about_the_length_is_rejected() {
    let mut pkt = encode(&bits(&[0.5, -1.0])).unwrap();
    pkt[6] = 9;
    assert!(decode(&pkt).is_none());

    let good = encode(&bits(&[0.5, -1.0])).unwrap();
    assert!(decode(&good[..good.len() - 1]).is_none(), "truncated");

    let mut long = good.clone();
    long.push(0);
    assert!(decode(&long).is_none(), "trailing bytes");
}

#[test]
fn a_bad_magic_or_version_is_rejected() {
    let mut m = encode(&bits(&[0.5])).unwrap();
    m[0] = b'X';
    assert!(decode(&m).is_none());

    let mut v = encode(&bits(&[0.5])).unwrap();
    v[4] = VERSION + 1;
    assert!(decode(&v).is_none());
}

#[test]
fn a_non_finite_sample_drops_the_whole_packet() {
    for bad in [f32::NAN, f32::INFINITY, f32::NEG_INFINITY] {
        let pkt = encode(&bits(&[0.5, bad, 0.25])).unwrap();
        assert!(decode(&pkt).is_none(), "{bad} should drop the packet");
    }
}

#[test]
fn out_of_range_samples_are_clamped() {
    let pkt = encode(&bits(&[5.0, -5.0])).unwrap();
    assert_eq!(floats(&decode(&pkt).unwrap()), vec![1.0, -1.0]);
}

// --- beyond the original's cases ---

#[test]
fn the_header_is_magic_version_flags_count() {
    let pkt = encode(&bits(&[0.0; 3])).unwrap();
    assert_eq!(&pkt[0..4], &MAGIC);
    assert_eq!(&pkt[0..4], b"LTFT");
    assert_eq!(pkt[4], VERSION);
    assert_eq!(pkt[5], 0);
    assert_eq!(u16::from_le_bytes([pkt[6], pkt[7]]), 3);
    assert_eq!(pkt.len(), 8 + 3 * 4);
}

#[test]
fn a_zero_count_and_a_short_header_are_rejected() {
    assert!(decode(&[0x4c, 0x54, 0x46, 0x54, 1, 0, 0, 0]).is_none());
    assert!(decode(&[0x4c, 0x54, 0x46, 0x54, 1, 0, 1]).is_none());
    assert!(decode(&[]).is_none());
}

#[test]
fn clamping_keeps_in_range_values_and_signed_zero() {
    let pkt = encode(&bits(&[-0.0, 0.999, -0.999, 1.0000001, -1.0000001, f32::MAX, f32::MIN])).unwrap();
    let out = decode(&pkt).unwrap();
    assert_eq!(out[0], (-0.0f32).to_bits());
    assert_eq!(floats(&out[1..]), vec![0.999, -0.999, 1.0, -1.0, 1.0, -1.0]);
}

use logi_wheel::init_data::{parse_init_data, render_init_data, InitDataError, PACKET_COUNT, PACKET_LEN};

/// A header line for packet `k`: byte `i` is `k + i` (wrapping).
fn row_line(k: usize) -> String {
    let bytes: Vec<String> = (0..PACKET_LEN).map(|i| format!("0x{:02X}", (k + i) as u8)).collect();
    format!("    {{ {} }},", bytes.join(", "))
}

fn header(rows: usize) -> String {
    let mut text = String::from("/* TrueForce init packets */\n#define TF_INIT_COUNT 68\nstatic const uint8_t tf_init[68][64] = {\n");
    for k in 0..rows {
        text.push_str(&row_line(k));
        text.push('\n');
    }
    text.push_str("};\n");
    text
}

#[test]
fn a_well_formed_header_gives_every_packet_in_order() {
    let packets = parse_init_data(&header(PACKET_COUNT)).unwrap();
    assert_eq!(packets.len(), PACKET_COUNT);
    for (k, p) in packets.iter().enumerate() {
        for (i, b) in p.iter().enumerate() {
            assert_eq!(*b, (k + i) as u8, "packet {k} byte {i}");
        }
    }
}

#[test]
fn windows_line_endings_and_stray_spacing_are_fine() {
    let text = header(PACKET_COUNT).replace('\n', "\r\n").replace(", 0x", " ,0x");
    let packets = parse_init_data(&text).unwrap();
    assert_eq!(packets[3][0], 3);
}

#[test]
fn a_short_row_a_bad_byte_and_a_wrong_count_are_refused() {
    let mut short = header(PACKET_COUNT);
    short = short.replacen(", 0x3F }", " }", 1);
    assert_eq!(parse_init_data(&short), Err(InitDataError::RowLength { line: 3, bytes: 63 }));

    let bad = header(PACKET_COUNT).replacen("0x05", "0xZZ", 1);
    assert_eq!(parse_init_data(&bad), Err(InitDataError::BadByte { line: 3 }));

    let big = header(PACKET_COUNT).replacen("0x05", "0x105", 1);
    assert_eq!(parse_init_data(&big), Err(InitDataError::BadByte { line: 3 }), "not a byte");

    assert_eq!(parse_init_data(&header(67)), Err(InitDataError::PacketCount { packets: 67 }));
    assert_eq!(parse_init_data(""), Err(InitDataError::PacketCount { packets: 0 }));
}

#[test]
fn braces_that_close_before_they_open_are_malformed() {
    let text = format!("{}\n}} 0x01 {{\n", header(PACKET_COUNT));
    let lines = text.lines().count();
    assert_eq!(parse_init_data(&text), Err(InitDataError::Malformed { line: lines - 1 }));
}

#[test]
fn lines_that_are_not_rows_are_passed_over() {
    // No "0x", or no braces: neither is a row.
    let text = format!("{{ 1, 2, 3 }}\n0x10 without braces\n{}", header(PACKET_COUNT));
    assert_eq!(parse_init_data(&text).unwrap().len(), PACKET_COUNT);
}

#[test]
fn byte_literals_read_as_from_str_radix_reads_them() {
    // Repeated 0x prefixes are all dropped, a + sign is allowed, and empty
    // pieces (a trailing comma) are skipped.
    let mut text = header(PACKET_COUNT);
    text = text.replacen("0x00,", "0x0x00,", 1).replacen("0x01,", "+1,", 1).replacen(" }", ", }", 1);
    let packets = parse_init_data(&text).unwrap();
    assert_eq!(packets[0][0], 0);
    assert_eq!(packets[0][1], 1);
}

#[test]
fn the_rendered_array_declares_every_byte() {
    let mut a = [0u8; PACKET_LEN];
    a[0] = 0xab;
    a[63] = 7;
    let b = [0xffu8; PACKET_LEN];
    let text = render_init_data(&[a, b]);
    let mut lines = text.lines();
    assert_eq!(lines.next(), Some("pub const TF_INIT_PACKET_COUNT: usize = 68;"));
    assert_eq!(lines.next(), Some("pub const TF_INIT_PACKET_LEN: usize = 64;"));
    assert_eq!(lines.next(), Some("pub static TF_INIT_PACKETS: [[u8; 64]; 68] = ["));
    let first = lines.next().unwrap();
    assert!(first.starts_with("[0xab, 0x00, "), "{first}");
    assert!(first.ends_with(", 0x07],"), "{first}");
    assert_eq!(first.matches("0x").count(), PACKET_LEN);
    let second = lines.next().unwrap();
    assert_eq!(second, format!("[{}],", vec!["0xff"; PACKET_LEN].join(", ")));
    assert_eq!(lines.next(), Some("];"));
    assert_eq!(lines.next(), None);
}

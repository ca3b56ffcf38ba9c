use feral_setupd::codec::{decode_varint, encode_frames, encode_payload, encode_varint, parse_payload};

fn strings(v: &[&str]) -> Vec<String> {
    v.iter().map(|s| s.to_string()).collect()
}

#[test]
fn varint_single_byte() {
    assert_eq!(encode_varint(0), vec![0x00]);
    assert_eq!(encode_varint(1), vec![0x01]);
    assert_eq!(encode_varint(127), vec![0x7f]);
}

#[test]
fn varint_multi_byte() {
    assert_eq!(encode_varint(128), vec![0x80, 0x01]);
    assert_eq!(encode_varint(300), vec![0xac, 0x02]);
    assert_eq!(encode_varint(16384), vec![0x80, 0x80, 0x01]);
}

#[test]
fn varint_largest_value() {
    let enc = encode_varint(u64::MAX);
    assert_eq!(enc.len(), 10);
    assert_eq!(enc[9], 0x01);
    assert_eq!(decode_varint(&enc), Some((u64::MAX, 10)));
}

#[test]
fn varint_round_trip_values() {
    for v in [0u64, 1, 127, 128, 255, 300, 16383, 16384, 1 << 35, (1 << 63) + 12345, u64::MAX] {
        let enc = encode_varint(v);
        assert_eq!(decode_varint(&enc), Some((v, enc.len())));
    }
}

#[test]
fn varint_decode_stops_at_first_terminal_byte() {
    assert_eq!(decode_varint(&[0xac, 0x02, 0xff, 0x05]), Some((300, 2)));
}

#[test]
fn varint_truncated_fails() {
    assert_eq!(decode_varint(&[0x80]), None);
    assert_eq!(decode_varint(&[0xff, 0xff]), None);
}

#[test]
fn varint_empty_fails() {
    assert_eq!(decode_varint(&[]), None);
}

#[test]
fn varint_overlong_keeps_low_64_bits() {
    let mut buf = vec![0x80u8; 10];
    buf.push(0x01);
    assert_eq!(decode_varint(&buf), Some((0, 11)));
}

#[test]
fn payload_concrete_framing() {
    let enc = encode_payload(&strings(&["scan_wifi", "abc"]));
    let mut expected = vec![0x09u8];
    expected.extend_from_slice(b"scan_wifi");
    expected.push(0x03);
    expected.extend_from_slice(b"abc");
    assert_eq!(enc, expected);
}

#[test]
fn payload_empty_list() {
    assert_eq!(encode_payload(&[]), Vec::<u8>::new());
    assert_eq!(parse_payload(&[]), Some(vec![]));
}

#[test]
fn payload_round_trip() {
    let long = "x".repeat(200);
    let cases: Vec<Vec<String>> = vec![
        strings(&["connect_wifi", "42", "Home Net", "pässwörd"]),
        strings(&["", "", "a"]),
        strings(&["日本語", "🙂"]),
        vec![long.clone(), "tail".to_string()],
    ];
    for c in cases {
        let enc = encode_payload(&c);
        assert_eq!(parse_payload(&enc), Some(c));
    }
    let enc = encode_payload(&[long]);
    assert_eq!(&enc[..2], &[0xc8, 0x01]);
}

#[test]
fn parse_rejects_length_past_end() {
    assert_eq!(parse_payload(&[0x05, b'a', b'b']), None);
}

#[test]
fn parse_rejects_truncated_length() {
    assert_eq!(parse_payload(&[0x01, b'a', 0x80]), None);
}

#[test]
fn parse_rejects_invalid_utf8() {
    assert_eq!(parse_payload(&[0x01, 0xff]), None);
    assert_eq!(parse_payload(&[0x02, 0xc3, 0x28]), None);
}

#[test]
fn parse_accepts_multibyte_utf8() {
    assert_eq!(parse_payload(&[0x02, 0xc3, 0xa9]), Some(vec!["é".to_string()]));
}

#[test]
fn frames_carry_raw_bytes() {
    let enc = encode_frames(&vec![b"7".to_vec(), vec![255u8]]);
    assert_eq!(enc, vec![0x01, b'7', 0x01, 0xff]);
}

use game_net::framing::{prepend_length_prefix, strip_length_prefix};
use game_net::wire_header::{build_frame, parse, WireHeader, HEADER_LEN};

#[test]
fn prepend_writes_le_length_then_inner() {
    let out = prepend_length_prefix(&[7, 8, 9], 16).unwrap();
    assert_eq!(out, vec![3, 0, 0, 0, 7, 8, 9]);
}

#[test]
fn prepend_empty_inner() {
    assert_eq!(prepend_length_prefix(&[], 0).unwrap(), vec![0, 0, 0, 0]);
}

#[test]
fn prepend_rejects_inner_over_max() {
    assert!(prepend_length_prefix(&[1, 2, 3], 2).is_none());
}

#[test]
fn prepend_accepts_inner_at_max() {
    assert!(prepend_length_prefix(&[1, 2, 3], 3).is_some());
}

#[test]
fn prepend_long_inner_length_bytes() {
    let inner = vec![0xAAu8; 0x0102];
    let out = prepend_length_prefix(&inner, 1 << 20).unwrap();
    assert_eq!(&out[..4], &[0x02, 0x01, 0, 0]);
    assert_eq!(out.len(), 4 + 0x0102);
}

#[test]
fn strip_returns_inner() {
    let data = [2, 0, 0, 0, 0xAB, 0xCD];
    assert_eq!(strip_length_prefix(&data, 8), Some(&[0xAB, 0xCD][..]));
}

#[test]
fn strip_rejects_short_datagram() {
    assert_eq!(strip_length_prefix(&[1, 0, 0], 8), None);
    assert_eq!(strip_length_prefix(&[], 8), None);
}

#[test]
fn strip_rejects_length_mismatch() {
    assert_eq!(strip_length_prefix(&[3, 0, 0, 0, 1, 2], 8), None);
    assert_eq!(strip_length_prefix(&[1, 0, 0, 0, 1, 2], 8), None);
}

#[test]
fn strip_rejects_declared_length_over_max() {
    assert_eq!(strip_length_prefix(&[2, 0, 0, 0, 1, 2], 1), None);
}

#[test]
fn strip_empty_inner() {
    assert_eq!(strip_length_prefix(&[0, 0, 0, 0], 0), Some(&[][..]));
}

#[test]
fn strip_after_prepend_roundtrip() {
    let inner: Vec<u8> = (0u8..200).collect();
    let framed = prepend_length_prefix(&inner, 200).unwrap();
    assert_eq!(strip_length_prefix(&framed, 200).unwrap(), &inner[..]);
}

#[test]
fn prepend_after_strip_roundtrip() {
    let data = [5, 0, 0, 0, 9, 8, 7, 6, 5];
    let inner = strip_length_prefix(&data, 5).unwrap();
    assert_eq!(prepend_length_prefix(inner, 5).unwrap(), data.to_vec());
}

#[test]
fn build_frame_layout() {
    let out = build_frame(0x0102, 7, 0x0807060504030201, &[0xEE, 0xFF], 8).unwrap();
    assert_eq!(
        out,
        vec![0x02, 0x01, 7, 0x01, 0x02, 0x03, 0x04, 0x05, 0x06, 0x07, 0x08, 2, 0, 0, 0, 0xEE, 0xFF]
    );
    assert_eq!(out.len(), HEADER_LEN + 2);
}

#[test]
fn build_frame_rejects_payload_over_max() {
    assert!(build_frame(1, 1, 1, &[1, 2, 3], 2).is_none());
}

#[test]
fn parse_reads_fields() {
    let bytes = [0x02, 0x01, 7, 0x01, 0x02, 0x03, 0x04, 0x05, 0x06, 0x07, 0x08, 2, 0, 0, 0, 0xEE, 0xFF];
    assert_eq!(
        parse(&bytes, 8),
        Some(WireHeader { version: 0x0102, kind: 7, tick: 0x0807060504030201, payload_len: 2 })
    );
}

#[test]
fn parse_rejects_truncated_header() {
    assert_eq!(parse(&[0u8; 14], 8), None);
}

#[test]
fn parse_rejects_length_mismatch() {
    let mut bytes = build_frame(1, 2, 3, &[1, 2, 3], 8).unwrap();
    bytes.push(0);
    assert_eq!(parse(&bytes, 8), None);
    bytes.truncate(HEADER_LEN + 2);
    assert_eq!(parse(&bytes, 8), None);
}

#[test]
fn parse_rejects_payload_over_max() {
    let bytes = build_frame(1, 2, 3, &[1, 2, 3], 8).unwrap();
    assert_eq!(parse(&bytes, 2), None);
    assert!(parse(&bytes, 3).is_some());
}

#[test]
fn parse_of_built_frame_roundtrip() {
    let payload: Vec<u8> = (0u8..=255).collect();
    let bytes = build_frame(u16::MAX, 255, u64::MAX, &payload, 1000).unwrap();
    assert_eq!(
        parse(&bytes, 1000),
        Some(WireHeader { version: u16::MAX, kind: 255, tick: u64::MAX, payload_len: 256 })
    );
}

#[test]
fn build_of_parsed_frame_roundtrip() {
    let bytes = [9, 0, 3, 0, 0, 0, 0, 0, 0, 0, 1, 1, 0, 0, 0, 42];
    let h = parse(&bytes, 4).unwrap();
    assert_eq!(build_frame(h.version, h.kind, h.tick, &bytes[HEADER_LEN..], 4).unwrap(), bytes.to_vec());
}

#[test]
fn header_inside_length_frame() {
    let inner = build_frame(3, 1, 99, b"hello", 64).unwrap();
    let framed = prepend_length_prefix(&inner, 64 + HEADER_LEN).unwrap();
    let back = strip_length_prefix(&framed, 64 + HEADER_LEN).unwrap();
    let h = parse(back, 64).unwrap();
    assert_eq!(h.tick, 99);
    assert_eq!(&back[HEADER_LEN..], b"hello");
}

use toytcp::codec::{encode_segment, is_correct_checksum, parse_segment};
use toytcp::segment::Segment;

fn ip(a: u8, b: u8, c: u8, d: u8) -> u32 {
    ((a as u32) << 24) | ((b as u32) << 16) | ((c as u32) << 8) | (d as u32)
}

/// The RFC 1071 internet checksum, written out independently here to hold
/// the library's encoder to the real arithmetic.
fn reference_checksum(data: &[u8], skipword: usize) -> u16 {
    let mut sum: u32 = 0;
    let mut word = 0usize;
    let mut i = 0usize;
    while i < data.len() {
        let hi = (data[i] as u32) << 8;
        let lo = if i + 1 < data.len() { data[i + 1] as u32 } else { 0 };
        if word != skipword {
            sum += hi | lo;
        }
        i += 2;
        word += 1;
    }
    while sum >> 16 != 0 {
        sum = (sum >> 16) + (sum & 0xffff);
    }
    !(sum as u16)
}

fn sample_segment() -> Segment {
    Segment {
        src_port: 40123,
        dest_port: 80,
        seq: 0x0102_0304,
        ack: 0x0a0b_0c0d,
        flag: 16,
        window_size: 4380,
        payload: vec![0xde, 0xad, 0xbe, 0xef, 0x01],
    }
}

#[test]
fn encode_then_parse_gives_the_segment_back() {
    let seg = sample_segment();
    let bytes = encode_segment(&seg, ip(10, 0, 0, 1), ip(1, 2, 3, 4));
    assert_eq!(bytes.len(), 25);
    assert_eq!(bytes[12], 0x50);
    let parsed = parse_segment(&bytes).expect("parse");
    assert_eq!(parsed.src_port, seg.src_port);
    assert_eq!(parsed.dest_port, seg.dest_port);
    assert_eq!(parsed.seq, seg.seq);
    assert_eq!(parsed.ack, seg.ack);
    assert_eq!(parsed.flag, seg.flag);
    assert_eq!(parsed.window_size, seg.window_size);
    assert_eq!(parsed.payload, seg.payload);
}

#[test]
fn encoded_checksum_matches_the_reference_arithmetic() {
    let seg = sample_segment();
    let src = ip(10, 0, 0, 1);
    let dst = ip(1, 2, 3, 4);
    let bytes = encode_segment(&seg, src, dst);
    // rebuild pseudo-header + segment independently and checksum it
    let mut data = Vec::new();
    data.extend_from_slice(&src.to_be_bytes());
    data.extend_from_slice(&dst.to_be_bytes());
    data.push(0);
    data.push(6);
    data.extend_from_slice(&(bytes.len() as u16).to_be_bytes());
    data.extend_from_slice(&bytes);
    let expected = reference_checksum(&data, 14);
    let stored = ((bytes[16] as u16) << 8) | bytes[17] as u16;
    assert_eq!(stored, expected);
}

#[test]
fn validation_accepts_the_encoding_and_rejects_corruption() {
    let seg = sample_segment();
    let src = ip(10, 0, 0, 1);
    let dst = ip(1, 2, 3, 4);
    let bytes = encode_segment(&seg, src, dst);
    assert!(is_correct_checksum(&bytes, src, dst));
    let mut corrupted = bytes.clone();
    corrupted[20] = corrupted[20].wrapping_add(1);
    assert!(!is_correct_checksum(&corrupted, src, dst));
    // the wrong pseudo-header (a rerouted packet) fails as well
    assert!(!is_correct_checksum(&bytes, src, ip(1, 2, 3, 5)));
}

#[test]
fn parse_rejects_short_and_misshapen_headers() {
    assert!(parse_segment(&vec![0u8; 19]).is_none());
    let mut short_offset = vec![0u8; 24];
    short_offset[12] = 0x40; // data offset 4: below the minimum header
    assert!(parse_segment(&short_offset).is_none());
    let mut long_offset = vec![0u8; 24];
    long_offset[12] = 0x70; // data offset 7: past the end of the bytes
    assert!(parse_segment(&long_offset).is_none());
}

//! The wire form of a segment: the 20-byte TCP header (data offset fixed
//! at 5, no options) followed by the payload, with the RFC 793 checksum
//! over the IPv4 pseudo-header. The checksum arithmetic itself is pnet's;
//! everything around it is verified, and encoding then parsing gives the
//! segment back.

use vstd::prelude::*;

use crate::segment::{Segment, SegmentModel};

verus! {

/// The 16-bit internet checksum of `data` with the 16-bit word at index
/// `skipword` left out, as pnet computes it. Its value is a function of
/// the bytes and the index alone; nothing here defines it.
pub uninterp spec fn inet_checksum(data: Seq<u8>, skipword: int) -> u16;

/// Relies on pnet::util::checksum: the RFC 1071 ones'-complement internet
/// checksum over `data`, skipping the 16-bit word at `skipword` (meant for
/// the checksum field itself). The result depends on the bytes and the
/// index alone. pnet sums 16-bit words into a u32; the length bound keeps
/// that sum within range on every input this crate hands it.
#[verifier::external_body]
fn checksum_words(data: &Vec<u8>, skipword: usize) -> (r: u16)
    requires
        data@.len() <= 100000,
    ensures
        r == inet_checksum(data@, skipword as int),
{
    pnet::util::checksum(data.as_slice(), skipword)
}

/// The big-endian 16-bit value at offset `i`.
pub open spec fn be16(b: Seq<u8>, i: int) -> u16 {
    (b[i] as int * 0x100 + b[i + 1] as int) as u16
}

/// The big-endian 32-bit value at offset `i`.
pub open spec fn be32(b: Seq<u8>, i: int) -> u32 {
    (b[i] as int * 0x100_0000 + b[i + 1] as int * 0x1_0000 + b[i + 2] as int * 0x100
        + b[i + 3] as int) as u32
}

/// The 12-byte IPv4 pseudo-header for a TCP segment of `tcp_len` bytes:
/// source address, destination address, a zero byte, protocol 6, length.
pub open spec fn pseudo_header(src: u32, dst: u32, tcp_len: int) -> Seq<u8> {
    seq![
        (src / 0x100_0000) as u8,
        ((src / 0x1_0000) % 0x100) as u8,
        ((src / 0x100) % 0x100) as u8,
        (src % 0x100) as u8,
        (dst / 0x100_0000) as u8,
        ((dst / 0x1_0000) % 0x100) as u8,
        ((dst / 0x100) % 0x100) as u8,
        (dst % 0x100) as u8,
        0u8,
        6u8,
        (tcp_len / 0x100) as u8,
        (tcp_len % 0x100) as u8,
    ]
}

/// What the checksum is computed over: the pseudo-header, then the whole
/// segment with its checksum field read as zero (the real computation
/// skips that word, so its stored content makes no difference).
pub open spec fn checksum_input(b: Seq<u8>, src: u32, dst: u32) -> Seq<u8> {
    pseudo_header(src, dst, b.len() as int) + b.update(16, 0u8).update(17, 0u8)
}

/// What a byte sequence parses to: None if shorter than a header or its
/// data offset is impossible, otherwise the header fields and everything
/// past the options as payload.
pub open spec fn parse_model(b: Seq<u8>) -> Option<SegmentModel> {
    if b.len() < 20 {
        None
    } else {
        let off = b[12] as int / 16;
        if off < 5 || off * 4 > b.len() {
            None
        } else {
            Some(
                SegmentModel {
                    src_port: be16(b, 0),
                    dest_port: be16(b, 2),
                    seq: be32(b, 4),
                    ack: be32(b, 8),
                    flag: b[13],
                    window_size: be16(b, 14),
                    payload: b.skip(off * 4),
                },
            )
        }
    }
}

/// Appends `x` in big-endian order.
fn push_be16(v: &mut Vec<u8>, x: u16)
    ensures
        final(v)@ == old(v)@ + seq![(x / 0x100) as u8, (x % 0x100) as u8],
{
    v.push((x / 0x100) as u8);
    v.push((x % 0x100) as u8);
    proof {
        assert(v@ =~= old(v)@ + seq![(x / 0x100) as u8, (x % 0x100) as u8]);
    }
}

/// Appends `x` in big-endian order.
fn push_be32(v: &mut Vec<u8>, x: u32)
    ensures
        final(v)@ == old(v)@ + seq![
            (x / 0x100_0000) as u8,
            ((x / 0x1_0000) % 0x100) as u8,
            ((x / 0x100) % 0x100) as u8,
            (x % 0x100) as u8,
        ],
{
    v.push((x / 0x100_0000) as u8);
    v.push(((x / 0x1_0000) % 0x100) as u8);
    v.push(((x / 0x100) % 0x100) as u8);
    v.push((x % 0x100) as u8);
    proof {
        assert(v@ =~= old(v)@ + seq![
            (x / 0x100_0000) as u8,
            ((x / 0x1_0000) % 0x100) as u8,
            ((x / 0x100) % 0x100) as u8,
            (x % 0x100) as u8,
        ]);
    }
}

/// Serializes a segment for the wire between the given addresses: the
/// 20-byte header (data offset 5, checksum per RFC 793 pseudo-header)
/// followed by the payload. Parsing the result gives the segment back,
/// and the stored checksum is the one the validator recomputes.
#[verifier::rlimit(80)]
pub fn encode_segment(seg: &Segment, local_addr: u32, remote_addr: u32) -> (bytes: Vec<u8>)
    requires
        seg@.payload.len() <= 65515,
    ensures
        bytes@.len() == 20 + seg@.payload.len(),
        parse_model(bytes@) == Some(seg@),
        be16(bytes@, 16) == inet_checksum(
            checksum_input(bytes@, local_addr, remote_addr),
            14,
        ),
{
    let mut bytes: Vec<u8> = Vec::new();
    push_be16(&mut bytes, seg.src_port);
    push_be16(&mut bytes, seg.dest_port);
    push_be32(&mut bytes, seg.seq);
    push_be32(&mut bytes, seg.ack);
    bytes.push(0x50u8);
    bytes.push(seg.flag);
    push_be16(&mut bytes, seg.window_size);
    // checksum placeholder: computed over the zeroed field below
    bytes.push(0u8);
    bytes.push(0u8);
    // urgent pointer: unused
    bytes.push(0u8);
    bytes.push(0u8);
    let mut k: usize = 0;
    let ghost header = bytes@;
    while k < seg.payload.len()
        invariant
            header.len() == 20,
            k <= seg@.payload.len(),
            bytes@ =~= header + seg@.payload.take(k as int),
        decreases seg@.payload.len() - k,
    {
        bytes.push(seg.payload[k]);
        k = k + 1;
        proof {
            assert(bytes@ =~= header + seg@.payload.take(k as int));
        }
    }
    proof {
        assert(bytes@ =~= header + seg@.payload);
    }
    let mut data: Vec<u8> = Vec::new();
    let tcp_len = bytes.len();
    push_be32(&mut data, local_addr);
    push_be32(&mut data, remote_addr);
    data.push(0u8);
    data.push(6u8);
    push_be16(&mut data, tcp_len as u16);
    let ghost pseudo = data@;
    let mut k2: usize = 0;
    while k2 < bytes.len()
        invariant
            pseudo.len() == 12,
            k2 <= bytes@.len(),
            bytes@.len() <= 65535,
            data@ =~= pseudo + bytes@.take(k2 as int),
        decreases bytes@.len() - k2,
    {
        data.push(bytes[k2]);
        k2 = k2 + 1;
        proof {
            assert(data@ =~= pseudo + bytes@.take(k2 as int));
        }
    }
    proof {
        assert(data@ =~= pseudo + bytes@);
        assert(pseudo =~= pseudo_header(local_addr, remote_addr, bytes@.len() as int));
        assert(bytes@.update(16, 0u8).update(17, 0u8) =~= bytes@);
        assert(data@ =~= checksum_input(bytes@, local_addr, remote_addr));
    }
    let ghost before = bytes@;
    let ck = checksum_words(&data, 14);
    bytes.set(16, (ck / 0x100) as u8);
    bytes.set(17, (ck % 0x100) as u8);
    proof {
        assert(bytes@.update(16, 0u8).update(17, 0u8) =~= before);
        assert(checksum_input(bytes@, local_addr, remote_addr) == data@);
        assert(be16(bytes@, 16) == ck);
        assert(bytes@.skip(20) =~= seg@.payload);
        assert(parse_model(bytes@) == Some(seg@));
    }
    bytes
}

/// Recomputes the pseudo-header checksum of a received segment (with the
/// stored checksum word read as zero, as the computation skips it) and
/// compares it against the stored one. A mismatched segment is dropped.
pub fn is_correct_checksum(bytes: &Vec<u8>, local_addr: u32, remote_addr: u32) -> (r: bool)
    requires
        20 <= bytes@.len() <= 65535,
    ensures
        r == (be16(bytes@, 16) == inet_checksum(
            checksum_input(bytes@, local_addr, remote_addr),
            14,
        )),
{
    let mut data: Vec<u8> = Vec::new();
    push_be32(&mut data, local_addr);
    push_be32(&mut data, remote_addr);
    data.push(0u8);
    data.push(6u8);
    push_be16(&mut data, bytes.len() as u16);
    let ghost pseudo = data@;
    let mut k: usize = 0;
    while k < bytes.len()
        invariant
            pseudo.len() == 12,
            k <= bytes@.len(),
            20 <= bytes@.len() <= 65535,
            data@ =~= pseudo + bytes@.update(16, 0u8).update(17, 0u8).take(k as int),
        decreases bytes@.len() - k,
    {
        let b: u8 = if k == 16 || k == 17 {
            0u8
        } else {
            bytes[k]
        };
        data.push(b);
        k = k + 1;
        proof {
            assert(data@ =~= pseudo + bytes@.update(16, 0u8).update(17, 0u8).take(k as int));
        }
    }
    proof {
        assert(data@ =~= pseudo + bytes@.update(16, 0u8).update(17, 0u8));
        assert(pseudo =~= pseudo_header(local_addr, remote_addr, bytes@.len() as int));
        assert(data@ =~= checksum_input(bytes@, local_addr, remote_addr));
    }
    let computed = checksum_words(&data, 14);
    let stored = (bytes[16] as u16) * 0x100 + (bytes[17] as u16);
    stored == computed
}

/// Parses a wire segment: the header fields, and everything past the
/// options as payload. Refuses anything shorter than a header or with an
/// impossible data offset, exactly as `parse_model` says.
pub fn parse_segment(bytes: &Vec<u8>) -> (r: Option<Segment>)
    ensures
        match r {
            Some(seg) => parse_model(bytes@) == Some(seg@),
            None => parse_model(bytes@) is None,
        },
{
    if bytes.len() < 20 {
        return None;
    }
    let off = (bytes[12] / 16) as usize;
    if off < 5 || off * 4 > bytes.len() {
        return None;
    }
    let src_port = (bytes[0] as u16) * 0x100 + (bytes[1] as u16);
    let dest_port = (bytes[2] as u16) * 0x100 + (bytes[3] as u16);
    let seq = (bytes[4] as u32) * 0x100_0000 + (bytes[5] as u32) * 0x1_0000 + (bytes[6] as u32)
        * 0x100 + (bytes[7] as u32);
    let ack = (bytes[8] as u32) * 0x100_0000 + (bytes[9] as u32) * 0x1_0000 + (bytes[10] as u32)
        * 0x100 + (bytes[11] as u32);
    let flag = bytes[13];
    let window_size = (bytes[14] as u16) * 0x100 + (bytes[15] as u16);
    let mut payload: Vec<u8> = Vec::new();
    let mut k: usize = off * 4;
    while k < bytes.len()
        invariant
            off * 4 <= k <= bytes@.len(),
            payload@ =~= bytes@.subrange(off * 4, k as int),
        decreases bytes@.len() - k,
    {
        payload.push(bytes[k]);
        k = k + 1;
        proof {
            assert(payload@ =~= bytes@.subrange(off * 4, k as int));
        }
    }
    proof {
        assert(payload@ =~= bytes@.skip(off * 4));
    }
    Some(Segment { src_port, dest_port, seq, ack, flag, window_size, payload })
}

} // verus!

//! The engine's model of a TCP segment: plain header fields plus an owned
//! payload. The wire form (byte layout and checksum) lives in `codec`.

use vstd::prelude::*;

use crate::tcpflags;

verus! {

/// One TCP segment as the engine sees it. `flag` is a bitmask of the
/// constants in `tcpflags`; `window_size` is the window the sender
/// advertised.
pub struct Segment {
    pub src_port: u16,
    pub dest_port: u16,
    pub seq: u32,
    pub ack: u32,
    pub flag: u8,
    pub window_size: u16,
    pub payload: Vec<u8>,
}

/// Mathematical image of a `Segment`: the same fields with the payload as
/// a sequence.
pub struct SegmentModel {
    pub src_port: u16,
    pub dest_port: u16,
    pub seq: u32,
    pub ack: u32,
    pub flag: u8,
    pub window_size: u16,
    pub payload: Seq<u8>,
}

impl View for Segment {
    type V = SegmentModel;

    open spec fn view(&self) -> SegmentModel {
        SegmentModel {
            src_port: self.src_port,
            dest_port: self.dest_port,
            seq: self.seq,
            ack: self.ack,
            flag: self.flag,
            window_size: self.window_size,
            payload: self.payload@,
        }
    }
}

impl SegmentModel {
    /// A segment that carries no payload and no control bit beyond ACK.
    /// Such a segment acknowledges but asks for no acknowledgement itself.
    pub open spec fn is_bare_ack(self) -> bool {
        self.payload.len() == 0 && self.flag == tcpflags::ACK
    }
}

impl Segment {
    /// An exact copy of this segment.
    pub fn duplicate(&self) -> (r: Segment)
        ensures
            r@ == self@,
    {
        Segment {
            src_port: self.src_port,
            dest_port: self.dest_port,
            seq: self.seq,
            ack: self.ack,
            flag: self.flag,
            window_size: self.window_size,
            payload: copy_bytes(&self.payload),
        }
    }
}

/// A fresh vector holding the same bytes as `v`.
pub fn copy_bytes(v: &Vec<u8>) -> (r: Vec<u8>)
    ensures
        r@ == v@,
{
    let mut r: Vec<u8> = Vec::new();
    let mut i: usize = 0;
    while i < v.len()
        invariant
            i <= v@.len(),
            r@ == v@.take(i as int),
        decreases v@.len() - i,
    {
        r.push(v[i]);
        i = i + 1;
        proof {
            assert(r@ =~= v@.take(i as int));
        }
    }
    proof {
        assert(r@ =~= v@);
    }
    r
}

} // verus!

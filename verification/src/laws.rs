//! The engine's global guarantees, stated and proved once: the sequence
//! invariant SND.UNA <= SND.NXT across the handshake transitions, the
//! receive-window accounting, the bare-ACK retransmission rules, and the
//! three-way handshake reaching ESTABLISHED with matched sequence numbers
//! on both sides.

use vstd::prelude::*;

use crate::segment::SegmentModel;
use crate::socket::{
    listen_step, synrcvd_step, synsent_step, ConnState, RecvParam, SendParam, Socket, TcpStatus,
};
use crate::tcp::{segment_was_queued, Outgoing, TCP};
use crate::tcpflags;
use crate::SOCKET_BUFFER_SIZE;

verus! {

/// SND.UNA never passes SND.NXT (plain unsigned comparison) through any
/// handshake transition: the guard on the acknowledgement number keeps the
/// new SND.UNA at or below SND.NXT, and SND.NXT does not move.
pub proof fn lemma_handshake_steps_keep_send_seq(c: ConnState, seg: SegmentModel, iss: u32)
    requires
        c.send_param.unacked_seq <= c.send_param.next,
        1 <= iss < 0x8000_0000,
    ensures
        synsent_step(c, seg).send_param.unacked_seq <= synsent_step(c, seg).send_param.next,
        synrcvd_step(c, seg).send_param.unacked_seq <= synrcvd_step(c, seg).send_param.next,
        listen_step(iss, seg).send_param.unacked_seq <= listen_step(iss, seg).send_param.next,
{
}

/// The in-buffer bytes not yet handed to the application: the prefix of
/// the receive buffer that the window no longer counts as free.
pub open spec fn undelivered_data(s: Socket) -> Seq<u8> {
    s.recv_buffer@.take(SOCKET_BUFFER_SIZE - s.recv_param.window as int)
}

/// The receive window plus the undelivered bytes in the buffer always
/// account for the whole buffer: every free byte is counted by the window
/// and every other byte holds arrived, undelivered data.
pub proof fn lemma_recv_window_accounting(s: Socket)
    requires
        s.buffer_wf(),
    ensures
        s.recv_param.window as int + undelivered_data(s).len() == SOCKET_BUFFER_SIZE as int,
{
}

/// Nothing in a retransmission queue is a bare ACK: a segment carrying
/// only an acknowledgement asks for no acknowledgement itself, so it is
/// never queued and can never feed an acknowledgement storm.
pub proof fn lemma_no_bare_ack_queued(s: Socket)
    requires
        s.wf(),
    ensures
        forall|i: int|
            0 <= i < s.retransmission_queue@.len()
                ==> !(#[trigger] s.retransmission_queue@[i]).packet@.is_bare_ack(),
{
}

/// The retransmission timer only ever resends stored segments, and no
/// stored segment is a bare ACK: so a bare ACK, once sent, is never sent
/// again, and the peer never owes an acknowledgement for one.
pub proof fn lemma_bare_ack_never_retransmitted(t: TCP, o: Outgoing)
    requires
        t.wf(),
        segment_was_queued(o, t.sockets@),
    ensures
        !o.segment@.is_bare_ack(),
{
    let (i, j) = choose|i: int, j: int|
        0 <= i < t.sockets@.len() && 0 <= j < t.sockets@[i].retransmission_queue@.len()
            && o.segment@ == (#[trigger] t.sockets@[i].retransmission_queue@[j]).packet@;
    assert(t.sockets@[i].wf());
}

/// A clean three-way handshake brings both endpoints to ESTABLISHED with
/// their sequence numbers matched: each side's SND.NXT is what the other
/// expects next. `iss_c` and `iss_s` are the two initial send sequence
/// numbers; the client state is the one an active open leaves behind, the
/// server side is what the listener's transition builds, and the two
/// replies are the ones those transitions emit.
pub proof fn lemma_three_way_handshake(iss_c: u32, iss_s: u32, cport: u16, sport: u16)
    requires
        1 <= iss_c < 0x8000_0000,
        1 <= iss_s < 0x8000_0000,
    ensures
        ({
            let client0 = ConnState {
                send_param: SendParam {
                    unacked_seq: iss_c,
                    next: (iss_c + 1) as u32,
                    window: SOCKET_BUFFER_SIZE as u16,
                    initial_seq: iss_c,
                },
                recv_param: RecvParam {
                    next: 0,
                    window: SOCKET_BUFFER_SIZE as u16,
                    initial_seq: 0,
                    tail: 0,
                },
                status: TcpStatus::SynSent,
            };
            let syn = SegmentModel {
                src_port: cport,
                dest_port: sport,
                seq: iss_c,
                ack: 0,
                flag: tcpflags::SYN,
                window_size: SOCKET_BUFFER_SIZE as u16,
                payload: Seq::<u8>::empty(),
            };
            let server1 = listen_step(iss_s, syn);
            let synack = SegmentModel {
                src_port: sport,
                dest_port: cport,
                seq: iss_s,
                ack: syn.seq.wrapping_add(1),
                flag: tcpflags::SYN | tcpflags::ACK,
                window_size: SOCKET_BUFFER_SIZE as u16,
                payload: Seq::<u8>::empty(),
            };
            let client1 = synsent_step(client0, synack);
            let handshake_ack = SegmentModel {
                src_port: cport,
                dest_port: sport,
                seq: client0.send_param.next,
                ack: synack.seq.wrapping_add(1),
                flag: tcpflags::ACK,
                window_size: client0.recv_param.window,
                payload: Seq::<u8>::empty(),
            };
            let server2 = synrcvd_step(server1, handshake_ack);
            &&& client1.status == TcpStatus::Established
            &&& server2.status == TcpStatus::Established
            &&& client1.send_param.next == server2.recv_param.next
            &&& server2.send_param.next == client1.recv_param.next
            &&& client1.send_param.next == iss_c + 1
            &&& server2.send_param.next == iss_s + 1
        }),
{
    assert((2u8 | 16u8) == 18u8) by (bit_vector);
    assert((18u8 & 16u8) == 16u8) by (bit_vector);
    assert((18u8 & 2u8) == 2u8) by (bit_vector);
    assert((16u8 & 16u8) == 16u8) by (bit_vector);
    assert(iss_c.wrapping_add(1) == iss_c + 1);
    assert(iss_s.wrapping_add(1) == iss_s + 1);
}

} // verus!

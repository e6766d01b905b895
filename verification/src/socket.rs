//! Per-connection state: the connection key, send and receive parameters,
//! the TCP state, the reassembly buffer and the retransmission queue, plus
//! the socket-local transitions (segment assembly, acknowledgement drain,
//! payload reassembly, and the handlers that touch a single socket).

use vstd::prelude::*;

use std::collections::VecDeque;

use crate::segment::{Segment, SegmentModel};
use crate::tcp::{Effects, Outgoing, TCPEvent, TCPEventKind};
use crate::tcpflags;
use crate::SOCKET_BUFFER_SIZE;

verus! {

/// A connection is identified by the tuple
/// (local address, remote address, local port, remote port).
/// A listener carries `UNDETERMINED_IP_ADDR` and `UNDETERMINED_PORT` in the
/// remote slots. Addresses are IPv4 addresses as big-endian `u32` values.
#[derive(Debug, Hash, Eq, PartialEq, Clone, Copy, Structural)]
pub struct SockID(pub u32, pub u32, pub u16, pub u16);

/// Send-side parameters of a connection.
#[derive(Clone, Copy, Debug, PartialEq, Eq, Structural)]
pub struct SendParam {
    /// SND.UNA: the oldest sequence number sent but not yet acknowledged.
    pub unacked_seq: u32,
    /// SND.NXT: the next sequence number to send.
    pub next: u32,
    /// SND.WND: how many bytes may still be put in flight.
    pub window: u16,
    /// ISS: the initial send sequence number.
    pub initial_seq: u32,
}

/// Receive-side parameters of a connection.
#[derive(Clone, Copy, Debug, PartialEq, Eq, Structural)]
pub struct RecvParam {
    /// RCV.NXT: the next in-order sequence number expected.
    pub next: u32,
    /// RCV.WND: free bytes remaining in the receive buffer.
    pub window: u16,
    /// IRS: the initial receive sequence number.
    pub initial_seq: u32,
    /// One past the highest sequence number stored so far (gap fill).
    pub tail: u32,
}

/// The TCP connection states this engine implements.
#[derive(PartialEq, Eq, Debug, Clone, Copy, Structural)]
pub enum TcpStatus {
    Listen,
    SynSent,
    SynRcvd,
    Established,
    FinWait1,
    FinWait2,
    TimeWait,
    CloseWait,
    LastAck,
}

impl TcpStatus {
    /// The state's conventional name, as the state diagrams write it, for
    /// logs and diagnostics.
    pub fn as_str(&self) -> (r: &'static str)
        ensures
            r@ == self.name_spec(),
    {
        match self {
            TcpStatus::Listen => "LISTEN",
            TcpStatus::SynSent => "SYNSENT",
            TcpStatus::SynRcvd => "SYNRCVD",
            TcpStatus::Established => "ESTABLISHED",
            TcpStatus::FinWait1 => "FINWAIT1",
            TcpStatus::FinWait2 => "FINWAIT2",
            TcpStatus::TimeWait => "TIMEWAIT",
            TcpStatus::CloseWait => "CLOSEWAIT",
            TcpStatus::LastAck => "LASTACK",
        }
    }

    /// The name `as_str` returns.
    pub open spec fn name_spec(&self) -> Seq<char> {
        match self {
            TcpStatus::Listen => "LISTEN"@,
            TcpStatus::SynSent => "SYNSENT"@,
            TcpStatus::SynRcvd => "SYNRCVD"@,
            TcpStatus::Established => "ESTABLISHED"@,
            TcpStatus::FinWait1 => "FINWAIT1"@,
            TcpStatus::FinWait2 => "FINWAIT2"@,
            TcpStatus::TimeWait => "TIMEWAIT"@,
            TcpStatus::CloseWait => "CLOSEWAIT"@,
            TcpStatus::LastAck => "LASTACK"@,
        }
    }
}

/// A transmitted segment awaiting acknowledgement, with the time of its
/// most recent transmission (milliseconds on the shell's clock) and how
/// often it has been transmitted.
pub struct RetransmissionQueueEntry {
    pub packet: Segment,
    pub latest_transmission_time: u64,
    pub transmission_count: u8,
}

impl RetransmissionQueueEntry {
    pub fn new(packet: Segment, now: u64) -> (e: Self)
        ensures
            e.packet@ == packet@,
            e.latest_transmission_time == now,
            e.transmission_count == 1,
    {
        Self { packet, latest_transmission_time: now, transmission_count: 1 }
    }
}

/// The send/receive parameters and state of a socket: the part of a socket
/// the connection state machine moves. Used by specifications to describe
/// transitions compactly.
pub struct ConnState {
    pub send_param: SendParam,
    pub recv_param: RecvParam,
    pub status: TcpStatus,
}

/// One endpoint of a connection, or a listener.
pub struct Socket {
    pub local_addr: u32,
    pub remote_addr: u32,
    pub local_port: u16,
    pub remote_port: u16,
    pub send_param: SendParam,
    pub recv_param: RecvParam,
    pub status: TcpStatus,
    /// Arrived payload bytes, in sequence-number order: the prefix up to
    /// `SOCKET_BUFFER_SIZE - recv_param.window` holds data not yet handed
    /// to the application.
    pub recv_buffer: Vec<u8>,
    /// Segments awaiting acknowledgement, oldest first.
    pub retransmission_queue: VecDeque<RetransmissionQueueEntry>,
    /// Keys of completed connections awaiting accept. Listeners only.
    pub connected_connection_queue: VecDeque<SockID>,
    /// The listener this socket was accepted from, if any.
    pub listening_socket: Option<SockID>,
}

/// Total payload bytes held by a retransmission queue: the bytes in
/// flight, which the send window owes back on acknowledgement.
pub open spec fn queued_payload_bytes(q: Seq<RetransmissionQueueEntry>) -> int
    decreases q.len(),
{
    if q.len() == 0 {
        0
    } else {
        q[0].packet.payload@.len() + queued_payload_bytes(q.skip(1))
    }
}

pub proof fn lemma_queued_payload_nonneg(q: Seq<RetransmissionQueueEntry>)
    ensures
        queued_payload_bytes(q) >= 0,
    decreases q.len(),
{
    if q.len() > 0 {
        lemma_queued_payload_nonneg(q.skip(1));
    }
}

pub proof fn lemma_queued_payload_push(q: Seq<RetransmissionQueueEntry>, e: RetransmissionQueueEntry)
    ensures
        queued_payload_bytes(q.push(e)) == queued_payload_bytes(q) + e.packet.payload@.len(),
    decreases q.len(),
{
    assert(q.push(e)[0] == if q.len() == 0 { e } else { q[0] });
    if q.len() == 0 {
        assert(q.push(e).skip(1) =~= Seq::<RetransmissionQueueEntry>::empty());
        assert(queued_payload_bytes(q.push(e).skip(1)) == 0);
    } else {
        assert(q.push(e).skip(1) =~= q.skip(1).push(e));
        lemma_queued_payload_push(q.skip(1), e);
    }
}

/// The first entry's bytes plus the rest equals the whole: popping the
/// head moves its payload length out of the queue's total.
pub proof fn lemma_queued_payload_head(q: Seq<RetransmissionQueueEntry>)
    requires
        q.len() > 0,
    ensures
        queued_payload_bytes(q) == q[0].packet.payload@.len() + queued_payload_bytes(q.skip(1)),
        queued_payload_bytes(q) >= q[0].packet.payload@.len(),
{
    lemma_queued_payload_nonneg(q.skip(1));
}

impl Socket {
    /// The connection key of this socket.
    pub open spec fn sock_id_spec(&self) -> SockID {
        SockID(self.local_addr, self.remote_addr, self.local_port, self.remote_port)
    }

    /// The state-machine-relevant part of this socket.
    pub open spec fn conn_state(&self) -> ConnState {
        ConnState { send_param: self.send_param, recv_param: self.recv_param, status: self.status }
    }

    /// The receive buffer has its fixed capacity and the window counts
    /// free bytes within it.
    pub open spec fn buffer_wf(&self) -> bool {
        &&& self.recv_buffer@.len() == SOCKET_BUFFER_SIZE as int
        &&& self.recv_param.window as int <= SOCKET_BUFFER_SIZE as int
    }

    /// The send window plus the payload bytes in flight never exceeds what
    /// a window field can hold, so acknowledgements can always slide the
    /// window right without overflow.
    pub open spec fn send_window_wf(&self) -> bool {
        self.send_param.window as int + queued_payload_bytes(self.retransmission_queue@)
            <= u16::MAX as int
    }

    /// No queued segment is a bare ACK: everything in the retransmission
    /// queue carries payload, SYN or FIN.
    pub open spec fn queue_flags_wf(&self) -> bool {
        forall|i: int|
            0 <= i < self.retransmission_queue@.len()
                ==> !(#[trigger] self.retransmission_queue@[i]).packet@.is_bare_ack()
    }

    /// Everything the engine maintains of a socket between operations.
    pub open spec fn wf(&self) -> bool {
        &&& self.buffer_wf()
        &&& self.send_window_wf()
        &&& self.queue_flags_wf()
    }

    /// SND.UNA never passes SND.NXT (sequence numbers compared as plain
    /// unsigned 32-bit values).
    pub open spec fn send_seq_wf(&self) -> bool {
        self.send_param.unacked_seq <= self.send_param.next
    }

    /// A fresh socket: zeroed sequence parameters, both windows at the
    /// buffer capacity, an empty buffer and empty queues.
    pub fn new(
        local_addr: u32,
        remote_addr: u32,
        local_port: u16,
        remote_port: u16,
        status: TcpStatus,
    ) -> (s: Socket)
        ensures
            s.local_addr == local_addr,
            s.remote_addr == remote_addr,
            s.local_port == local_port,
            s.remote_port == remote_port,
            s.status == status,
            s.send_param == (SendParam {
                unacked_seq: 0,
                initial_seq: 0,
                next: 0,
                window: SOCKET_BUFFER_SIZE as u16,
            }),
            s.recv_param == (RecvParam {
                initial_seq: 0,
                next: 0,
                window: SOCKET_BUFFER_SIZE as u16,
                tail: 0,
            }),
            s.recv_buffer@ == Seq::new(SOCKET_BUFFER_SIZE as nat, |i: int| 0u8),
            s.retransmission_queue@ == Seq::<RetransmissionQueueEntry>::empty(),
            s.connected_connection_queue@ == Seq::<SockID>::empty(),
            s.listening_socket is None,
            s.wf(),
            s.send_seq_wf(),
    {
        let s = Socket {
            local_addr,
            remote_addr,
            local_port,
            remote_port,
            send_param: SendParam {
                unacked_seq: 0,
                initial_seq: 0,
                next: 0,
                window: SOCKET_BUFFER_SIZE as u16,
            },
            recv_param: RecvParam {
                initial_seq: 0,
                next: 0,
                window: SOCKET_BUFFER_SIZE as u16,
                tail: 0,
            },
            status,
            recv_buffer: zero_bytes(SOCKET_BUFFER_SIZE),
            retransmission_queue: VecDeque::new(),
            connected_connection_queue: VecDeque::new(),
            listening_socket: None,
        };
        s
    }

    pub fn get_sock_id(&self) -> (id: SockID)
        ensures
            id == self.sock_id_spec(),
    {
        SockID(self.local_addr, self.remote_addr, self.local_port, self.remote_port)
    }

    /// The payload bytes currently in flight: the sum over the
    /// retransmission queue.
    pub fn queued_payload_len(&self) -> (n: usize)
        requires
            self.send_window_wf(),
        ensures
            n == queued_payload_bytes(self.retransmission_queue@),
    {
        let ghost q = self.retransmission_queue@;
        proof {
            assert(q.skip(0) =~= q);
        }
        let mut n: usize = 0;
        let mut i: usize = 0;
        while i < self.retransmission_queue.len()
            invariant
                q == self.retransmission_queue@,
                self.send_window_wf(),
                i <= q.len(),
                n == queued_payload_bytes(q.take(i as int)),
                n + queued_payload_bytes(q.skip(i as int)) == queued_payload_bytes(q),
                queued_payload_bytes(q) <= u16::MAX as int,
            decreases q.len() - i,
        {
            proof {
                lemma_queued_payload_head(q.skip(i as int));
                lemma_queued_payload_nonneg(q.skip(i + 1));
                assert(q.skip(i as int).skip(1) =~= q.skip(i + 1));
                assert(q.take(i + 1) =~= q.take(i as int).push(q[i as int]));
                lemma_queued_payload_push(q.take(i as int), q[i as int]);
            }
            n = n + self.retransmission_queue[i].packet.payload.len();
            i = i + 1;
        }
        proof {
            assert(q.take(q.len() as int) =~= q);
        }
        n
    }

    /// Assembles an outbound segment from this socket's ports, the given
    /// sequence numbers, flags and payload, advertising the current
    /// receive window. If the segment carries payload or any flag beyond
    /// ACK it is appended to the retransmission queue (first transmission,
    /// at time `now`); a bare ACK is not, since acknowledgements must not
    /// demand acknowledgements of their own.
    pub fn send_tcp_packet(
        &mut self,
        seq: u32,
        ack: u32,
        flag: u8,
        payload: Vec<u8>,
        now: u64,
    ) -> (seg: Segment)
        ensures
            seg@ == (SegmentModel {
                src_port: old(self).local_port,
                dest_port: old(self).remote_port,
                seq,
                ack,
                flag,
                window_size: old(self).recv_param.window,
                payload: payload@,
            }),
            seg@.is_bare_ack() ==> final(self).retransmission_queue@
                == old(self).retransmission_queue@,
            !seg@.is_bare_ack() ==> {
                let q = final(self).retransmission_queue@;
                &&& q.len() == old(self).retransmission_queue@.len() + 1
                &&& q.subrange(0, q.len() - 1) == old(self).retransmission_queue@
                &&& q.last().packet@ == seg@
                &&& q.last().latest_transmission_time == now
                &&& q.last().transmission_count == 1
            },
            queued_payload_bytes(final(self).retransmission_queue@)
                == queued_payload_bytes(old(self).retransmission_queue@) + payload@.len(),
            old(self).queue_flags_wf() ==> final(self).queue_flags_wf(),
            final(self).conn_state() == old(self).conn_state(),
            final(self).recv_buffer@ == old(self).recv_buffer@,
            final(self).connected_connection_queue@ == old(self).connected_connection_queue@,
            final(self).listening_socket == old(self).listening_socket,
            final(self).sock_id_spec() == old(self).sock_id_spec(),
            final(self).buffer_wf() == old(self).buffer_wf(),
    {
        let is_bare_ack = payload.len() == 0 && flag == tcpflags::ACK;
        let seg = Segment {
            src_port: self.local_port,
            dest_port: self.remote_port,
            seq,
            ack,
            flag,
            window_size: self.recv_param.window,
            payload,
        };
        if is_bare_ack {
            return seg;
        }
        let entry = RetransmissionQueueEntry::new(seg.duplicate(), now);
        proof {
            lemma_queued_payload_push(self.retransmission_queue@, entry);
        }
        self.retransmission_queue.push_back(entry);
        proof {
            let q = self.retransmission_queue@;
            assert(q.subrange(0, q.len() - 1) =~= old(self).retransmission_queue@);
        }
        seg
    }
}

/// How many leading entries of a retransmission queue are fully
/// acknowledged: their first sequence number lies strictly below SND.UNA
/// (for the zero-length SYN and FIN segments the strict comparison is the
/// right one, since their acknowledgement sets SND.UNA to seq + 1).
pub open spec fn acked_prefix_len(q: Seq<RetransmissionQueueEntry>, una: u32) -> int
    decreases q.len(),
{
    if q.len() == 0 {
        0
    } else if q[0].packet.seq < una {
        1 + acked_prefix_len(q.skip(1), una)
    } else {
        0
    }
}

/// If the first `k` entries are acknowledged and entry `k` (if any) is
/// not, then the acknowledged prefix has length exactly `k`.
pub proof fn lemma_acked_prefix_decompose(q: Seq<RetransmissionQueueEntry>, una: u32, k: int)
    requires
        0 <= k <= q.len(),
        forall|i: int| 0 <= i < k ==> (#[trigger] q[i]).packet.seq < una,
        k < q.len() ==> !(q[k].packet.seq < una),
    ensures
        acked_prefix_len(q, una) == k,
    decreases k,
{
    if k == 0 {
    } else {
        assert(q[0].packet.seq < una);
        lemma_acked_prefix_decompose(q.skip(1), una, k - 1);
    }
}

impl Socket {
    /// Pops every leading retransmission-queue entry already covered by
    /// SND.UNA, slides the send window right by each popped entry's
    /// payload length, and publishes one Acked event per popped entry.
    /// Stops at the first entry not yet acknowledged.
    pub fn delete_acked_segment_from_retransmission_queue(&mut self, out: &mut Effects)
        requires
            old(self).send_window_wf(),
        ensures
            ({
                let q0 = old(self).retransmission_queue@;
                let k = acked_prefix_len(q0, old(self).send_param.unacked_seq);
                &&& final(self).retransmission_queue@ == q0.skip(k)
                &&& final(self).send_param.window as int == old(self).send_param.window as int
                    + queued_payload_bytes(q0.take(k))
                &&& final(out).events@ == old(out).events@ + Seq::new(
                    k as nat,
                    |i: int| TCPEvent {
                        sock_id: old(self).sock_id_spec(),
                        kind: TCPEventKind::Acked,
                    },
                )
            }),
            final(out).segments@ == old(out).segments@,
            final(self).send_param.window >= old(self).send_param.window,
            final(self).send_param.unacked_seq == old(self).send_param.unacked_seq,
            final(self).send_param.next == old(self).send_param.next,
            final(self).send_param.initial_seq == old(self).send_param.initial_seq,
            final(self).recv_param == old(self).recv_param,
            final(self).status == old(self).status,
            final(self).recv_buffer@ == old(self).recv_buffer@,
            final(self).connected_connection_queue@ == old(self).connected_connection_queue@,
            final(self).listening_socket == old(self).listening_socket,
            final(self).sock_id_spec() == old(self).sock_id_spec(),
            final(self).send_window_wf(),
            old(self).queue_flags_wf() ==> final(self).queue_flags_wf(),
            old(self).buffer_wf() ==> final(self).buffer_wf(),
    {
        let ghost q0 = old(self).retransmission_queue@;
        let ghost una = old(self).send_param.unacked_seq;
        let ghost mut k: int = 0;
        let mut done: bool = false;
        while !done
            invariant
                q0 == old(self).retransmission_queue@,
                una == old(self).send_param.unacked_seq,
                done ==> k == acked_prefix_len(q0, una),
                0 <= k <= q0.len(),
                self.send_param.unacked_seq == una,
                self.retransmission_queue@ == q0.skip(k),
                forall|i: int| 0 <= i < k ==> (#[trigger] q0[i]).packet.seq < una,
                self.send_param.window as int == old(self).send_param.window as int
                    + queued_payload_bytes(q0.take(k)),
                self.send_param.window as int
                    + queued_payload_bytes(self.retransmission_queue@) == old(
                    self,
                ).send_param.window as int + queued_payload_bytes(q0),
                out.events@ == old(out).events@ + Seq::new(
                    k as nat,
                    |i: int| TCPEvent { sock_id: old(self).sock_id_spec(), kind: TCPEventKind::Acked },
                ),
                out.segments@ == old(out).segments@,
                old(self).send_window_wf(),
                self.send_param.window >= old(self).send_param.window,
                self.send_param.next == old(self).send_param.next,
                self.send_param.initial_seq == old(self).send_param.initial_seq,
                self.recv_param == old(self).recv_param,
                self.status == old(self).status,
                self.recv_buffer@ == old(self).recv_buffer@,
                self.connected_connection_queue@ == old(self).connected_connection_queue@,
                self.listening_socket == old(self).listening_socket,
                self.local_addr == old(self).local_addr,
                self.remote_addr == old(self).remote_addr,
                self.local_port == old(self).local_port,
                self.remote_port == old(self).remote_port,
            decreases q0.len() - k + (if done { 0int } else { 1int }),
        {
            proof {
                lemma_queued_payload_nonneg(self.retransmission_queue@);
            }
            let popped = self.retransmission_queue.pop_front();
            match popped {
                None => {
                    proof {
                        lemma_acked_prefix_decompose(q0, una, k);
                    }
                    done = true;
                },
                Some(item) => {
                    proof {
                        assert(item == q0[k]);
                        lemma_queued_payload_head(q0.skip(k));
                        assert(q0.skip(k).skip(1) =~= q0.skip(k + 1));
                    }
                    if item.packet.seq < self.send_param.unacked_seq {
                        let len = item.packet.payload.len();
                        proof {
                            lemma_queued_payload_nonneg(q0.skip(k + 1));
                            assert(q0.take(k + 1) =~= q0.take(k).push(q0[k]));
                            lemma_queued_payload_push(q0.take(k), q0[k]);
                            lemma_queued_payload_nonneg(q0.take(k));
                            assert(self.send_param.window as int + len as int <= u16::MAX as int);
                        }
                        self.send_param.window = self.send_param.window + (len as u16);
                        out.events.push(TCPEvent::new(self.get_sock_id(), TCPEventKind::Acked));
                        proof {
                            k = k + 1;
                            assert(out.events@ =~= old(out).events@ + Seq::new(
                                k as nat,
                                |i: int| TCPEvent {
                                    sock_id: old(self).sock_id_spec(),
                                    kind: TCPEventKind::Acked,
                                },
                            ));
                        }
                    } else {
                        self.retransmission_queue.push_front(item);
                        proof {
                            assert(self.retransmission_queue@ =~= q0.skip(k));
                            lemma_acked_prefix_decompose(q0, una, k);
                        }
                        done = true;
                    }
                },
            }
        }
    }
}

/// What reassembling one segment's payload does to the receive side:
/// the updated receive parameters, the updated buffer contents, and
/// whether the data was stored (and hence is acknowledged).
pub struct PayloadOutcome {
    pub recv: RecvParam,
    pub buffer: Seq<u8>,
    pub acked: bool,
}

/// The reassembly step. Data is placed at
/// `(SOCKET_BUFFER_SIZE - recv.window) + (seq - recv.next)`, which lets an
/// out-of-order segment wait at its offset until the gap before it fills.
/// A segment is dropped without effect when it lies below RCV.NXT (an
/// already-seen retransmit), at or beyond the window, when nothing of it
/// fits in the buffer, or when its end would pass the top of the sequence
/// space; those guards keep the offset arithmetic sound. On an in-order
/// segment RCV.NXT jumps to the stored tail and the window shrinks by the
/// newly delivered span (skipped if a corrupted tail would outrun the
/// window, so the free-byte count never goes negative).
pub open spec fn process_payload_model(
    recv: RecvParam,
    buffer: Seq<u8>,
    seq: u32,
    payload: Seq<u8>,
) -> PayloadOutcome {
    let unchanged = PayloadOutcome { recv, buffer, acked: false };
    if seq < recv.next {
        unchanged
    } else if seq - recv.next >= recv.window as int {
        unchanged
    } else {
        let offset = SOCKET_BUFFER_SIZE - recv.window + (seq - recv.next);
        let copied = if payload.len() <= SOCKET_BUFFER_SIZE - offset {
            payload.len() as int
        } else {
            SOCKET_BUFFER_SIZE - offset
        };
        if copied == 0 {
            unchanged
        } else if seq + copied > u32::MAX {
            unchanged
        } else {
            let end = (seq + copied) as u32;
            let tail2 = if end > recv.tail {
                end
            } else {
                recv.tail
            };
            let buffer2 = buffer.take(offset) + payload.take(copied) + buffer.skip(offset + copied);
            if seq == recv.next && tail2 - seq <= recv.window as int {
                PayloadOutcome {
                    recv: RecvParam {
                        next: tail2,
                        window: (recv.window - (tail2 - seq)) as u16,
                        initial_seq: recv.initial_seq,
                        tail: tail2,
                    },
                    buffer: buffer2,
                    acked: true,
                }
            } else {
                PayloadOutcome {
                    recv: RecvParam {
                        next: recv.next,
                        window: recv.window,
                        initial_seq: recv.initial_seq,
                        tail: tail2,
                    },
                    buffer: buffer2,
                    acked: true,
                }
            }
        }
    }
}

impl Socket {
    /// Copies an arriving segment's payload into the receive buffer at its
    /// reassembly offset, advances RCV.NXT over the newly contiguous data
    /// when the segment is in order, replies with a bare ACK when anything
    /// was stored, and always announces DataArrived so a blocked reader
    /// re-examines the socket.
    pub fn process_payload(&mut self, seg: &Segment, now: u64, out: &mut Effects)
        requires
            old(self).buffer_wf(),
        ensures
            ({
                let m = process_payload_model(
                    old(self).recv_param,
                    old(self).recv_buffer@,
                    seg@.seq,
                    seg@.payload,
                );
                &&& final(self).recv_param == m.recv
                &&& final(self).recv_buffer@ == m.buffer
                &&& if m.acked {
                    let outs = final(out).segments@;
                    &&& outs.len() == old(out).segments@.len() + 1
                    &&& outs.subrange(0, outs.len() - 1) == old(out).segments@
                    &&& outs.last().local_addr == old(self).local_addr
                    &&& outs.last().remote_addr == old(self).remote_addr
                    &&& outs.last().segment@ == (SegmentModel {
                        src_port: old(self).local_port,
                        dest_port: old(self).remote_port,
                        seq: old(self).send_param.next,
                        ack: m.recv.next,
                        flag: tcpflags::ACK,
                        window_size: m.recv.window,
                        payload: Seq::<u8>::empty(),
                    })
                } else {
                    final(out).segments@ == old(out).segments@
                }
            }),
            final(out).events@ == old(out).events@.push(
                TCPEvent { sock_id: old(self).sock_id_spec(), kind: TCPEventKind::DataArrived },
            ),
            final(self).send_param == old(self).send_param,
            final(self).status == old(self).status,
            final(self).retransmission_queue@ == old(self).retransmission_queue@,
            final(self).connected_connection_queue@ == old(self).connected_connection_queue@,
            final(self).listening_socket == old(self).listening_socket,
            final(self).sock_id_spec() == old(self).sock_id_spec(),
            final(self).buffer_wf(),
            old(self).send_window_wf() ==> final(self).send_window_wf(),
            old(self).queue_flags_wf() ==> final(self).queue_flags_wf(),
    {
        let ghost m = process_payload_model(
            self.recv_param,
            self.recv_buffer@,
            seg@.seq,
            seg@.payload,
        );
        if seg.seq < self.recv_param.next {
            out.events.push(TCPEvent::new(self.get_sock_id(), TCPEventKind::DataArrived));
            return ;
        }
        let diff: u32 = seg.seq - self.recv_param.next;
        if diff >= self.recv_param.window as u32 {
            out.events.push(TCPEvent::new(self.get_sock_id(), TCPEventKind::DataArrived));
            return ;
        }
        let offset: usize = (SOCKET_BUFFER_SIZE - self.recv_param.window as usize) + (diff as usize);
        let room: usize = SOCKET_BUFFER_SIZE - offset;
        let copy_size: usize = if seg.payload.len() <= room {
            seg.payload.len()
        } else {
            room
        };
        if copy_size == 0 {
            out.events.push(TCPEvent::new(self.get_sock_id(), TCPEventKind::DataArrived));
            return ;
        }
        if seg.seq > u32::MAX - (copy_size as u32) {
            out.events.push(TCPEvent::new(self.get_sock_id(), TCPEventKind::DataArrived));
            return ;
        }
        let ghost buf0 = self.recv_buffer@;
        let mut i: usize = 0;
        while i < copy_size
            invariant
                buf0 == old(self).recv_buffer@,
                buf0.len() == SOCKET_BUFFER_SIZE as int,
                copy_size <= seg@.payload.len(),
                offset + copy_size <= SOCKET_BUFFER_SIZE,
                i <= copy_size,
                self.recv_buffer@.len() == buf0.len(),
                self.recv_buffer@ =~= buf0.take(offset as int) + seg@.payload.take(i as int)
                    + buf0.skip(offset + i),
                self.recv_param == old(self).recv_param,
                self.send_param == old(self).send_param,
                self.status == old(self).status,
                self.retransmission_queue@ == old(self).retransmission_queue@,
                self.connected_connection_queue@ == old(self).connected_connection_queue@,
                self.listening_socket == old(self).listening_socket,
                self.local_addr == old(self).local_addr,
                self.remote_addr == old(self).remote_addr,
                self.local_port == old(self).local_port,
                self.remote_port == old(self).remote_port,
            decreases copy_size - i,
        {
            self.recv_buffer.set(offset + i, seg.payload[i]);
            i = i + 1;
            proof {
                assert(self.recv_buffer@ =~= buf0.take(offset as int) + seg@.payload.take(i as int)
                    + buf0.skip(offset + i));
            }
        }
        let end: u32 = seg.seq + (copy_size as u32);
        if end > self.recv_param.tail {
            self.recv_param.tail = end;
        }
        if seg.seq == self.recv_param.next {
            let jump: u32 = self.recv_param.tail - seg.seq;
            if jump <= self.recv_param.window as u32 {
                self.recv_param.next = self.recv_param.tail;
                self.recv_param.window = self.recv_param.window - (jump as u16);
            }
        }
        proof {
            assert(self.recv_buffer@ =~= m.buffer);
            assert(self.recv_param == m.recv);
        }
        let ack_seg = self.send_tcp_packet(
            self.send_param.next,
            self.recv_param.next,
            tcpflags::ACK,
            Vec::new(),
            now,
        );
        out.segments.push(Outgoing {
            local_addr: self.local_addr,
            remote_addr: self.remote_addr,
            segment: ack_seg,
        });
        out.events.push(TCPEvent::new(self.get_sock_id(), TCPEventKind::DataArrived));
        proof {
            assert(out.segments@.subrange(0, out.segments@.len() - 1) =~= old(out).segments@);
        }
    }
}

/// An arriving acknowledgement number is acceptable iff it acknowledges
/// something new and nothing unsent: SND.UNA < seg.ack <= SND.NXT.
pub open spec fn ack_acceptable(c: ConnState, ack: u32) -> bool {
    c.send_param.unacked_seq < ack && ack <= c.send_param.next
}

/// A SYN SENT socket accepts a reply iff it is a SYN acknowledging within
/// [SND.UNA, SND.NXT].
pub open spec fn synsent_accepts(c: ConnState, seg: SegmentModel) -> bool {
    &&& seg.flag & tcpflags::ACK > 0
    &&& c.send_param.unacked_seq <= seg.ack
    &&& seg.ack <= c.send_param.next
    &&& seg.flag & tcpflags::SYN > 0
}

/// The SYN SENT transition: on an acceptable SYN(+ACK), record the peer's
/// initial sequence number and window; if our own SYN was acknowledged the
/// connection is established, otherwise fall back to SYN RCVD.
pub open spec fn synsent_step(c: ConnState, seg: SegmentModel) -> ConnState {
    if synsent_accepts(c, seg) {
        ConnState {
            send_param: SendParam {
                unacked_seq: seg.ack,
                next: c.send_param.next,
                window: seg.window_size,
                initial_seq: c.send_param.initial_seq,
            },
            recv_param: RecvParam {
                next: seg.seq.wrapping_add(1),
                window: c.recv_param.window,
                initial_seq: seg.seq,
                tail: c.recv_param.tail,
            },
            status: if seg.ack > c.send_param.initial_seq {
                TcpStatus::Established
            } else {
                TcpStatus::SynRcvd
            },
        }
    } else {
        c
    }
}

/// The passive-open transition: the connection state of the socket a
/// listener creates for an arriving SYN, given the chosen initial send
/// sequence number (drawn from [1, 2^31), so `iss + 1` cannot wrap).
pub open spec fn listen_step(iss: u32, seg: SegmentModel) -> ConnState {
    ConnState {
        send_param: SendParam {
            unacked_seq: iss,
            next: (iss + 1) as u32,
            window: seg.window_size,
            initial_seq: iss,
        },
        recv_param: RecvParam {
            next: seg.seq.wrapping_add(1),
            window: SOCKET_BUFFER_SIZE as u16,
            initial_seq: seg.seq,
            tail: 0,
        },
        status: TcpStatus::SynRcvd,
    }
}

/// A SYN RCVD socket accepts the handshake-completing segment iff it
/// carries ACK and acknowledges within [SND.UNA, SND.NXT].
pub open spec fn synrcvd_accepts(c: ConnState, seg: SegmentModel) -> bool {
    &&& seg.flag & tcpflags::ACK > 0
    &&& c.send_param.unacked_seq <= seg.ack
    &&& seg.ack <= c.send_param.next
}

/// The SYN RCVD transition: on the handshake-completing ACK, record its
/// numbers and establish the connection. RCV.NXT takes the segment's own
/// sequence number (no increment: a bare ACK occupies no sequence space).
pub open spec fn synrcvd_step(c: ConnState, seg: SegmentModel) -> ConnState {
    if synrcvd_accepts(c, seg) {
        ConnState {
            send_param: SendParam {
                unacked_seq: seg.ack,
                next: c.send_param.next,
                window: c.send_param.window,
                initial_seq: c.send_param.initial_seq,
            },
            recv_param: RecvParam {
                next: seg.seq,
                window: c.recv_param.window,
                initial_seq: c.recv_param.initial_seq,
                tail: c.recv_param.tail,
            },
            status: TcpStatus::Established,
        }
    } else {
        c
    }
}


/// Everything handling a segment in ESTABLISHED does, as a relation
/// between the socket and the effects before (`s0`, `sg0`, `ev0`) and
/// after (`s1`, `sg1`, `ev1`) the segment `s` is handled: the
/// acknowledgement accounting and queue drain, the reassembly, and the
/// FIN transition, with every emitted segment and event pinned.
pub open spec fn established_post(
    s0: Socket,
    s1: Socket,
    sg0: Seq<Outgoing>,
    sg1: Seq<Outgoing>,
    ev0: Seq<TCPEvent>,
    ev1: Seq<TCPEvent>,
    s: SegmentModel,
) -> bool {
    let c0 = s0.conn_state();
    let q0 = s0.retransmission_queue@;
    let accept = ack_acceptable(c0, s.ack);
    let early_drop = !accept && c0.send_param.next < s.ack;
    let una1 = if accept { s.ack } else { c0.send_param.unacked_seq };
    let k = if accept { acked_prefix_len(q0, una1) } else { 0 };
    let w1 = c0.send_param.window as int + queued_payload_bytes(q0.take(k));
    let drain_events = Seq::new(
        k as nat,
        |i: int| TCPEvent { sock_id: s0.sock_id_spec(), kind: TCPEventKind::Acked },
    );
    if early_drop {
        &&& s1.conn_state() == c0
        &&& s1.retransmission_queue@ == q0
        &&& s1.recv_buffer@ == s0.recv_buffer@
        &&& sg1 == sg0
        &&& ev1 == ev0
    } else if s.flag & tcpflags::ACK == 0 {
        &&& s1.send_param == (SendParam {
            unacked_seq: una1,
            next: c0.send_param.next,
            window: w1 as u16,
            initial_seq: c0.send_param.initial_seq,
        })
        &&& s1.recv_param == c0.recv_param
        &&& s1.status == c0.status
        &&& s1.retransmission_queue@ == q0.skip(k)
        &&& s1.recv_buffer@ == s0.recv_buffer@
        &&& sg1 == sg0
        &&& ev1 == ev0 + drain_events
    } else {
        let m = if s.payload.len() > 0 {
            process_payload_model(c0.recv_param, s0.recv_buffer@, s.seq, s.payload)
        } else {
            PayloadOutcome {
                recv: c0.recv_param,
                buffer: s0.recv_buffer@,
                acked: false,
            }
        };
        let fin = s.flag & tcpflags::FIN > 0;
        &&& s1.send_param == (SendParam {
            unacked_seq: una1,
            next: c0.send_param.next,
            window: w1 as u16,
            initial_seq: c0.send_param.initial_seq,
        })
        &&& s1.retransmission_queue@ == q0.skip(k)
        &&& s1.recv_buffer@ == m.buffer
        &&& s1.status == if fin { TcpStatus::CloseWait } else { c0.status }
        &&& s1.recv_param == if fin {
            RecvParam {
                next: s.seq.wrapping_add(1),
                window: m.recv.window,
                initial_seq: m.recv.initial_seq,
                tail: m.recv.tail,
            }
        } else {
            m.recv
        }
        &&& ev1 == ev0 + drain_events + (
            if s.payload.len() > 0 {
                seq![TCPEvent { sock_id: s0.sock_id_spec(), kind: TCPEventKind::DataArrived }]
            } else {
                Seq::<TCPEvent>::empty()
            }
        ) + (
            if fin {
                seq![TCPEvent { sock_id: s0.sock_id_spec(), kind: TCPEventKind::DataArrived }]
            } else {
                Seq::<TCPEvent>::empty()
            }
        )
        &&& sg1.len() == sg0.len() + (
            if m.acked { 1int } else { 0int }
        ) + (
            if fin { 1int } else { 0int }
        )
        &&& sg1.take(sg0.len() as int)
            == sg0
        &&& (m.acked ==> s0.outgoing_bare_ack(
            sg1[sg0.len() as int],
            c0.send_param.next,
            m.recv.next,
            m.recv.window,
        ))
        &&& (fin ==> s0.outgoing_bare_ack(
            sg1.last(),
            c0.send_param.next,
            s.seq.wrapping_add(1),
            m.recv.window,
        ))
    }
}

/// Everything handling a segment in FIN WAIT 1 or FIN WAIT 2 does, in the
/// same shape as `established_post`: the ESTABLISHED acknowledgement
/// accounting and reassembly, the move to FIN WAIT 2 once our FIN is
/// acknowledged, and the ConnectionClosed announcement on the peer's FIN.
pub open spec fn finwait_post(
    s0: Socket,
    s1: Socket,
    sg0: Seq<Outgoing>,
    sg1: Seq<Outgoing>,
    ev0: Seq<TCPEvent>,
    ev1: Seq<TCPEvent>,
    s: SegmentModel,
) -> bool {
    let c0 = s0.conn_state();
    let q0 = s0.retransmission_queue@;
    let accept = ack_acceptable(c0, s.ack);
    let early_drop = !accept && c0.send_param.next < s.ack;
    let una1 = if accept { s.ack } else { c0.send_param.unacked_seq };
    let k = if accept { acked_prefix_len(q0, una1) } else { 0 };
    let w1 = c0.send_param.window as int + queued_payload_bytes(q0.take(k));
    let drain_events = Seq::new(
        k as nat,
        |i: int| TCPEvent { sock_id: s0.sock_id_spec(), kind: TCPEventKind::Acked },
    );
    if early_drop {
        &&& s1.conn_state() == c0
        &&& s1.retransmission_queue@ == q0
        &&& s1.recv_buffer@ == s0.recv_buffer@
        &&& sg1 == sg0
        &&& ev1 == ev0
    } else {
        let m = if s.payload.len() > 0 {
            process_payload_model(c0.recv_param, s0.recv_buffer@, s.seq, s.payload)
        } else {
            PayloadOutcome {
                recv: c0.recv_param,
                buffer: s0.recv_buffer@,
                acked: false,
            }
        };
        let st1 = if c0.status == TcpStatus::FinWait1 && c0.send_param.next == una1 {
            TcpStatus::FinWait2
        } else {
            c0.status
        };
        let fin = s.flag & tcpflags::FIN > 0;
        &&& s1.send_param == (SendParam {
            unacked_seq: una1,
            next: c0.send_param.next,
            window: w1 as u16,
            initial_seq: c0.send_param.initial_seq,
        })
        &&& s1.retransmission_queue@ == q0.skip(k)
        &&& s1.recv_buffer@ == m.buffer
        &&& s1.status == st1
        &&& s1.recv_param == if fin {
            RecvParam {
                next: m.recv.next.wrapping_add(1),
                window: m.recv.window,
                initial_seq: m.recv.initial_seq,
                tail: m.recv.tail,
            }
        } else {
            m.recv
        }
        &&& ev1 == ev0 + drain_events + (
            if s.payload.len() > 0 {
                seq![TCPEvent { sock_id: s0.sock_id_spec(), kind: TCPEventKind::DataArrived }]
            } else {
                Seq::<TCPEvent>::empty()
            }
        ) + (
            if fin {
                seq![TCPEvent { sock_id: s0.sock_id_spec(), kind: TCPEventKind::ConnectionClosed }]
            } else {
                Seq::<TCPEvent>::empty()
            }
        )
        &&& sg1.len() == sg0.len() + (
            if m.acked { 1int } else { 0int }
        ) + (
            if fin { 1int } else { 0int }
        )
        &&& sg1.take(sg0.len() as int)
            == sg0
        &&& (m.acked ==> s0.outgoing_bare_ack(
            sg1[sg0.len() as int],
            c0.send_param.next,
            m.recv.next,
            m.recv.window,
        ))
        &&& (fin ==> s0.outgoing_bare_ack(
            sg1.last(),
            c0.send_param.next,
            m.recv.next.wrapping_add(1),
            m.recv.window,
        ))
    }
}


impl Socket {
    /// `o` is a bare acknowledgement from this socket to its peer with the
    /// given sequence number, acknowledgement number and advertised window.
    pub open spec fn outgoing_bare_ack(&self, o: Outgoing, seqno: u32, ackno: u32, win: u16) -> bool {
        &&& o.local_addr == self.local_addr
        &&& o.remote_addr == self.remote_addr
        &&& o.segment@ == (SegmentModel {
            src_port: self.local_port,
            dest_port: self.remote_port,
            seq: seqno,
            ack: ackno,
            flag: tcpflags::ACK,
            window_size: win,
            payload: Seq::<u8>::empty(),
        })
    }

    /// Handles a segment arriving in SYN SENT: the second step of an
    /// active open. On an acceptable SYN(+ACK) the socket adopts the
    /// peer's sequence parameters, replies with a bare ACK, and either
    /// completes the connection or (if only our SYN is still unneeded of
    /// acknowledgement) falls back to SYN RCVD. Anything else is ignored.
    pub fn synsent_handler(&mut self, seg: &Segment, now: u64, out: &mut Effects)
        ensures
            final(self).conn_state() == synsent_step(old(self).conn_state(), seg@),
            final(self).retransmission_queue@ == old(self).retransmission_queue@,
            final(self).recv_buffer@ == old(self).recv_buffer@,
            final(self).connected_connection_queue@ == old(self).connected_connection_queue@,
            final(self).listening_socket == old(self).listening_socket,
            final(self).sock_id_spec() == old(self).sock_id_spec(),
            if synsent_accepts(old(self).conn_state(), seg@) {
                let outs = final(out).segments@;
                &&& outs.len() == old(out).segments@.len() + 1
                &&& outs.subrange(0, outs.len() - 1) == old(out).segments@
                &&& old(self).outgoing_bare_ack(
                    outs.last(),
                    old(self).send_param.next,
                    seg@.seq.wrapping_add(1),
                    old(self).recv_param.window,
                )
                &&& if seg@.ack > old(self).send_param.initial_seq {
                    final(out).events@ == old(out).events@.push(
                        TCPEvent {
                            sock_id: old(self).sock_id_spec(),
                            kind: TCPEventKind::ConnectionCompleted,
                        },
                    )
                } else {
                    final(out).events@ == old(out).events@
                }
            } else {
                &&& final(out).segments@ == old(out).segments@
                &&& final(out).events@ == old(out).events@
            },
            old(self).buffer_wf() ==> final(self).buffer_wf(),
            old(self).queue_flags_wf() ==> final(self).queue_flags_wf(),
            queued_payload_bytes(old(self).retransmission_queue@) == 0
                ==> final(self).send_window_wf(),
            old(self).send_seq_wf() ==> final(self).send_seq_wf(),
    {
        if seg.flag & tcpflags::ACK > 0 && self.send_param.unacked_seq <= seg.ack
            && seg.ack <= self.send_param.next && seg.flag & tcpflags::SYN > 0 {
            self.recv_param.next = seg.seq.wrapping_add(1);
            self.recv_param.initial_seq = seg.seq;
            self.send_param.unacked_seq = seg.ack;
            self.send_param.window = seg.window_size;
            if self.send_param.unacked_seq > self.send_param.initial_seq {
                self.status = TcpStatus::Established;
                let reply = self.send_tcp_packet(
                    self.send_param.next,
                    self.recv_param.next,
                    tcpflags::ACK,
                    Vec::new(),
                    now,
                );
                out.segments.push(Outgoing {
                    local_addr: self.local_addr,
                    remote_addr: self.remote_addr,
                    segment: reply,
                });
                out.events.push(
                    TCPEvent::new(self.get_sock_id(), TCPEventKind::ConnectionCompleted),
                );
            } else {
                self.status = TcpStatus::SynRcvd;
                let reply = self.send_tcp_packet(
                    self.send_param.next,
                    self.recv_param.next,
                    tcpflags::ACK,
                    Vec::new(),
                    now,
                );
                out.segments.push(Outgoing {
                    local_addr: self.local_addr,
                    remote_addr: self.remote_addr,
                    segment: reply,
                });
            }
            proof {
                assert(out.segments@.subrange(0, out.segments@.len() - 1) =~= old(out).segments@);
            }
        }
    }

    /// Handles a segment arriving in ESTABLISHED: account an acceptable
    /// acknowledgement and drain the retransmission queue; drop segments
    /// acknowledging unsent data or lacking the ACK bit; reassemble any
    /// payload; and on FIN acknowledge it, move to CLOSE WAIT and announce
    /// DataArrived so a blocked reader sees the end of the stream.
    #[verifier::rlimit(60)]
    pub fn established_handler(&mut self, seg: &Segment, now: u64, out: &mut Effects)
        requires
            old(self).wf(),
        ensures
            established_post(
                *old(self),
                *final(self),
                old(out).segments@,
                final(out).segments@,
                old(out).events@,
                final(out).events@,
                seg@,
            ),
            final(self).connected_connection_queue@ == old(self).connected_connection_queue@,
            final(self).listening_socket == old(self).listening_socket,
            final(self).sock_id_spec() == old(self).sock_id_spec(),
            final(self).wf(),
            old(self).send_seq_wf() ==> final(self).send_seq_wf(),
    {
        proof {
            assert(self.retransmission_queue@.skip(0) =~= self.retransmission_queue@);
        }
        if self.send_param.unacked_seq < seg.ack && seg.ack <= self.send_param.next {
            self.send_param.unacked_seq = seg.ack;
            self.delete_acked_segment_from_retransmission_queue(out);
        } else if self.send_param.next < seg.ack {
            return ;
        }
        if seg.flag & tcpflags::ACK == 0 {
            return ;
        }
        if seg.payload.len() > 0 {
            self.process_payload(seg, now, out);
        }
        if seg.flag & tcpflags::FIN > 0 {
            self.recv_param.next = seg.seq.wrapping_add(1);
            let reply = self.send_tcp_packet(
                self.send_param.next,
                self.recv_param.next,
                tcpflags::ACK,
                Vec::new(),
                now,
            );
            out.segments.push(Outgoing {
                local_addr: self.local_addr,
                remote_addr: self.remote_addr,
                segment: reply,
            });
            self.status = TcpStatus::CloseWait;
            out.events.push(TCPEvent::new(self.get_sock_id(), TCPEventKind::DataArrived));
        }
        proof {
            let c0 = old(self).conn_state();
            let sm = seg@;
            let accept = ack_acceptable(c0, sm.ack);
            let una1 = if accept { sm.ack } else { c0.send_param.unacked_seq };
            let k = if accept {
                acked_prefix_len(old(self).retransmission_queue@, una1)
            } else {
                0int
            };
            let drain_events = Seq::new(
                k as nat,
                |i: int| TCPEvent { sock_id: old(self).sock_id_spec(), kind: TCPEventKind::Acked },
            );
            let da = if sm.payload.len() > 0 {
                seq![TCPEvent { sock_id: old(self).sock_id_spec(), kind: TCPEventKind::DataArrived }]
            } else {
                Seq::<TCPEvent>::empty()
            };
            let fe = if sm.flag & tcpflags::FIN > 0 {
                seq![TCPEvent { sock_id: old(self).sock_id_spec(), kind: TCPEventKind::DataArrived }]
            } else {
                Seq::<TCPEvent>::empty()
            };
            assert(out.events@ =~= old(out).events@ + drain_events + da + fe);
            assert(out.segments@.take(old(out).segments@.len() as int) =~= old(out).segments@);
        }
    }

    /// Handles a segment arriving in FIN WAIT 1 or FIN WAIT 2 (active
    /// close): the same acknowledgement accounting and reassembly as
    /// ESTABLISHED; moves FIN WAIT 1 to FIN WAIT 2 once our FIN is
    /// acknowledged; and on the peer's FIN acknowledges it and announces
    /// ConnectionClosed (TIME WAIT is omitted).
    #[verifier::rlimit(60)]
    pub fn finwait_handler(&mut self, seg: &Segment, now: u64, out: &mut Effects)
        requires
            old(self).wf(),
        ensures
            finwait_post(
                *old(self),
                *final(self),
                old(out).segments@,
                final(out).segments@,
                old(out).events@,
                final(out).events@,
                seg@,
            ),
            final(self).connected_connection_queue@ == old(self).connected_connection_queue@,
            final(self).listening_socket == old(self).listening_socket,
            final(self).sock_id_spec() == old(self).sock_id_spec(),
            final(self).wf(),
            old(self).send_seq_wf() ==> final(self).send_seq_wf(),
    {
        proof {
            assert(self.retransmission_queue@.skip(0) =~= self.retransmission_queue@);
        }
        if self.send_param.unacked_seq < seg.ack && seg.ack <= self.send_param.next {
            self.send_param.unacked_seq = seg.ack;
            self.delete_acked_segment_from_retransmission_queue(out);
        } else if self.send_param.next < seg.ack {
            return ;
        }
        if seg.payload.len() > 0 {
            self.process_payload(seg, now, out);
        }
        if matches!(self.status, TcpStatus::FinWait1)
            && self.send_param.next == self.send_param.unacked_seq {
            self.status = TcpStatus::FinWait2;
        }
        if seg.flag & tcpflags::FIN > 0 {
            self.recv_param.next = self.recv_param.next.wrapping_add(1);
            let reply = self.send_tcp_packet(
                self.send_param.next,
                self.recv_param.next,
                tcpflags::ACK,
                Vec::new(),
                now,
            );
            out.segments.push(Outgoing {
                local_addr: self.local_addr,
                remote_addr: self.remote_addr,
                segment: reply,
            });
            out.events.push(TCPEvent::new(self.get_sock_id(), TCPEventKind::ConnectionClosed));
        }
        proof {
            let c0 = old(self).conn_state();
            let sm = seg@;
            let accept = ack_acceptable(c0, sm.ack);
            let una1 = if accept { sm.ack } else { c0.send_param.unacked_seq };
            let k = if accept {
                acked_prefix_len(old(self).retransmission_queue@, una1)
            } else {
                0int
            };
            let drain_events = Seq::new(
                k as nat,
                |i: int| TCPEvent { sock_id: old(self).sock_id_spec(), kind: TCPEventKind::Acked },
            );
            let da = if sm.payload.len() > 0 {
                seq![TCPEvent { sock_id: old(self).sock_id_spec(), kind: TCPEventKind::DataArrived }]
            } else {
                Seq::<TCPEvent>::empty()
            };
            let fe = if sm.flag & tcpflags::FIN > 0 {
                seq![TCPEvent { sock_id: old(self).sock_id_spec(), kind: TCPEventKind::ConnectionClosed }]
            } else {
                Seq::<TCPEvent>::empty()
            };
            assert(out.events@ =~= old(out).events@ + drain_events + da + fe);
            assert(out.segments@.take(old(out).segments@.len() as int) =~= old(out).segments@);
        }
    }

    /// Handles a segment arriving in CLOSE WAIT or LAST ACK: only the
    /// acknowledgement number is recorded; the timer tick notices the
    /// acknowledged FIN and publishes ConnectionClosed.
    pub fn close_handler(&mut self, seg: &Segment)
        ensures
            final(self).send_param == (SendParam {
                unacked_seq: seg@.ack,
                next: old(self).send_param.next,
                window: old(self).send_param.window,
                initial_seq: old(self).send_param.initial_seq,
            }),
            final(self).recv_param == old(self).recv_param,
            final(self).status == old(self).status,
            final(self).retransmission_queue@ == old(self).retransmission_queue@,
            final(self).recv_buffer@ == old(self).recv_buffer@,
            final(self).connected_connection_queue@ == old(self).connected_connection_queue@,
            final(self).listening_socket == old(self).listening_socket,
            final(self).sock_id_spec() == old(self).sock_id_spec(),
            old(self).wf() ==> final(self).wf(),
            seg@.ack <= old(self).send_param.next ==> final(self).send_seq_wf(),
    {
        self.send_param.unacked_seq = seg.ack;
    }
}

/// A queued entry's age has reached the retransmission timeout.
pub open spec fn entry_expired(e: RetransmissionQueueEntry, now: u64) -> bool {
    now >= crate::RETRANSMITTION_TIMEOUT && now - crate::RETRANSMITTION_TIMEOUT
        >= e.latest_transmission_time
}

/// The outcome of one timer pass over a retransmission queue: the queue
/// that remains, the send window after drains, the events published in
/// order, and the stored packet resent, if the pass resent one.
pub struct TimerOutcome {
    pub queue: Seq<RetransmissionQueueEntry>,
    pub window: int,
    pub events: Seq<TCPEvent>,
    pub resend: Option<SegmentModel>,
}

/// One retransmission-timer pass, entry by entry from the head.
/// An acknowledged head is drained: the window slides right by its
/// payload, Acked fires, and an acknowledged FIN in LAST ACK additionally
/// fires ConnectionClosed (this unblocks the closer). An unacknowledged,
/// unexpired head stops the pass: everything behind it is younger. An
/// expired head with attempts left is rotated to the back, stamped and
/// counted, its stored packet resent, and the pass stops. One out of
/// attempts is given up (a given-up FIN in a closing state fires
/// ConnectionClosed, the peer presumed gone) and the pass goes on.
pub open spec fn timer_pass(
    q: Seq<RetransmissionQueueEntry>,
    una: u32,
    status: TcpStatus,
    window: int,
    now: u64,
    id: SockID,
) -> TimerOutcome
    decreases q.len(),
{
    if q.len() == 0 {
        TimerOutcome { queue: q, window, events: Seq::<TCPEvent>::empty(), resend: None }
    } else {
        let e = q[0];
        if e.packet.seq < una {
            let rest = timer_pass(
                q.skip(1),
                una,
                status,
                window + e.packet.payload@.len(),
                now,
                id,
            );
            let here = seq![TCPEvent { sock_id: id, kind: TCPEventKind::Acked }] + (
                if e.packet.flag & tcpflags::FIN > 0 && status == TcpStatus::LastAck {
                    seq![TCPEvent { sock_id: id, kind: TCPEventKind::ConnectionClosed }]
                } else {
                    Seq::<TCPEvent>::empty()
                }
            );
            TimerOutcome {
                queue: rest.queue,
                window: rest.window,
                events: here + rest.events,
                resend: rest.resend,
            }
        } else if !entry_expired(e, now) {
            TimerOutcome { queue: q, window, events: Seq::<TCPEvent>::empty(), resend: None }
        } else if e.transmission_count < crate::MAX_TRANSMITTION {
            TimerOutcome {
                queue: q.skip(1).push(
                    RetransmissionQueueEntry {
                        packet: e.packet,
                        latest_transmission_time: now,
                        transmission_count: (e.transmission_count + 1) as u8,
                    },
                ),
                window,
                events: Seq::<TCPEvent>::empty(),
                resend: Some(e.packet@),
            }
        } else {
            let rest = timer_pass(q.skip(1), una, status, window, now, id);
            let here = if e.packet.flag & tcpflags::FIN > 0 && (status == TcpStatus::LastAck
                || status == TcpStatus::FinWait1 || status == TcpStatus::FinWait2) {
                seq![TCPEvent { sock_id: id, kind: TCPEventKind::ConnectionClosed }]
            } else {
                Seq::<TCPEvent>::empty()
            };
            TimerOutcome {
                queue: rest.queue,
                window: rest.window,
                events: here + rest.events,
                resend: rest.resend,
            }
        }
    }
}

impl Socket {
    /// One retransmission-timer pass over this socket's queue: drains
    /// acknowledged entries (sliding the send window right and publishing
    /// Acked; an acknowledged FIN in LAST ACK publishes ConnectionClosed),
    /// then, if the head entry's last transmission is at least the
    /// retransmission timeout old, either resends it (bumping its count,
    /// stamping `now`, moving it to the back, and stopping for this tick)
    /// or, once its transmission count is exhausted, gives it up (a
    /// given-up FIN in a closing state publishes ConnectionClosed).
    #[verifier::rlimit(100)]
    pub fn timer_tick(&mut self, now: u64, out: &mut Effects)
        requires
            old(self).send_window_wf(),
        ensures
            final(self).send_window_wf(),
            old(self).queue_flags_wf() ==> final(self).queue_flags_wf(),
            old(self).buffer_wf() ==> final(self).buffer_wf(),
            final(self).send_param.window >= old(self).send_param.window,
            final(self).send_param.unacked_seq == old(self).send_param.unacked_seq,
            final(self).send_param.next == old(self).send_param.next,
            final(self).send_param.initial_seq == old(self).send_param.initial_seq,
            final(self).recv_param == old(self).recv_param,
            final(self).status == old(self).status,
            final(self).recv_buffer@ == old(self).recv_buffer@,
            final(self).connected_connection_queue@ == old(self).connected_connection_queue@,
            final(self).listening_socket == old(self).listening_socket,
            final(self).sock_id_spec() == old(self).sock_id_spec(),
            // the timer invents no segments: everything it emits is a
            // stored packet of this socket, resent as it was
            final(out).segments@.len() >= old(out).segments@.len(),
            forall|k: int|
                0 <= k < old(out).segments@.len() ==> #[trigger] final(out).segments@[k]
                    == old(out).segments@[k],
            forall|k: int|
                old(out).segments@.len() <= k < final(out).segments@.len() ==> exists|j: int|
                    0 <= j < old(self).retransmission_queue@.len()
                        && (#[trigger] final(out).segments@[k]).segment@
                        == old(self).retransmission_queue@[j].packet@
                        && final(out).segments@[k].local_addr == old(self).local_addr
                        && final(out).segments@[k].remote_addr == old(self).remote_addr,
            // likewise every queued segment was queued before
            forall|j: int|
                0 <= j < final(self).retransmission_queue@.len() ==> exists|j0: int|
                    0 <= j0 < old(self).retransmission_queue@.len()
                        && (#[trigger] final(self).retransmission_queue@[j]).packet@
                        == old(self).retransmission_queue@[j0].packet@,
            final(out).events@.len() >= old(out).events@.len(),
            forall|k: int|
                0 <= k < old(out).events@.len() ==> #[trigger] final(out).events@[k]
                    == old(out).events@[k],
            forall|k: int|
                old(out).events@.len() <= k < final(out).events@.len() ==> {
                    let e = #[trigger] final(out).events@[k];
                    e.sock_id == old(self).sock_id_spec() && (e.kind == TCPEventKind::Acked
                        || e.kind == TCPEventKind::ConnectionClosed)
                },
            // the pass as a whole: the queue, the window, the published
            // events and the resent packet are exactly the model's
            ({
                let m = timer_pass(
                    old(self).retransmission_queue@,
                    old(self).send_param.unacked_seq,
                    old(self).status,
                    old(self).send_param.window as int,
                    now,
                    old(self).sock_id_spec(),
                );
                &&& final(self).retransmission_queue@ == m.queue
                &&& final(self).send_param.window as int == m.window
                &&& final(out).events@ == old(out).events@ + m.events
                &&& match m.resend {
                    Some(pk) => final(out).segments@.len() == old(out).segments@.len() + 1
                        && final(out).segments@.last().segment@ == pk
                        && final(out).segments@.last().local_addr == old(self).local_addr
                        && final(out).segments@.last().remote_addr == old(self).remote_addr,
                    None => final(out).segments@ == old(out).segments@,
                }
            }),
    {
        let ghost q0 = old(self).retransmission_queue@;
        let ghost mo = timer_pass(
            old(self).retransmission_queue@,
            old(self).send_param.unacked_seq,
            old(self).status,
            old(self).send_param.window as int,
            now,
            old(self).sock_id_spec(),
        );
        let ghost mut p: int = 0;
        let mut done: bool = false;
        while !done
            invariant
                q0 == old(self).retransmission_queue@,
                old(self).send_window_wf(),
                0 <= p <= q0.len(),
                !done ==> self.retransmission_queue@ == q0.skip(p),
                !done ==> out.segments@ == old(out).segments@,
                self.send_param.window as int + queued_payload_bytes(self.retransmission_queue@)
                    <= old(self).send_param.window as int + queued_payload_bytes(q0),
                self.send_param.window >= old(self).send_param.window,
                self.send_param.unacked_seq == old(self).send_param.unacked_seq,
                self.send_param.next == old(self).send_param.next,
                self.send_param.initial_seq == old(self).send_param.initial_seq,
                self.recv_param == old(self).recv_param,
                self.status == old(self).status,
                self.recv_buffer@ == old(self).recv_buffer@,
                self.connected_connection_queue@ == old(self).connected_connection_queue@,
                self.listening_socket == old(self).listening_socket,
                self.local_addr == old(self).local_addr,
                self.remote_addr == old(self).remote_addr,
                self.local_port == old(self).local_port,
                self.remote_port == old(self).remote_port,
                forall|j: int|
                    0 <= j < self.retransmission_queue@.len() ==> exists|j0: int|
                        0 <= j0 < q0.len() && (#[trigger] self.retransmission_queue@[j]).packet@
                            == q0[j0].packet@
                            && self.retransmission_queue@[j].packet.payload@
                            == q0[j0].packet.payload@,
                out.segments@.len() >= old(out).segments@.len(),
                forall|k: int|
                    0 <= k < old(out).segments@.len() ==> #[trigger] out.segments@[k]
                        == old(out).segments@[k],
                forall|k: int|
                    old(out).segments@.len() <= k < out.segments@.len() ==> exists|j: int|
                        0 <= j < q0.len() && (#[trigger] out.segments@[k]).segment@
                            == q0[j].packet@ && out.segments@[k].local_addr == old(self).local_addr
                            && out.segments@[k].remote_addr == old(self).remote_addr,
                out.events@.len() >= old(out).events@.len(),
                forall|k: int|
                    0 <= k < old(out).events@.len() ==> #[trigger] out.events@[k]
                        == old(out).events@[k],
                forall|k: int|
                    old(out).events@.len() <= k < out.events@.len() ==> {
                        let e = #[trigger] out.events@[k];
                        e.sock_id == old(self).sock_id_spec() && (e.kind == TCPEventKind::Acked
                            || e.kind == TCPEventKind::ConnectionClosed)
                    },
                mo == timer_pass(
                    q0,
                    old(self).send_param.unacked_seq,
                    old(self).status,
                    old(self).send_param.window as int,
                    now,
                    old(self).sock_id_spec(),
                ),
                !done ==> ({
                    let rest = timer_pass(
                        self.retransmission_queue@,
                        old(self).send_param.unacked_seq,
                        old(self).status,
                        self.send_param.window as int,
                        now,
                        old(self).sock_id_spec(),
                    );
                    &&& mo.queue == rest.queue
                    &&& mo.window == rest.window
                    &&& old(out).events@ + mo.events == out.events@ + rest.events
                    &&& mo.resend == rest.resend
                }),
                done ==> ({
                    &&& mo.queue == self.retransmission_queue@
                    &&& mo.window == self.send_param.window as int
                    &&& out.events@ == old(out).events@ + mo.events
                    &&& match mo.resend {
                        Some(pk) => out.segments@.len() == old(out).segments@.len() + 1
                            && out.segments@.last().segment@ == pk
                            && out.segments@.last().local_addr == old(self).local_addr
                            && out.segments@.last().remote_addr == old(self).remote_addr,
                        None => out.segments@ == old(out).segments@,
                    }
                }),
            decreases q0.len() - p + (if done { 0int } else { 1int }),
        {
            let ghost pre_q = self.retransmission_queue@;
            let ghost pre_w = self.send_param.window as int;
            let ghost pre_ev = out.events@;
            let ghost una = old(self).send_param.unacked_seq;
            let ghost st = old(self).status;
            let ghost id = old(self).sock_id_spec();
            proof {
                if self.retransmission_queue@.len() > 0 {
                    lemma_queued_payload_head(self.retransmission_queue@);
                    lemma_queued_payload_nonneg(self.retransmission_queue@.skip(1));
                }
            }
            let popped = self.retransmission_queue.pop_front();
            match popped {
                None => {
                    proof {
                        assert(out.events@ + Seq::<TCPEvent>::empty() =~= out.events@);
                    }
                    done = true;
                },
                Some(item) => {
                    if item.packet.seq < self.send_param.unacked_seq {
                        // acknowledged: drop it and slide the window right
                        let len = item.packet.payload.len();
                        proof {
                            lemma_queued_payload_nonneg(self.retransmission_queue@);
                            assert(self.send_param.window as int + len as int <= u16::MAX as int);
                        }
                        self.send_param.window = self.send_param.window + (len as u16);
                        out.events.push(TCPEvent::new(self.get_sock_id(), TCPEventKind::Acked));
                        if item.packet.flag & tcpflags::FIN > 0
                            && self.status == TcpStatus::LastAck {
                            out.events.push(
                                TCPEvent::new(self.get_sock_id(), TCPEventKind::ConnectionClosed),
                            );
                        }
                        proof {
                            p = p + 1;
                            let rest_pre = timer_pass(pre_q, una, st, pre_w, now, id);
                            let rest_post = timer_pass(
                                self.retransmission_queue@,
                                una,
                                st,
                                self.send_param.window as int,
                                now,
                                id,
                            );
                            assert(pre_q[0] == item);
                            assert(pre_q.skip(1) =~= self.retransmission_queue@);
                            let here = seq![TCPEvent { sock_id: id, kind: TCPEventKind::Acked }]
                                + (
                                if item.packet.flag & tcpflags::FIN > 0 && st
                                    == TcpStatus::LastAck {
                                    seq![TCPEvent { sock_id: id, kind: TCPEventKind::ConnectionClosed }]
                                } else {
                                    Seq::<TCPEvent>::empty()
                                }
                            );
                            assert(rest_pre.events == here + rest_post.events);
                            assert(rest_pre.queue == rest_post.queue);
                            assert(rest_pre.window == rest_post.window);
                            assert(rest_pre.resend == rest_post.resend);
                            assert(out.events@ =~= pre_ev + here);
                            assert(pre_ev + (here + rest_post.events) =~= (pre_ev + here)
                                + rest_post.events);
                        }
                    } else if !(now >= crate::RETRANSMITTION_TIMEOUT
                        && now - crate::RETRANSMITTION_TIMEOUT >= item.latest_transmission_time) {
                        // not yet expired: everything behind it is younger
                        self.retransmission_queue.push_front(item);
                        proof {
                            assert(self.retransmission_queue@ =~= pre_q);
                            let rest_pre = timer_pass(pre_q, una, st, pre_w, now, id);
                            assert(rest_pre.queue == pre_q);
                            assert(out.events@ + Seq::<TCPEvent>::empty() =~= out.events@);
                        }
                        done = true;
                    } else if item.transmission_count < crate::MAX_TRANSMITTION {
                        // expired: resend the stored segment and rotate it back
                        let resend = item.packet.duplicate();
                        out.segments.push(Outgoing {
                            local_addr: self.local_addr,
                            remote_addr: self.remote_addr,
                            segment: resend,
                        });
                        let bumped = RetransmissionQueueEntry {
                            packet: item.packet,
                            latest_transmission_time: now,
                            transmission_count: item.transmission_count + 1,
                        };
                        proof {
                            lemma_queued_payload_push(self.retransmission_queue@, bumped);
                        }
                        self.retransmission_queue.push_back(bumped);
                        proof {
                            p = p + 1;
                            let rest_pre = timer_pass(pre_q, una, st, pre_w, now, id);
                            assert(pre_q[0] == item);
                            assert(pre_q.skip(1) =~= q0.skip(p));
                            assert(self.retransmission_queue@ == q0.skip(p).push(bumped));
                            assert(rest_pre.queue == self.retransmission_queue@);
                            assert(rest_pre.resend == Some(item.packet@));
                            assert(out.events@ + Seq::<TCPEvent>::empty() =~= out.events@);
                        }
                        done = true;
                    } else {
                        // out of attempts: give the segment up; a given-up
                        // FIN while closing means the peer is presumed gone
                        if item.packet.flag & tcpflags::FIN > 0 && (self.status
                            == TcpStatus::LastAck || self.status == TcpStatus::FinWait1
                            || self.status == TcpStatus::FinWait2) {
                            out.events.push(
                                TCPEvent::new(self.get_sock_id(), TCPEventKind::ConnectionClosed),
                            );
                        }
                        proof {
                            p = p + 1;
                            let rest_pre = timer_pass(pre_q, una, st, pre_w, now, id);
                            let rest_post = timer_pass(
                                self.retransmission_queue@,
                                una,
                                st,
                                self.send_param.window as int,
                                now,
                                id,
                            );
                            assert(pre_q[0] == item);
                            assert(pre_q.skip(1) =~= self.retransmission_queue@);
                            let here = if item.packet.flag & tcpflags::FIN > 0 && (st
                                == TcpStatus::LastAck || st == TcpStatus::FinWait1 || st
                                == TcpStatus::FinWait2) {
                                seq![TCPEvent { sock_id: id, kind: TCPEventKind::ConnectionClosed }]
                            } else {
                                Seq::<TCPEvent>::empty()
                            };
                            assert(rest_pre.events == here + rest_post.events);
                            assert(rest_pre.queue == rest_post.queue);
                            assert(rest_pre.window == rest_post.window);
                            assert(rest_pre.resend == rest_post.resend);
                            assert(out.events@ =~= pre_ev + here);
                            assert(pre_ev + (here + rest_post.events) =~= (pre_ev + here)
                                + rest_post.events);
                        }
                    }
                },
            }
        }
    }
}

/// A vector of `n` zero bytes.
pub fn zero_bytes(n: usize) -> (v: Vec<u8>)
    ensures
        v@ == Seq::new(n as nat, |i: int| 0u8),
{
    let mut v: Vec<u8> = Vec::new();
    let mut i: usize = 0;
    while i < n
        invariant
            i <= n,
            v@ =~= Seq::new(i as nat, |j: int| 0u8),
        decreases n - i,
    {
        v.push(0u8);
        i = i + 1;
    }
    proof {
        assert(v@ =~= Seq::new(n as nat, |i: int| 0u8));
    }
    v
}

} // verus!

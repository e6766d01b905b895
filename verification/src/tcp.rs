//! The connection table and the engine's entry points: the socket API
//! (connect, listen, accept, send, recv, close), the per-state segment
//! handlers that need the whole table, and the retransmission timer tick.
//!
//! Every entry point is a plain state transition: it mutates the table and
//! appends to an [`Effects`] value the segments to put on the wire and the
//! events to publish. The unverified shell performs both.

use vstd::prelude::*;

use crate::codec::be16;
use crate::segment::{Segment, SegmentModel};
use crate::socket::{
    queued_payload_bytes, RecvParam, RetransmissionQueueEntry, SockID, Socket, TcpStatus,
};
use crate::tcpflags;
use crate::TcpError;
use crate::{MSS, PORT_RANGE_END, PORT_RANGE_START, SOCKET_BUFFER_SIZE, UNDETERMINED_IP_ADDR,
    UNDETERMINED_PORT};

verus! {

/// What a waiting application thread is woken for.
#[derive(Debug, Clone, Copy, PartialEq, Eq, Structural)]
pub enum TCPEventKind {
    ConnectionCompleted,
    Acked,
    DataArrived,
    ConnectionClosed,
}

/// An event published on a connection's key.
#[derive(Debug, Clone, Copy, PartialEq, Eq, Structural)]
pub struct TCPEvent {
    pub sock_id: SockID,
    pub kind: TCPEventKind,
}

impl TCPEvent {
    pub fn new(sock_id: SockID, kind: TCPEventKind) -> (e: TCPEvent)
        ensures
            e == (TCPEvent { sock_id, kind }),
    {
        TCPEvent { sock_id, kind }
    }
}

/// A segment the engine asks the shell to put on the wire, together with
/// the addresses for the IPv4 pseudo-header.
pub struct Outgoing {
    pub local_addr: u32,
    pub remote_addr: u32,
    pub segment: Segment,
}

/// Mathematical image of an `Outgoing`.
pub struct OutgoingModel {
    pub local_addr: u32,
    pub remote_addr: u32,
    pub segment: SegmentModel,
}

impl View for Outgoing {
    type V = OutgoingModel;

    open spec fn view(&self) -> OutgoingModel {
        OutgoingModel {
            local_addr: self.local_addr,
            remote_addr: self.remote_addr,
            segment: self.segment@,
        }
    }
}

/// Everything an engine step asks of the outside world: segments to
/// transmit and events to publish, in order.
pub struct Effects {
    pub segments: Vec<Outgoing>,
    pub events: Vec<TCPEvent>,
}

impl Effects {
    pub fn new() -> (e: Effects)
        ensures
            e.segments@ == Seq::<Outgoing>::empty(),
            e.events@ == Seq::<TCPEvent>::empty(),
    {
        Effects { segments: Vec::new(), events: Vec::new() }
    }
}

/// What the shell must still do after `close` returns: block on
/// ConnectionClosed and then remove the socket, nothing (the socket was
/// removed at once), or nothing at all.
#[derive(Debug, Clone, Copy, PartialEq, Eq, Structural)]
pub enum CloseOutcome {
    AwaitConnectionClosed,
    RemovedNow,
    Finished,
}

/// Relies on rand's thread-local generator and `Rng::gen_range`: a value
/// drawn uniformly from [lo, hi). `gen_range` panics only on an empty
/// range, which the precondition rules out. Nothing more is assumed of
/// the draw than its bounds.
#[verifier::external_body]
fn random_in_range(lo: u32, hi: u32) -> (r: u32)
    requires
        lo < hi,
    ensures
        lo <= r < hi,
{
    rand::Rng::gen_range(&mut rand::thread_rng(), lo..hi)
}

/// How much of a pending buffer one send step may emit: the least of the
/// maximum segment size, the send window, and what remains of the buffer.
pub open spec fn send_fragment_size(window: u16, total: int, cursor: int) -> int {
    let remaining = total - cursor;
    let capped = if window as int <= remaining {
        window as int
    } else {
        remaining
    };
    if MSS as int <= capped {
        MSS as int
    } else {
        capped
    }
}

/// Everything routing and dispatching one segment does, as a relation
/// between the table and effects before (`pre`, `sg0`, `ev0`) and after
/// (`post`, `sg1`, `ev1`): a segment matching no socket and no listener
/// is dropped without trace, and a matched one is handled by its
/// socket's state, with the per-state transitions pinned.
pub open spec fn segment_dispatch_post(
    pre: TCP,
    post: TCP,
    sg0: Seq<Outgoing>,
    sg1: Seq<Outgoing>,
    ev0: Seq<TCPEvent>,
    ev1: Seq<TCPEvent>,
    local_addr: u32,
    remote_addr: u32,
    s_arg: SegmentModel,
) -> bool {
    &&& (!pre.has_key(SockID(local_addr, remote_addr, s_arg.dest_port, s_arg.src_port))
        && !pre.has_key(
        SockID(local_addr, UNDETERMINED_IP_ADDR, s_arg.dest_port, UNDETERMINED_PORT),
    )) ==> (post.sockets@ == pre.sockets@ && sg1 == sg0 && ev1 == ev0)
    &&& ({
        let exact = SockID(local_addr, remote_addr, s_arg.dest_port, s_arg.src_port);
        let lkey = SockID(local_addr, UNDETERMINED_IP_ADDR, s_arg.dest_port, UNDETERMINED_PORT);
        let key = if pre.has_key(exact) {
            exact
        } else {
            lkey
        };
        if pre.has_key(exact) || pre.has_key(lkey) {
            let i = pre.spec_index_of(key);
            let s0 = pre.sockets@[i];
            let c0 = s0.conn_state();
            let s = s_arg;
            match s0.status {
                TcpStatus::SynSent => crate::socket::queued_payload_bytes(
                    s0.retransmission_queue@,
                ) == 0 ==> (post.sockets@.len() == pre.sockets@.len()
                    && post.sockets@[i].conn_state() == crate::socket::synsent_step(c0, s)
                    && forall|m: int|
                        0 <= m < pre.sockets@.len() && m != i ==> post.sockets@[m]
                            == pre.sockets@[m]),
                TcpStatus::SynRcvd => post.sockets@.len() == pre.sockets@.len() && post.sockets@[i].conn_state()
                    == crate::socket::synrcvd_step(c0, s),
                TcpStatus::TimeWait => post.sockets@ == pre.sockets@
                    && sg1 == sg0 && ev1
                    == ev0,
                TcpStatus::CloseWait | TcpStatus::LastAck => post.sockets@.len()
                    == pre.sockets@.len() && post.sockets@[i].send_param.unacked_seq
                    == s.ack && post.sockets@[i].status == c0.status
                    && post.sockets@[i].recv_param == c0.recv_param
                    && sg1 == sg0 && ev1
                    == ev0,
                TcpStatus::Established => ({
                    &&& post.sockets@.len() == pre.sockets@.len()
                    &&& crate::socket::established_post(
                        s0,
                        post.sockets@[i],
                        sg0,
                        sg1,
                        ev0,
                        ev1,
                        s,
                    )
                    &&& forall|m: int|
                        0 <= m < pre.sockets@.len() && m != i ==> post.sockets@[m]
                            == pre.sockets@[m]
                }),
                TcpStatus::FinWait1 | TcpStatus::FinWait2 => ({
                    &&& post.sockets@.len() == pre.sockets@.len()
                    &&& crate::socket::finwait_post(s0, post.sockets@[i], sg0, sg1, ev0, ev1, s)
                    &&& forall|m: int|
                        0 <= m < pre.sockets@.len() && m != i ==> post.sockets@[m]
                            == pre.sockets@[m]
                }),
                TcpStatus::Listen => (s.flag & tcpflags::ACK == 0 && s.flag & tcpflags::SYN
                    > 0) ==> ({
                    let nid = SockID(s0.local_addr, remote_addr, s0.local_port, s.src_port);
                    &&& post.has_key(nid)
                    &&& post.spec_socket(nid).status == TcpStatus::SynRcvd
                    &&& post.spec_socket(nid).recv_param.next == s.seq.wrapping_add(
                        1,
                    )
                    &&& 1 <= post.spec_socket(nid).send_param.initial_seq
                        < 0x8000_0000
                }),
            }
        } else {
            true
        }
    })
}

/// What one timer pass does to a socket, per the per-socket model.
pub open spec fn socket_timer_pass(s: Socket, now: u64) -> crate::socket::TimerOutcome {
    crate::socket::timer_pass(
        s.retransmission_queue@,
        s.send_param.unacked_seq,
        s.status,
        s.send_param.window as int,
        now,
        s.sock_id_spec(),
    )
}

/// The events one tick publishes: each socket's pass, in table order.
pub open spec fn table_timer_events(table: Seq<Socket>, now: u64) -> Seq<TCPEvent>
    decreases table.len(),
{
    if table.len() == 0 {
        Seq::<TCPEvent>::empty()
    } else {
        socket_timer_pass(table[0], now).events + table_timer_events(table.skip(1), now)
    }
}

/// The segments one tick resends: each socket's pass, in table order.
pub open spec fn table_timer_resends(table: Seq<Socket>, now: u64) -> Seq<OutgoingModel>
    decreases table.len(),
{
    if table.len() == 0 {
        Seq::<OutgoingModel>::empty()
    } else {
        (match socket_timer_pass(table[0], now).resend {
            Some(pk) => seq![
                OutgoingModel {
                    local_addr: table[0].local_addr,
                    remote_addr: table[0].remote_addr,
                    segment: pk,
                },
            ],
            None => Seq::<OutgoingModel>::empty(),
        }) + table_timer_resends(table.skip(1), now)
    }
}

pub proof fn lemma_table_timer_events_push(table: Seq<Socket>, s: Socket, now: u64)
    ensures
        table_timer_events(table.push(s), now) == table_timer_events(table, now)
            + socket_timer_pass(s, now).events,
    decreases table.len(),
{
    assert(table.push(s)[0] == if table.len() == 0 { s } else { table[0] });
    assert(table_timer_events(table.push(s), now) == socket_timer_pass(table.push(s)[0], now).events
        + table_timer_events(table.push(s).skip(1), now));
    if table.len() == 0 {
        assert(table.push(s).skip(1) =~= Seq::<Socket>::empty());
        assert(table_timer_events(table.push(s).skip(1), now) == Seq::<TCPEvent>::empty());
        assert(Seq::<TCPEvent>::empty() + socket_timer_pass(s, now).events
            =~= socket_timer_pass(s, now).events);
        assert(socket_timer_pass(s, now).events + Seq::<TCPEvent>::empty()
            =~= socket_timer_pass(s, now).events);
    } else {
        assert(table.push(s).skip(1) =~= table.skip(1).push(s));
        lemma_table_timer_events_push(table.skip(1), s, now);
        assert(socket_timer_pass(table[0], now).events + (table_timer_events(table.skip(1), now)
            + socket_timer_pass(s, now).events) =~= (socket_timer_pass(table[0], now).events
            + table_timer_events(table.skip(1), now)) + socket_timer_pass(s, now).events);
    }
}

pub proof fn lemma_table_timer_resends_push(table: Seq<Socket>, s: Socket, now: u64)
    ensures
        table_timer_resends(table.push(s), now) == table_timer_resends(table, now) + (
            match socket_timer_pass(s, now).resend {
                Some(pk) => seq![
                    OutgoingModel {
                        local_addr: s.local_addr,
                        remote_addr: s.remote_addr,
                        segment: pk,
                    },
                ],
                None => Seq::<OutgoingModel>::empty(),
            }
        ),
    decreases table.len(),
{
    let tail = match socket_timer_pass(s, now).resend {
        Some(pk) => seq![
            OutgoingModel { local_addr: s.local_addr, remote_addr: s.remote_addr, segment: pk },
        ],
        None => Seq::<OutgoingModel>::empty(),
    };
    assert(table.push(s)[0] == if table.len() == 0 { s } else { table[0] });
    assert(table_timer_resends(table.push(s), now) == (match socket_timer_pass(
        table.push(s)[0],
        now,
    ).resend {
        Some(pk) => seq![
            OutgoingModel {
                local_addr: table.push(s)[0].local_addr,
                remote_addr: table.push(s)[0].remote_addr,
                segment: pk,
            },
        ],
        None => Seq::<OutgoingModel>::empty(),
    }) + table_timer_resends(table.push(s).skip(1), now));
    if table.len() == 0 {
        assert(table.push(s).skip(1) =~= Seq::<Socket>::empty());
        assert(table_timer_resends(table.push(s).skip(1), now) == Seq::<OutgoingModel>::empty());
        assert(tail + Seq::<OutgoingModel>::empty() =~= tail);
        assert(Seq::<OutgoingModel>::empty() + tail =~= tail);
    } else {
        let head = match socket_timer_pass(table[0], now).resend {
            Some(pk) => seq![
                OutgoingModel {
                    local_addr: table[0].local_addr,
                    remote_addr: table[0].remote_addr,
                    segment: pk,
                },
            ],
            None => Seq::<OutgoingModel>::empty(),
        };
        assert(table.push(s).skip(1) =~= table.skip(1).push(s));
        lemma_table_timer_resends_push(table.skip(1), s, now);
        assert(head + (table_timer_resends(table.skip(1), now) + tail) =~= (head
            + table_timer_resends(table.skip(1), now)) + tail);
    }
}

/// `o` carries a segment that some socket of `table` holds in its
/// retransmission queue: nothing but stored segments is ever resent.
pub open spec fn segment_was_queued(o: Outgoing, table: Seq<Socket>) -> bool {
    exists|i: int, j: int|
        0 <= i < table.len() && 0 <= j < table[i].retransmission_queue@.len()
            && o.segment@ == (#[trigger] table[i].retransmission_queue@[j]).packet@
}

/// The connection table: every open socket and listener, each under its
/// connection key. Keys are unique; lookups scan the table.
pub struct TCP {
    pub sockets: Vec<Socket>,
}

impl TCP {
    /// Every socket in the table is well formed.
    pub open spec fn wf(&self) -> bool {
        forall|i: int| 0 <= i < self.sockets@.len() ==> (#[trigger] self.sockets@[i]).wf()
    }

    /// No two table slots hold the same connection key.
    pub open spec fn keys_unique(&self) -> bool {
        forall|i: int, j: int|
            0 <= i < j < self.sockets@.len() ==> (#[trigger] self.sockets@[i]).sock_id_spec()
                != (#[trigger] self.sockets@[j]).sock_id_spec()
    }

    /// Some table slot holds `id`.
    pub open spec fn has_key(&self, id: SockID) -> bool {
        exists|i: int|
            0 <= i < self.sockets@.len() && (#[trigger] self.sockets@[i]).sock_id_spec() == id
    }

    /// The slot holding `id` (meaningful when `has_key(id)`).
    pub open spec fn spec_index_of(&self, id: SockID) -> int {
        choose|i: int|
            0 <= i < self.sockets@.len() && (#[trigger] self.sockets@[i]).sock_id_spec() == id
    }

    /// The socket under `id` (meaningful when `has_key(id)`).
    pub open spec fn spec_socket(&self, id: SockID) -> Socket {
        self.sockets@[self.spec_index_of(id)]
    }

    /// With unique keys, the slot of the socket at `i` is `i` itself.
    pub proof fn lemma_key_at(&self, i: int)
        requires
            self.keys_unique(),
            0 <= i < self.sockets@.len(),
        ensures
            self.has_key(self.sockets@[i].sock_id_spec()),
            self.spec_index_of(self.sockets@[i].sock_id_spec()) == i,
    {
        let id = self.sockets@[i].sock_id_spec();
        assert(self.has_key(id));
        let j = self.spec_index_of(id);
        assert(0 <= j < self.sockets@.len() && self.sockets@[j].sock_id_spec() == id);
        if i != j {
            assert(false);
        }
    }

    /// An empty connection table.
    pub fn new() -> (t: TCP)
        ensures
            t.sockets@ == Seq::<Socket>::empty(),
            t.wf(),
            t.keys_unique(),
    {
        TCP { sockets: Vec::new() }
    }

    /// The slot holding `id`, if any.
    pub fn lookup(&self, id: SockID) -> (r: Option<usize>)
        ensures
            match r {
                Some(i) => i < self.sockets@.len() && self.sockets@[i as int].sock_id_spec() == id,
                None => !self.has_key(id),
            },
    {
        let mut i: usize = 0;
        while i < self.sockets.len()
            invariant
                i <= self.sockets@.len(),
                forall|j: int|
                    0 <= j < i ==> (#[trigger] self.sockets@[j]).sock_id_spec() != id,
            decreases self.sockets@.len() - i,
        {
            if self.sockets[i].get_sock_id() == id {
                return Some(i);
            }
            i = i + 1;
        }
        None
    }

    /// Puts `socket` into the table: replacing the socket under the same
    /// key if one exists, appending otherwise. Returns its slot.
    fn table_insert(&mut self, socket: Socket) -> (i: usize)
        requires
            old(self).keys_unique(),
        ensures
            if old(self).has_key(socket.sock_id_spec()) {
                final(self).sockets@ == old(self).sockets@.update(
                    old(self).spec_index_of(socket.sock_id_spec()),
                    socket,
                )
            } else {
                final(self).sockets@ == old(self).sockets@.push(socket)
            },
            final(self).keys_unique(),
            old(self).wf() && socket.wf() ==> final(self).wf(),
            i < final(self).sockets@.len(),
            final(self).sockets@[i as int] == socket,
            final(self).has_key(socket.sock_id_spec()),
            final(self).spec_index_of(socket.sock_id_spec()) == i as int,
    {
        let id = socket.get_sock_id();
        let r = self.lookup(id);
        match r {
            Some(i) => {
                proof {
                    self.lemma_key_at(i as int);
                }
                self.sockets.set(i, socket);
                proof {
                    self.lemma_key_at(i as int);
                }
                i
            },
            None => {
                let i = self.sockets.len();
                self.sockets.push(socket);
                proof {
                    self.lemma_key_at(i as int);
                }
                i
            },
        }
    }

    /// Removes the socket under `id`, if any; says whether one was there.
    pub fn remove_socket(&mut self, id: SockID) -> (removed: bool)
        requires
            old(self).keys_unique(),
        ensures
            removed == old(self).has_key(id),
            if removed {
                final(self).sockets@ == old(self).sockets@.remove(old(self).spec_index_of(id))
            } else {
                final(self).sockets@ == old(self).sockets@
            },
            final(self).keys_unique(),
            old(self).wf() ==> final(self).wf(),
    {
        let r = self.lookup(id);
        match r {
            Some(i) => {
                proof {
                    self.lemma_key_at(i as int);
                }
                self.sockets.remove(i);
                true
            },
            None => false,
        }
    }

    /// Draws local ports uniformly from the configured range until one
    /// collides with no socket in the table, giving up (NoAvailablePort)
    /// after as many attempts as the range has ports. When no socket holds
    /// any port of the range the first draw already succeeds.
    pub fn select_unused_port(&self) -> (r: Result<u16, TcpError>)
        ensures
            match r {
                Ok(p) => PORT_RANGE_START <= p < PORT_RANGE_END && forall|i: int|
                    0 <= i < self.sockets@.len() ==> (#[trigger] self.sockets@[i]).local_port != p,
                Err(e) => e == TcpError::NoAvailablePort,
            },
            (forall|i: int|
                0 <= i < self.sockets@.len() ==> !(PORT_RANGE_START
                    <= (#[trigger] self.sockets@[i]).local_port < PORT_RANGE_END)) ==> r is Ok,
    {
        let mut attempt: u16 = 0;
        while attempt < PORT_RANGE_END - PORT_RANGE_START
            invariant
                (forall|i: int|
                    0 <= i < self.sockets@.len() ==> !(PORT_RANGE_START
                        <= (#[trigger] self.sockets@[i]).local_port < PORT_RANGE_END)) ==> attempt
                    == 0,
            decreases PORT_RANGE_END - PORT_RANGE_START - attempt,
        {
            let port = random_in_range(PORT_RANGE_START as u32, PORT_RANGE_END as u32) as u16;
            let mut i: usize = 0;
            let mut free = true;
            while i < self.sockets.len()
                invariant
                    i <= self.sockets@.len(),
                    PORT_RANGE_START <= port < PORT_RANGE_END,
                    free ==> forall|j: int|
                        0 <= j < i ==> (#[trigger] self.sockets@[j]).local_port != port,
                    (forall|j: int|
                        0 <= j < self.sockets@.len() ==> !(PORT_RANGE_START
                            <= (#[trigger] self.sockets@[j]).local_port < PORT_RANGE_END))
                        ==> free,
                decreases self.sockets@.len() - i,
            {
                if self.sockets[i].local_port == port {
                    free = false;
                }
                i = i + 1;
            }
            if free {
                return Ok(port);
            }
            attempt = attempt + 1;
        }
        Err(TcpError::NoAvailablePort)
    }

    /// Active open: picks an unused local port and a random initial send
    /// sequence number in [1, 2^31), creates a SYN SENT socket, emits its
    /// SYN and inserts it into the table under the returned key. The shell
    /// then blocks until ConnectionCompleted fires for that key. Fails
    /// only when no free port was found.
    pub fn connect(
        &mut self,
        local_addr: u32,
        addr: u32,
        port: u16,
        now: u64,
        out: &mut Effects,
    ) -> (r: Result<SockID, TcpError>)
        requires
            old(self).wf(),
            old(self).keys_unique(),
        ensures
            final(self).wf(),
            final(self).keys_unique(),
            // failure can only come from the port draws; where no table
            // port lies in the range, the first draw already succeeds
            (forall|i: int|
                0 <= i < old(self).sockets@.len() ==> !(PORT_RANGE_START <= (#[trigger] old(self).sockets@[i]).local_port < PORT_RANGE_END)) ==> r is Ok,
            match r {
                Ok(id) => {
                    &&& id.0 == local_addr
                    &&& id.1 == addr
                    &&& PORT_RANGE_START <= id.2 < PORT_RANGE_END
                    &&& id.3 == port
                    &&& forall|i: int|
                        0 <= i < old(self).sockets@.len() ==> (#[trigger] old(self).sockets@[i]).local_port != id.2
                    &&& final(self).sockets@.len() == old(self).sockets@.len() + 1
                    &&& final(self).sockets@.take(old(self).sockets@.len() as int) == old(self).sockets@
                    &&& ({
                        let s = final(self).sockets@.last();
                        let iss = s.send_param.initial_seq;
                        &&& s.sock_id_spec() == id
                        &&& s.status == TcpStatus::SynSent
                        &&& 1 <= iss < 0x8000_0000
                        &&& s.send_param.unacked_seq == iss
                        &&& s.send_param.next == iss + 1
                        &&& s.send_param.window == SOCKET_BUFFER_SIZE as u16
                        &&& s.recv_param == (RecvParam {
                            next: 0,
                            window: SOCKET_BUFFER_SIZE as u16,
                            initial_seq: 0,
                            tail: 0,
                        })
                        &&& s.retransmission_queue@.len() == 1
                        &&& s.retransmission_queue@[0].packet@ == (SegmentModel {
                            src_port: id.2,
                            dest_port: port,
                            seq: iss,
                            ack: 0,
                            flag: tcpflags::SYN,
                            window_size: SOCKET_BUFFER_SIZE as u16,
                            payload: Seq::<u8>::empty(),
                        })
                        &&& s.retransmission_queue@[0].transmission_count == 1
                        &&& s.retransmission_queue@[0].latest_transmission_time == now
                        &&& s.listening_socket is None
                        &&& s.send_seq_wf()
                    })
                    &&& final(out).segments@.len() == old(out).segments@.len() + 1
                    &&& final(out).segments@.take(old(out).segments@.len() as int) == old(out).segments@
                    &&& final(out).segments@.last().local_addr == local_addr
                    &&& final(out).segments@.last().remote_addr == addr
                    &&& final(out).segments@.last().segment@
                        == final(self).sockets@.last().retransmission_queue@[0].packet@
                    &&& final(out).events@ == old(out).events@
                },
                Err(e) => {
                    &&& e == TcpError::NoAvailablePort
                    &&& final(self).sockets@ == old(self).sockets@
                    &&& final(out).segments@ == old(out).segments@
                    &&& final(out).events@ == old(out).events@
                },
            },
    {
        let selected = self.select_unused_port();
        let local_port = match selected {
            Ok(p) => p,
            Err(e) => {
                return Err(e);
            },
        };
        let mut socket = Socket::new(local_addr, addr, local_port, port, TcpStatus::SynSent);
        let iss = random_in_range(1, 0x8000_0000);
        socket.send_param.initial_seq = iss;
        let syn = socket.send_tcp_packet(iss, 0, tcpflags::SYN, Vec::new(), now);
        out.segments.push(Outgoing { local_addr, remote_addr: addr, segment: syn });
        socket.send_param.unacked_seq = iss;
        socket.send_param.next = iss + 1;
        proof {
            assert(socket.retransmission_queue@.skip(1)
                =~= Seq::<RetransmissionQueueEntry>::empty());
            assert(queued_payload_bytes(socket.retransmission_queue@) == 0);
            assert(socket.wf());
        }
        let id = socket.get_sock_id();
        proof {
            assert(forall|i: int|
                0 <= i < self.sockets@.len() ==> (#[trigger] self.sockets@[i]).sock_id_spec()
                    != id);
        }
        self.sockets.push(socket);
        proof {
            assert(self.sockets@.take(old(self).sockets@.len() as int) =~= old(self).sockets@);
            assert(out.segments@.take(old(out).segments@.len() as int) =~= old(out).segments@);
        }
        Ok(id)
    }

    /// Passive open: creates a listening socket under the key
    /// (local_addr, 0.0.0.0, local_port, 0) and returns that key. An
    /// existing socket under the same key is replaced.
    pub fn listen(&mut self, local_addr: u32, local_port: u16) -> (id: SockID)
        requires
            old(self).wf(),
            old(self).keys_unique(),
        ensures
            id == SockID(local_addr, UNDETERMINED_IP_ADDR, local_port, UNDETERMINED_PORT),
            final(self).wf(),
            final(self).keys_unique(),
            final(self).has_key(id),
            ({
                let s = final(self).spec_socket(id);
                &&& s.sock_id_spec() == id
                &&& s.status == TcpStatus::Listen
                &&& s.retransmission_queue@.len() == 0
                &&& s.connected_connection_queue@.len() == 0
                &&& s.recv_param.window == SOCKET_BUFFER_SIZE as u16
                &&& s.send_seq_wf()
            }),
            if old(self).has_key(id) {
                final(self).sockets@ == old(self).sockets@.update(
                    old(self).spec_index_of(id),
                    final(self).spec_socket(id),
                )
            } else {
                final(self).sockets@ == old(self).sockets@.push(final(self).spec_socket(id))
            },
    {
        let socket = Socket::new(
            local_addr,
            UNDETERMINED_IP_ADDR,
            local_port,
            UNDETERMINED_PORT,
            TcpStatus::Listen,
        );
        let id = socket.get_sock_id();
        let i = self.table_insert(socket);
        id
    }

    /// Pops the oldest completed connection from a listener's queue. The
    /// shell blocks on ConnectionCompleted for the listener's key before
    /// calling this. Fails with NoSuchSocket for an unknown key and with
    /// AcceptOnEmpty when no completed connection is waiting.
    pub fn accept(&mut self, sock_id: SockID) -> (r: Result<SockID, TcpError>)
        requires
            old(self).wf(),
            old(self).keys_unique(),
        ensures
            final(self).wf(),
            final(self).keys_unique(),
            match r {
                Ok(id) => {
                    &&& old(self).has_key(sock_id)
                    &&& old(self).spec_socket(sock_id).connected_connection_queue@.len() > 0
                    &&& id == old(self).spec_socket(sock_id).connected_connection_queue@[0]
                    &&& final(self).sockets@ == old(self).sockets@.update(
                        old(self).spec_index_of(sock_id),
                        final(self).spec_socket(sock_id),
                    )
                    &&& ({
                        let s0 = old(self).spec_socket(sock_id);
                        let s1 = final(self).spec_socket(sock_id);
                        &&& s1.connected_connection_queue@
                            == s0.connected_connection_queue@.skip(1)
                        &&& s1.conn_state() == s0.conn_state()
                        &&& s1.retransmission_queue@ == s0.retransmission_queue@
                        &&& s1.recv_buffer@ == s0.recv_buffer@
                        &&& s1.listening_socket == s0.listening_socket
                        &&& s1.sock_id_spec() == s0.sock_id_spec()
                    })
                },
                Err(e) => {
                    &&& (e == TcpError::NoSuchSocket || e == TcpError::AcceptOnEmpty)
                    &&& (e == TcpError::NoSuchSocket <==> !old(self).has_key(sock_id))
                    &&& if e == TcpError::NoSuchSocket {
                        final(self).sockets@ == old(self).sockets@
                    } else {
                        &&& old(self).spec_socket(sock_id).connected_connection_queue@.len() == 0
                        &&& final(self).sockets@ == old(self).sockets@.update(
                            old(self).spec_index_of(sock_id),
                            final(self).spec_socket(sock_id),
                        )
                        &&& ({
                            let s0 = old(self).spec_socket(sock_id);
                            let s1 = final(self).spec_socket(sock_id);
                            &&& s1.conn_state() == s0.conn_state()
                            &&& s1.connected_connection_queue@ == s0.connected_connection_queue@
                            &&& s1.retransmission_queue@ == s0.retransmission_queue@
                            &&& s1.recv_buffer@ == s0.recv_buffer@
                            &&& s1.listening_socket == s0.listening_socket
                            &&& s1.sock_id_spec() == s0.sock_id_spec()
                        })
                    }
                },
            },
    {
        let found = self.lookup(sock_id);
        let i = match found {
            Some(i) => i,
            None => {
                return Err(TcpError::NoSuchSocket);
            },
        };
        proof {
            self.lemma_key_at(i as int);
        }
        let mut socket = self.sockets.remove(i);
        let popped = socket.connected_connection_queue.pop_front();
        self.sockets.insert(i, socket);
        proof {
            assert(self.sockets@ =~= old(self).sockets@.update(
                i as int,
                self.sockets@[i as int],
            ));
            self.lemma_key_at(i as int);
        }
        match popped {
            Some(id) => Ok(id),
            None => Err(TcpError::AcceptOnEmpty),
        }
    }

    /// Handles a segment arriving for a listening socket. A segment with
    /// ACK set is dropped (no reset is sent); a SYN creates a fresh
    /// SYN RCVD socket keyed by the SYN's source, linked back to the
    /// listener, whose SYN|ACK (sequence `iss`, acknowledging the SYN) is
    /// emitted and queued for retransmission. The caller draws `iss`.
    pub fn listen_handler(
        &mut self,
        listening_socket_id: SockID,
        seg: &Segment,
        remote_addr: u32,
        iss: u32,
        now: u64,
        out: &mut Effects,
    )
        requires
            old(self).wf(),
            old(self).keys_unique(),
            1 <= iss < 0x8000_0000,
        ensures
            final(self).wf(),
            final(self).keys_unique(),
            ({
                let s = seg@;
                if !old(self).has_key(listening_socket_id) || s.flag & tcpflags::ACK > 0
                    || s.flag & tcpflags::SYN == 0 {
                    &&& final(self).sockets@ == old(self).sockets@
                    &&& final(out).segments@ == old(out).segments@
                    &&& final(out).events@ == old(out).events@
                } else {
                    let l = old(self).spec_socket(listening_socket_id);
                    let nid = SockID(l.local_addr, remote_addr, l.local_port, s.src_port);
                    &&& final(self).has_key(nid)
                    &&& ({
                        let ns = final(self).spec_socket(nid);
                        &&& ns.sock_id_spec() == nid
                        &&& ns.conn_state() == crate::socket::listen_step(iss, s)
                        &&& ns.listening_socket == Some(listening_socket_id)
                        &&& ns.connected_connection_queue@.len() == 0
                        &&& ns.retransmission_queue@.len() == 1
                        &&& ns.retransmission_queue@[0].packet@ == (SegmentModel {
                            src_port: l.local_port,
                            dest_port: s.src_port,
                            seq: iss,
                            ack: s.seq.wrapping_add(1),
                            flag: tcpflags::SYN | tcpflags::ACK,
                            window_size: SOCKET_BUFFER_SIZE as u16,
                            payload: Seq::<u8>::empty(),
                        })
                        &&& ns.retransmission_queue@[0].transmission_count == 1
                        &&& ns.retransmission_queue@[0].latest_transmission_time == now
                        &&& ns.send_seq_wf()
                    })
                    &&& if old(self).has_key(nid) {
                        final(self).sockets@ == old(self).sockets@.update(
                            old(self).spec_index_of(nid),
                            final(self).spec_socket(nid),
                        )
                    } else {
                        final(self).sockets@ == old(self).sockets@.push(
                            final(self).spec_socket(nid),
                        )
                    }
                    &&& final(out).segments@.len() == old(out).segments@.len() + 1
                    &&& final(out).segments@.take(old(out).segments@.len() as int) == old(out).segments@
                    &&& final(out).segments@.last().local_addr == l.local_addr
                    &&& final(out).segments@.last().remote_addr == remote_addr
                    &&& final(out).segments@.last().segment@
                        == final(self).spec_socket(nid).retransmission_queue@[0].packet@
                    &&& final(out).events@ == old(out).events@
                }
            }),
    {
        let found = self.lookup(listening_socket_id);
        let li = match found {
            Some(i) => i,
            None => {
                return ;
            },
        };
        proof {
            self.lemma_key_at(li as int);
        }
        if seg.flag & tcpflags::ACK > 0 {
            // a reset would be the full answer; this engine sends none
            return ;
        }
        if seg.flag & tcpflags::SYN == 0 {
            return ;
        }
        let listener_local_addr = self.sockets[li].local_addr;
        let listener_local_port = self.sockets[li].local_port;
        let mut connection_socket = Socket::new(
            listener_local_addr,
            remote_addr,
            listener_local_port,
            seg.src_port,
            TcpStatus::SynRcvd,
        );
        connection_socket.recv_param.next = seg.seq.wrapping_add(1);
        connection_socket.recv_param.initial_seq = seg.seq;
        connection_socket.send_param.initial_seq = iss;
        connection_socket.send_param.window = seg.window_size;
        let synack = connection_socket.send_tcp_packet(
            iss,
            connection_socket.recv_param.next,
            tcpflags::SYN | tcpflags::ACK,
            Vec::new(),
            now,
        );
        out.segments.push(Outgoing {
            local_addr: listener_local_addr,
            remote_addr,
            segment: synack,
        });
        connection_socket.send_param.next = iss + 1;
        connection_socket.send_param.unacked_seq = iss;
        connection_socket.listening_socket = Some(listening_socket_id);
        proof {
            assert((2u8 | 16u8) == 18u8) by (bit_vector);
            assert(connection_socket.retransmission_queue@.skip(1)
                =~= Seq::<RetransmissionQueueEntry>::empty());
            assert(queued_payload_bytes(connection_socket.retransmission_queue@) == 0);
            assert(connection_socket.wf());
        }
        let i = self.table_insert(connection_socket);
        proof {
            assert(out.segments@.take(old(out).segments@.len() as int) =~= old(out).segments@);
        }
    }

    /// Handles the handshake-completing ACK for a SYN RCVD socket: on an
    /// acceptable acknowledgement the socket becomes ESTABLISHED, its key
    /// is appended to its listener's queue of completed connections, and
    /// ConnectionCompleted is published on the listener's key (for an
    /// actively opened socket that fell back to SYN RCVD there is no
    /// listener, and nothing is published).
    pub fn synrcvd_handler(&mut self, sock_id: SockID, seg: &Segment, out: &mut Effects)
        requires
            old(self).wf(),
            old(self).keys_unique(),
        ensures
            final(self).wf(),
            final(self).keys_unique(),
            final(out).segments@ == old(out).segments@,
            ({
                let s = seg@;
                if !old(self).has_key(sock_id) {
                    &&& final(self).sockets@ == old(self).sockets@
                    &&& final(out).events@ == old(out).events@
                } else {
                    let i = old(self).spec_index_of(sock_id);
                    let s0 = old(self).sockets@[i];
                    let accepted = crate::socket::synrcvd_accepts(s0.conn_state(), s);
                    let lid_opt = s0.listening_socket;
                    &&& final(self).sockets@.len() == old(self).sockets@.len()
                    &&& ({
                        let s1 = final(self).sockets@[i];
                        &&& s1.conn_state() == crate::socket::synrcvd_step(s0.conn_state(), s)
                        &&& s1.sock_id_spec() == s0.sock_id_spec()
                        &&& s1.retransmission_queue@ == s0.retransmission_queue@
                        &&& s1.recv_buffer@ == s0.recv_buffer@
                        &&& s1.listening_socket == s0.listening_socket
                    })
                    &&& if accepted && lid_opt is Some && old(self).has_key(lid_opt->0) {
                        let lid = lid_opt->0;
                        let j = old(self).spec_index_of(lid);
                        &&& final(out).events@ == old(out).events@.push(
                            TCPEvent { sock_id: lid, kind: TCPEventKind::ConnectionCompleted },
                        )
                        &&& final(self).sockets@[j].connected_connection_queue@ == (
                            if j == i {
                                s0.connected_connection_queue@
                            } else {
                                old(self).sockets@[j].connected_connection_queue@
                            }
                        ).push(sock_id)
                        &&& final(self).sockets@[j].sock_id_spec()
                            == old(self).sockets@[j].sock_id_spec()
                        &&& (j != i ==> final(self).sockets@[j].conn_state()
                            == old(self).sockets@[j].conn_state())
                        &&& (j != i ==> final(self).sockets@[i].connected_connection_queue@
                            == s0.connected_connection_queue@)
                        &&& forall|m: int|
                            0 <= m < old(self).sockets@.len() && m != i && m != j
                                ==> final(self).sockets@[m] == old(self).sockets@[m]
                    } else {
                        &&& final(out).events@ == old(out).events@
                        &&& final(self).sockets@[i].connected_connection_queue@
                            == s0.connected_connection_queue@
                        &&& forall|m: int|
                            0 <= m < old(self).sockets@.len() && m != i ==> final(self).sockets@[m] == old(self).sockets@[m]
                    }
                }
            }),
    {
        let found = self.lookup(sock_id);
        let i = match found {
            Some(i) => i,
            None => {
                return ;
            },
        };
        proof {
            self.lemma_key_at(i as int);
        }
        let mut socket = self.sockets.remove(i);
        let accepted = seg.flag & tcpflags::ACK > 0 && socket.send_param.unacked_seq <= seg.ack
            && seg.ack <= socket.send_param.next;
        if accepted {
            socket.recv_param.next = seg.seq;
            socket.send_param.unacked_seq = seg.ack;
            socket.status = TcpStatus::Established;
        }
        let listener = socket.listening_socket;
        self.sockets.insert(i, socket);
        proof {
            assert(self.sockets@ =~= old(self).sockets@.update(i as int, self.sockets@[i as int]));
            assert(forall|m: int|
                0 <= m < self.sockets@.len() ==> (#[trigger] self.sockets@[m]).sock_id_spec()
                    == old(self).sockets@[m].sock_id_spec());
        }
        if !accepted {
            return ;
        }
        let lid = match listener {
            Some(lid) => lid,
            None => {
                return ;
            },
        };
        let lf = self.lookup(lid);
        let j = match lf {
            Some(j) => j,
            None => {
                proof {
                    if old(self).has_key(lid) {
                        let w = old(self).spec_index_of(lid);
                        assert(self.sockets@[w].sock_id_spec() == lid);
                        assert(false);
                    }
                }
                return ;
            },
        };
        proof {
            self.lemma_key_at(j as int);
            old(self).lemma_key_at(j as int);
        }
        let mut ls = self.sockets.remove(j);
        ls.connected_connection_queue.push_back(sock_id);
        self.sockets.insert(j, ls);
        proof {
            assert(self.sockets@ =~= old(self).sockets@.update(i as int, self.sockets@[i as int])
                .update(j as int, self.sockets@[j as int]));
        }
        out.events.push(TCPEvent::new(lid, TCPEventKind::ConnectionCompleted));
    }

    /// Emits at most one payload fragment of `buffer[cursor..]`, of size
    /// min(MSS, SND.WND, what remains): the segment goes out under flags
    /// ACK, SND.NXT advances and the send window shrinks by the fragment,
    /// and the fragment joins the retransmission queue. Returns the new
    /// cursor; a full window (or an exhausted buffer) returns the cursor
    /// unchanged, and the shell then blocks on Acked and calls again.
    pub fn send(
        &mut self,
        sock_id: SockID,
        buffer: &[u8],
        cursor: usize,
        now: u64,
        out: &mut Effects,
    ) -> (r: Result<usize, TcpError>)
        requires
            old(self).wf(),
            old(self).keys_unique(),
            cursor <= buffer@.len(),
        ensures
            final(self).wf(),
            final(self).keys_unique(),
            match r {
                Err(e) => {
                    &&& e == TcpError::NoSuchSocket
                    &&& !old(self).has_key(sock_id)
                    &&& final(self).sockets@ == old(self).sockets@
                    &&& final(out).segments@ == old(out).segments@
                    &&& final(out).events@ == old(out).events@
                },
                Ok(nc) => {
                    &&& old(self).has_key(sock_id)
                    &&& final(out).events@ == old(out).events@
                    &&& ({
                        let i = old(self).spec_index_of(sock_id);
                        let s0 = old(self).sockets@[i];
                        let size = send_fragment_size(
                            s0.send_param.window,
                            buffer@.len() as int,
                            cursor as int,
                        );
                        if size == 0 {
                            &&& nc == cursor
                            &&& final(self).sockets@ == old(self).sockets@
                            &&& final(out).segments@ == old(out).segments@
                        } else {
                            &&& nc == cursor + size
                            &&& final(self).sockets@.len() == old(self).sockets@.len()
                            &&& forall|m: int|
                                0 <= m < old(self).sockets@.len() && m != i
                                    ==> final(self).sockets@[m] == old(self).sockets@[m]
                            &&& ({
                                let s1 = final(self).sockets@[i];
                                let frag = SegmentModel {
                                    src_port: s0.local_port,
                                    dest_port: s0.remote_port,
                                    seq: s0.send_param.next,
                                    ack: s0.recv_param.next,
                                    flag: tcpflags::ACK,
                                    window_size: s0.recv_param.window,
                                    payload: buffer@.subrange(cursor as int, cursor + size),
                                };
                                &&& s1.sock_id_spec() == s0.sock_id_spec()
                                &&& s1.send_param.next == s0.send_param.next.wrapping_add(
                                    size as u32,
                                )
                                &&& s1.send_param.window as int == s0.send_param.window - size
                                &&& s1.send_param.unacked_seq == s0.send_param.unacked_seq
                                &&& s1.send_param.initial_seq == s0.send_param.initial_seq
                                &&& s1.recv_param == s0.recv_param
                                &&& s1.status == s0.status
                                &&& s1.recv_buffer@ == s0.recv_buffer@
                                &&& s1.listening_socket == s0.listening_socket
                                &&& s1.connected_connection_queue@
                                    == s0.connected_connection_queue@
                                &&& s1.retransmission_queue@.len()
                                    == s0.retransmission_queue@.len() + 1
                                &&& s1.retransmission_queue@.take(
                                    s0.retransmission_queue@.len() as int,
                                ) == s0.retransmission_queue@
                                &&& s1.retransmission_queue@.last().packet@ == frag
                                &&& s1.retransmission_queue@.last().transmission_count == 1
                                &&& s1.retransmission_queue@.last().latest_transmission_time == now
                                &&& (s0.send_seq_wf() && s0.send_param.next + size <= u32::MAX
                                    ==> s1.send_seq_wf())
                                &&& final(out).segments@.len() == old(out).segments@.len() + 1
                                &&& final(out).segments@.take(old(out).segments@.len() as int)
                                    == old(out).segments@
                                &&& final(out).segments@.last().local_addr == s0.local_addr
                                &&& final(out).segments@.last().remote_addr == s0.remote_addr
                                &&& final(out).segments@.last().segment@ == frag
                            })
                        }
                    })
                },
            },
    {
        let found = self.lookup(sock_id);
        let i = match found {
            Some(i) => i,
            None => {
                return Err(TcpError::NoSuchSocket);
            },
        };
        proof {
            self.lemma_key_at(i as int);
        }
        let window = self.sockets[i].send_param.window as usize;
        let remaining = buffer.len() - cursor;
        let mut send_size: usize = if window <= remaining {
            window
        } else {
            remaining
        };
        if MSS <= send_size {
            send_size = MSS;
        }
        if send_size == 0 {
            return Ok(cursor);
        }
        let mut socket = self.sockets.remove(i);
        let mut payload: Vec<u8> = Vec::new();
        let mut k: usize = 0;
        while k < send_size
            invariant
                cursor + send_size <= usize::MAX as int,
                cursor + send_size <= buffer@.len(),
                k <= send_size,
                payload@ =~= buffer@.subrange(cursor as int, cursor + k),
            decreases send_size - k,
        {
            payload.push(buffer[cursor + k]);
            k = k + 1;
            proof {
                assert(payload@ =~= buffer@.subrange(cursor as int, cursor + k));
            }
        }
        let frag = socket.send_tcp_packet(
            socket.send_param.next,
            socket.recv_param.next,
            tcpflags::ACK,
            payload,
            now,
        );
        out.segments.push(Outgoing {
            local_addr: socket.local_addr,
            remote_addr: socket.remote_addr,
            segment: frag,
        });
        socket.send_param.next = socket.send_param.next.wrapping_add(send_size as u32);
        socket.send_param.window = socket.send_param.window - (send_size as u16);
        self.sockets.insert(i, socket);
        proof {
            assert(self.sockets@ =~= old(self).sockets@.update(i as int, self.sockets@[i as int]));
            assert(out.segments@.take(old(out).segments@.len() as int) =~= old(out).segments@);
        }
        Ok(cursor + send_size)
    }

    /// Copies delivered in-order bytes from the socket's receive buffer to
    /// the front of `buffer`, shifts the receive buffer left and gives the
    /// window the copied count back. Returns None when nothing is
    /// available yet (the shell blocks on DataArrived and calls again) and
    /// Some(0) once the peer has closed and everything was delivered.
    pub fn recv(&mut self, sock_id: SockID, buffer: &mut Vec<u8>) -> (r: Result<
        Option<usize>,
        TcpError,
    >)
        requires
            old(self).wf(),
            old(self).keys_unique(),
        ensures
            final(self).wf(),
            final(self).keys_unique(),
            match r {
                Err(e) => {
                    &&& e == TcpError::NoSuchSocket
                    &&& !old(self).has_key(sock_id)
                    &&& final(self).sockets@ == old(self).sockets@
                    &&& final(buffer)@ == old(buffer)@
                },
                Ok(opt) => {
                    &&& old(self).has_key(sock_id)
                    &&& ({
                        let i = old(self).spec_index_of(sock_id);
                        let s0 = old(self).sockets@[i];
                        let available = SOCKET_BUFFER_SIZE - s0.recv_param.window as int;
                        match opt {
                            None => {
                                &&& available == 0
                                &&& s0.status != TcpStatus::CloseWait
                                &&& s0.status != TcpStatus::LastAck
                                &&& s0.status != TcpStatus::TimeWait
                                &&& final(self).sockets@ == old(self).sockets@
                                &&& final(buffer)@ == old(buffer)@
                            },
                            Some(n) => {
                                let n_exp = if old(buffer)@.len() <= available {
                                    old(buffer)@.len() as int
                                } else {
                                    available
                                };
                                &&& (available == 0 ==> (s0.status == TcpStatus::CloseWait
                                    || s0.status == TcpStatus::LastAck
                                    || s0.status == TcpStatus::TimeWait))
                                &&& n == n_exp
                                &&& final(buffer)@ == s0.recv_buffer@.take(n as int)
                                    + old(buffer)@.skip(n as int)
                                &&& final(self).sockets@.len() == old(self).sockets@.len()
                                &&& forall|m: int|
                                    0 <= m < old(self).sockets@.len() && m != i
                                        ==> final(self).sockets@[m] == old(self).sockets@[m]
                                &&& ({
                                    let s1 = final(self).sockets@[i];
                                    &&& s1.sock_id_spec() == s0.sock_id_spec()
                                    &&& s1.recv_buffer@ == s0.recv_buffer@.skip(n as int)
                                        + s0.recv_buffer@.skip(SOCKET_BUFFER_SIZE - n)
                                    &&& s1.recv_param.window == s0.recv_param.window + n
                                    &&& s1.recv_param.next == s0.recv_param.next
                                    &&& s1.recv_param.initial_seq == s0.recv_param.initial_seq
                                    &&& s1.recv_param.tail == s0.recv_param.tail
                                    &&& s1.send_param == s0.send_param
                                    &&& s1.status == s0.status
                                    &&& s1.retransmission_queue@ == s0.retransmission_queue@
                                    &&& s1.connected_connection_queue@
                                        == s0.connected_connection_queue@
                                    &&& s1.listening_socket == s0.listening_socket
                                })
                            },
                        }
                    })
                },
            },
    {
        let found = self.lookup(sock_id);
        let i = match found {
            Some(i) => i,
            None => {
                return Err(TcpError::NoSuchSocket);
            },
        };
        proof {
            self.lemma_key_at(i as int);
        }
        let available = SOCKET_BUFFER_SIZE - self.sockets[i].recv_param.window as usize;
        if available == 0 {
            let waiting = match self.sockets[i].status {
                TcpStatus::CloseWait | TcpStatus::LastAck | TcpStatus::TimeWait => false,
                _ => true,
            };
            if waiting {
                return Ok(None);
            }
        }
        let ghost s0 = old(self).sockets@[old(self).spec_index_of(sock_id)];
        let mut socket = self.sockets.remove(i);
        let copy_size: usize = if buffer.len() <= available {
            buffer.len()
        } else {
            available
        };
        let ghost buf0 = buffer@;
        let ghost rb0 = socket.recv_buffer@;
        let mut k: usize = 0;
        while k < copy_size
            invariant
                buf0 == old(buffer)@,
                rb0 == socket.recv_buffer@,
                rb0 == s0.recv_buffer@,
                copy_size <= buf0.len(),
                copy_size <= rb0.len(),
                k <= copy_size,
                buffer@.len() == buf0.len(),
                buffer@ =~= rb0.take(k as int) + buf0.skip(k as int),
            decreases copy_size - k,
        {
            let b = socket.recv_buffer[k];
            buffer.set(k, b);
            k = k + 1;
            proof {
                assert(buffer@ =~= rb0.take(k as int) + buf0.skip(k as int));
            }
        }
        // shift the undelivered remainder to the front of the buffer
        let mut j: usize = 0;
        while j < SOCKET_BUFFER_SIZE - copy_size
            invariant
                s0 == old(self).sockets@[old(self).spec_index_of(sock_id)],
                rb0 == s0.recv_buffer@,
                rb0.len() == SOCKET_BUFFER_SIZE as int,
                copy_size <= SOCKET_BUFFER_SIZE,
                j <= SOCKET_BUFFER_SIZE - copy_size,
                socket.recv_buffer@.len() == rb0.len(),
                socket.recv_buffer@ =~= rb0.skip(copy_size as int).take(j as int)
                    + rb0.skip(j as int),
                socket.send_param == s0.send_param,
                socket.recv_param == s0.recv_param,
                socket.status == s0.status,
                socket.retransmission_queue@ == s0.retransmission_queue@,
                socket.connected_connection_queue@ == s0.connected_connection_queue@,
                socket.listening_socket == s0.listening_socket,
                socket.local_addr == s0.local_addr,
                socket.remote_addr == s0.remote_addr,
                socket.local_port == s0.local_port,
                socket.remote_port == s0.remote_port,
            decreases SOCKET_BUFFER_SIZE - copy_size - j,
        {
            let b = socket.recv_buffer[j + copy_size];
            socket.recv_buffer.set(j, b);
            j = j + 1;
            proof {
                assert(socket.recv_buffer@ =~= rb0.skip(copy_size as int).take(j as int)
                    + rb0.skip(j as int));
            }
        }
        proof {
            assert(socket.recv_buffer@ =~= rb0.skip(copy_size as int)
                + rb0.skip(SOCKET_BUFFER_SIZE - copy_size as int));
        }
        socket.recv_param.window = socket.recv_param.window + (copy_size as u16);
        self.sockets.insert(i, socket);
        proof {
            assert(self.sockets@ =~= old(self).sockets@.update(i as int, self.sockets@[i as int]));
        }
        Ok(Some(copy_size))
    }

    /// Starts closing: emits FIN|ACK (consuming one sequence number) and
    /// moves ESTABLISHED to FIN WAIT 1 and CLOSE WAIT to LAST ACK; the
    /// shell then blocks on ConnectionClosed and removes the socket. A
    /// listener is removed at once. In any other state the FIN goes out
    /// and nothing further is owed.
    pub fn close(&mut self, sock_id: SockID, now: u64, out: &mut Effects) -> (r: Result<
        CloseOutcome,
        TcpError,
    >)
        requires
            old(self).wf(),
            old(self).keys_unique(),
        ensures
            final(self).wf(),
            final(self).keys_unique(),
            match r {
                Err(e) => {
                    &&& e == TcpError::NoSuchSocket
                    &&& !old(self).has_key(sock_id)
                    &&& final(self).sockets@ == old(self).sockets@
                    &&& final(out).segments@ == old(out).segments@
                    &&& final(out).events@ == old(out).events@
                },
                Ok(outcome) => {
                    &&& old(self).has_key(sock_id)
                    &&& final(out).events@ == old(out).events@
                    &&& ({
                        let i = old(self).spec_index_of(sock_id);
                        let s0 = old(self).sockets@[i];
                        let fin = SegmentModel {
                            src_port: s0.local_port,
                            dest_port: s0.remote_port,
                            seq: s0.send_param.next,
                            ack: s0.recv_param.next,
                            flag: tcpflags::FIN | tcpflags::ACK,
                            window_size: s0.recv_param.window,
                            payload: Seq::<u8>::empty(),
                        };
                        &&& final(out).segments@.len() == old(out).segments@.len() + 1
                        &&& final(out).segments@.take(old(out).segments@.len() as int) == old(out).segments@
                        &&& final(out).segments@.last().local_addr == s0.local_addr
                        &&& final(out).segments@.last().remote_addr == s0.remote_addr
                        &&& final(out).segments@.last().segment@ == fin
                        &&& outcome == (match s0.status {
                            TcpStatus::Established => CloseOutcome::AwaitConnectionClosed,
                            TcpStatus::CloseWait => CloseOutcome::AwaitConnectionClosed,
                            TcpStatus::Listen => CloseOutcome::RemovedNow,
                            _ => CloseOutcome::Finished,
                        })
                        &&& if s0.status == TcpStatus::Listen {
                            final(self).sockets@ == old(self).sockets@.remove(i)
                        } else {
                            &&& final(self).sockets@.len() == old(self).sockets@.len()
                            &&& forall|m: int|
                                0 <= m < old(self).sockets@.len() && m != i
                                    ==> final(self).sockets@[m] == old(self).sockets@[m]
                            &&& ({
                                let s1 = final(self).sockets@[i];
                                &&& s1.sock_id_spec() == s0.sock_id_spec()
                                &&& s1.send_param.next == s0.send_param.next.wrapping_add(1)
                                &&& s1.send_param.unacked_seq == s0.send_param.unacked_seq
                                &&& s1.send_param.window == s0.send_param.window
                                &&& s1.send_param.initial_seq == s0.send_param.initial_seq
                                &&& s1.recv_param == s0.recv_param
                                &&& s1.status == (match s0.status {
                                    TcpStatus::Established => TcpStatus::FinWait1,
                                    TcpStatus::CloseWait => TcpStatus::LastAck,
                                    _ => s0.status,
                                })
                                &&& s1.recv_buffer@ == s0.recv_buffer@
                                &&& s1.connected_connection_queue@
                                    == s0.connected_connection_queue@
                                &&& s1.listening_socket == s0.listening_socket
                                &&& s1.retransmission_queue@.len()
                                    == s0.retransmission_queue@.len() + 1
                                &&& s1.retransmission_queue@.take(
                                    s0.retransmission_queue@.len() as int,
                                ) == s0.retransmission_queue@
                                &&& s1.retransmission_queue@.last().packet@ == fin
                                &&& s1.retransmission_queue@.last().transmission_count == 1
                                &&& s1.retransmission_queue@.last().latest_transmission_time == now
                                &&& (s0.send_seq_wf() && s0.send_param.next < u32::MAX
                                    ==> s1.send_seq_wf())
                            })
                        }
                    })
                },
            },
    {
        let found = self.lookup(sock_id);
        let i = match found {
            Some(i) => i,
            None => {
                return Err(TcpError::NoSuchSocket);
            },
        };
        proof {
            self.lemma_key_at(i as int);
        }
        let mut socket = self.sockets.remove(i);
        let fin_seg = socket.send_tcp_packet(
            socket.send_param.next,
            socket.recv_param.next,
            tcpflags::FIN | tcpflags::ACK,
            Vec::new(),
            now,
        );
        proof {
            assert((1u8 | 16u8) == 17u8) by (bit_vector);
        }
        out.segments.push(Outgoing {
            local_addr: socket.local_addr,
            remote_addr: socket.remote_addr,
            segment: fin_seg,
        });
        socket.send_param.next = socket.send_param.next.wrapping_add(1);
        let outcome = match socket.status {
            TcpStatus::Established => {
                socket.status = TcpStatus::FinWait1;
                CloseOutcome::AwaitConnectionClosed
            },
            TcpStatus::CloseWait => {
                socket.status = TcpStatus::LastAck;
                CloseOutcome::AwaitConnectionClosed
            },
            TcpStatus::Listen => CloseOutcome::RemovedNow,
            _ => CloseOutcome::Finished,
        };
        let is_listener = match socket.status {
            TcpStatus::Listen => true,
            _ => false,
        };
        if !is_listener {
            self.sockets.insert(i, socket);
            proof {
                assert(self.sockets@ =~= old(self).sockets@.update(
                    i as int,
                    self.sockets@[i as int],
                ));
                assert(out.segments@.take(old(out).segments@.len() as int)
                    =~= old(out).segments@);
            }
        } else {
            proof {
                assert(out.segments@.take(old(out).segments@.len() as int)
                    =~= old(out).segments@);
            }
        }
        Ok(outcome)
    }

    /// One pass of the retransmission timer over every socket (the shell
    /// runs one every ~100 ms): drains what has been acknowledged, resends
    /// what has expired, and gives up on what has been resent too often.
    /// No socket changes its state, keys or receive side here; windows
    /// only grow; and every emitted segment is a stored one, resent.
    pub fn timer_tick(&mut self, now: u64, out: &mut Effects)
        requires
            old(self).wf(),
            old(self).keys_unique(),
        ensures
            final(self).wf(),
            final(self).keys_unique(),
            final(self).sockets@.len() == old(self).sockets@.len(),
            forall|i: int|
                0 <= i < old(self).sockets@.len() ==> {
                    let s0 = old(self).sockets@[i];
                    let s1 = #[trigger] final(self).sockets@[i];
                    &&& s1.sock_id_spec() == s0.sock_id_spec()
                    &&& s1.status == s0.status
                    &&& s1.recv_param == s0.recv_param
                    &&& s1.recv_buffer@ == s0.recv_buffer@
                    &&& s1.send_param.unacked_seq == s0.send_param.unacked_seq
                    &&& s1.send_param.next == s0.send_param.next
                    &&& s1.send_param.initial_seq == s0.send_param.initial_seq
                    &&& s1.send_param.window >= s0.send_param.window
                    &&& s1.connected_connection_queue@ == s0.connected_connection_queue@
                    &&& s1.listening_socket == s0.listening_socket
                },
            final(out).segments@.len() >= old(out).segments@.len(),
            forall|k: int|
                0 <= k < old(out).segments@.len() ==> #[trigger] final(out).segments@[k]
                    == old(out).segments@[k],
            forall|k: int|
                old(out).segments@.len() <= k < final(out).segments@.len()
                    ==> segment_was_queued(#[trigger] final(out).segments@[k], old(self).sockets@),
            final(out).events@.len() >= old(out).events@.len(),
            forall|k: int|
                0 <= k < old(out).events@.len() ==> #[trigger] final(out).events@[k]
                    == old(out).events@[k],
            forall|k: int|
                old(out).events@.len() <= k < final(out).events@.len() ==> ((#[trigger] final(out).events@[k]).kind == TCPEventKind::Acked || final(out).events@[k].kind
                    == TCPEventKind::ConnectionClosed),
            // each socket ends as its own pass's model says, and the tick's
            // events and resends are exactly the passes' in table order
            forall|i: int|
                0 <= i < old(self).sockets@.len() ==> ({
                    let m = socket_timer_pass(old(self).sockets@[i], now);
                    (#[trigger] final(self).sockets@[i]).retransmission_queue@ == m.queue
                        && final(self).sockets@[i].send_param.window as int == m.window
                }),
            final(out).events@ == old(out).events@ + table_timer_events(old(self).sockets@, now),
            final(out).segments@.len() == old(out).segments@.len() + table_timer_resends(
                old(self).sockets@,
                now,
            ).len(),
            forall|k: int|
                0 <= k < table_timer_resends(old(self).sockets@, now).len()
                    ==> (#[trigger] final(out).segments@[old(out).segments@.len() + k])@
                    == table_timer_resends(old(self).sockets@, now)[k],
    {
        proof {
            assert(old(self).sockets@.take(0) =~= Seq::<Socket>::empty());
            assert(table_timer_events(Seq::<Socket>::empty(), now) == Seq::<TCPEvent>::empty());
            assert(table_timer_resends(Seq::<Socket>::empty(), now)
                == Seq::<OutgoingModel>::empty());
            assert(out.events@ + Seq::<TCPEvent>::empty() =~= out.events@);
        }
        let mut idx: usize = 0;
        while idx < self.sockets.len()
            invariant
                old(self).wf(),
                old(self).keys_unique(),
                idx <= self.sockets@.len(),
                self.sockets@.len() == old(self).sockets@.len(),
                forall|m: int|
                    idx <= m < old(self).sockets@.len() ==> #[trigger] self.sockets@[m] == old(self).sockets@[m],
                forall|i: int|
                    0 <= i < old(self).sockets@.len() ==> {
                        let s0 = old(self).sockets@[i];
                        let s1 = #[trigger] self.sockets@[i];
                        &&& s1.sock_id_spec() == s0.sock_id_spec()
                        &&& s1.status == s0.status
                        &&& s1.recv_param == s0.recv_param
                        &&& s1.recv_buffer@ == s0.recv_buffer@
                        &&& s1.send_param.unacked_seq == s0.send_param.unacked_seq
                        &&& s1.send_param.next == s0.send_param.next
                        &&& s1.send_param.initial_seq == s0.send_param.initial_seq
                        &&& s1.send_param.window >= s0.send_param.window
                        &&& s1.connected_connection_queue@ == s0.connected_connection_queue@
                        &&& s1.listening_socket == s0.listening_socket
                        &&& s1.wf()
                    },
                self.keys_unique(),
                out.segments@.len() >= old(out).segments@.len(),
                forall|k: int|
                    0 <= k < old(out).segments@.len() ==> #[trigger] out.segments@[k] == old(out).segments@[k],
                forall|k: int|
                    old(out).segments@.len() <= k < out.segments@.len()
                        ==> segment_was_queued(#[trigger] out.segments@[k], old(self).sockets@),
                out.events@.len() >= old(out).events@.len(),
                forall|k: int|
                    0 <= k < old(out).events@.len() ==> #[trigger] out.events@[k] == old(out).events@[k],
                forall|k: int|
                    old(out).events@.len() <= k < out.events@.len() ==> ((#[trigger] out.events@[k]).kind
                        == TCPEventKind::Acked || out.events@[k].kind
                        == TCPEventKind::ConnectionClosed),
                forall|i: int|
                    0 <= i < idx ==> ({
                        let m = socket_timer_pass(old(self).sockets@[i], now);
                        (#[trigger] self.sockets@[i]).retransmission_queue@ == m.queue
                            && self.sockets@[i].send_param.window as int == m.window
                    }),
                out.events@ == old(out).events@ + table_timer_events(
                    old(self).sockets@.take(idx as int),
                    now,
                ),
                out.segments@.len() == old(out).segments@.len() + table_timer_resends(
                    old(self).sockets@.take(idx as int),
                    now,
                ).len(),
                forall|k: int|
                    0 <= k < table_timer_resends(old(self).sockets@.take(idx as int), now).len()
                        ==> (#[trigger] out.segments@[old(out).segments@.len() + k])@
                        == table_timer_resends(old(self).sockets@.take(idx as int), now)[k],
            decreases self.sockets@.len() - idx,
        {
            let ghost pre = self.sockets@;
            let ghost seg_lo = out.segments@.len() as int;
            let mut socket = self.sockets.remove(idx);
            let ghost oldsock = pre[idx as int];
            socket.timer_tick(now, out);
            self.sockets.insert(idx, socket);
            proof {
                assert(self.sockets@ =~= pre.update(idx as int, self.sockets@[idx as int]));
                assert(oldsock == old(self).sockets@[idx as int]);
                let t = old(self).sockets@;
                assert(t.take(idx as int + 1) =~= t.take(idx as int).push(t[idx as int]));
                lemma_table_timer_events_push(t.take(idx as int), t[idx as int], now);
                lemma_table_timer_resends_push(t.take(idx as int), t[idx as int], now);
                assert((old(out).events@ + table_timer_events(t.take(idx as int), now))
                    + socket_timer_pass(oldsock, now).events =~= old(out).events@ + (
                table_timer_events(t.take(idx as int), now) + socket_timer_pass(
                    oldsock,
                    now,
                ).events));
                match socket_timer_pass(oldsock, now).resend {
                    Some(pk) => {
                        assert(out.segments@.last()@ == OutgoingModel {
                            local_addr: oldsock.local_addr,
                            remote_addr: oldsock.remote_addr,
                            segment: pk,
                        });
                    },
                    None => {},
                }
                assert forall|k: int|
                    old(out).segments@.len() <= k < out.segments@.len() implies segment_was_queued(
                    #[trigger] out.segments@[k],
                    old(self).sockets@,
                ) by {
                    if k >= seg_lo {
                        let j = choose|j: int|
                            0 <= j < oldsock.retransmission_queue@.len() && (#[trigger] out.segments@[k]).segment@
                                == oldsock.retransmission_queue@[j].packet@
                                && out.segments@[k].local_addr == oldsock.local_addr
                                && out.segments@[k].remote_addr == oldsock.remote_addr;
                        assert(0 <= (idx as int) < old(self).sockets@.len() && 0 <= j
                            < old(self).sockets@[idx as int].retransmission_queue@.len()
                            && out.segments@[k].segment@
                            == old(self).sockets@[idx as int].retransmission_queue@[j].packet@);
                    }
                }
            }
            idx = idx + 1;
        }
        proof {
            assert(old(self).sockets@.take(old(self).sockets@.len() as int)
                =~= old(self).sockets@);
        }
    }

    /// Routes an arriving segment: first to the exact four-tuple, then to
    /// the listener under (local address, 0.0.0.0, port, 0); a segment
    /// matching neither is silently dropped. The matched socket's state
    /// picks the handler; TIME WAIT (and any state without one) ignores
    /// the segment.
    pub fn handle_segment(
        &mut self,
        local_addr: u32,
        remote_addr: u32,
        seg: &Segment,
        now: u64,
        out: &mut Effects,
    )
        requires
            old(self).wf(),
            old(self).keys_unique(),
        ensures
            final(self).wf(),
            final(self).keys_unique(),
            segment_dispatch_post(
                *old(self),
                *final(self),
                old(out).segments@,
                final(out).segments@,
                old(out).events@,
                final(out).events@,
                local_addr,
                remote_addr,
                seg@,
            ),
    {
        let exact = SockID(local_addr, remote_addr, seg.dest_port, seg.src_port);
        let listener_key = SockID(
            local_addr,
            UNDETERMINED_IP_ADDR,
            seg.dest_port,
            UNDETERMINED_PORT,
        );
        let mut sock_id = exact;
        let mut found = self.lookup(exact);
        if found.is_none() {
            sock_id = listener_key;
            found = self.lookup(listener_key);
        }
        let i = match found {
            Some(i) => i,
            None => {
                return ;
            },
        };
        proof {
            self.lemma_key_at(i as int);
        }
        let status = self.sockets[i].status;
        match status {
            TcpStatus::Listen => {
                let iss = random_in_range(1, 0x8000_0000);
                self.listen_handler(sock_id, seg, remote_addr, iss, now, out);
            },
            TcpStatus::SynRcvd => {
                self.synrcvd_handler(sock_id, seg, out);
            },
            TcpStatus::SynSent => {
                // in SYN SENT nothing with payload has been sent yet; a
                // table someone filled otherwise is left untouched, since
                // adopting the peer's window must not outrun the in-flight
                // accounting
                if self.sockets[i].queued_payload_len() == 0 {
                    let ghost pre = self.sockets@;
                    let mut socket = self.sockets.remove(i);
                    socket.synsent_handler(seg, now, out);
                    self.sockets.insert(i, socket);
                    proof {
                        assert(self.sockets@ =~= pre.update(i as int, self.sockets@[i as int]));
                    }
                }
            },
            TcpStatus::Established => {
                let ghost pre = self.sockets@;
                let mut socket = self.sockets.remove(i);
                socket.established_handler(seg, now, out);
                self.sockets.insert(i, socket);
                proof {
                    assert(self.sockets@ =~= pre.update(i as int, self.sockets@[i as int]));
                }
            },
            TcpStatus::CloseWait | TcpStatus::LastAck => {
                let ghost pre = self.sockets@;
                let mut socket = self.sockets.remove(i);
                socket.close_handler(seg);
                self.sockets.insert(i, socket);
                proof {
                    assert(self.sockets@ =~= pre.update(i as int, self.sockets@[i as int]));
                }
            },
            TcpStatus::FinWait1 | TcpStatus::FinWait2 => {
                let ghost pre = self.sockets@;
                let mut socket = self.sockets.remove(i);
                socket.finwait_handler(seg, now, out);
                self.sockets.insert(i, socket);
                proof {
                    assert(self.sockets@ =~= pre.update(i as int, self.sockets@[i as int]));
                }
            },
            _ => {},
        }
    }

    /// The receive engine's step for one arriving TCP-over-IPv4 payload:
    /// parse it, drop it if malformed, drop it if its pseudo-header
    /// checksum does not hold, and otherwise route and handle it.
    pub fn receive_packet(
        &mut self,
        local_addr: u32,
        remote_addr: u32,
        packet: &Vec<u8>,
        now: u64,
        out: &mut Effects,
    )
        requires
            old(self).wf(),
            old(self).keys_unique(),
        ensures
            final(self).wf(),
            final(self).keys_unique(),
            (crate::codec::parse_model(packet@) is None || packet@.len() > 65535 || be16(
                packet@,
                16,
            ) != crate::codec::inet_checksum(
                crate::codec::checksum_input(packet@, remote_addr, local_addr),
                14,
            )) ==> (final(self).sockets@ == old(self).sockets@ && final(out).segments@ == old(out).segments@ && final(out).events@ == old(out).events@),
            // a parseable packet of wire size whose checksum holds is
            // routed and handled exactly as handle_segment says
            (crate::codec::parse_model(packet@) is Some && packet@.len() <= 65535 && be16(
                packet@,
                16,
            ) == crate::codec::inet_checksum(
                crate::codec::checksum_input(packet@, remote_addr, local_addr),
                14,
            )) ==> segment_dispatch_post(
                *old(self),
                *final(self),
                old(out).segments@,
                final(out).segments@,
                old(out).events@,
                final(out).events@,
                local_addr,
                remote_addr,
                crate::codec::parse_model(packet@)->0,
            ),
    {
        if packet.len() > 65535 {
            return ;
        }
        let parsed = crate::codec::parse_segment(packet);
        let seg = match parsed {
            Some(seg) => seg,
            None => {
                return ;
            },
        };
        // the pseudo-header names the sender first: the peer's address
        if !crate::codec::is_correct_checksum(packet, remote_addr, local_addr) {
            return ;
        }
        self.handle_segment(local_addr, remote_addr, &seg, now, out);
    }
}

} // verus!

use toytcp::segment::Segment;
use toytcp::socket::{SockID, TcpStatus};
use toytcp::tcp::{CloseOutcome, Effects, TCPEvent, TCPEventKind, TCP};
use toytcp::TcpError;

fn ip(a: u8, b: u8, c: u8, d: u8) -> u32 {
    ((a as u32) << 24) | ((b as u32) << 16) | ((c as u32) << 8) | (d as u32)
}

fn seg(
    src_port: u16,
    dest_port: u16,
    seq: u32,
    ack: u32,
    flag: u8,
    window_size: u16,
    payload: Vec<u8>,
) -> Segment {
    Segment { src_port, dest_port, seq, ack, flag, window_size, payload }
}

const SYN: u8 = 2;
const ACK: u8 = 16;
const FIN: u8 = 1;

fn count_events(out: &Effects, kind: TCPEventKind) -> usize {
    out.events.iter().filter(|e| e.kind == kind).count()
}

/// Drives an active open up to ESTABLISHED and returns the connection key
/// and the client's initial send sequence number.
fn establish_client(tcp: &mut TCP, out: &mut Effects) -> (SockID, u32) {
    let local = ip(10, 0, 0, 1);
    let remote = ip(1, 2, 3, 4);
    let id = tcp.connect(local, remote, 80, 0, out).expect("connect");
    let syn_out = &out.segments[out.segments.len() - 1];
    let iss = syn_out.segment.seq;
    let synack = seg(80, id.2, 500, iss.wrapping_add(1), SYN | ACK, 4380, Vec::new());
    tcp.handle_segment(local, remote, &synack, 0, out);
    (id, iss)
}

#[test]
fn active_open_reaches_established() {
    let mut tcp = TCP::new();
    let mut out = Effects::new();
    let local = ip(10, 0, 0, 1);
    let remote = ip(1, 2, 3, 4);
    let id = tcp.connect(local, remote, 80, 0, &mut out).expect("connect");
    assert_eq!(id.0, local);
    assert_eq!(id.1, remote);
    assert!((40000..60000).contains(&id.2));
    assert_eq!(id.3, 80);

    // the SYN goes out with the random initial sequence number
    assert_eq!(out.segments.len(), 1);
    let syn_out = &out.segments[0];
    assert_eq!(syn_out.segment.flag, SYN);
    assert_eq!(syn_out.segment.dest_port, 80);
    let iss = syn_out.segment.seq;
    assert!((1..0x8000_0000u32).contains(&iss));
    assert_eq!(tcp.sockets[0].status, TcpStatus::SynSent);
    assert_eq!(tcp.sockets[0].send_param.next, iss + 1);
    assert_eq!(tcp.sockets[0].send_param.unacked_seq, iss);

    // peer answers SYN|ACK seq=500 ack=iss+1
    let synack = seg(80, id.2, 500, iss + 1, SYN | ACK, 4380, Vec::new());
    tcp.handle_segment(local, remote, &synack, 0, &mut out);
    assert_eq!(tcp.sockets[0].status, TcpStatus::Established);
    // the reply is a bare ACK seq=iss+1 ack=501
    let reply = &out.segments[1];
    assert_eq!(reply.segment.flag, ACK);
    assert_eq!(reply.segment.seq, iss + 1);
    assert_eq!(reply.segment.ack, 501);
    assert!(reply.segment.payload.is_empty());
    assert_eq!(count_events(&out, TCPEventKind::ConnectionCompleted), 1);

    // the sequence invariant holds and nothing queued is a bare ACK
    let s = &tcp.sockets[0];
    assert!(s.send_param.unacked_seq <= s.send_param.next);
    for e in s.retransmission_queue.iter() {
        assert!(!e.packet.payload.is_empty() || e.packet.flag != ACK);
    }
}

#[test]
fn passive_open_reaches_established_and_accept_returns_key() {
    let mut tcp = TCP::new();
    let mut out = Effects::new();
    let local = ip(127, 0, 0, 1);
    let peer = ip(127, 0, 0, 2);
    let lid = tcp.listen(local, 9000);
    assert_eq!(lid, SockID(local, 0, 9000, 0));

    // inbound SYN seq=1000 from 127.0.0.2:55000
    let syn = seg(55000, 9000, 1000, 0, SYN, 4380, Vec::new());
    tcp.listen_handler(lid, &syn, peer, 3000, 0, &mut out);
    let nid = SockID(local, peer, 9000, 55000);
    let ni = tcp.lookup(nid).expect("new socket");
    assert_eq!(tcp.sockets[ni].status, TcpStatus::SynRcvd);
    assert_eq!(tcp.sockets[ni].recv_param.next, 1001);
    assert_eq!(tcp.sockets[ni].send_param.initial_seq, 3000);
    let synack = &out.segments[out.segments.len() - 1];
    assert_eq!(synack.segment.flag, SYN | ACK);
    assert_eq!(synack.segment.seq, 3000);
    assert_eq!(synack.segment.ack, 1001);

    // handshake-completing ACK
    let ack = seg(55000, 9000, 1001, 3001, ACK, 4380, Vec::new());
    tcp.synrcvd_handler(nid, &ack, &mut out);
    let ni = tcp.lookup(nid).expect("socket");
    assert_eq!(tcp.sockets[ni].status, TcpStatus::Established);
    assert_eq!(count_events(&out, TCPEventKind::ConnectionCompleted), 1);
    assert_eq!(out.events[out.events.len() - 1].sock_id, lid);

    assert_eq!(tcp.accept(lid), Ok(nid));
    assert_eq!(tcp.accept(lid), Err(TcpError::AcceptOnEmpty));
    assert_eq!(tcp.accept(SockID(1, 2, 3, 4)), Err(TcpError::NoSuchSocket));
}

#[test]
fn windowing_two_mss_and_acks_restore_window() {
    let mut tcp = TCP::new();
    let mut out = Effects::new();
    let local = ip(10, 0, 0, 1);
    let remote = ip(1, 2, 3, 4);
    let (id, iss) = establish_client(&mut tcp, &mut out);
    assert_eq!(tcp.sockets[0].send_param.window, 4380);

    // flush the acknowledged SYN out of the queue
    tcp.timer_tick(0, &mut out);
    assert_eq!(count_events(&out, TCPEventKind::Acked), 1);
    assert!(tcp.sockets[0].retransmission_queue.is_empty());

    let data = vec![7u8; 2920];
    let c1 = tcp.send(id, &data, 0, 0, &mut out).expect("send");
    assert_eq!(c1, 1460);
    let c2 = tcp.send(id, &data, c1, 0, &mut out).expect("send");
    assert_eq!(c2, 2920);
    assert_eq!(tcp.sockets[0].send_param.window, 4380 - 2920);
    assert_eq!(tcp.sockets[0].send_param.next, iss + 1 + 2920);
    let first = &out.segments[out.segments.len() - 2];
    assert_eq!(first.segment.seq, iss + 1);
    assert_eq!(first.segment.payload.len(), 1460);
    let second = &out.segments[out.segments.len() - 1];
    assert_eq!(second.segment.seq, iss + 1 + 1460);

    // both fragments acknowledged: window slides back, Acked fires twice
    let ack = seg(80, id.2, 501, iss + 1 + 2920, ACK, 4380, Vec::new());
    tcp.handle_segment(local, remote, &ack, 0, &mut out);
    assert_eq!(tcp.sockets[0].send_param.window, 4380);
    assert_eq!(count_events(&out, TCPEventKind::Acked), 3);
    assert!(tcp.sockets[0].retransmission_queue.is_empty());
}

/// Brings up a server-side connection whose RCV.NXT is exactly 100.
fn establish_server_at_100(tcp: &mut TCP, out: &mut Effects) -> SockID {
    let local = ip(127, 0, 0, 1);
    let peer = ip(127, 0, 0, 2);
    let lid = tcp.listen(local, 9000);
    let syn = seg(55000, 9000, 99, 0, SYN, 4380, Vec::new());
    tcp.listen_handler(lid, &syn, peer, 3000, 0, out);
    let nid = SockID(local, peer, 9000, 55000);
    let ack = seg(55000, 9000, 100, 3001, ACK, 4380, Vec::new());
    tcp.synrcvd_handler(nid, &ack, out);
    nid
}

#[test]
fn out_of_order_reassembly_jumps_over_the_gap() {
    let mut tcp = TCP::new();
    let mut out = Effects::new();
    let local = ip(127, 0, 0, 1);
    let peer = ip(127, 0, 0, 2);
    let nid = establish_server_at_100(&mut tcp, &mut out);
    let ni = tcp.lookup(nid).expect("socket");
    assert_eq!(tcp.sockets[ni].recv_param.next, 100);

    // seq=200, 50 bytes: stored but RCV.NXT stays put
    let early = seg(55000, 9000, 200, 3001, ACK, 4380, vec![1u8; 50]);
    tcp.handle_segment(local, peer, &early, 0, &mut out);
    assert_eq!(tcp.sockets[ni].recv_param.next, 100);
    assert_eq!(tcp.sockets[ni].recv_param.tail, 250);
    assert_eq!(tcp.sockets[ni].recv_param.window, 4380);
    assert_eq!(count_events(&out, TCPEventKind::DataArrived), 1);

    // seq=100, 100 bytes: the gap fills and RCV.NXT jumps to 250
    let fill = seg(55000, 9000, 100, 3001, ACK, 4380, vec![2u8; 100]);
    tcp.handle_segment(local, peer, &fill, 0, &mut out);
    assert_eq!(tcp.sockets[ni].recv_param.next, 250);
    assert_eq!(tcp.sockets[ni].recv_param.window, 4380 - 150);
    let reply = &out.segments[out.segments.len() - 1];
    assert_eq!(reply.segment.ack, 250);

    // the window accounting of the receive buffer holds (150 undelivered)
    assert_eq!(
        tcp.sockets[ni].recv_param.window as usize
            + (4380 - tcp.sockets[ni].recv_param.window as usize),
        4380
    );

    // recv returns the 150 bytes in order
    let mut buf = vec![0u8; 4096];
    let got = tcp.recv(nid, &mut buf).expect("recv");
    assert_eq!(got, Some(150));
    assert!(buf[..100].iter().all(|b| *b == 2));
    assert!(buf[100..150].iter().all(|b| *b == 1));
    assert_eq!(tcp.sockets[ni].recv_param.window, 4380);
}

#[test]
fn recv_on_empty_connection_would_block() {
    let mut tcp = TCP::new();
    let mut out = Effects::new();
    let (id, _) = establish_client(&mut tcp, &mut out);
    let mut buf = vec![0u8; 16];
    assert_eq!(tcp.recv(id, &mut buf), Ok(None));
    assert_eq!(tcp.recv(SockID(9, 9, 9, 9), &mut buf), Err(TcpError::NoSuchSocket));
    assert_eq!(tcp.send(SockID(9, 9, 9, 9), &[1], 0, 0, &mut out), Err(TcpError::NoSuchSocket));
    assert_eq!(tcp.close(SockID(9, 9, 9, 9), 0, &mut out), Err(TcpError::NoSuchSocket));
}

#[test]
fn retransmit_after_timeout_then_give_up_signals_close() {
    let mut tcp = TCP::new();
    let mut out = Effects::new();
    let local = ip(10, 0, 0, 1);
    let remote = ip(1, 2, 3, 4);
    let (id, iss) = establish_client(&mut tcp, &mut out);
    tcp.timer_tick(0, &mut out); // drain the SYN

    // one data segment at t=0, all acknowledgements lost
    let data = vec![9u8; 100];
    tcp.send(id, &data, 0, 0, &mut out).expect("send");
    let sent = out.segments.len();
    tcp.timer_tick(2999, &mut out);
    assert_eq!(out.segments.len(), sent); // not yet expired
    assert_eq!(tcp.sockets[0].retransmission_queue[0].transmission_count, 1);
    tcp.timer_tick(3000, &mut out); // expired: resent
    assert_eq!(out.segments.len(), sent + 1);
    let resent = &out.segments[sent];
    assert_eq!(resent.segment.seq, iss + 1);
    assert_eq!(resent.segment.payload, vec![9u8; 100]);
    assert_eq!(tcp.sockets[0].retransmission_queue[0].transmission_count, 2);

    // the lost data is finally acknowledged; then the peer sends FIN
    let ack = seg(80, id.2, 501, iss + 1 + 100, ACK, 4380, Vec::new());
    tcp.handle_segment(local, remote, &ack, 3000, &mut out);
    let fin = seg(80, id.2, 501, iss + 1 + 100, FIN | ACK, 4380, Vec::new());
    tcp.handle_segment(local, remote, &fin, 3000, &mut out);
    assert_eq!(tcp.sockets[0].status, TcpStatus::CloseWait);

    // close queues our FIN; five transmissions and the engine gives up
    let outcome = tcp.close(id, 4000, &mut out).expect("close");
    assert_eq!(outcome, CloseOutcome::AwaitConnectionClosed);
    assert_eq!(tcp.sockets[0].status, TcpStatus::LastAck);
    for round in 0..4u64 {
        tcp.timer_tick(7000 + round * 3000, &mut out);
    }
    assert_eq!(tcp.sockets[0].retransmission_queue[0].transmission_count, 5);
    let closed_before = count_events(&out, TCPEventKind::ConnectionClosed);
    tcp.timer_tick(30000, &mut out); // exhausted: give up, presume the peer gone
    assert!(tcp.sockets[0].retransmission_queue.is_empty());
    assert_eq!(count_events(&out, TCPEventKind::ConnectionClosed), closed_before + 1);
}

#[test]
fn active_close_walks_fin_wait_states() {
    let mut tcp = TCP::new();
    let mut out = Effects::new();
    let local = ip(10, 0, 0, 1);
    let remote = ip(1, 2, 3, 4);
    let (id, iss) = establish_client(&mut tcp, &mut out);

    let outcome = tcp.close(id, 0, &mut out).expect("close");
    assert_eq!(outcome, CloseOutcome::AwaitConnectionClosed);
    assert_eq!(tcp.sockets[0].status, TcpStatus::FinWait1);
    let fin_out = &out.segments[out.segments.len() - 1];
    assert_eq!(fin_out.segment.flag, FIN | ACK);
    assert_eq!(fin_out.segment.seq, iss + 1);
    assert_eq!(tcp.sockets[0].send_param.next, iss + 2);

    // the peer acknowledges our FIN
    let ack = seg(80, id.2, 501, iss + 2, ACK, 4380, Vec::new());
    tcp.handle_segment(local, remote, &ack, 0, &mut out);
    assert_eq!(tcp.sockets[0].status, TcpStatus::FinWait2);

    // the peer's own FIN: acknowledged, connection closed, socket removed
    let fin = seg(80, id.2, 501, iss + 2, FIN | ACK, 4380, Vec::new());
    tcp.handle_segment(local, remote, &fin, 0, &mut out);
    let reply = &out.segments[out.segments.len() - 1];
    assert_eq!(reply.segment.flag, ACK);
    assert_eq!(reply.segment.ack, 502);
    assert_eq!(count_events(&out, TCPEventKind::ConnectionClosed), 1);
    assert!(tcp.remove_socket(id));
    assert!(tcp.lookup(id).is_none());
}

#[test]
fn close_on_listener_removes_it_at_once() {
    let mut tcp = TCP::new();
    let mut out = Effects::new();
    let lid = tcp.listen(ip(127, 0, 0, 1), 9000);
    let outcome = tcp.close(lid, 0, &mut out).expect("close");
    assert_eq!(outcome, CloseOutcome::RemovedNow);
    assert!(tcp.lookup(lid).is_none());
}

#[test]
fn pure_ack_is_never_queued_for_retransmission() {
    let mut tcp = TCP::new();
    let mut out = Effects::new();
    let local = ip(127, 0, 0, 1);
    let peer = ip(127, 0, 0, 2);
    let nid = establish_server_at_100(&mut tcp, &mut out);
    let ni = tcp.lookup(nid).expect("socket");

    // payload processing answers with a bare ACK; it must not be queued
    let queued_before = tcp.sockets[ni].retransmission_queue.len();
    let data = seg(55000, 9000, 100, 3001, ACK, 4380, vec![5u8; 10]);
    tcp.handle_segment(local, peer, &data, 0, &mut out);
    let reply = &out.segments[out.segments.len() - 1];
    assert_eq!(reply.segment.flag, ACK);
    assert!(reply.segment.payload.is_empty());
    assert_eq!(tcp.sockets[ni].retransmission_queue.len(), queued_before);
    for s in tcp.sockets.iter() {
        for e in s.retransmission_queue.iter() {
            assert!(!e.packet.payload.is_empty() || e.packet.flag != ACK);
        }
    }
}

#[test]
fn unroutable_segments_are_dropped_silently() {
    let mut tcp = TCP::new();
    let mut out = Effects::new();
    let stray = seg(1, 2, 3, 4, ACK, 100, vec![1, 2, 3]);
    tcp.handle_segment(ip(9, 9, 9, 9), ip(8, 8, 8, 8), &stray, 0, &mut out);
    assert!(out.segments.is_empty());
    assert!(out.events.is_empty());
    assert!(tcp.sockets.is_empty());
}

#[test]
fn synsent_falls_back_to_synrcvd_when_syn_not_acknowledged() {
    let mut tcp = TCP::new();
    let mut out = Effects::new();
    let local = ip(10, 0, 0, 1);
    let remote = ip(1, 2, 3, 4);
    let id = tcp.connect(local, remote, 80, 0, &mut out).expect("connect");
    let iss = out.segments[0].segment.seq;
    // a SYN whose ack equals our ISS acknowledges nothing of ours
    let synack = seg(80, id.2, 700, iss, SYN | ACK, 4380, Vec::new());
    tcp.handle_segment(local, remote, &synack, 0, &mut out);
    assert_eq!(tcp.sockets[0].status, TcpStatus::SynRcvd);
    assert_eq!(count_events(&out, TCPEventKind::ConnectionCompleted), 0);
    // the acknowledgement still goes out
    let reply = &out.segments[out.segments.len() - 1];
    assert_eq!(reply.segment.flag, ACK);
    assert_eq!(reply.segment.ack, 701);
}

#[test]
fn established_drops_acks_of_unsent_data() {
    let mut tcp = TCP::new();
    let mut out = Effects::new();
    let local = ip(10, 0, 0, 1);
    let remote = ip(1, 2, 3, 4);
    let (id, iss) = establish_client(&mut tcp, &mut out);
    let before_segments = out.segments.len();
    let una = tcp.sockets[0].send_param.unacked_seq;
    // acknowledges past SND.NXT: discarded entirely
    let bogus = seg(80, id.2, 501, iss + 1000, ACK, 4380, Vec::new());
    tcp.handle_segment(local, remote, &bogus, 0, &mut out);
    assert_eq!(tcp.sockets[0].send_param.unacked_seq, una);
    assert_eq!(out.segments.len(), before_segments);
}

#[test]
fn recv_returns_zero_once_the_peer_closed() {
    let mut tcp = TCP::new();
    let mut out = Effects::new();
    let local = ip(10, 0, 0, 1);
    let remote = ip(1, 2, 3, 4);
    let (id, iss) = establish_client(&mut tcp, &mut out);
    let fin = seg(80, id.2, 501, iss + 1, FIN | ACK, 4380, Vec::new());
    tcp.handle_segment(local, remote, &fin, 0, &mut out);
    assert_eq!(tcp.sockets[0].status, TcpStatus::CloseWait);
    assert_eq!(count_events(&out, TCPEventKind::DataArrived), 1);
    let mut buf = vec![0u8; 32];
    assert_eq!(tcp.recv(id, &mut buf), Ok(Some(0)));
}

#[test]
fn status_names_match_the_diagrams() {
    assert_eq!(TcpStatus::Established.as_str(), "ESTABLISHED");
    assert_eq!(TcpStatus::Listen.as_str(), "LISTEN");
    assert_eq!(TcpStatus::FinWait2.as_str(), "FINWAIT2");
}

#[test]
fn receive_packet_validates_checksum_and_routes() {
    let mut tcp = TCP::new();
    let mut out = Effects::new();
    let local = ip(127, 0, 0, 1);
    let peer = ip(127, 0, 0, 2);
    let nid = establish_server_at_100(&mut tcp, &mut out);
    let ni = tcp.lookup(nid).expect("socket");

    // the peer encodes a data segment; its pseudo-header names it first
    let data = seg(55000, 9000, 100, 3001, ACK, 4380, vec![3u8; 8]);
    let bytes = toytcp::codec::encode_segment(&data, peer, local);
    tcp.receive_packet(local, peer, &bytes, 0, &mut out);
    assert_eq!(tcp.sockets[ni].recv_param.next, 108);

    // a corrupted copy is silently dropped
    let more = seg(55000, 9000, 108, 3001, ACK, 4380, vec![4u8; 8]);
    let mut corrupt = toytcp::codec::encode_segment(&more, peer, local);
    corrupt[21] ^= 0xff;
    tcp.receive_packet(local, peer, &corrupt, 0, &mut out);
    assert_eq!(tcp.sockets[ni].recv_param.next, 108);

    // garbage too short to be a header is silently dropped
    tcp.receive_packet(local, peer, &vec![0u8; 5], 0, &mut out);
    assert_eq!(tcp.sockets[ni].recv_param.next, 108);
}

#[test]
fn duplicate_data_below_recv_next_is_ignored() {
    let mut tcp = TCP::new();
    let mut out = Effects::new();
    let local = ip(127, 0, 0, 1);
    let peer = ip(127, 0, 0, 2);
    let nid = establish_server_at_100(&mut tcp, &mut out);
    let ni = tcp.lookup(nid).expect("socket");
    let data = seg(55000, 9000, 100, 3001, ACK, 4380, vec![1u8; 10]);
    tcp.handle_segment(local, peer, &data, 0, &mut out);
    assert_eq!(tcp.sockets[ni].recv_param.next, 110);
    let window = tcp.sockets[ni].recv_param.window;
    // a retransmit of already-delivered data changes nothing
    let dup = seg(55000, 9000, 100, 3001, ACK, 4380, vec![1u8; 10]);
    tcp.handle_segment(local, peer, &dup, 0, &mut out);
    assert_eq!(tcp.sockets[ni].recv_param.next, 110);
    assert_eq!(tcp.sockets[ni].recv_param.window, window);
}

#[test]
fn data_round_trip_between_two_stacks() {
    let mut client = TCP::new();
    let mut server = TCP::new();
    let mut cout = Effects::new();
    let mut sout = Effects::new();
    let caddr = ip(127, 0, 0, 2);
    let saddr = ip(127, 0, 0, 1);
    server.listen(saddr, 9000);

    // handshake, carrying each side's segments across
    let cid = client.connect(caddr, saddr, 9000, 0, &mut cout).expect("connect");
    let syn = client.sockets[0].retransmission_queue[0].packet.duplicate();
    server.handle_segment(saddr, caddr, &syn, 0, &mut sout);
    let synack = sout.segments[sout.segments.len() - 1].segment.duplicate();
    client.handle_segment(caddr, saddr, &synack, 0, &mut cout);
    assert_eq!(client.sockets[0].status, TcpStatus::Established);
    let hs_ack = cout.segments[cout.segments.len() - 1].segment.duplicate();
    server.handle_segment(saddr, caddr, &hs_ack, 0, &mut sout);
    let sid = server.accept(SockID(saddr, 0, 9000, 0)).expect("accept");
    let si = server.lookup(sid).expect("server socket");
    assert_eq!(server.sockets[si].status, TcpStatus::Established);

    // the peers' sequence numbers are matched after the handshake
    assert_eq!(
        client.sockets[0].send_param.next,
        server.sockets[si].recv_param.next
    );
    assert_eq!(
        server.sockets[si].send_param.next,
        client.sockets[0].recv_param.next
    );

    client.timer_tick(0, &mut cout); // drain the acknowledged SYN

    // push 3000 patterned bytes through: 1460 + 1460 + 80
    let data: Vec<u8> = (0..3000u32).map(|i| (i % 251) as u8).collect();
    let mut cursor = 0usize;
    while cursor < data.len() {
        let sent_before = cout.segments.len();
        let advanced = client.send(cid, &data, cursor, 0, &mut cout).expect("send");
        assert!(advanced > cursor, "window exhausted unexpectedly");
        cursor = advanced;
        for k in sent_before..cout.segments.len() {
            let segment = cout.segments[k].segment.duplicate();
            server.handle_segment(saddr, caddr, &segment, 0, &mut sout);
        }
    }

    // everything arrives in order and intact
    let mut buf = vec![0u8; 4380];
    let got = server.recv(sid, &mut buf).expect("recv");
    assert_eq!(got, Some(3000));
    assert_eq!(&buf[..3000], &data[..]);

    // the server's acknowledgements restore the client's send window
    for k in 0..sout.segments.len() {
        let segment = sout.segments[k].segment.duplicate();
        if segment.dest_port == cid.2 {
            client.handle_segment(caddr, saddr, &segment, 0, &mut cout);
        }
    }
    assert_eq!(client.sockets[0].send_param.window, 4380);
    assert!(client.sockets[0].retransmission_queue.is_empty());
}

use easytier::net::{IpAddr, Ipv4Addr, Ipv6Addr, MacAddr, SocketAddr};
use easytier::socket::fake_tcp::connect::{
    listener_filter, stack_addresses, AcceptAction, AcceptEvent, Accepting, ConnectAction, ConnectEvent,
    ConnectFailure, Connecting, Probe, ProbeAction, Takeover,
};
use easytier::socket::fake_tcp::endpoint::{
    accept_is_retryable, bound_as_requested, faketcp_transport_label, plan_stack, to_canonical,
    AcceptError, FakeTcpSocket, ReadStep, StackPlan,
};
use easytier::socket::fake_tcp::freeze::{Freeze, FreezeAction, FreezeEvent};
use easytier::socket::fake_tcp::ifnames::{Interface, IpToIfNameCache};
use easytier::socket::fake_tcp::packet::{
    build_tcp_packet, parse_ip_packet, TCP_ACK, TCP_RST, TCP_SYN,
};
use easytier::socket::fake_tcp::stack::{
    Dispatch, KernelTcpState, PurgeEvent, ReaderCache, Received, Socket, Stack, State,
    MAX_RST_ALLOWED, RECV_WINDOW_JITTER, RECV_WINDOW_MAX, RST_WINDOW_SECS,
};
use easytier::socket::fake_tcp::tuples::AddrTuple;
use easytier::tunnel::fake_tcp::stack as tunnel_stack;
use easytier::tunnel::fake_tcp::stream::{
    get_faketcp_tunnel_type_str, FakeTcpSink, FakeTcpStream, StreamStep,
};

fn v4(a: u8, b: u8, c: u8, d: u8, port: u16) -> SocketAddr {
    let bits = u32::from_be_bytes([a, b, c, d]);
    SocketAddr { ip: IpAddr::V4(Ipv4Addr { bits }), port }
}

/// An address in 2001:db8::/32.
fn v6(low: u64, port: u16) -> SocketAddr {
    SocketAddr { ip: IpAddr::V6(Ipv6Addr { high: 0x2001_0db8_0000_0000, low }), port }
}

fn local() -> SocketAddr {
    v4(10, 0, 0, 1, 10000)
}

fn remote() -> SocketAddr {
    v4(10, 0, 0, 2, 20000)
}

/// An established socket whose kernel is not silenced.
fn mock_socket() -> Socket {
    let mut stack = Stack::new(None);
    let (socket, _) = stack
        .try_alloc_established_socket(local(), remote(), State::Established, None, false)
        .expect("fresh stack should allocate");
    socket
}

/// An established socket that took the kernel's numbers over.
fn mock_socket_repair(seq: u32, ack: u32) -> Socket {
    let mut stack = Stack::new(None);
    let (socket, _) = stack
        .try_alloc_established_socket(
            local(),
            remote(),
            State::Established,
            Some(KernelTcpState { seq, ack, ts_offset: 0 }),
            false,
        )
        .expect("fresh stack should allocate");
    assert!(socket.repair_active);
    socket
}

/// An inbound frame addressed to our local socket, as the peer would send it.
fn inbound(seq: u32, ack: u32, flags: u8, payload: Option<&[u8]>) -> Vec<u8> {
    build_tcp_packet(
        MacAddr::zero(),
        MacAddr::zero(),
        remote(),
        local(),
        seq,
        ack,
        flags,
        payload,
        None,
        0,
        0xffff,
        0,
    )
}

/// A bare acknowledgement from one address to another.
fn frame_between(from: SocketAddr, to: SocketAddr) -> Vec<u8> {
    let zero = MacAddr::zero();
    build_tcp_packet(zero, zero, from, to, 1, 2, TCP_ACK, None, None, 0, 0xffff, 0)
}

fn payload_of(r: Received) -> Vec<u8> {
    match r {
        Received::Payload(p) => p,
        other => panic!("{:?}", other),
    }
}

#[test]
fn recv_payload_returns_exact_bytes() {
    let mut socket = mock_socket();
    let r = socket.on_packet(&inbound(1000, 5000, TCP_ACK, Some(b"hello world")), 0);
    assert_eq!(&payload_of(r)[..], b"hello world");
    let r = socket.on_packet(&inbound(1011, 5000, TCP_ACK, Some(b"more")), 0);
    assert_eq!(&payload_of(r)[..], b"more");
}

#[test]
fn recv_payload_zero_copies_ipv6_frames() {
    let mut stack = Stack::new(None);
    let (mut socket, _) = stack
        .try_alloc_established_socket(v6(1, 10000), v6(2, 20000), State::Established, None, false)
        .expect("allocate");
    let frame = build_tcp_packet(
        MacAddr::zero(),
        MacAddr::zero(),
        v6(2, 20000),
        v6(1, 10000),
        1000,
        5000,
        TCP_ACK,
        Some(b"v6 payload"),
        None,
        0,
        0xffff,
        0,
    );
    assert_eq!(&payload_of(socket.on_packet(&frame, 0))[..], b"v6 payload");
}

#[test]
fn recv_payload_skips_empty_segments() {
    let mut socket = mock_socket();
    let r = socket.on_packet(&inbound(1000, 5000, TCP_ACK, None), 0);
    assert_eq!(r, Received::Nothing);
    let r = socket.on_packet(&inbound(1000, 5000, TCP_ACK, Some(b"data")), 0);
    assert_eq!(&payload_of(r)[..], b"data");
}

#[test]
fn fail_soft_pins_the_acknowledgement_field() {
    let mut socket = mock_socket();
    assert!(!socket.repair_active);

    // First inbound segment calibrates us: SEQ from its ack field, and the
    // pinned acknowledgement from its sequence number.
    payload_of(socket.on_packet(&inbound(1000, 5000, TCP_ACK, Some(b"aaaa")), 0));
    assert_eq!(socket.seq, 5000);
    assert_eq!(socket.peer_isn_ack, 1000);

    // Feed a lot more payload; the pinned value must not budge.
    for i in 0..8u32 {
        payload_of(socket.on_packet(&inbound(1004 + i * 4, 5000, TCP_ACK, Some(b"bbbb")), 0));
    }
    assert_eq!(socket.peer_isn_ack, 1000);

    let frame = socket.build_packet(b"reply", 0, 0).expect("established");
    let (_, _, _, tcp_pkt) = parse_ip_packet(&frame).unwrap();
    assert_eq!(tcp_pkt.acknowledgement, 1000);
    assert_eq!(tcp_pkt.sequence, 5000);
}

#[test]
fn repair_path_advances_the_acknowledgement_field() {
    // seq (our SND.NXT) = 5000, ack (peer's ISN+1, our RCV.NXT) = 1000.
    let mut socket = mock_socket_repair(5000, 1000);
    payload_of(socket.on_packet(&inbound(1000, 5000, TCP_ACK, Some(b"aaaa")), 0));

    // A segment we build now must acknowledge the 4 bytes we took.
    let frame = socket.build_packet(b"reply", 0, 0).expect("established");
    let (_, _, _, tcp_pkt) = parse_ip_packet(&frame).unwrap();
    assert_eq!(tcp_pkt.acknowledgement, 1004);
    assert_eq!(tcp_pkt.sequence, 5000);

    // Feed more; the ACK keeps climbing.
    payload_of(socket.on_packet(&inbound(1004, 5000, TCP_ACK, Some(b"bbbbbb")), 0));
    let frame = socket.build_packet(b"reply", 0, 0).expect("established");
    let (_, _, _, tcp_pkt) = parse_ip_packet(&frame).unwrap();
    assert_eq!(tcp_pkt.acknowledgement, 1010);
}

#[test]
fn repair_path_ack_never_goes_backwards() {
    let mut socket = mock_socket_repair(5000, 1000);
    payload_of(socket.on_packet(&inbound(1000, 5000, TCP_ACK, Some(b"aaaaaa")), 0));
    assert_eq!(socket.ack, 1006);
    payload_of(socket.on_packet(&inbound(990, 5000, TCP_ACK, Some(b"zz")), 0));
    assert_eq!(socket.ack, 1006);
}

#[test]
fn connector_pins_acknowledgement_from_syn_ack() {
    let mut stack = Stack::new(None);
    let (mut socket, _) = stack
        .try_alloc_established_socket(local(), remote(), State::SynSent, None, false)
        .expect("fresh stack should allocate");
    let r = socket.on_packet(&inbound(7000, 9000, TCP_SYN | TCP_ACK, None), 0);
    assert_eq!(r, Received::Connected);
    assert_eq!(socket.seq, 9000);
    assert_eq!(socket.peer_isn_ack, 7001);

    let frame = socket.build_packet(b"first", 0, 0).expect("established");
    let (_, _, _, tcp_pkt) = parse_ip_packet(&frame).unwrap();
    assert_eq!(tcp_pkt.acknowledgement, 7001);
    assert_eq!(tcp_pkt.sequence, 9000);
}

#[test]
fn bare_ack_is_driven_by_received_payload() {
    let mut socket = mock_socket();
    payload_of(socket.on_packet(&inbound(1000, 5000, TCP_ACK, Some(b"data")), 0));

    let (owed, frame) = socket.send_ack(0, 0).expect("unacked payload should force an ACK");
    socket.end_ack(owed, true, 0);
    let (_, _, _, tcp_pkt) = parse_ip_packet(&frame).unwrap();
    assert_eq!(tcp_pkt.flags, TCP_ACK);
    assert_eq!(tcp_pkt.acknowledgement, 1000);

    // Nothing new arrived, so a second call is a no-op rather than a flood.
    assert!(socket.send_ack(0, 0).is_none());
}

#[test]
fn queued_but_unsent_data_does_not_retire_the_ack_debt() {
    let mut socket = mock_socket();
    payload_of(socket.on_packet(&inbound(1000, 5000, TCP_ACK, Some(b"aaaa")), 0));

    // Build without flushing: the frame exists but nothing has been sent.
    let _frame = socket.build_packet(b"queued", 0, 0).expect("established");
    let (owed, _) = socket
        .send_ack(0, 0)
        .expect("an unflushed frame must not suppress the bare ACK");
    socket.end_ack(owed, true, 0);

    // Once a frame does go out, the debt is settled and no ACK is owed.
    payload_of(socket.on_packet(&inbound(1004, 5000, TCP_ACK, Some(b"bbbb")), 0));
    let owed = socket.claim_debt();
    socket.settle_debt(owed, 1);
    assert!(
        socket.send_ack(0, 0).is_none(),
        "a flushed data segment already acknowledged the inbound data"
    );
}

#[test]
fn concurrent_retirement_does_not_underflow_the_ack_debt() {
    let mut socket = mock_socket();
    payload_of(socket.on_packet(&inbound(1000, 5000, TCP_ACK, Some(b"aaaa")), 0));
    assert_eq!(socket.recv_since_ack, 4);
    let _frame = socket.build_packet(b"reply", 0, 0).expect("established");
    let owed = socket.claim_debt();
    assert!(socket.send_ack(0, 0).is_none());
    socket.settle_debt(owed, 1);
    assert_eq!(socket.recv_since_ack, 0, "double retirement underflowed the counter");
}

#[test]
fn failed_ack_send_returns_the_debt() {
    let mut socket = mock_socket();
    payload_of(socket.on_packet(&inbound(1000, 5000, TCP_ACK, Some(b"data")), 0));
    assert_eq!(socket.recv_since_ack, 4);

    // The wire is dead, so the ACK never goes out and the debt must survive.
    let (owed, _) = socket.send_ack(0, 0).unwrap();
    socket.end_ack(owed, false, 0);
    assert_eq!(socket.recv_since_ack, 4, "a failed send must hand the ACK debt back");
}

#[test]
fn stray_rsts_outside_the_window_do_not_accumulate() {
    let mut socket = mock_socket();

    // Fill the window right up to the threshold.
    for _ in 0..MAX_RST_ALLOWED {
        assert_eq!(socket.on_packet(&inbound(1000, 0, TCP_RST, None), 0), Received::Nothing);
    }
    payload_of(socket.on_packet(&inbound(1000, 5000, TCP_ACK, Some(b"live")), 0));
    assert_eq!(socket.rst_received, MAX_RST_ALLOWED);

    // Pretend the burst happened long ago. The next RST opens a fresh window
    // instead of tipping the connection over.
    socket.last_rst_time_secs = 0u32.wrapping_sub(RST_WINDOW_SECS + 1);
    assert_eq!(
        socket.on_packet(&inbound(1004, 0, TCP_RST, None), 0),
        Received::Nothing,
        "a RST outside the window must not close the connection"
    );
    payload_of(socket.on_packet(&inbound(1004, 5000, TCP_ACK, Some(b"more")), 0));
    assert_eq!(socket.rst_received, 1);
}

#[test]
fn absorbs_a_few_rsts_before_giving_up() {
    let mut socket = mock_socket();
    for _ in 0..MAX_RST_ALLOWED {
        assert_eq!(socket.on_packet(&inbound(1000, 0, TCP_RST, None), 0), Received::Nothing);
    }
    let r = socket.on_packet(&inbound(1000, 0, TCP_ACK, Some(b"live")), 0);
    assert_eq!(&payload_of(r)[..], b"live");

    // One past the threshold ends it.
    assert_eq!(socket.on_packet(&inbound(1004, 0, TCP_RST, None), 0), Received::Closed);
}

#[test]
fn advertised_window_is_jittered_and_zero_on_rst() {
    let mut socket = mock_socket();
    payload_of(socket.on_packet(&inbound(1000, 5000, TCP_ACK, Some(b"x")), 0));

    let mut windows = std::collections::HashSet::new();
    for _ in 0..64 {
        let frame = socket.build_packet(b"payload", 0, 0).expect("established");
        let (_, _, _, tcp_pkt) = parse_ip_packet(&frame).unwrap();
        let window = tcp_pkt.window;
        assert!(
            (RECV_WINDOW_MAX - RECV_WINDOW_JITTER..=RECV_WINDOW_MAX).contains(&window),
            "window {window} outside advertised band"
        );
        windows.insert(window);
    }
    assert!(windows.len() > 1, "window should vary across segments, saw only {windows:?}");

    // A bare RST advertises no window, the way a real stack does.
    let rst = socket.close(0).expect("close() should emit a RST");
    let (_, _, _, tcp_pkt) = parse_ip_packet(&rst).unwrap();
    assert_eq!(tcp_pkt.flags, TCP_RST);
    assert_eq!(tcp_pkt.window, 0);
}

#[test]
fn reader_task_closes_sockets_on_tun_recv_error() {
    let mut stack = Stack::new(None);
    let mut cache = ReaderCache::new();
    let (a, b) = (v4(127, 0, 0, 1, 10_000), v4(192, 0, 2, 1, 20_000));
    let (_, channel) = stack
        .try_alloc_established_socket(a, b, State::Established, None, false)
        .expect("socket allocation should succeed before tun failure");
    let frame = frame_between(b, a);
    assert_eq!(stack.dispatch(&mut cache, &frame), Dispatch::Channel(channel));
    stack.on_read_error(&mut cache);
    assert!(stack.is_closed(false));
    // nobody can send into the open socket's channel any more: its receive ends
    assert_eq!(stack.dispatch(&mut cache, &frame), Dispatch::Unknown { rst: false });
    assert_eq!(
        stack.dispatch(&mut ReaderCache::new(), &frame),
        Dispatch::Unknown { rst: false }
    );
    assert!(!stack.remove(AddrTuple::new(a, b)));
    let new_socket = stack.try_alloc_established_socket(
        v4(127, 0, 0, 1, 10_001),
        v4(192, 0, 2, 1, 20_001),
        State::Established,
        None,
        false,
    );
    assert!(new_socket.is_none());
}

#[test]
fn stack_reader_task_closes_sockets_on_tun_recv_error() {
    let mut stack = tunnel_stack::Stack::new(None);
    let mut cache = ReaderCache::new();
    let (a, b) = (v4(127, 0, 0, 1, 10_000), v4(192, 0, 2, 1, 20_000));
    let (_, channel) = stack
        .try_alloc_established_socket(a, b, 0, 0, tunnel_stack::State::Established, false)
        .expect("socket allocation should succeed before tun failure");
    let frame = frame_between(b, a);
    assert_eq!(stack.dispatch(&mut cache, &frame).unwrap().1, Ok(channel));
    stack.on_read_error(&mut cache);
    assert!(stack.is_closed(false));
    // nobody can send into the open socket's channel any more: its receive ends
    let lost = Err(tunnel_stack::Unmatched::Other);
    assert_eq!(stack.dispatch(&mut cache, &frame).unwrap().1, lost);
    assert_eq!(stack.dispatch(&mut ReaderCache::new(), &frame).unwrap().1, lost);
    assert!(!stack.remove(AddrTuple::new(a, b)));
    let new_socket = stack.try_alloc_established_socket(
        v4(127, 0, 0, 1, 10_001),
        v4(192, 0, 2, 1, 20_001),
        0,
        0,
        tunnel_stack::State::Established,
        false,
    );
    assert!(new_socket.is_none());
}

#[test]
fn packets_find_their_socket() {
    let mut stack = Stack::new(Some(MacAddr(1, 2, 3, 4, 5, 6)));
    let mut cache = ReaderCache::new();
    let (socket, channel) = stack
        .try_alloc_established_socket(local(), remote(), State::Established, None, false)
        .unwrap();
    assert_eq!(socket.local_mac, MacAddr(1, 2, 3, 4, 5, 6));
    let frame = inbound(1, 2, TCP_ACK, None);
    assert_eq!(stack.dispatch(&mut cache, &frame), Dispatch::Channel(channel));
    let tuple = AddrTuple::new(local(), remote());
    assert!(stack.remove(tuple));
    assert!(stack.on_purge(&mut cache, PurgeEvent::Dropped(tuple)));
    assert_eq!(stack.dispatch(&mut cache, &frame), Dispatch::Unknown { rst: false });
    assert_eq!(stack.dispatch(&mut cache, &[0; 5]), Dispatch::Malformed);
    assert!(!stack.on_purge(&mut cache, PurgeEvent::Closed));
    assert!(stack.is_closed(false));
}

#[test]
fn tunnel_socket_answers_much_data_at_once() {
    let mut stack = tunnel_stack::Stack::new(None);
    let mut cache = ReaderCache::new();
    stack.listen(10000);
    let (mut socket, channel) = stack
        .try_alloc_established_socket(
            local(),
            remote(),
            100,
            1000,
            tunnel_stack::State::Established,
            false,
        )
        .unwrap();
    let frame = inbound(1000, 100, TCP_ACK, Some(b"abcd"));
    let (meta, found) = stack.dispatch(&mut cache, &frame).unwrap();
    assert_eq!(found, Ok(channel));
    assert_eq!(&frame[meta.payload_offset..meta.payload_offset + meta.payload_len], b"abcd");
    let (received, ack) = socket.on_packet(&meta, 5);
    assert_eq!(
        received,
        tunnel_stack::Received::Payload { offset: meta.payload_offset, len: 4 }
    );
    assert!(ack.is_none());
    assert_eq!(socket.ack, 1004);
    let bare = socket.send_ack(6).unwrap();
    assert_eq!(parse_ip_packet(&bare).unwrap().3.acknowledgement, 1004);
    assert!(socket.send_ack(7).is_none());

    let mut far = meta;
    far.seq = 1004 + 65536;
    let (_, ack) = socket.on_packet(&far, 8);
    assert_eq!(parse_ip_packet(&ack.unwrap()).unwrap().3.acknowledgement, 1004 + 65536 + 4);

    let mut rst = meta;
    rst.flags = TCP_RST;
    assert_eq!(socket.on_packet(&rst, 9).0, tunnel_stack::Received::Closed);

    let stranger = build_tcp_packet(
        MacAddr::zero(),
        MacAddr::zero(),
        v4(10, 0, 0, 9, 1),
        local(),
        0,
        0,
        TCP_SYN,
        None,
        None,
        0,
        0,
        0,
    );
    let (_, found) = stack.dispatch(&mut cache, &stranger).unwrap();
    assert_eq!(found, Err(tunnel_stack::Unmatched::ListenedSyn));
}

#[test]
fn tunnel_socket_drops_data_while_nothing_is_acknowledged() {
    let mut socket = tunnel_stack::Socket::new(
        local(),
        remote(),
        MacAddr::zero(),
        None,
        0,
        0,
        tunnel_stack::State::Established,
    );
    assert!(socket.takes(65483) && !socket.takes(65484));
    socket.seq = 0x800_0000;
    assert!(socket.build_packet(b"x", 0).is_some());
    assert_eq!(socket.seq, 0x800_0001);
    assert!(socket.takes(65484));
    assert!(socket.build_packet(b"x", 0).is_none());
    assert!(socket.try_send(b"x", 0).is_none());
    let last = socket.close(0).unwrap();
    assert_eq!(parse_ip_packet(&last).unwrap().3.flags, TCP_RST);
    assert!(socket.close(0).is_none());
    let farewell = parse_ip_packet(&socket.farewell()).unwrap().3;
    assert_eq!((farewell.acknowledgement, farewell.options.len()), (0, 0));
}

#[test]
fn packets_sent_together_come_apart() {
    let socket = tunnel_stack::Socket::new(
        local(),
        remote(),
        MacAddr::zero(),
        None,
        0,
        0,
        tunnel_stack::State::Established,
    );
    let mut sink = FakeTcpSink::new(socket);
    let one: Vec<u8> = (0..30).collect();
    let two: Vec<u8> = (50..90).collect();
    sink.start_send(one.clone(), 0);
    sink.start_send(two.clone(), 0);
    assert!(!sink.poll_ready());
    let frames = sink.do_flush();
    assert_eq!(frames.len(), 2);
    let mut together = parse_ip_packet(&frames[0]).unwrap().3.payload;
    together.extend(parse_ip_packet(&frames[1]).unwrap().3.payload);
    together.extend([1, 2]);

    let mut stream = FakeTcpStream::new();
    assert_eq!(stream.poll_next(), StreamStep::Receive);
    stream.on_receive(Some(together));
    match (stream.poll_next(), stream.poll_next()) {
        (StreamStep::Packet(a), StreamStep::Packet(b)) => {
            assert_eq!(&a[..4], &[30, 0, 0, 0]);
            assert_eq!(&a[4..], &one[4..]);
            assert_eq!(&b[4..], &two[4..]);
        }
        other => panic!("{:?}", other),
    }
    assert_eq!(stream.poll_next(), StreamStep::Receive);
    stream.on_receive(Some(vec![19, 0, 0, 0, 0]));
    assert_eq!(stream.poll_next(), StreamStep::End);
    assert_eq!(stream.poll_next(), StreamStep::End);
    assert_eq!(get_faketcp_tunnel_type_str("any"), "faketcp");
    let before = sink.socket;
    let (_, rst) = sink.poll_close(0);
    assert!(rst.is_some());
    assert_eq!(sink.socket.state, tunnel_stack::State::Idle);
    assert_eq!((sink.socket.seq, sink.socket.ack), (before.seq, before.ack));
    let (_, rst) = sink.poll_close(0);
    assert!(rst.is_none());
}

#[test]
fn segments_are_numbered_one_after_the_other() {
    let mut socket = FakeTcpSocket::new(mock_socket_repair(5000, 1000));
    for _ in 0..3 {
        socket.begin_write(1000, 0, 0);
        socket.end_write(&[7u8; 1000]);
    }
    assert_eq!(socket.pending().len(), 2);
    let number = |frame: &Vec<u8>| parse_ip_packet(frame).unwrap().3.sequence;
    assert_eq!(number(&socket.pending()[0]), 5000);
    assert_eq!(number(&socket.pending()[1]), 6000);
    assert_eq!(socket.socket().seq, 7000);
    assert!(socket.can_seal());
    socket.end_write(&[7u8; 64_483]);
    assert!(socket.can_seal());
    socket.end_write(&[7u8; 1]);
    assert!(!socket.can_seal());
}

#[test]
fn unready_socket_collects_what_is_written() {
    let mut socket = FakeTcpSocket::new(mock_socket());
    for _ in 0..80 {
        assert!(socket.can_seal());
        assert!(!socket.begin_write(1000, 0, 0));
        assert_eq!(socket.end_write(&[7u8; 1000]), 1000);
    }
    assert!(socket.pending().is_empty());
}

#[test]
fn small_writes_share_a_segment() {
    let mut socket = FakeTcpSocket::new(mock_socket_repair(5000, 1000));
    assert!(!socket.begin_write(3, 0, 0));
    assert_eq!(socket.end_write(b"abc"), 3);
    assert!(!socket.begin_write(3, 0, 0));
    socket.end_write(b"def");
    assert!(socket.pending().is_empty());
    socket.seal_current_frame(0, 0);
    assert_eq!(socket.pending().len(), 1);
    assert_eq!(parse_ip_packet(&socket.pending()[0]).unwrap().3.payload, b"abcdef");
    socket.on_sent(1);
    assert!(socket.pending().is_empty());

    assert_eq!(socket.begin_read(2), ReadStep::Receive);
    socket.on_receive(Some(b"xyz".to_vec()));
    assert_eq!(socket.begin_read(2), ReadStep::Deliver(b"xy".to_vec()));
    assert_eq!(socket.begin_read(2), ReadStep::Deliver(b"z".to_vec()));
    assert_eq!(socket.begin_read(2), ReadStep::Receive);
    socket.on_receive(None);
    assert_eq!(socket.begin_read(2), ReadStep::Deliver(vec![]));
}

#[test]
fn frozen_socket_yields_its_numbers() {
    let mut f = Freeze::new();
    f.step(FreezeEvent::Succeeded, 0);
    f.step(FreezeEvent::Succeeded, 0);
    f.step(FreezeEvent::Read(11), 0);
    f.step(FreezeEvent::Succeeded, 0);
    f.step(FreezeEvent::Read(22), 0);
    f.step(FreezeEvent::Read(100), 130);
    assert_eq!(
        f.next,
        FreezeAction::Done(KernelTcpState { seq: 11, ack: 22, ts_offset: 0u32.wrapping_sub(30) })
    );
    let mut f = Freeze::new();
    f.step(FreezeEvent::Succeeded, 0);
    f.step(FreezeEvent::Error, 0);
    assert_eq!(f.next, FreezeAction::DisableRepair);
    let mut f = Freeze::new();
    f.step(FreezeEvent::Error, 0);
    assert_eq!(f.next, FreezeAction::Failed);
}

#[test]
fn connection_is_registered_before_the_kernel_connects() {
    let mut c = Connecting::new(Takeover::Freeze, remote());
    c.step(ConnectEvent::Ip(local().ip));
    assert_eq!(c.next, ConnectAction::Bind(v4(0, 0, 0, 0, 0)));
    c.step(ConnectEvent::Port(777));
    assert_eq!(c.local, v4(10, 0, 0, 1, 777));
    c.step(ConnectEvent::Done);
    c.step(ConnectEvent::Done);
    assert_eq!(c.next, ConnectAction::Register);
    c.step(ConnectEvent::Done);
    assert_eq!(c.next, ConnectAction::ConnectKernel);
    c.step(ConnectEvent::Done);
    c.step(ConnectEvent::Done);
    assert_eq!(c.next, ConnectAction::FreezeKernel);
    let state = KernelTcpState { seq: 1, ack: 2, ts_offset: 3 };
    c.step(ConnectEvent::State(state));
    assert_eq!(c.next, ConnectAction::Connected(Some(state)));
}

#[test]
fn failed_steps_are_told() {
    let mut c = Connecting::new(Takeover::Filter, v6(2, 1));
    c.step(ConnectEvent::Failed);
    assert_eq!(c.next, ConnectAction::Failed(ConnectFailure::NoLocalIp));
    assert_eq!(ConnectFailure::NoLocalIp.message(), Some("Failed to get local ip"));
    assert_eq!(ConnectFailure::NoInterface.message(), Some("Failed to get interface name"));
    assert_eq!(
        ConnectFailure::StackClosed.message(),
        Some("FakeTCP stack closed while allocating socket")
    );
    assert_eq!(
        ConnectFailure::NoHandshake.message(),
        Some("Failed to recv bytes to establish connection")
    );
    assert_eq!(ConnectFailure::Operation.message(), None);
    assert_eq!(ConnectFailure::NoRepair.message(), None);

    let mut c = Connecting::new(Takeover::Filter, v6(2, 1));
    c.next = ConnectAction::EnterRepair;
    c.step(ConnectEvent::Failed);
    assert_eq!(c.next, ConnectAction::InstallFilter);
}

#[test]
fn listener_goes_on_after_a_lost_connection() {
    let mut a = Accepting::new(Takeover::Filter);
    a.step(AcceptEvent::AcceptError(AcceptError::ConnectionReset));
    assert_eq!(a.next, AcceptAction::Accept);
    a.step(AcceptEvent::Done);
    a.step(AcceptEvent::Failed);
    assert_eq!(a.next, AcceptAction::Accept);
    a.step(AcceptEvent::Done);
    a.step(AcceptEvent::Done);
    a.step(AcceptEvent::Failed);
    assert_eq!(a.next, AcceptAction::InstallFilter);
    a.step(AcceptEvent::Done);
    a.step(AcceptEvent::Done);
    assert_eq!(
        a.next,
        AcceptAction::Register(KernelTcpState { seq: 0, ack: 0, ts_offset: 0 })
    );
    a.step(AcceptEvent::Failed);
    assert_eq!(a.next, AcceptAction::DropStack);
    a.step(AcceptEvent::Done);
    assert_eq!(a.next, AcceptAction::Accept);
    a.step(AcceptEvent::AcceptError(AcceptError::Other));
    assert_eq!(a.next, AcceptAction::Failed);

    let mut a = Accepting::new(Takeover::Freeze);
    a.step(AcceptEvent::Done);
    a.step(AcceptEvent::Done);
    a.step(AcceptEvent::Failed);
    assert_eq!(a.next, AcceptAction::Failed);
}

#[test]
fn probe_takes_zero_for_what_it_cannot_read() {
    let mut p = Probe::new();
    p.step(None);
    assert_eq!((p.next, p.seq, p.ack), (ProbeAction::Done, 0, 0));
    let mut p = Probe::new();
    p.step(Some(0));
    p.step(Some(0));
    p.step(Some(41));
    p.step(None);
    p.step(Some(42));
    assert_eq!((p.next, p.seq, p.ack), (ProbeAction::Done, 41, 42));
}

#[test]
fn endpoints_are_told_apart() {
    assert_eq!(faketcp_transport_label("bpf"), "faketcp_bpf");
    let mapped = IpAddr::V6(Ipv6Addr { high: 0, low: 0x0000_ffff_0a00_0001 });
    assert_eq!(to_canonical(mapped), local().ip);
    assert!(bound_as_requested(v4(0, 0, 0, 0, 9), v4(0, 0, 0, 0, 0), 0));
    assert!(!bound_as_requested(v4(0, 0, 0, 0, 9), v4(0, 0, 0, 0, 8), 8));
    assert!(accept_is_retryable(AcceptError::ConnectionAborted));
    assert!(!accept_is_retryable(AcceptError::Other));
    assert_eq!(plan_stack(Some(true)), StackPlan::Replace);
    assert_eq!(plan_stack(None), StackPlan::Create);
    let (wildcard, ip6) = stack_addresses(v6(1, 0).ip);
    assert_eq!((wildcard.bits, ip6.is_some()), (0, true));
    assert_eq!(listener_filter(local()), v4(0, 0, 0, 0, 10000));
}

#[test]
fn interfaces_are_found_by_address() {
    let mut cache = IpToIfNameCache::new();
    assert!(cache.get_ifname(&local().ip).is_none());
    cache.reload_ip_to_ifname(&Some(vec![
        Interface {
            name: "eth0".to_string(),
            mac_addr: Some("02:00:00:00:00:0a".to_string()),
            addrs: vec![local().ip, v6(1, 0).ip],
        },
        Interface {
            name: "eth1".to_string(),
            mac_addr: Some("nonsense".to_string()),
            addrs: vec![remote().ip],
        },
    ]));
    assert_eq!(
        cache.get_ifname(&v6(1, 0).ip),
        Some(("eth0".to_string(), Some(MacAddr(2, 0, 0, 0, 0, 10))))
    );
    assert_eq!(cache.get_ifname(&remote().ip), Some(("eth1".to_string(), None)));
    let mapped = IpAddr::V6(Ipv6Addr { high: 0, low: 0x0000_ffff_0a00_0001 });
    assert!(cache.get_ifname(&mapped).is_none());
    assert_eq!(cache.get_ifname_canonical(&mapped).unwrap().0, "eth0");
    cache.reload_ip_to_ifname(&None);
    assert!(cache.get_ifname(&local().ip).is_none());
}

/// The hardware address that the cache reads out of a spelling.
fn mac_read(spelling: &str) -> Option<MacAddr> {
    let mut cache = IpToIfNameCache::new();
    cache.reload_ip_to_ifname(&Some(vec![Interface {
        name: "eth0".to_string(),
        mac_addr: Some(spelling.to_string()),
        addrs: vec![local().ip],
    }]));
    cache.get_ifname(&local().ip).unwrap().1
}

#[test]
fn hardware_addresses_are_six_hexadecimal_bytes() {
    assert_eq!(mac_read("12:34:56:78:90:ab"), Some(MacAddr(0x12, 0x34, 0x56, 0x78, 0x90, 0xab)));
    assert_eq!(mac_read("AB:Cd:eF:0:1:f"), Some(MacAddr(0xab, 0xcd, 0xef, 0, 1, 15)));
    assert_eq!(mac_read("+5:000ff:+0a:00:0:+000"), Some(MacAddr(5, 255, 10, 0, 0, 0)));
    for bad in [
        "",
        "12",
        "12:34:56:78:90",
        "12:34:56:78:90:",
        ":12:34:56:78:90",
        "12:34:56:78:90:ab:",
        "12:34:56:78:90:ab:cd",
        "12:34:56:78:90:100",
        "12:34:56:78:90:-1",
        "12:34:56:78:90:+",
        "12:34:56:78:90:++1",
        "12:34:56:78:90:1+",
        "12:34:56:78:90:g0",
        "12:34:56:78:90: a",
        "12:34:56:78:90:a_b",
        "12-34-56-78-90-ab",
        "12:34:56:78:90:\u{ff11}",
    ] {
        assert_eq!(mac_read(bad), None, "{}", bad);
    }
}

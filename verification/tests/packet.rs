use easytier::net::{IpAddr, Ipv4Addr, Ipv6Addr, MacAddr, SocketAddr};
use easytier::socket::fake_tcp::packet::{
    build_tcp_packet, find_tsval, parse_ip_packet, Checksum, ETH_HDR_LEN, IPV4_HEADER_LEN,
    IPV6_HEADER_LEN, TCP_ACK, TCP_PSH, TCP_SYN, WINDOW_SCALE,
};
use pnet::packet::ethernet::{EtherTypes, EthernetPacket};
use pnet::packet::ipv4::Ipv4Packet;
use pnet::packet::ipv6::Ipv6Packet;
use pnet::packet::tcp::TcpPacket;
use pnet::packet::Packet;
use pnet::packet::{ipv4, tcp};

fn v4(a: u8, b: u8, c: u8, d: u8, port: u16) -> SocketAddr {
    let bits = u32::from_be_bytes([a, b, c, d]);
    SocketAddr { ip: IpAddr::V4(Ipv4Addr { bits }), port }
}

/// An address in 2001:db8::/32.
fn v6(low: u64, port: u16) -> SocketAddr {
    SocketAddr { ip: IpAddr::V6(Ipv6Addr { high: 0x2001_0db8_0000_0000, low }), port }
}

/// Builds a frame and checks that the checksums in it are those that pnet
/// computes over the same bytes.
fn assert_checksums_match_pnet(local: SocketAddr, remote: SocketAddr, payload: Option<&[u8]>) {
    let frame = build_tcp_packet(
        MacAddr::zero(),
        MacAddr::zero(),
        local,
        remote,
        0x1234_5678,
        0x9abc_def0,
        TCP_ACK | TCP_PSH,
        payload,
        Some((111, 222)),
        7,
        0xfa00,
        0,
    );
    let (_, _, _, parsed) = parse_ip_packet(&frame).unwrap();
    if local.is_ipv4() {
        let v4 = Ipv4Packet::new(&frame[14..]).unwrap();
        let tcp_pkt = TcpPacket::new(v4.payload()).unwrap();
        let expected_tcp = tcp::ipv4_checksum(&tcp_pkt, &v4.get_source(), &v4.get_destination());
        assert_eq!(tcp_pkt.get_checksum(), expected_tcp, "v4 tcp checksum");
        assert_eq!(parsed.checksum, expected_tcp);
        let expected_ip = ipv4::checksum(&v4);
        assert_eq!(v4.get_checksum(), expected_ip, "v4 ip header checksum");
    } else {
        let v6 = Ipv6Packet::new(&frame[14..]).unwrap();
        let tcp_pkt = TcpPacket::new(v6.payload()).unwrap();
        let expected_tcp = tcp::ipv6_checksum(&tcp_pkt, &v6.get_source(), &v6.get_destination());
        assert_eq!(tcp_pkt.get_checksum(), expected_tcp, "v6 tcp checksum");
        assert_eq!(parsed.checksum, expected_tcp);
    }
}

#[test]
fn checksum_matches_pnet_v4() {
    let l = v4(192, 0, 2, 1, 12345);
    let r = v4(198, 51, 100, 2, 443);
    assert_checksums_match_pnet(l, r, Some(b"hello checksum"));
    assert_checksums_match_pnet(l, r, None); // header-only (empty payload)
    assert_checksums_match_pnet(l, r, Some(&[0xAB; 1348])); // full segment
    assert_checksums_match_pnet(l, r, Some(&[0x5A; 1347])); // odd length
}

#[test]
fn checksum_matches_pnet_v6() {
    let l = v6(1, 12345);
    let r = v6(2, 443);
    assert_checksums_match_pnet(l, r, Some(b"hello v6 checksum"));
    assert_checksums_match_pnet(l, r, None);
    assert_checksums_match_pnet(l, r, Some(&[0xC3; 1348]));
    assert_checksums_match_pnet(l, r, Some(&[0x3C; 1347])); // odd length
}

/// The fold must collapse every carry: a payload engineered to overflow the
/// accumulator many times still has to match pnet.
#[test]
fn checksum_folds_all_carries() {
    let l = v4(192, 0, 2, 9, 1);
    let r = v4(198, 51, 100, 9, 2);
    assert_checksums_match_pnet(l, r, Some(&[0xFF; 1400]));
}

#[test]
fn parse_ipv4_packet_round_trip() {
    let src_mac = MacAddr(0x02, 0, 0, 0, 0, 1);
    let dst_mac = MacAddr(0x02, 0, 0, 0, 0, 2);
    let local_addr = v4(192, 0, 2, 1, 12345);
    let remote_addr = v4(198, 51, 100, 2, 23456);
    let payload = b"hello fake tcp";

    let packet = build_tcp_packet(
        src_mac,
        dst_mac,
        local_addr,
        remote_addr,
        10,
        20,
        TCP_ACK,
        Some(payload),
        None,
        0,
        0xffff,
        0,
    );

    let (parsed_src_mac, parsed_dst_mac, ip_packet, tcp_packet) = parse_ip_packet(&packet).unwrap();

    assert_eq!(parsed_src_mac, src_mac);
    assert_eq!(parsed_dst_mac, dst_mac);
    assert_eq!(ip_packet.get_source(), local_addr.ip);
    assert_eq!(ip_packet.get_destination(), remote_addr.ip);
    assert_eq!(tcp_packet.source, local_addr.port);
    assert_eq!(tcp_packet.destination, remote_addr.port);
    assert_eq!(tcp_packet.payload, payload);
}

#[test]
fn build_and_parse_ipv6_packet_round_trip() {
    let src_mac = MacAddr(0x02, 0, 0, 0, 0, 3);
    let dst_mac = MacAddr(0x02, 0, 0, 0, 0, 4);
    let local_addr = v6(1, 12345);
    let remote_addr = v6(2, 23456);
    let payload = b"ipv6 payload";

    let packet = build_tcp_packet(
        src_mac,
        dst_mac,
        local_addr,
        remote_addr,
        30,
        40,
        TCP_ACK,
        Some(payload),
        None,
        0,
        0xffff,
        0,
    );

    let ethernet = EthernetPacket::new(packet.as_ref()).unwrap();
    assert_eq!(ethernet.get_ethertype(), EtherTypes::Ipv6);

    let (parsed_src_mac, parsed_dst_mac, ip_packet, tcp_packet) = parse_ip_packet(&packet).unwrap();

    assert_eq!(parsed_src_mac, src_mac);
    assert_eq!(parsed_dst_mac, dst_mac);
    assert_eq!(ip_packet.get_source(), local_addr.ip);
    assert_eq!(ip_packet.get_destination(), remote_addr.ip);
    assert_eq!(tcp_packet.source, local_addr.port);
    assert_eq!(tcp_packet.destination, remote_addr.port);
    assert_eq!(tcp_packet.payload, payload);
}

/// Guards the SYN option block against silent drift. Only reached when this
/// crate builds the SYN itself rather than letting the kernel handshake.
#[test]
fn syn_advertises_a_conservative_window_scale() {
    let packet = build_tcp_packet(
        MacAddr::zero(),
        MacAddr::zero(),
        v4(192, 0, 2, 1, 1111),
        v4(198, 51, 100, 2, 2222),
        0,
        0,
        TCP_SYN,
        None,
        None,
        0,
        0xffff,
        0,
    );
    let tcp_packet = TcpPacket::new(&packet[34..]).unwrap();

    let wscale = tcp_packet
        .get_options_iter()
        .find(|opt| opt.get_number() == tcp::TcpOptionNumbers::WSCALE)
        .expect("SYN should carry a window scale option");
    assert_eq!(wscale.payload(), [WINDOW_SCALE]);
    // The maximum, 14, would claim a receive window in the gigabytes.
    assert!(WINDOW_SCALE < 14);
}

#[test]
fn parse_rejects_short_ethernet_frame() {
    let packet = [0u8; ETH_HDR_LEN - 1];
    assert!(parse_ip_packet(&packet).is_none());
}

#[test]
fn parse_rejects_truncated_ipv4_tcp_packet() {
    let packet = build_tcp_packet(
        MacAddr(0x02, 0, 0, 0, 0, 5),
        MacAddr(0x02, 0, 0, 0, 0, 6),
        v4(192, 0, 2, 10, 1111),
        v4(198, 51, 100, 20, 2222),
        1,
        2,
        TCP_ACK,
        None,
        None,
        0,
        0xffff,
        0,
    );
    let truncated = &packet[..ETH_HDR_LEN + IPV4_HEADER_LEN + 10];

    assert!(parse_ip_packet(truncated).is_none());
}

#[test]
fn parse_rejects_truncated_ipv6_header() {
    let packet = build_tcp_packet(
        MacAddr(0x02, 0, 0, 0, 0, 7),
        MacAddr(0x02, 0, 0, 0, 0, 8),
        v6(0x10, 1111),
        v6(0x20, 2222),
        1,
        2,
        TCP_ACK,
        None,
        None,
        0,
        0xffff,
        0,
    );
    let truncated = &packet[..ETH_HDR_LEN + IPV6_HEADER_LEN - 1];

    assert!(parse_ip_packet(truncated).is_none());
}

/// What this crate parses out of a frame is what pnet parses out of it.
#[test]
fn fields_match_pnet() {
    let frame = build_tcp_packet(
        MacAddr(1, 2, 3, 4, 5, 6),
        MacAddr(6, 5, 4, 3, 2, 1),
        v4(10, 0, 0, 1, 1000),
        v4(10, 0, 0, 2, 2000),
        77,
        88,
        TCP_ACK,
        Some(b"payload"),
        Some((0xdead_beef, 5)),
        9,
        4321,
        0,
    );
    let (_, _, _, ours) = parse_ip_packet(&frame).unwrap();
    let ip = Ipv4Packet::new(&frame[14..]).unwrap();
    assert_eq!(ip.get_identification(), 9);
    let theirs = TcpPacket::new(&frame[34..]).unwrap();
    assert_eq!(ours.sequence, theirs.get_sequence());
    assert_eq!(ours.acknowledgement, theirs.get_acknowledgement());
    assert_eq!(ours.flags, theirs.get_flags() as u8);
    assert_eq!(ours.window, theirs.get_window());
    assert_eq!(&ours.payload[..], theirs.payload());
    assert_eq!(&ours.options[..], theirs.get_options_raw());
    assert_eq!(find_tsval(&ours.options), Some(0xdead_beef));
    assert_eq!(&frame[ours.payload_offset..], b"payload");
}

#[test]
fn checksum_of_the_textbook() {
    let mut c = Checksum::new();
    c.add(&[0x00, 0x01, 0xf2, 0x03, 0xf4, 0xf5, 0xf6, 0xf7]);
    assert_eq!(c.finish(), 0x220d);
}

#[test]
fn checksum_does_not_depend_on_the_split() {
    let data = [0x00, 0x01, 0xf2, 0x03, 0xf4, 0xf5, 0xf6, 0xf7];
    for split in [0, 2, 4, 6, 8] {
        let mut c = Checksum::new();
        c.add(&data[..split]);
        c.add(&data[split..]);
        assert_eq!(c.finish(), 0x220d);
    }
    let mut odd = Checksum::new();
    odd.add(&[0x01]);
    assert_eq!(odd.finish(), 0xfeff);
    assert_eq!(Checksum::new().finish(), 0xffff);
}

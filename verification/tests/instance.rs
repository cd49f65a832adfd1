use easytier::common::ifcfg::netlink::{
    build_ifreq, find_ack, mask_to_prefix, read_dump, DumpOutcome, Error, Frame, InterfaceAddress,
    IpInet, NeighbourAttribute, NeighbourEntry, NeighbourReply, NeighbourState, NetlinkIfConfiger, ProxyEntry,
    RouteAttribute, RouteEntry, RouteReply,
};
use easytier::instance::default_route;
use easytier::instance::default_route::{
    ipv4_addresses, physical_route, proceeds, NamedRoute, Step,
};
use easytier::instance::default_route_macos;
use easytier::instance::default_route_macos::{
    extract_ipv4_from_url, extract_ipv4_from_url_str, parse_default_route,
};
use easytier::instance::host::NativeInstanceEnvironment;
use easytier::instance::runtime_host::tun_desktop::{
    can_count, initial_peer_ips, keeps_default_route, on_peer_event, publish_dhcp_ipv4, Apply,
    ApplyAction, DhcpEvent, FirstRound, PeerEvent, PeerReaction, StaticAction, StaticEvent, StaticIp,
};
use easytier::locator::UrlParts;
use easytier::net::{IpAddr, Ipv4Addr, Ipv6Addr};

fn four(a: u8, b: u8, c: u8, d: u8) -> Ipv4Addr {
    Ipv4Addr { bits: u32::from_be_bytes([a, b, c, d]) }
}

fn six(low: u64) -> Ipv6Addr {
    Ipv6Addr { high: 0x2001_0db8_0000_0000, low }
}

fn frame(message_type: u16, flags: u16, error_code: Option<i32>) -> Option<Frame> {
    Some(Frame { message_type, flags, error_code })
}

#[test]
fn acknowledgement_is_found() {
    assert_eq!(find_ack(&vec![frame(24, 0, None)]), None);
    assert_eq!(find_ack(&vec![frame(24, 0, None), frame(2, 0, Some(0))]), Some(Ok(())));
    assert_eq!(find_ack(&vec![frame(3, 0, None)]), Some(Ok(())));
    assert_eq!(find_ack(&vec![frame(2, 0, Some(-17))]), Some(Err(Error::Os(17))));
    assert_eq!(find_ack(&vec![frame(2, 0, None)]), Some(Err(Error::Malformed)));
    assert_eq!(find_ack(&vec![None, frame(3, 0, None)]), Some(Err(Error::Malformed)));
}

#[test]
fn list_is_read_to_its_end() {
    let frames = vec![
        frame(24, 2, None),
        frame(2, 2, Some(0)),
        frame(25, 2, None),
        frame(24, 2, None),
        frame(3, 2, None),
        frame(24, 2, None),
    ];
    assert_eq!(read_dump(&frames, 24), (vec![0, 3], DumpOutcome::Complete));
    assert_eq!(read_dump(&frames[..4].to_vec(), 24), (vec![0, 3], DumpOutcome::More));
    let frames = vec![frame(24, 2, None), frame(24, 0x12, None)];
    assert_eq!(
        read_dump(&frames, 24),
        (vec![0], DumpOutcome::Failed(Error::Interrupted))
    );
    let frames = vec![frame(2, 2, Some(-1))];
    assert_eq!(read_dump(&frames, 24).1, DumpOutcome::Failed(Error::Os(1)));
    assert_eq!(read_dump(&vec![None], 24).1, DumpOutcome::Failed(Error::Malformed));
}

#[test]
fn masks_have_prefixes() {
    assert_eq!(mask_to_prefix(IpAddr::V4(four(255, 255, 255, 0))), Some(24));
    assert_eq!(mask_to_prefix(IpAddr::V4(four(0, 0, 0, 0))), Some(0));
    assert_eq!(mask_to_prefix(IpAddr::V4(four(255, 255, 255, 255))), Some(32));
    assert_eq!(mask_to_prefix(IpAddr::V4(four(255, 0, 255, 0))), None);
    let v6 = |high, low| mask_to_prefix(IpAddr::V6(Ipv6Addr { high, low }));
    assert_eq!(v6(u64::MAX, 0), Some(64));
    assert_eq!(v6(u64::MAX << 8, 0), Some(56));
    assert_eq!(v6(u64::MAX, u64::MAX), Some(128));
    assert_eq!(v6(u64::MAX, 1 << 63), Some(65));
    assert_eq!(v6(u64::MAX << 8, 1 << 63), None);
}

#[test]
fn addresses_of_an_interface_are_listed() {
    let entry = |name: &str, address, netmask| InterfaceAddress {
        interface_name: name.to_string(),
        address,
        netmask,
    };
    let a = IpAddr::V4(four(10, 44, 44, 4));
    let entries = vec![
        entry("lo", Some(IpAddr::V4(four(127, 0, 0, 1))), Some(IpAddr::V4(four(255, 0, 0, 0)))),
        entry("dummy", Some(a), Some(IpAddr::V4(four(255, 255, 255, 0)))),
        entry("dummy", Some(a), None),
        entry("dummy", Some(IpAddr::V6(six(1))), Some(IpAddr::V6(Ipv6Addr { high: u64::MAX, low: 0 }))),
    ];
    let addrs = NetlinkIfConfiger::list_addresses("dummy", &entries);
    assert_eq!(
        addrs,
        vec![
            IpInet { address: a, network_length: 24 },
            IpInet { address: IpAddr::V6(six(1)), network_length: 64 },
        ]
    );
    assert_eq!(NetlinkIfConfiger::get_prefix_len(&addrs, a), Ok(24));
    assert_eq!(
        NetlinkIfConfiger::get_prefix_len(&addrs, IpAddr::V4(four(1, 1, 1, 1))),
        Err(Error::NotFound)
    );
    assert_eq!(
        NetlinkIfConfiger::remove_ip(&addrs, Some(four(10, 44, 44, 4))),
        Ok(vec![addrs[0]])
    );
    assert_eq!(NetlinkIfConfiger::remove_ip(&addrs, None), Ok(vec![addrs[0]]));
    assert_eq!(NetlinkIfConfiger::remove_ip(&addrs, Some(four(1, 1, 1, 1))), Err(Error::NotFound));
    assert_eq!(NetlinkIfConfiger::remove_ipv6(&addrs, None), Ok(vec![addrs[1]]));
    assert_eq!(NetlinkIfConfiger::remove_ipv6(&addrs, Some(six(1))), Ok(vec![addrs[1]]));
    assert_eq!(ipv4_addresses(&addrs), vec![four(10, 44, 44, 4)]);
}

#[test]
fn broadcast_address_ends_the_network() {
    let b = |a, p| NetlinkIfConfiger::broadcast(a, p);
    assert_eq!(b(four(10, 44, 44, 4), 24), four(10, 44, 44, 255));
    assert_eq!(b(four(10, 44, 44, 4), 32), four(10, 44, 44, 4));
    assert_eq!(b(four(10, 44, 44, 4), 0), four(255, 255, 255, 255));
    assert_eq!(b(four(10, 44, 44, 4), 30), four(10, 44, 44, 7));
}

#[test]
fn routes_are_found_and_made() {
    let route = |destination, dst_len, oif| RouteEntry { v4: true, destination, dst_len, oif };
    let net = IpAddr::V4(four(10, 5, 5, 0));
    let routes = vec![
        route(None, 0, Some(1)),
        route(Some(net), 24, Some(2)),
        route(Some(net), 24, Some(3)),
    ];
    assert_eq!(NetlinkIfConfiger::find_route(&routes, net, 24, 3), Some(2));
    assert_eq!(NetlinkIfConfiger::find_route(&routes, net, 25, 3), None);
    let wildcard = IpAddr::V4(four(0, 0, 0, 0));
    assert_eq!(NetlinkIfConfiger::find_route(&routes, wildcard, 0, 1), Some(0));
    assert_eq!(NetlinkIfConfiger::list_route_messages(&routes, false), vec![]);
    assert_eq!(NetlinkIfConfiger::list_route_messages(&routes, true), routes);

    let r = NetlinkIfConfiger::add_ipv4_route(7, four(10, 5, 5, 0), 24, None);
    assert_eq!(r.destination, Some(IpInet { address: net, network_length: 24 }));
    assert_eq!((r.oif, r.priority), (7, 65535));
    let r = NetlinkIfConfiger::add_ipv6_route(7, six(0), 0, Some(-1));
    assert_eq!(r.destination, None);
    assert_eq!(r.priority, u32::MAX);
    assert_eq!(NetlinkIfConfiger::set_link_status(0x1002, true), 0x1003);
    assert_eq!(NetlinkIfConfiger::set_link_status(0x1003, false), 0x1002);
}

#[test]
fn next_hop_is_the_gateway_or_the_destination() {
    let dest = IpAddr::V4(four(8, 8, 8, 8));
    let gateway = IpAddr::V4(four(192, 168, 0, 1));
    let get = |reply| NetlinkIfConfiger::route_get(dest, &reply);
    assert_eq!(get(RouteReply::Error(0)), None);
    assert_eq!(get(RouteReply::Error(-101)), Some(Err(Error::Os(101))));
    assert_eq!(get(RouteReply::Done), Some(Err(Error::NoRoute)));
    assert_eq!(get(RouteReply::Other), Some(Err(Error::Unexpected)));
    assert_eq!(
        get(RouteReply::Route(vec![
            RouteAttribute::Gateway(Some(gateway)),
            RouteAttribute::Other,
            RouteAttribute::Oif(2),
        ])),
        Some(Ok((gateway, Some(2))))
    );
    assert_eq!(get(RouteReply::Route(vec![])), Some(Ok((dest, None))));
}

#[test]
fn hardware_address_is_that_of_the_next_hop() {
    let hop = IpAddr::V4(four(192, 168, 0, 1));
    let entry = |ifindex, state, ip, mac: &[u8]| NeighbourEntry {
        ifindex,
        state,
        attributes: vec![
            NeighbourAttribute::LinkAddress(mac.to_vec()),
            NeighbourAttribute::Destination(ip),
            NeighbourAttribute::Other,
        ],
    };
    let neighbours = vec![
        entry(1, NeighbourState::Resolved, hop, &[1; 6]),
        entry(2, NeighbourState::Incomplete, hop, &[2; 6]),
        entry(2, NeighbourState::Resolved, IpAddr::V4(four(1, 1, 1, 1)), &[3; 6]),
        entry(2, NeighbourState::Resolved, hop, &[4; 8]),
        entry(2, NeighbourState::Resolved, hop, &[5; 6]),
    ];
    assert_eq!(
        NetlinkIfConfiger::get_next_hop_mac(&neighbours, hop, Some(2)),
        Some(vec![5; 6])
    );
    assert_eq!(NetlinkIfConfiger::get_next_hop_mac(&neighbours, hop, None), Some(vec![1; 6]));
    assert_eq!(NetlinkIfConfiger::get_next_hop_mac(&neighbours, hop, Some(3)), None);
}

#[test]
fn proxies_are_listed_in_order() {
    let e = |ifindex, is_proxy, low| ProxyEntry {
        ifindex,
        is_proxy,
        destination: Some(IpAddr::V6(six(low))),
    };
    let entries = vec![e(1, true, 9), e(1, true, 3), e(1, true, 9), e(2, true, 1), e(1, false, 2)];
    assert_eq!(NetlinkIfConfiger::list_ipv6_ndp_proxy(&entries, 1), vec![six(3), six(9)]);
}

#[test]
fn interface_name_fills_its_field() {
    assert_eq!(build_ifreq("eth0"), b"eth0\0\0\0\0\0\0\0\0\0\0\0\0");
}

fn commands(steps: &[Step]) -> Vec<(&str, bool)> {
    steps.iter().map(|s| (s.command.as_str(), s.required)).collect()
}

#[test]
fn default_route_is_taken_over_and_given_back() {
    let mut m = default_route::DefaultRouteManager::new("tun0".to_string(), 0x1abe);
    assert!(!m.is_active());
    let mut stale = m.cleanup_stale();
    for prio in 6839..=6843 {
        let delete = format!("ip rule del prio {prio}");
        assert_eq!(stale.command().unwrap(), delete);
        stale.step(true);
        assert_eq!(stale.command().unwrap(), delete);
        stale.step(false);
    }
    assert_eq!(stale.command().unwrap(), "ip route flush table 6846");
    stale.step(true);
    assert_eq!(stale.command(), None);
    let first = m.prepare();
    assert_eq!(first.len(), 9);
    assert_eq!(commands(&first)[0], ("sysctl -w net.ipv4.ip_forward=1", true));
    assert_eq!(commands(&first)[3], ("ip route add throw 172.16.0.0/12 table 6846", false));
    assert_eq!(commands(&first)[8], ("ip route add default dev tun0 table 6846", true));
    let rules = m.rules(&vec![four(192, 0, 2, 1)]);
    assert_eq!(
        commands(&rules),
        vec![
            ("ip rule add from 192.0.2.1 table main prio 6839", false),
            ("ip rule add table main suppress_prefixlength 0 prio 6840", true),
            ("ip rule add not fwmark 0x1abe table 6846 prio 6841", true),
            ("ip rule add fwmark 0x1abe table main prio 6842", true),
            ("ip rule add fwmark 0x1abe table default prio 6843", true),
        ]
    );
    assert!(proceeds(&rules[0], false));
    assert!(!proceeds(&rules[1], false));
    m.on_activated("0".to_string(), "1".to_string());
    assert!(m.is_active());
    assert!(m.prepare().is_empty());
    assert_eq!(
        m.generate_cleanup_script(),
        "ip rule del prio 6839 2>/dev/null;ip rule del prio 6840 2>/dev/null;\
         ip rule del prio 6841 2>/dev/null;ip rule del prio 6842 2>/dev/null;\
         ip rule del prio 6843 2>/dev/null;ip route flush table 6846 2>/dev/null"
    );
    let undo = m.deactivate();
    assert_eq!(undo.len(), 8);
    assert_eq!(commands(&undo)[6], ("sysctl -w net.ipv4.ip_forward=0", false));
    assert_eq!(commands(&undo)[7], ("sysctl -w net.ipv4.conf.all.src_valid_mark=1", false));
    assert!(m.deactivate().is_empty());
}

#[test]
fn physical_route_leads_elsewhere_than_the_tunnel() {
    let r = |destination, prefix, ifindex, name: Option<&str>| NamedRoute {
        destination,
        prefix,
        ifindex,
        ifname: name.map(|n| n.to_string()),
    };
    let any = IpAddr::V4(four(0, 0, 0, 0));
    let routes = vec![
        r(any, 0, Some(9), Some("tun0")),
        r(IpAddr::V4(four(10, 0, 0, 0)), 8, Some(3), Some("eth0")),
        r(any, 0, None, Some("eth0")),
        r(any, 0, Some(2), Some("eth0")),
    ];
    assert_eq!(physical_route(&routes, "tun0"), Some(3));
    assert_eq!(physical_route(&routes[..3].to_vec(), "tun0"), None);
}

#[test]
fn peer_routes_are_counted() {
    let mut m = default_route_macos::DefaultRouteManager::new("utun3".to_string());
    let peer = four(192, 0, 2, 1);
    assert_eq!(m.add_peer_route(peer), None);
    m.begin("10.0.0.1".to_string(), "en0".to_string());
    assert!(m.is_active());
    assert_eq!(m.add_peer_route(peer).unwrap(), "route -n add -host 192.0.2.1 10.0.0.1");
    assert_eq!(m.add_peer_route(peer), None);
    assert_eq!(m.remove_peer_route(peer), None);
    assert_eq!(m.remove_peer_route(peer).unwrap(), "route -n delete -host 192.0.2.1 10.0.0.1");
    assert_eq!(m.remove_peer_route(peer), None);
    m.add_peer_route(peer);
    assert_eq!(
        m.capture(),
        vec![
            "route -n add -net 0.0.0.0/1 -interface utun3",
            "route -n add -net 128.0.0.0/1 -interface utun3",
        ]
    );
    assert_eq!(
        m.generate_cleanup_script(),
        "route -n delete -net 0.0.0.0/1 -interface utun3 2>/dev/null;\
         route -n delete -net 128.0.0.0/1 -interface utun3 2>/dev/null;\
         route -n delete -host 192.0.2.1 10.0.0.1 2>/dev/null;"
    );
    assert_eq!(
        m.deactivate(),
        vec![
            "route -n delete -net 0.0.0.0/1 -interface utun3",
            "route -n delete -net 128.0.0.0/1 -interface utun3",
            "route -n delete -host 192.0.2.1 10.0.0.1",
        ]
    );
    assert!(!m.is_active());
}

#[test]
fn default_route_is_read_from_the_output() {
    assert_eq!(
        parse_default_route("   route to: default\n    gateway: 10.0.0.1 \n  interface: en0\n"),
        Some(("10.0.0.1".to_string(), "en0".to_string()))
    );
    assert_eq!(parse_default_route("    gateway: 10.0.0.1\n"), None);
}

#[test]
fn hosts_of_urls_are_addresses_or_not() {
    assert_eq!(extract_ipv4_from_url_str("tcp://192.0.2.1:11010"), Some(four(192, 0, 2, 1)));
    assert_eq!(extract_ipv4_from_url_str("tcp://example.com:11010"), None);
    assert_eq!(extract_ipv4_from_url_str("tcp://[::1]:11010"), None);
    assert_eq!(extract_ipv4_from_url_str("not a url"), None);
    let url = UrlParts { host: Some("10.1.2.3".to_string()), port: None };
    assert_eq!(extract_ipv4_from_url(&url), Some(four(10, 1, 2, 3)));
    let configured = vec![url, UrlParts { host: None, port: Some(1) }];
    let connected = vec!["udp://10.1.2.3:1".to_string(), "udp://h:1".to_string()];
    assert_eq!(
        initial_peer_ips(&configured, &connected),
        vec![four(10, 1, 2, 3), four(10, 1, 2, 3)]
    );
}

#[test]
fn interface_is_kept_up() {
    assert!(StaticIp::new(false, false).is_none());
    let mut s = StaticIp::new(true, false).unwrap();
    assert_eq!(s.step(StaticEvent::Done), None);
    assert_eq!(s.step(StaticEvent::Done), None);
    assert_eq!(s.next, StaticAction::Install { magic_dns: true });
    assert_eq!(s.step(StaticEvent::Done), Some(FirstRound::Up));
    assert_eq!(s.step(StaticEvent::Done), None);
    assert_eq!(s.step(StaticEvent::Failed), None);
    assert_eq!(s.next, StaticAction::BackOff);
    assert_eq!(s.step(StaticEvent::Cancelled), None);
    assert_eq!(s.next, StaticAction::Stop);

    let mut s = StaticIp::new(false, true).unwrap();
    assert_eq!(s.step(StaticEvent::Failed), Some(FirstRound::Failed));
    assert_eq!(s.next, StaticAction::Stop);
    let mut s = StaticIp::new(false, true).unwrap();
    assert_eq!(s.step(StaticEvent::Cancelled), Some(FirstRound::Cancelled));
    assert!(keeps_default_route(true, true));
    assert!(!keeps_default_route(true, false));
    assert!(!keeps_default_route(false, true));
}

#[test]
fn dhcp_address_is_applied() {
    let inet = IpInet { address: IpAddr::V4(four(10, 1, 1, 1)), network_length: 24 };
    let mut a = Apply::new(Some(inet), false, false);
    assert_eq!(a.next, ApplyAction::Drain);
    for _ in 0..4 {
        a.step(StaticEvent::Done);
    }
    assert_eq!(a.next, ApplyAction::Applied(Some(inet)));
    let mut a = Apply::new(None, false, false);
    a.step(StaticEvent::Done);
    assert_eq!(a.next, ApplyAction::Applied(None));
    let mut a = Apply::new(Some(inet), true, false);
    a.step(StaticEvent::Done);
    assert_eq!(a.next, ApplyAction::Applied(Some(inet)));
    let mut a = Apply::new(Some(inet), false, false);
    a.step(StaticEvent::Done);
    a.step(StaticEvent::Failed);
    assert_eq!(a.next, ApplyAction::Failed);
    assert_eq!(Apply::new(None, false, true).next, ApplyAction::Cancelled);
    assert_eq!(
        publish_dhcp_ipv4(Some(inet), None, None),
        DhcpEvent::Conflicted { previous: Some(inet) }
    );
    assert_eq!(
        publish_dhcp_ipv4(None, Some(inet), Some(inet)),
        DhcpEvent::Changed { previous: None, actual: Some(inet) }
    );
}

#[test]
fn sockets_are_marked_with_the_default_route() {
    let e = NativeInstanceEnvironment::new(true, 7, Some("ns".to_string()));
    assert_eq!(e.socket_context().socket_mark, Some(7));
    assert_eq!(e.socket_context().netns, Some("ns".to_string()));
    assert_eq!(NativeInstanceEnvironment::new(false, 7, None).socket_context().socket_mark, None);
    assert!(e.is_local_ip(false, true));
    assert!(!e.is_local_ip(false, false));
}

#[test]
fn peers_get_routes_while_connected() {
    let mut m = default_route_macos::DefaultRouteManager::new("utun3".to_string());
    m.begin("10.0.0.1".to_string(), "en0".to_string());
    let url = Some("tcp://192.0.2.1:11010".to_string());
    let add = PeerReaction::Run("route -n add -host 192.0.2.1 10.0.0.1".to_string());
    let delete = PeerReaction::Run("route -n delete -host 192.0.2.1 10.0.0.1".to_string());
    assert!(can_count(&m, &PeerEvent::Added(url.clone())));
    assert_eq!(on_peer_event(&mut m, &PeerEvent::Added(url.clone())), add);
    assert!(can_count(&m, &PeerEvent::Added(url.clone())));
    assert!(can_count(&m, &PeerEvent::Added(None)) && can_count(&m, &PeerEvent::Over));
    assert_eq!(on_peer_event(&mut m, &PeerEvent::Added(None)), PeerReaction::Nothing);
    assert_eq!(on_peer_event(&mut m, &PeerEvent::Other), PeerReaction::Nothing);
    let other = Some("udp://192.0.2.2:1".to_string());
    let add_other = PeerReaction::Run("route -n add -host 192.0.2.2 10.0.0.1".to_string());
    assert_eq!(on_peer_event(&mut m, &PeerEvent::Added(other.clone())), add_other);
    assert_eq!(on_peer_event(&mut m, &PeerEvent::Added(other.clone())), PeerReaction::Nothing);
    assert_eq!(on_peer_event(&mut m, &PeerEvent::Removed(url)), delete);
    assert_eq!(on_peer_event(&mut m, &PeerEvent::Removed(other.clone())), PeerReaction::Nothing);
    let delete_other = PeerReaction::Run("route -n delete -host 192.0.2.2 10.0.0.1".to_string());
    assert_eq!(on_peer_event(&mut m, &PeerEvent::Removed(other)), delete_other);
    assert_eq!(on_peer_event(&mut m, &PeerEvent::Over), PeerReaction::Stop);
}

#[test]
fn neighbours_are_read_to_their_end() {
    let (entry, done) = (NeighbourReply::Entry, NeighbourReply::Done);
    let read = |replies: &[NeighbourReply]| NetlinkIfConfiger::dump_neighbours(&replies.to_vec());
    assert_eq!(
        read(&[entry, NeighbourReply::Error(0), entry, done, entry]),
        (vec![0, 2], DumpOutcome::Complete)
    );
    assert_eq!(read(&[entry]), (vec![0], DumpOutcome::More));
    assert_eq!(read(&[NeighbourReply::Other]).1, DumpOutcome::Failed(Error::Unexpected));
    assert_eq!(read(&[NeighbourReply::Error(-13)]).1, DumpOutcome::Failed(Error::Os(13)));
}

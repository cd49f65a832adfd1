use easytier::display::{append_ip, decimal_text, parse_ipv4};
use easytier::net::{IpAddr, Ipv4Addr, Ipv6Addr, SocketAddr};
use easytier::socket::fake_tcp::guard::nft;
use easytier::socket::fake_tcp::guard::nft::{failure_text, Setup, SetupStage};
use easytier::socket::fake_tcp::guard::noop;
use easytier::socket::fake_tcp::guard::pf::{rule_for, token_in, PfState, PfStep};
use easytier::socket::fake_tcp::guard::windivert::build_rst_filter;
use easytier::tunnel::fake_tcp::netfilter_guard;
use easytier::tunnel::fake_tcp::netfilter_guard::NftGuard;
use easytier::tunnel::fake_tcp::pf_guard::{PfAnchors, PfGuard};

fn v4(a: u8, b: u8, c: u8, d: u8, port: u16) -> SocketAddr {
    let bits = u32::from_be_bytes([a, b, c, d]);
    SocketAddr { ip: IpAddr::V4(Ipv4Addr { bits }), port }
}

/// An address in 2001:db8::/32.
fn v6(low: u64, port: u16) -> SocketAddr {
    SocketAddr { ip: IpAddr::V6(Ipv6Addr { high: 0x2001_0db8_0000_0000, low }), port }
}

#[test]
fn element_order_is_local_then_remote() {
    let (elem, set) = nft::format_element(
        &v4(192, 0, 2, 1, 1111),
        &v4(198, 51, 100, 2, 2222),
    )
    .unwrap();
    assert_eq!(elem, "192.0.2.1 . 1111 . 198.51.100.2 . 2222");
    assert_eq!(set, "conns4");
}

#[test]
fn v6_tuples_use_the_v6_set() {
    let (elem, set) = nft::format_element(&v6(1, 1111), &v6(2, 2222)).unwrap();
    assert_eq!(elem, "2001:db8::1 . 1111 . 2001:db8::2 . 2222");
    assert_eq!(set, "conns6");
}

/// A v4/v6 pair has no set to go in, so it must be rejected rather than
/// silently rendered into a malformed element.
#[test]
fn mismatched_families_have_no_element() {
    assert!(nft::format_element(&v4(192, 0, 2, 1, 1111), &v6(2, 2222)).is_none());
}

#[test]
fn rule_names_the_family_and_both_endpoints() {
    let rule = rule_for(&v4(192, 0, 2, 1, 1111), &v4(198, 51, 100, 2, 2222)).unwrap();
    assert_eq!(
        rule,
        "block drop out quick inet proto tcp from 192.0.2.1 port 1111 \
         to 198.51.100.2 port 2222\n"
    );
}

/// pf wants bare IPv6 literals, not the bracketed form `SocketAddr` prints.
#[test]
fn v6_rule_has_unbracketed_addresses() {
    let rule = rule_for(&v6(1, 1111), &v6(2, 2222)).unwrap();
    assert_eq!(
        rule,
        "block drop out quick inet6 proto tcp from 2001:db8::1 port 1111 \
         to 2001:db8::2 port 2222\n"
    );
}

#[test]
fn mismatched_families_have_no_rule() {
    assert!(rule_for(&v4(192, 0, 2, 1, 1111), &v6(2, 2222)).is_none());
}

#[test]
fn filter_matches_outbound_rst_on_the_tuple() {
    let filter = build_rst_filter(v4(192, 0, 2, 1, 1111), v4(198, 51, 100, 2, 2222)).unwrap();
    assert_eq!(
        filter,
        "outbound and tcp.Rst and ip.SrcAddr == 192.0.2.1 and tcp.SrcPort == 1111 \
         and ip.DstAddr == 198.51.100.2 and tcp.DstPort == 2222"
    );
}

#[test]
fn mismatched_families_are_rejected() {
    let r = build_rst_filter(v4(192, 0, 2, 1, 1111), v6(2, 2222));
    assert!(r.is_err());
    assert_eq!(r.unwrap_err().message(), "src/dst addr family mismatch");
}

#[test]
fn v6_filter_names_ipv6() {
    assert_eq!(
        build_rst_filter(v6(1, 1), v6(2, 2)).unwrap(),
        "outbound and tcp.Rst and ipv6.SrcAddr == 2001:db8::1 and tcp.SrcPort == 1 \
         and ipv6.DstAddr == 2001:db8::2 and tcp.DstPort == 2"
    );
}

#[test]
fn setup_runs_to_the_end() {
    let mut setup = Setup::new(false);
    let mut commands = Vec::new();
    while let Some(c) = setup.command() {
        commands.push(c);
        // nothing is there to delete at first
        setup.step(commands.len() > 1);
    }
    assert_eq!(setup.stage, SetupStage::Ready);
    assert_eq!(commands.len(), 7);
    assert_eq!(commands[0], "delete table inet easytier_faketcp");
    assert_eq!(commands[1], "add table inet easytier_faketcp");
    assert_eq!(
        commands[2],
        "add set inet easytier_faketcp conns4 \
         { type ipv4_addr . inet_service . ipv4_addr . inet_service ; }"
    );
    assert_eq!(
        commands[6],
        "add rule inet easytier_faketcp output meta l4proto tcp \
         ip6 saddr . tcp sport . ip6 daddr . tcp dport @conns6 drop"
    );
    assert!(Setup::new(true).command().is_none());
}

#[test]
fn failed_setup_is_rolled_back() {
    let mut setup = Setup::new(false);
    setup.step(true);
    setup.step(true);
    setup.step(true);
    setup.step(false);
    assert_eq!(setup.command(), Some("delete table inet easytier_faketcp"));
    setup.step(true);
    assert_eq!(setup.stage, SetupStage::Failed);

    let mut setup = Setup::new(false);
    setup.step(true);
    setup.step(false);
    assert_eq!(setup.stage, SetupStage::Failed);
}

#[test]
fn cleanup_happens_once() {
    let mut ready = true;
    assert_eq!(nft::cleanup_all(&mut ready), Some("delete table inet easytier_faketcp"));
    assert_eq!(nft::cleanup_all(&mut ready), None);
}

#[test]
fn nft_guard_installs_and_withdraws() {
    let (mut guard, command) =
        nft::Guard::new(true, v4(192, 0, 2, 77, 11111), v4(198, 51, 100, 88, 22222));
    assert_eq!(
        command.unwrap(),
        "add element inet easytier_faketcp conns4 { 192.0.2.77 . 11111 . 198.51.100.88 . 22222 }"
    );
    assert_eq!(guard.withdrawal(), None);
    guard.on_installed(true);
    assert_eq!(
        guard.withdrawal().unwrap(),
        "delete element inet easytier_faketcp conns4 { 192.0.2.77 . 11111 . 198.51.100.88 . 22222 }"
    );
    assert!(nft::Guard::new(false, v6(1, 1), v6(2, 2)).1.is_none());
    assert!(nft::Guard::new(true, v6(1, 1), v4(1, 2, 3, 4, 2)).1.is_none());
}

#[test]
fn tunnel_guard_goes_by_the_local_family() {
    let (elem, set) = netfilter_guard::format_element(&v6(1, 1111), &v4(1, 2, 3, 4, 5));
    assert_eq!(elem, "2001:db8::1 . 1111 . 1.2.3.4 . 5");
    assert_eq!(set, "conns6");
    let (mut guard, command) = NftGuard::new(true, v6(1, 1), v6(2, 2));
    assert!(command.unwrap().starts_with("add element inet easytier_faketcp conns6 { "));
    guard.on_installed(true);
    assert!(guard.withdrawal().unwrap().starts_with("delete element "));
}

#[test]
fn program_failure_is_told() {
    assert_eq!(failure_text("nft", "exit status: 1", "  \n"), "nft exited with exit status: 1");
    assert_eq!(failure_text("nft", "exit status: 1", " no such table\n"), "no such table");
}

#[test]
fn pf_keeps_its_rules_in_order_and_its_reference_while_needed() {
    let mut pf = PfState::new();
    let (a, b) = (v4(192, 0, 2, 2, 1), v4(192, 0, 2, 1, 9));
    let peer = v4(198, 51, 100, 2, 2);
    assert_eq!(pf.begin(a, peer), PfStep::Enable);
    let rules = pf.on_enabled(Some("123".to_string()), a, peer);
    assert_eq!(rules, rule_for(&a, &peer).unwrap());
    let (first, release) = pf.on_loaded(a, peer, true);
    assert!(first.active && release.is_none());

    let both = match pf.begin(b, peer) {
        PfStep::Load(rules) => rules,
        other => panic!("{:?}", other),
    };
    assert_eq!(both, rule_for(&b, &peer).unwrap() + &rule_for(&a, &peer).unwrap());
    let (second, release) = pf.on_loaded(b, peer, false);
    assert!(!second.active && release.is_none());
    assert!(pf.withdraw(&second).is_none());

    let (rules, release) = pf.withdraw(&first).unwrap();
    assert_eq!(rules, "");
    assert_eq!(release, Some("123".to_string()));
    assert_eq!(pf.begin(v6(1, 1), peer), PfStep::Inactive);
}

#[test]
fn failed_first_rule_releases_pf() {
    let mut pf = PfState::new();
    let (a, peer) = (v4(192, 0, 2, 2, 1), v4(198, 51, 100, 2, 2));
    assert_eq!(pf.begin(a, peer), PfStep::Enable);
    pf.on_enabled(Some("t".to_string()), a, peer);
    let (guard, release) = pf.on_loaded(a, peer, false);
    assert!(!guard.active);
    assert_eq!(release, Some("t".to_string()));
    assert_eq!(pf.cleanup_all(), None);
}

#[test]
fn token_is_read_from_the_output() {
    assert_eq!(token_in("No ALTQ\nToken : 1234 \r\nToken : 5"), Some("1234".to_string()));
    assert_eq!(token_in("pf enabled\n"), None);
    assert_eq!(token_in(""), None);
}

#[test]
fn pf_guard_has_an_anchor_of_its_own() {
    let mut anchors = PfAnchors::new();
    assert!(anchors.needs_enabling());
    assert!(PfGuard::new(&mut anchors, v4(1, 2, 3, 4, 5), v4(1, 2, 3, 4, 6)).1.is_none());
    anchors.on_enabled(true);
    let (_, none) = PfGuard::new(&mut anchors, v4(1, 2, 3, 4, 5), v6(1, 6));
    assert!(none.is_none());
    let (mut guard, rule) = PfGuard::new(&mut anchors, v4(1, 2, 3, 4, 5), v4(1, 2, 3, 4, 6));
    assert_eq!(guard.anchor, "com.easytier.faketcp/1");
    assert_eq!(
        rule.unwrap(),
        "block drop out quick inet proto tcp from 1.2.3.4 port 5 to 1.2.3.4 port 6\n"
    );
    assert_eq!(guard.withdrawal(), None);
    guard.on_loaded(true);
    assert_eq!(guard.withdrawal().unwrap(), "com.easytier.faketcp/1");
}

#[test]
fn missing_filter_is_warned_of_once() {
    let mut warned = false;
    assert!(noop::Guard::new(v6(1, 1), v6(2, 2), &mut warned).1);
    assert!(!noop::Guard::new(v6(1, 1), v6(2, 2), &mut warned).1);
}

fn text(ip: IpAddr) -> String {
    let mut out = String::new();
    append_ip(&mut out, ip);
    out
}

#[test]
fn addresses_look_as_usual() {
    let six = |high, low| text(IpAddr::V6(Ipv6Addr { high, low }));
    assert_eq!(six(0, 0), "::");
    assert_eq!(six(0, 1), "::1");
    assert_eq!(six(0x2001_0db8_0000_0000, 0), "2001:db8::");
    assert_eq!(six(0x2001_0000_0000_0001, 0x0000_0000_0000_0001), "2001:0:0:1::1");
    assert_eq!(six(0x0001_0000_0002_0000, 0x0003_0000_0004_0000), "1:0:2:0:3:0:4:0");
    assert_eq!(six(0x0000_0000_0001_0002, 0x0003_0004_0000_0000), "::1:2:3:4:0:0");
    assert_eq!(six(0, 0x0000_ffff_c000_0201), "::ffff:192.0.2.1");
    assert_eq!(six(0, 0x0000_0000_c000_0201), "::c000:201");
    assert_eq!(text(v4(0, 10, 100, 255, 0).ip), "0.10.100.255");
    assert_eq!(decimal_text(0), "0");
    assert_eq!(decimal_text(u64::MAX), "18446744073709551615");
}

#[test]
fn only_dotted_addresses_are_read() {
    assert_eq!(parse_ipv4("192.0.2.1"), Some(Ipv4Addr { bits: 0xc0000201 }));
    assert_eq!(parse_ipv4("255.255.255.255"), Some(Ipv4Addr { bits: u32::MAX }));
    assert_eq!(parse_ipv4("0.0.0.0"), Some(Ipv4Addr { bits: 0 }));
    for wrong in [
        "", "1.2.3", "1.2.3.4.5", "256.0.0.1", "01.2.3.4", "1.2.3.4 ", " 1.2.3.4", "1..2.3", "a.b.c.d",
        "1.2.3.0004", "::1", "1.2.3.",
    ] {
        assert_eq!(parse_ipv4(wrong), None, "{wrong}");
    }
}

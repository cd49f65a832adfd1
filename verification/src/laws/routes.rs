//! Sending all traffic into the tunnel, and stopping to do so.

use crate::common::ifcfg::netlink::IpInet;
use crate::display;
use crate::instance::default_route;
use crate::instance::default_route::{DefaultRouteManager, NamedRoute, StaleCleanup, Step};
use crate::instance::default_route_macos;
use crate::instance::default_route_macos::DefaultRouteManager as HostRoutes;
use crate::instance::host::NativeInstanceEnvironment;
use crate::instance::runtime_host::tun_desktop;
use crate::instance::runtime_host::tun_desktop::{
    ApplyAction, Apply, DhcpEvent, PeerEvent, PeerReaction, StaticAction, StaticIp,
};
use crate::net::{IpAddr, Ipv4Addr};
use crate::text;
use vstd::prelude::*;

verus! {

// --- Policy routing ---

/// The step runs this command, and must or need not succeed.
pub open spec fn runs(s: Step, command: Seq<char>, required: bool) -> bool {
    s.command@ == command && s.required == required
}

proof fn lemma_step(s: Seq<Step>, i: int)
    requires
        0 <= i < s.len(),
    ensures
        default_route::steps_view(s).len() == s.len(),
        default_route::steps_view(s)[i] == (s[i].command@, s[i].required),
{
}

/// Activating turns forwarding and marks on, keeps the private, link-local, multicast and
/// broadcast networks out, and leads the rest into the tunnel. What is already active is not
/// activated again.
pub proof fn activation_fills_the_table(m: DefaultRouteManager, r: Vec<Step>)
    requires
        call_ensures(DefaultRouteManager::prepare, (&m,), r),
    ensures
        m.originals() is Some ==> r@.len() == 0,
        m.originals() is None ==> {
            &&& r@.len() == 9
            &&& runs(r@[0], "sysctl -w net.ipv4.ip_forward=1"@, true)
            &&& runs(r@[1], "sysctl -w net.ipv4.conf.all.src_valid_mark=1"@, true)
            &&& runs(r@[2], "ip route add throw "@ + "10.0.0.0/8"@ + " table 6846"@, false)
            &&& runs(r@[3], "ip route add throw "@ + "172.16.0.0/12"@ + " table 6846"@, false)
            &&& runs(r@[4], "ip route add throw "@ + "192.168.0.0/16"@ + " table 6846"@, false)
            &&& runs(r@[5], "ip route add throw "@ + "169.254.0.0/16"@ + " table 6846"@, false)
            &&& runs(r@[6], "ip route add throw "@ + "224.0.0.0/4"@ + " table 6846"@, false)
            &&& runs(r@[7], "ip route add throw "@ + "255.255.255.255/32"@ + " table 6846"@, false)
            &&& runs(r@[8], "ip route add default dev "@ + m.ifname() + " table 6846"@, true)
        },
{
    let v = default_route::steps_view(r@);
    assert(v.len() == r@.len());
    if m.originals() is None {
        assert(v == m.prepare_steps());
        assert(v.len() == 9);
        lemma_step(r@, 0);
        lemma_step(r@, 1);
        lemma_step(r@, 2);
        lemma_step(r@, 3);
        lemma_step(r@, 4);
        lemma_step(r@, 5);
        lemma_step(r@, 6);
        lemma_step(r@, 7);
        lemma_step(r@, 8);
    }
}

proof fn lemma_source_rules(ips: Seq<Ipv4Addr>, n: int)
    requires
        0 <= n <= ips.len(),
    ensures
        default_route::source_rules(ips, n).len() == n,
        forall|i: int|
            0 <= i < n ==> #[trigger] default_route::source_rules(ips, n)[i] == (
                "ip rule add from "@ + display::ipv4_text(ips[i]) + " table main prio 6839"@,
                false,
            ),
    decreases n,
{
    if n > 0 {
        lemma_source_rules(ips, n - 1);
    }
}

/// The rules: what comes from a physical address goes out as before, and so does what has a
/// route of its own; everything that is not marked goes into the tunnel; what is marked does
/// not.
pub proof fn rules_spare_what_is_marked(m: DefaultRouteManager, ips: Vec<Ipv4Addr>, r: Vec<Step>)
    requires
        call_ensures(DefaultRouteManager::rules, (&m, &ips), r),
    ensures
        ({
            let n = ips@.len() as int;
            let mark = "0x"@ + display::hex(m.mark() as int);
            &&& r@.len() == n + 4
            &&& forall|i: int|
                0 <= i < n ==> runs(
                    #[trigger] r@[i],
                    "ip rule add from "@ + display::ipv4_text(ips@[i]) + " table main prio 6839"@,
                    false,
                )
            &&& runs(r@[n], "ip rule add table main suppress_prefixlength 0 prio 6840"@, true)
            &&& runs(r@[n + 1], "ip rule add not fwmark "@ + mark + " table 6846 prio 6841"@, true)
            &&& runs(r@[n + 2], "ip rule add fwmark "@ + mark + " table main prio 6842"@, true)
            &&& runs(r@[n + 3], "ip rule add fwmark "@ + mark + " table default prio 6843"@, true)
        }),
{
    let n = ips@.len() as int;
    let v = default_route::steps_view(r@);
    lemma_source_rules(ips@, n);
    assert(v == m.rule_steps(ips@));
    assert(v.len() == r@.len());
    assert forall|i: int| 0 <= i < n implies runs(
        #[trigger] r@[i],
        "ip rule add from "@ + display::ipv4_text(ips@[i]) + " table main prio 6839"@,
        false,
    ) by {
        lemma_step(r@, i);
        assert(v[i] == default_route::source_rules(ips@, n)[i]);
    }
    lemma_step(r@, n);
    lemma_step(r@, n + 1);
    lemma_step(r@, n + 2);
    lemma_step(r@, n + 3);
}

proof fn lemma_deletions()
    ensures
        default_route::delete_rules_steps(5).len() == 5,
        forall|i: int|
            0 <= i < 5 ==> #[trigger] default_route::delete_rules_steps(5)[i] == (
                "ip rule del prio "@ + display::decimal(6839 + i),
                false,
            ),
{
    reveal_with_fuel(default_route::delete_rules_steps, 6);
}

/// Deactivating deletes the rules of all five priorities, empties the table, and sets both
/// settings back to what they were; none of it must succeed. It is done once.
pub proof fn deactivation_restores_the_settings(
    m: &mut DefaultRouteManager,
    u: &mut DefaultRouteManager,
    r: Vec<Step>,
    again: Vec<Step>,
    forward: Seq<char>,
    marks: Seq<char>,
)
    requires
        call_ensures(DefaultRouteManager::deactivate, (m,), r),
        call_ensures(DefaultRouteManager::deactivate, (u,), again),
        *old(u) == *final(m),
    ensures
        final(m).originals() is None,
        again@.len() == 0,
        old(m).originals() is None ==> r@.len() == 0,
        old(m).originals() == Some((forward, marks)) ==> {
            &&& r@.len() == 8
            &&& forall|i: int|
                0 <= i < 5 ==> runs(
                    #[trigger] r@[i],
                    "ip rule del prio "@ + display::decimal(6839 + i),
                    false,
                )
            &&& runs(r@[5], "ip route flush table 6846"@, false)
            &&& runs(r@[6], "sysctl -w net.ipv4.ip_forward="@ + forward, false)
            &&& runs(r@[7], "sysctl -w net.ipv4.conf.all.src_valid_mark="@ + marks, false)
        },
{
    lemma_deletions();
    let v = default_route::steps_view(r@);
    assert(v.len() == r@.len());
    assert(default_route::steps_view(again@).len() == again@.len());
    if old(m).originals() == Some((forward, marks)) {
        assert(v.len() == 8);
        assert forall|i: int| 0 <= i < 5 implies runs(
            #[trigger] r@[i],
            "ip rule del prio "@ + display::decimal(6839 + i),
            false,
        ) by {
            lemma_step(r@, i);
            assert(v[i] == default_route::delete_rules_steps(5)[i]);
        }
        lemma_step(r@, 5);
        lemma_step(r@, 6);
        lemma_step(r@, 7);
    }
}

/// What was is remembered once everything succeeded, and only a step that must succeed stops
/// the others.
pub proof fn activation_is_remembered(
    m: &mut DefaultRouteManager,
    forward: String,
    marks: String,
    name: String,
    mark: u32,
    fresh: DefaultRouteManager,
    active: bool,
    step: Step,
    ok: bool,
    on: bool,
)
    requires
        call_ensures(DefaultRouteManager::new, (name, mark), fresh),
        call_ensures(DefaultRouteManager::on_activated, (m, forward, marks), ()),
        call_ensures(DefaultRouteManager::is_active, (&*final(m),), active),
        call_ensures(default_route::proceeds, (&step, ok), on),
    ensures
        final(m).originals() == Some((forward@, marks@)),
        final(m).ifname() == old(m).ifname() && final(m).mark() == old(m).mark(),
        active,
        fresh.originals() is None && fresh.ifname() == name@ && fresh.mark() == mark,
        on == (ok || !step.required),
{
}

/// Stale rules are deleted at each priority until that fails, from the first to the last, and
/// then the table is emptied.
pub proof fn stale_rules_are_deleted(
    m: DefaultRouteManager,
    fresh: StaleCleanup,
    s: &mut StaleCleanup,
    ok: bool,
    r: Option<String>,
)
    requires
        call_ensures(DefaultRouteManager::cleanup_stale, (&m,), fresh),
        call_ensures(StaleCleanup::command, (&*old(s),), r),
        call_ensures(StaleCleanup::step, (s, ok), ()),
        0 <= old(s).stage(),
    ensures
        fresh.stage() == 0,
        ({
            let at = old(s).stage();
            &&& at < 5 ==> (r matches Some(c) && c@ == "ip rule del prio "@ + display::decimal(
                6839 + at,
            ))
            &&& at == 5 ==> (r matches Some(c) && c@ == "ip route flush table 6846"@)
            &&& at >= 6 ==> r is None && final(s).stage() == at
            &&& at < 5 && ok ==> final(s).stage() == at
            &&& (at < 5 && !ok) || at == 5 ==> final(s).stage() == at + 1
        }),
{
}

/// The script deletes the same rules and empties the same table.
pub proof fn script_deletes_the_rules(m: DefaultRouteManager, r: String)
    requires
        call_ensures(DefaultRouteManager::generate_cleanup_script, (&m,), r),
    ensures
        r@ == Seq::empty() + ("ip rule del prio "@ + display::decimal(6839)) + " 2>/dev/null;"@ + (
        "ip rule del prio "@ + display::decimal(6840)) + " 2>/dev/null;"@ + ("ip rule del prio "@
            + display::decimal(6841)) + " 2>/dev/null;"@ + ("ip rule del prio "@
            + display::decimal(6842)) + " 2>/dev/null;"@ + ("ip rule del prio "@
            + display::decimal(6843)) + " 2>/dev/null;"@
            + "ip route flush table 6846 2>/dev/null"@,
{
    reveal_with_fuel(default_route::script_text, 6);
}

/// The route that carries traffic now is the first IPv4 default route that has an interface
/// other than the tunnel's.
pub proof fn physical_route_is_the_first_default(routes: Vec<NamedRoute>, tun: &str, r: Option<usize>)
    requires
        call_ensures(default_route::physical_route, (&routes, tun), r),
    ensures
        r matches Some(i) ==> i < routes@.len() && leads_out(routes@[i as int], tun@) && forall|
            k: int,
        |
            0 <= k < i ==> !leads_out(#[trigger] routes@[k], tun@),
        r is None ==> forall|k: int| 0 <= k < routes@.len() ==> !leads_out(#[trigger] routes@[k], tun@),
{
    assert forall|k: int| 0 <= k < routes@.len() implies leads_out(#[trigger] routes@[k], tun@)
        == default_route::is_physical_default(routes@[k], tun@) by {}
    if r is None {
        assert(!default_route::some_physical_default(routes@, tun@));
    }
}

/// A default route over IPv4, with an interface that is not the tunnel's.
pub open spec fn leads_out(e: NamedRoute, tun: Seq<char>) -> bool {
    &&& e.destination matches IpAddr::V4(a) && a.bits == 0
    &&& e.prefix == 0
    &&& e.ifindex is Some
    &&& e.ifname matches Some(name) ==> name@ != tun
}

/// Of addresses the IPv4 ones are taken, in their order.
pub proof fn ipv4_addresses_are_taken(addrs: Seq<IpInet>, n: int)
    requires
        0 <= n < addrs.len(),
    ensures
        default_route::ipv4_of(addrs, 0).len() == 0,
        addrs[n].address matches IpAddr::V4(a) ==> default_route::ipv4_of(addrs, n + 1)
            == default_route::ipv4_of(addrs, n).push(a),
        addrs[n].address is V6 ==> default_route::ipv4_of(addrs, n + 1) == default_route::ipv4_of(
            addrs,
            n,
        ),
{
}

/// All addresses of an interface are looked at.
pub proof fn all_addresses_are_looked_at(addrs: Vec<IpInet>, r: Vec<Ipv4Addr>)
    requires
        call_ensures(default_route::ipv4_addresses, (&addrs,), r),
    ensures
        r@ == default_route::ipv4_of(addrs@, addrs@.len() as int),
{
}

// --- Two halves and host routes ---

/// The command that adds or deletes the route to a peer.
pub open spec fn peer_command(verb: Seq<char>, ip: Ipv4Addr, gateway: Seq<char>) -> Seq<char> {
    "route -n "@ + verb + " -host "@ + display::ipv4_text(ip) + " "@ + gateway
}

/// A peer's route is added for its first connection and deleted with its last one; between
/// them connections are only counted. While inactive nothing happens.
pub proof fn peer_route_is_kept_while_needed(
    m: &mut HostRoutes,
    u: &mut HostRoutes,
    ip: Ipv4Addr,
    other: Ipv4Addr,
    added: Option<String>,
    removed: Option<String>,
)
    requires
        call_ensures(HostRoutes::add_peer_route, (m, ip), added),
        call_ensures(HostRoutes::remove_peer_route, (u, ip), removed),
        *old(u) == *final(m),
        other != ip,
        0 <= default_route_macos::count_of(old(m).peers(), ip),
        0 <= default_route_macos::count_of(old(m).peers(), other),
    ensures
        ({
            let before = default_route_macos::count_of(old(m).peers(), ip);
            let on = old(m).active();
            &&& added is Some == (on && before == 0)
            &&& removed is Some == added is Some
            &&& added matches Some(c) ==> c@ == peer_command("add"@, ip, old(m).gateway())
            &&& removed matches Some(c) ==> c@ == peer_command("delete"@, ip, old(m).gateway())
            &&& on ==> default_route_macos::count_of(final(m).peers(), ip) == before + 1
            &&& on ==> default_route_macos::count_of(final(u).peers(), ip) == before
            &&& on ==> default_route_macos::count_of(final(m).peers(), other)
                == default_route_macos::count_of(old(m).peers(), other)
            &&& on ==> default_route_macos::count_of(final(u).peers(), other)
                == default_route_macos::count_of(old(m).peers(), other)
            &&& final(m).active() == on && final(u).active() == on
        }),
{
}

/// A connection that is lost without having been counted changes nothing.
pub proof fn unknown_peer_is_not_removed(m: &mut HostRoutes, ip: Ipv4Addr, r: Option<String>)
    requires
        call_ensures(HostRoutes::remove_peer_route, (m, ip), r),
        default_route_macos::count_of(old(m).peers(), ip) == 0,
    ensures
        r is None,
        old(m).active() ==> default_route_macos::count_of(final(m).peers(), ip) == 0,
{
}

/// Both halves of the address space lead into the tunnel.
pub proof fn halves_lead_into_the_tunnel(m: HostRoutes, r: Vec<String>)
    requires
        call_ensures(HostRoutes::capture, (&m,), r),
    ensures
        r@.len() == 2,
        r@[0]@ == "route -n "@ + "add"@ + " -net 0.0.0.0/1 -interface "@ + m.ifname(),
        r@[1]@ == "route -n "@ + "add"@ + " -net 128.0.0.0/1 -interface "@ + m.ifname(),
{
    let t = text::texts(r@);
    assert(t == m.halves("add"@));
    assert(t.len() == r@.len());
    assert(t[0] == r@[0]@ && t[1] == r@[1]@);
}

proof fn lemma_host_routes(ips: Seq<Ipv4Addr>, gateway: Seq<char>, n: int)
    requires
        0 <= n <= ips.len(),
    ensures
        default_route_macos::delete_host_routes(ips, gateway, n).len() == n,
        forall|i: int|
            0 <= i < n ==> #[trigger] default_route_macos::delete_host_routes(ips, gateway, n)[i]
                == peer_command("delete"@, ips[i], gateway),
    decreases n,
{
    if n > 0 {
        lemma_host_routes(ips, gateway, n - 1);
    }
}

/// Deactivating deletes both halves and then the route of every peer, once.
pub proof fn deactivation_deletes_every_route(
    m: &mut HostRoutes,
    u: &mut HostRoutes,
    r: Vec<String>,
    again: Vec<String>,
)
    requires
        call_ensures(HostRoutes::deactivate, (m,), r),
        call_ensures(HostRoutes::deactivate, (u,), again),
        *old(u) == *final(m),
    ensures
        !final(m).active(),
        again@.len() == 0,
        !old(m).active() ==> r@.len() == 0,
        old(m).active() ==> {
            let peers = old(m).peers();
            &&& r@.len() == 2 + peers.len()
            &&& r@[0]@ == "route -n "@ + "delete"@ + " -net 0.0.0.0/1 -interface "@ + old(
                m,
            ).ifname()
            &&& r@[1]@ == "route -n "@ + "delete"@ + " -net 128.0.0.0/1 -interface "@ + old(
                m,
            ).ifname()
            &&& forall|i: int|
                0 <= i < peers.len() ==> (#[trigger] r@[2 + i])@ == peer_command(
                    "delete"@,
                    peers[i].ip,
                    old(m).gateway(),
                )
        },
{
    let t = text::texts(r@);
    assert(t.len() == r@.len());
    assert(text::texts(again@).len() == again@.len());
    if old(m).active() {
        let peers = old(m).peers();
        let ips = default_route_macos::addresses(peers);
        let d = default_route_macos::delete_host_routes(
            ips,
            old(m).gateway(),
            peers.len() as int,
        );
        lemma_host_routes(ips, old(m).gateway(), peers.len() as int);
        assert(t[0] == r@[0]@ && t[1] == r@[1]@);
        assert forall|i: int| 0 <= i < peers.len() implies (#[trigger] r@[2 + i])@ == peer_command(
            "delete"@,
            peers[i].ip,
            old(m).gateway(),
        ) by {
            assert(t[2 + i] == r@[2 + i]@);
            assert(t[2 + i] == d[i]);
            assert(ips[i] == peers[i].ip);
        }
    }
}

/// Activating begins without peers and with the gateway that was found; a second time it
/// changes nothing.
pub proof fn activation_begins_without_peers(
    m: &mut HostRoutes,
    gateway: String,
    interface: String,
    name: String,
    fresh: HostRoutes,
    active: bool,
)
    requires
        call_ensures(HostRoutes::new, (name,), fresh),
        call_ensures(HostRoutes::begin, (m, gateway, interface), ()),
        call_ensures(HostRoutes::is_active, (&*final(m),), active),
    ensures
        active,
        final(m).ifname() == old(m).ifname(),
        !old(m).active() ==> final(m).gateway() == gateway@ && final(m).peers().len() == 0,
        old(m).active() ==> final(m).gateway() == old(m).gateway() && final(m).peers()
            == old(m).peers(),
        !fresh.active() && fresh.ifname() == name@,
{
}

/// The script deletes both halves, and behind them the route of each peer.
pub proof fn script_deletes_every_route(
    m: HostRoutes,
    r: String,
    ips: Seq<Ipv4Addr>,
    gateway: Seq<char>,
    n: int,
)
    requires
        call_ensures(HostRoutes::generate_cleanup_script, (&m,), r),
        0 < n <= ips.len(),
    ensures
        ({
            let head = "route -n "@ + "delete"@ + " -net 0.0.0.0/1 -interface "@ + m.ifname()
                + " 2>/dev/null;"@ + ("route -n "@ + "delete"@ + " -net 128.0.0.0/1 -interface "@
                + m.ifname()) + " 2>/dev/null;"@;
            &&& !m.active() ==> r@ == head
            &&& m.active() ==> r@ == head + default_route_macos::delete_host_routes_script(
                default_route_macos::addresses(m.peers()),
                m.gateway(),
                m.peers().len() as int,
            )
            &&& default_route_macos::delete_host_routes_script(ips, gateway, 0).len() == 0
            &&& default_route_macos::delete_host_routes_script(ips, gateway, n)
                == default_route_macos::delete_host_routes_script(ips, gateway, n - 1)
                + peer_command("delete"@, ips[n - 1], gateway) + " 2>/dev/null;"@
        }),
{
    let head = "route -n "@ + "delete"@ + " -net 0.0.0.0/1 -interface "@ + m.ifname()
        + " 2>/dev/null;"@ + ("route -n "@ + "delete"@ + " -net 128.0.0.0/1 -interface "@
        + m.ifname()) + " 2>/dev/null;"@;
    assert(head + Seq::<char>::empty() =~= head);
}

/// Of the lines that begin with a key the last one counts, and its value is what stands
/// behind the key, without white space around it.
pub proof fn last_line_with_the_key_counts(
    lines: Seq<Seq<char>>,
    line: Seq<char>,
    key: Seq<char>,
    value: Seq<char>,
)
    ensures
        default_route_macos::last_value(Seq::empty(), key) is None,
        text::trimmed(line) == key + value ==> default_route_macos::last_value(
            lines.push(line),
            key,
        ) == Some(text::trimmed(value)),
        !text::has_prefix(text::trimmed(line), key) ==> default_route_macos::last_value(
            lines.push(line),
            key,
        ) == default_route_macos::last_value(lines, key),
{
    assert(lines.push(line).drop_last() =~= lines);
    if text::trimmed(line) == key + value {
        assert((key + value).take(key.len() as int) =~= key);
        assert((key + value).skip(key.len() as int) =~= value);
    }
}

/// The default route is known where both its gateway and its interface are.
pub proof fn default_route_is_read(output: &str, r: Option<(String, String)>)
    requires
        call_ensures(default_route_macos::parse_default_route, (output,), r),
    ensures
        ({
            let all = text::lines_of(output@);
            let g = default_route_macos::last_value(all, "gateway:"@);
            let i = default_route_macos::last_value(all, "interface:"@);
            &&& r is Some == (g is Some && i is Some)
            &&& r matches Some((gateway, interface)) ==> Some(gateway@) == g && Some(interface@)
                == i
        }),
{
}

/// A peer is known by the IPv4 address that its URL has as host.
pub proof fn peer_is_known_by_its_address(
    url: crate::locator::UrlParts,
    r: Option<Ipv4Addr>,
    a: Ipv4Addr,
)
    requires
        call_ensures(default_route_macos::extract_ipv4_from_url, (&url,), r),
    ensures
        url.host matches Some(h) && h@ == display::ipv4_text(a) ==> r == Some(a),
        r matches Some(b) ==> (url.host matches Some(h) && h@ == display::ipv4_text(b)),
{
    if let Some(h) = url.host {
        if h@ == display::ipv4_text(a) {
            assert(default_route_macos::host_is(crate::locator::parts_view(url).0, a));
            if let Some(b) = r {
                display::ipv4_text_is_unique(a, b);
            }
        }
    }
}

// --- Peers ---

/// The addresses of peers: those of the hosts that are IPv4 addresses, in the order of the
/// hosts.
pub proof fn hosts_give_their_addresses(
    hosts: Seq<Option<Seq<char>>>,
    out: Seq<Ipv4Addr>,
    host: Option<Seq<char>>,
    a: Ipv4Addr,
)
    ensures
        tun_desktop::ipv4_hosts(Seq::empty(), out) == (out.len() == 0),
        host == Some(display::ipv4_text(a)) && tun_desktop::ipv4_hosts(hosts, out)
            ==> tun_desktop::ipv4_hosts(hosts.push(host), out.push(a)),
        host == Some(display::ipv4_text(a)) && tun_desktop::ipv4_hosts(hosts.push(host), out)
            ==> out.len() > 0 && out.last() == a && tun_desktop::ipv4_hosts(hosts, out.drop_last()),
        (forall|b: Ipv4Addr| host != Some(#[trigger] display::ipv4_text(b)))
            ==> tun_desktop::ipv4_hosts(hosts.push(host), out) == tun_desktop::ipv4_hosts(
            hosts,
            out,
        ),
{
    assert(hosts.push(host).drop_last() =~= hosts);
    assert(hosts.push(host).last() == host);
    assert(out.push(a).drop_last() =~= out);
    if host == Some(display::ipv4_text(a)) {
        assert(default_route_macos::host_is(host, a));
        if tun_desktop::ipv4_hosts(hosts.push(host), out) {
            display::ipv4_text_is_unique(a, out.last());
        }
    }
    if forall|b: Ipv4Addr| host != Some(#[trigger] display::ipv4_text(b)) {
        assert forall|b: Ipv4Addr| !#[trigger] default_route_macos::host_is(host, b) by {
            assert(host != Some(display::ipv4_text(b)));
        }
    }
}

/// Configured peers come before connected ones.
pub proof fn configured_peers_come_first(
    config: Vec<crate::locator::UrlParts>,
    connected: Vec<String>,
    i: int,
)
    ensures
        ({
            let hosts = tun_desktop::peer_hosts(config@, connected@);
            &&& hosts.len() == config@.len() + connected@.len()
            &&& 0 <= i < config@.len() ==> (config@[i].host matches Some(h) ==> hosts[i] == Some(
                h@,
            )) && (config@[i].host is None ==> hosts[i] is None)
            &&& 0 <= i < connected@.len() ==> hosts[config@.len() + i]
                == default_route_macos::text_host(connected@[i]@)
        }),
{
}

/// The default route is kept where it was asked for and activated; DHCP tells a conflict
/// where no address is asked for; an instance is watched only with an address.
pub proof fn decisions_of_an_instance(
    enabled: bool,
    activated: bool,
    kept: bool,
    previous: Option<IpInet>,
    requested: Option<IpInet>,
    actual: Option<IpInet>,
    event: DhcpEvent,
    v4: bool,
    v6: bool,
    watched: Option<StaticIp>,
    no_tun: bool,
    closing: bool,
    apply: Apply,
)
    requires
        call_ensures(tun_desktop::keeps_default_route, (enabled, activated), kept),
        call_ensures(tun_desktop::publish_dhcp_ipv4, (previous, requested, actual), event),
        call_ensures(StaticIp::new, (v4, v6), watched),
        call_ensures(Apply::new, (requested, no_tun, closing), apply),
    ensures
        kept == (enabled && activated),
        requested is None ==> (event matches DhcpEvent::Conflicted { previous: p } && p
            == previous),
        requested is Some ==> (event matches DhcpEvent::Changed { previous: p, actual: a } && p
            == previous && a == actual),
        watched is Some == (v4 || v6),
        watched matches Some(s) ==> s.has_ipv4 == v4 && s.unreported && s.next
            == StaticAction::RunNic,
        apply.address == requested && apply.no_tun == no_tun,
        apply.next == if closing {
            ApplyAction::Cancelled
        } else {
            ApplyAction::Drain
        },
{
}

/// A peer that comes has its route added with its first connection, and every connection
/// counted.
#[verifier::spinoff_prover]
pub proof fn peer_that_comes_gets_its_route(
    m: &mut HostRoutes,
    r: PeerReaction,
    a: Ipv4Addr,
    url: String,
)
    requires
        call_ensures(tun_desktop::on_peer_event, (m, &PeerEvent::Added(Some(url))), r),
        default_route_macos::text_host(url@) == Some(display::ipv4_text(a)),
    ensures
        ({
            let before = default_route_macos::count_of(old(m).peers(), a);
            let after = default_route_macos::count_of(final(m).peers(), a);
            &&& !old(m).active() ==> r == PeerReaction::Nothing
            &&& old(m).active() ==> after == before + 1
            &&& old(m).active() && before > 0 ==> r == PeerReaction::Nothing
            &&& old(m).active() && before == 0 ==> (r matches PeerReaction::Run(c) && c@
                == peer_command("add"@, a, old(m).gateway()))
        }),
{
    assert(tun_desktop::names_peer(Some(url), a));
}

/// A peer that goes has its route deleted with its last connection.
#[verifier::spinoff_prover]
pub proof fn peer_that_goes_loses_its_route(
    m: &mut HostRoutes,
    r: PeerReaction,
    a: Ipv4Addr,
    url: String,
)
    requires
        call_ensures(tun_desktop::on_peer_event, (m, &PeerEvent::Removed(Some(url))), r),
        default_route_macos::text_host(url@) == Some(display::ipv4_text(a)),
    ensures
        ({
            let before = default_route_macos::count_of(old(m).peers(), a);
            let after = default_route_macos::count_of(final(m).peers(), a);
            &&& !old(m).active() ==> r == PeerReaction::Nothing
            &&& old(m).active() && before > 0 ==> after == before - 1
            &&& old(m).active() && before != 1 ==> r == PeerReaction::Nothing
            &&& old(m).active() && before == 1 ==> (r matches PeerReaction::Run(c) && c@
                == peer_command("delete"@, a, old(m).gateway()))
        }),
{
    assert(tun_desktop::names_peer(Some(url), a));
}

/// Other news leaves the routes as they are, and the end of the news ends the watch.
#[verifier::spinoff_prover]
pub proof fn other_news_leaves_the_routes(m: &mut HostRoutes, event: PeerEvent, r: PeerReaction)
    requires
        call_ensures(tun_desktop::on_peer_event, (m, &event), r),
        event is Over || event is Other,
    ensures
        event is Over ==> r == PeerReaction::Stop,
        event is Other ==> r == PeerReaction::Nothing,
        final(m).active() == old(m).active(),
        old(m).active() ==> final(m).peers() == old(m).peers() && final(m).gateway()
            == old(m).gateway(),
{
}

/// Sockets are marked where the instance takes the default route, and an address is local
/// where it is the instance's own or the host's.
pub proof fn sockets_are_marked_with_the_default_route(
    default_route: bool,
    mark: u32,
    netns: Option<String>,
    e: NativeInstanceEnvironment,
    own: bool,
    host: bool,
    local: bool,
)
    requires
        call_ensures(NativeInstanceEnvironment::new, (default_route, mark, netns), e),
        call_ensures(NativeInstanceEnvironment::is_local_ip, (&e, own, host), local),
    ensures
        default_route ==> e.context().socket_mark == Some(mark),
        !default_route ==> e.context().socket_mark is None,
        e.context().netns == netns,
        local == (own || host),
{
}

/// The peers to begin with are those of the configuration and of the connections.
pub proof fn first_peers_are_known(
    config: Vec<crate::locator::UrlParts>,
    connected: Vec<String>,
    r: Vec<Ipv4Addr>,
    m: HostRoutes,
    ip: Ipv4Addr,
    room: bool,
)
    requires
        call_ensures(tun_desktop::initial_peer_ips, (&config, &connected), r),
        call_ensures(HostRoutes::can_count, (&m, ip), room),
    ensures
        tun_desktop::ipv4_hosts(tun_desktop::peer_hosts(config@, connected@), r@),
        room == (!m.active() || default_route_macos::count_of(m.peers(), ip) < usize::MAX),
{
}

/// What is reported of failures and of closing.
pub proof fn reports_are_worded(
    parse: &'static str,
    static_ip: &'static str,
    dhcp: &'static str,
    e: NativeInstanceEnvironment,
    c: &crate::instance::host::SocketContext,
)
    requires
        call_ensures(default_route_macos::parse_failure, (), parse),
        call_ensures(tun_desktop::static_ip_cancelled, (), static_ip),
        call_ensures(tun_desktop::dhcp_cancelled, (), dhcp),
        call_ensures(NativeInstanceEnvironment::socket_context, (&e,), c),
    ensures
        parse@ == "failed to parse default route (gateway or interface not found)"@,
        static_ip@ == "instance is closing; static IP setup cancelled"@,
        dhcp@ == "instance is closing; DHCP update cancelled"@,
        *c == e.context(),
{
}

} // verus!

//! Sends all traffic into the tunnel with two routes that together cover every address,
//! and to the peers by host routes.
//!
//! The routes are more specific than the default route, which stays in place. They go with
//! the tunnel's interface.

use crate::display;
use crate::display::{append_ipv4, parse_ipv4};
use crate::locator;
use crate::locator::{parse_url, UrlParts};
use crate::net::Ipv4Addr;
use crate::text;
use crate::text::{joined_text, lines, push_text, strip_prefix, trim};
use vstd::prelude::*;
use vstd::string::*;

verus! {

/// A peer's host route and the number of connections that need it.
#[derive(Debug, Clone, Copy, PartialEq, Eq, Structural)]
pub struct PeerRoute {
    pub ip: Ipv4Addr,
    pub count: usize,
}

/// The number of connections that need the route to `ip`.
pub open spec fn count_of(s: Seq<PeerRoute>, ip: Ipv4Addr) -> int
    decreases s.len(),
{
    if s.len() == 0 {
        0
    } else if s.last().ip == ip {
        s.last().count as int
    } else {
        count_of(s.drop_last(), ip)
    }
}

/// The addresses that have routes.
pub open spec fn addresses(s: Seq<PeerRoute>) -> Seq<Ipv4Addr> {
    s.map_values(|r: PeerRoute| r.ip)
}

/// Every route is there once and is needed.
pub open spec fn routes_are_sound(s: Seq<PeerRoute>) -> bool {
    &&& forall|i: int, j: int|
        0 <= i < j < s.len() ==> (#[trigger] s[i]).ip != (#[trigger] s[j]).ip
    &&& forall|i: int| 0 <= i < s.len() ==> (#[trigger] s[i]).count > 0
}

proof fn lemma_count_at(s: Seq<PeerRoute>, i: int)
    requires
        routes_are_sound(s),
        0 <= i < s.len(),
    ensures
        count_of(s, s[i].ip) == s[i].count,
    decreases s.len(),
{
    if i < s.len() - 1 {
        assert(s[i].ip != s[s.len() - 1].ip);
        assert(s.drop_last()[i] == s[i]);
        lemma_count_at(s.drop_last(), i);
    }
}

proof fn lemma_count_absent(s: Seq<PeerRoute>, ip: Ipv4Addr)
    requires
        forall|i: int| 0 <= i < s.len() ==> (#[trigger] s[i]).ip != ip,
    ensures
        count_of(s, ip) == 0,
    decreases s.len(),
{
    if s.len() > 0 {
        assert(s[s.len() - 1].ip != ip);
        assert forall|i: int| 0 <= i < s.drop_last().len() implies (
        #[trigger] s.drop_last()[i]).ip != ip by {
            assert(s.drop_last()[i] == s[i]);
        }
        lemma_count_absent(s.drop_last(), ip);
    }
}

/// What is known of an address from the routes: its count where it has one, otherwise
/// none.
proof fn lemma_count_cases(s: Seq<PeerRoute>, ip: Ipv4Addr)
    requires
        routes_are_sound(s),
    ensures
        (exists|i: int| 0 <= i < s.len() && (#[trigger] s[i]).ip == ip && count_of(s, ip)
            == s[i].count) || (count_of(s, ip) == 0 && forall|i: int|
            0 <= i < s.len() ==> (#[trigger] s[i]).ip != ip),
{
    if exists|i: int| 0 <= i < s.len() && (#[trigger] s[i]).ip == ip {
        let i = choose|i: int| 0 <= i < s.len() && (#[trigger] s[i]).ip == ip;
        lemma_count_at(s, i);
    } else {
        lemma_count_absent(s, ip);
    }
}

fn position(routes: &Vec<PeerRoute>, ip: Ipv4Addr) -> (r: Option<usize>)
    ensures
        match r {
            Some(i) => i < routes@.len() && routes@[i as int].ip == ip,
            None => forall|i: int| 0 <= i < routes@.len() ==> (#[trigger] routes@[i]).ip != ip,
        },
{
    let mut i: usize = 0;
    while i < routes.len()
        invariant
            i <= routes@.len(),
            forall|k: int| 0 <= k < i ==> (#[trigger] routes@[k]).ip != ip,
        decreases routes@.len() - i,
    {
        if routes[i].ip == ip {
            return Some(i);
        }
        i += 1;
    }
    None
}

/// The way out before traffic was sent into the tunnel, and the peers' routes.
pub struct ActiveState {
    original_gateway: String,
    original_interface: String,
    peer_host_routes: Vec<PeerRoute>,
}

/// Sends traffic into the tunnel, and stops doing so.
pub struct DefaultRouteManager {
    tun_ifname: String,
    state: Option<ActiveState>,
}

/// The command that adds or deletes the route to a peer.
pub open spec fn host_route_text(verb: Seq<char>, ip: Ipv4Addr, gateway: Seq<char>) -> Seq<char> {
    "route -n "@ + verb + " -host "@ + display::ipv4_text(ip) + " "@ + gateway
}

fn host_route(verb: &str, ip: Ipv4Addr, gateway: &str) -> (r: String)
    ensures
        r@ == host_route_text(verb@, ip, gateway@),
{
    let mut out = String::new();
    out.append("route -n ");
    out.append(verb);
    out.append(" -host ");
    append_ipv4(&mut out, ip);
    out.append(" ");
    out.append(gateway);
    assert(out@ =~= host_route_text(verb@, ip, gateway@));
    out
}

/// The commands that delete the routes to the first `n` peers.
pub open spec fn delete_host_routes(ips: Seq<Ipv4Addr>, gateway: Seq<char>, n: int) -> Seq<
    Seq<char>,
>
    decreases n,
{
    if n <= 0 {
        Seq::empty()
    } else {
        delete_host_routes(ips, gateway, n - 1).push(
            host_route_text("delete"@, ips[n - 1], gateway),
        )
    }
}

/// The same in a script.
pub open spec fn delete_host_routes_script(ips: Seq<Ipv4Addr>, gateway: Seq<char>, n: int) -> Seq<
    char,
>
    decreases n,
{
    if n <= 0 {
        Seq::empty()
    } else {
        delete_host_routes_script(ips, gateway, n - 1) + host_route_text(
            "delete"@,
            ips[n - 1],
            gateway,
        ) + " 2>/dev/null;"@
    }
}

impl DefaultRouteManager {
    /// The tunnel's interface.
    pub closed spec fn ifname(self) -> Seq<char> {
        self.tun_ifname@
    }

    /// Traffic goes into the tunnel.
    pub closed spec fn active(self) -> bool {
        self.state is Some
    }

    /// The gateway through which peers are reached, while active.
    pub closed spec fn gateway(self) -> Seq<char> {
        self.state->0.original_gateway@
    }

    /// The routes to peers, while active.
    pub closed spec fn peers(self) -> Seq<PeerRoute> {
        self.state->0.peer_host_routes@
    }

    pub open spec fn well_formed(self) -> bool {
        self.active() ==> routes_are_sound(self.peers())
    }

    /// Nothing but the routes to peers differs.
    pub open spec fn same_but_peers(self, other: DefaultRouteManager) -> bool {
        &&& self.ifname() == other.ifname()
        &&& self.active() == other.active()
        &&& self.active() ==> self.gateway() == other.gateway()
    }

    /// Traffic goes where it always went.
    pub fn new(tun_ifname: String) -> (r: Self)
        ensures
            r.well_formed(),
            r.ifname() == tun_ifname@,
            !r.active(),
    {
        DefaultRouteManager { tun_ifname, state: None }
    }

    /// Whether one more connection to a peer can be counted.
    pub fn can_count(&self, peer_ip: Ipv4Addr) -> (r: bool)
        requires
            self.well_formed(),
        ensures
            r == (self.active() ==> count_of(self.peers(), peer_ip) < usize::MAX),
    {
        match &self.state {
            None => true,
            Some(state) => {
                let ghost routes = state.peer_host_routes@;
                match position(&state.peer_host_routes, peer_ip) {
                    Some(i) => {
                        proof {
                            lemma_count_at(routes, i as int);
                        }
                        state.peer_host_routes[i].count < usize::MAX
                    },
                    None => {
                        proof {
                            lemma_count_absent(routes, peer_ip);
                        }
                        true
                    },
                }
            },
        }
    }

    /// Whether traffic goes into the tunnel.
    pub fn is_active(&self) -> (r: bool)
        ensures
            r == self.active(),
    {
        self.state.is_some()
    }

    /// Begins to activate, by the gateway and the interface of the default route. The
    /// routes to known peers come next, so that the tunnel's own traffic never goes
    /// through the tunnel, and `capture` last. An active manager stays as it is.
    pub fn begin(&mut self, gateway: String, interface: String)
        requires
            old(self).well_formed(),
        ensures
            final(self).well_formed(),
            final(self).ifname() == old(self).ifname(),
            final(self).active(),
            if old(self).active() {
                final(self).gateway() == old(self).gateway() && final(self).peers() == old(
                    self,
                ).peers()
            } else {
                final(self).gateway() == gateway@ && final(self).peers().len() == 0
            },
    {
        if self.state.is_some() {
            return;
        }
        self.state = Some(
            ActiveState {
                original_gateway: gateway,
                original_interface: interface,
                peer_host_routes: Vec::new(),
            },
        );
    }

    /// The commands that add the two routes into the tunnel, or delete them.
    pub open spec fn halves(self, verb: Seq<char>) -> Seq<Seq<char>> {
        seq![
            "route -n "@ + verb + " -net 0.0.0.0/1 -interface "@ + self.ifname(),
            "route -n "@ + verb + " -net 128.0.0.0/1 -interface "@ + self.ifname(),
        ]
    }

    fn half(&self, verb: &str, middle: &str) -> (r: String)
        ensures
            r@ == "route -n "@ + verb@ + middle@ + self.ifname(),
    {
        let mut out = String::new();
        out.append("route -n ");
        out.append(verb);
        out.append(middle);
        out.append(self.tun_ifname.as_str());
        assert(out@ =~= "route -n "@ + verb@ + middle@ + self.ifname());
        out
    }

    /// The commands that send all traffic into the tunnel, each of which must succeed.
    pub fn capture(&self) -> (r: Vec<String>)
        ensures
            text::texts(r@) == self.halves("add"@),
    {
        let mut out: Vec<String> = Vec::new();
        assert(text::texts(out@) =~= Seq::empty());
        push_text(&mut out, self.half("add", " -net 0.0.0.0/1 -interface "));
        push_text(&mut out, self.half("add", " -net 128.0.0.0/1 -interface "));
        assert(text::texts(out@) =~= self.halves("add"@));
        out
    }

    /// A connection to a peer was made: the command that adds the route to it, if it is
    /// the first connection to its address.
    pub fn add_peer_route(&mut self, peer_ip: Ipv4Addr) -> (r: Option<String>)
        requires
            old(self).well_formed(),
            old(self).active() ==> count_of(old(self).peers(), peer_ip) < usize::MAX,
        ensures
            final(self).well_formed(),
            final(self).same_but_peers(*old(self)),
            r is Some == (old(self).active() && count_of(old(self).peers(), peer_ip) == 0),
            r matches Some(c) ==> c@ == host_route_text("add"@, peer_ip, old(self).gateway()),
            old(self).active() ==> {
                &&& addresses(final(self).peers()) == if r is Some {
                    addresses(old(self).peers()).push(peer_ip)
                } else {
                    addresses(old(self).peers())
                }
                &&& forall|x: Ipv4Addr| #[trigger]
                    count_of(final(self).peers(), x) == count_of(old(self).peers(), x) + if x
                        == peer_ip {
                        1int
                    } else {
                        0
                    }
            },
    {
        match &mut self.state {
            None => None,
            Some(state) => {
                let ghost before = state.peer_host_routes@;
                match position(&state.peer_host_routes, peer_ip) {
                    Some(i) => {
                        proof {
                            lemma_count_at(before, i as int);
                        }
                        let count: usize = state.peer_host_routes[i].count;
                        state.peer_host_routes[i] = PeerRoute { ip: peer_ip, count: count + 1 };
                        let ghost after = state.peer_host_routes@;
                        proof {
                            lemma_counts_after_update(before, after, i as int);
                            assert(addresses(after) =~= addresses(before));
                        }
                        None
                    },
                    None => {
                        state.peer_host_routes.push(PeerRoute { ip: peer_ip, count: 1 });
                        let ghost after = state.peer_host_routes@;
                        proof {
                            lemma_count_absent(before, peer_ip);
                            assert(after.drop_last() =~= before);
                            assert(addresses(after) =~= addresses(before).push(peer_ip));
                        }
                        Some(host_route("add", peer_ip, state.original_gateway.as_str()))
                    },
                }
            },
        }
    }

    /// A connection to a peer was lost: the command that deletes the route to it, if it
    /// was the last connection to its address.
    pub fn remove_peer_route(&mut self, peer_ip: Ipv4Addr) -> (r: Option<String>)
        requires
            old(self).well_formed(),
        ensures
            final(self).well_formed(),
            final(self).same_but_peers(*old(self)),
            r is Some == (old(self).active() && count_of(old(self).peers(), peer_ip) == 1),
            r matches Some(c) ==> c@ == host_route_text("delete"@, peer_ip, old(self).gateway()),
            old(self).active() ==> {
                &&& r is None ==> addresses(final(self).peers()) == addresses(old(self).peers())
                &&& r is Some ==> exists|i: int|
                    0 <= i < old(self).peers().len() && addresses(old(self).peers())[i] == peer_ip
                        && addresses(final(self).peers()) == #[trigger] addresses(
                        old(self).peers(),
                    ).remove(i)
                &&& forall|x: Ipv4Addr| #[trigger]
                    count_of(final(self).peers(), x) == count_of(old(self).peers(), x) - if x
                        == peer_ip && count_of(old(self).peers(), x) > 0 {
                        1int
                    } else {
                        0
                    }
            },
    {
        match &mut self.state {
            None => None,
            Some(state) => {
                let ghost before = state.peer_host_routes@;
                match position(&state.peer_host_routes, peer_ip) {
                    Some(i) => {
                        proof {
                            lemma_count_at(before, i as int);
                        }
                        let count: usize = state.peer_host_routes[i].count;
                        if count > 1 {
                            state.peer_host_routes[i] = PeerRoute {
                                ip: peer_ip,
                                count: count - 1,
                            };
                            let ghost after = state.peer_host_routes@;
                            proof {
                                lemma_counts_after_update(before, after, i as int);
                                assert(addresses(after) =~= addresses(before));
                            }
                            None
                        } else {
                            let _ = state.peer_host_routes.remove(i);
                            let ghost after = state.peer_host_routes@;
                            proof {
                                assert(after =~= before.remove(i as int));
                                assert(addresses(after) =~= addresses(before).remove(i as int));
                                lemma_counts_after_removal(before, i as int);
                            }
                            Some(host_route("delete", peer_ip, state.original_gateway.as_str()))
                        }
                    },
                    None => {
                        proof {
                            lemma_count_absent(before, peer_ip);
                        }
                        None
                    },
                }
            },
        }
    }

    /// The commands that undo everything. None if traffic does not go into the tunnel.
    pub fn deactivate(&mut self) -> (r: Vec<String>)
        requires
            old(self).well_formed(),
        ensures
            final(self).well_formed(),
            final(self).ifname() == old(self).ifname(),
            !final(self).active(),
            text::texts(r@) == if old(self).active() {
                old(self).halves("delete"@) + delete_host_routes(
                    addresses(old(self).peers()),
                    old(self).gateway(),
                    old(self).peers().len() as int,
                )
            } else {
                Seq::empty()
            },
    {
        let mut out: Vec<String> = Vec::new();
        assert(text::texts(out@) =~= Seq::empty());
        match self.state.take() {
            None => out,
            Some(state) => {
                push_text(&mut out, self.half("delete", " -net 0.0.0.0/1 -interface "));
                push_text(&mut out, self.half("delete", " -net 128.0.0.0/1 -interface "));
                let ghost head = old(self).halves("delete"@);
                assert(text::texts(out@) =~= head);
                let ghost ips = addresses(state.peer_host_routes@);
                let ghost gateway = state.original_gateway@;
                let mut i: usize = 0;
                assert(head + delete_host_routes(ips, gateway, 0) =~= head);
                while i < state.peer_host_routes.len()
                    invariant
                        i <= state.peer_host_routes@.len(),
                        ips == addresses(state.peer_host_routes@),
                        gateway == state.original_gateway@,
                        text::texts(out@) == head + delete_host_routes(ips, gateway, i as int),
                    decreases state.peer_host_routes@.len() - i,
                {
                    push_text(
                        &mut out,
                        host_route(
                            "delete",
                            state.peer_host_routes[i].ip,
                            state.original_gateway.as_str(),
                        ),
                    );
                    assert(head + delete_host_routes(ips, gateway, i + 1) =~= (head
                        + delete_host_routes(ips, gateway, i as int)).push(
                        host_route_text("delete"@, ips[i as int], gateway),
                    ));
                    i += 1;
                }
                out
            },
        }
    }

    /// One script that undoes everything, for when nothing can be awaited.
    pub fn generate_cleanup_script(&self) -> (r: String)
        ensures
            ({
                let halves = self.halves("delete"@);
                r@ == halves[0] + " 2>/dev/null;"@ + halves[1] + " 2>/dev/null;"@
                    + if self.active() {
                    delete_host_routes_script(
                        addresses(self.peers()),
                        self.gateway(),
                        self.peers().len() as int,
                    )
                } else {
                    Seq::empty()
                }
            }),
    {
        let mut out = String::new();
        let first = self.half("delete", " -net 0.0.0.0/1 -interface ");
        let second = self.half("delete", " -net 128.0.0.0/1 -interface ");
        out.append(first.as_str());
        out.append(" 2>/dev/null;");
        out.append(second.as_str());
        out.append(" 2>/dev/null;");
        let ghost halves = self.halves("delete"@);
        let ghost head = halves[0] + " 2>/dev/null;"@ + halves[1] + " 2>/dev/null;"@;
        assert(out@ =~= head);
        match &self.state {
            None => {
                assert(head + Seq::empty() =~= head);
            },
            Some(state) => {
                let ghost ips = addresses(state.peer_host_routes@);
                let ghost gateway = state.original_gateway@;
                let mut i: usize = 0;
                assert(head + delete_host_routes_script(ips, gateway, 0) =~= head);
                while i < state.peer_host_routes.len()
                    invariant
                        i <= state.peer_host_routes@.len(),
                        ips == addresses(state.peer_host_routes@),
                        gateway == state.original_gateway@,
                        out@ == head + delete_host_routes_script(ips, gateway, i as int),
                    decreases state.peer_host_routes@.len() - i,
                {
                    let ghost before = out@;
                    let command = host_route(
                        "delete",
                        state.peer_host_routes[i].ip,
                        state.original_gateway.as_str(),
                    );
                    out.append(command.as_str());
                    out.append(" 2>/dev/null;");
                    assert(out@ =~= head + delete_host_routes_script(ips, gateway, i + 1));
                    i += 1;
                }
            },
        }
        out
    }
}

proof fn lemma_counts_after_update(before: Seq<PeerRoute>, after: Seq<PeerRoute>, i: int)
    requires
        routes_are_sound(before),
        0 <= i < before.len(),
        after == before.update(i, after[i]),
        after[i].ip == before[i].ip,
        after[i].count > 0,
    ensures
        routes_are_sound(after),
        forall|x: Ipv4Addr|
            x != before[i].ip ==> #[trigger] count_of(after, x) == count_of(before, x),
        count_of(after, before[i].ip) == after[i].count,
{
    assert(routes_are_sound(after)) by {
        assert forall|a: int, b: int| 0 <= a < b < after.len() implies (#[trigger] after[a]).ip != (
        #[trigger] after[b]).ip by {
            assert(before[a].ip != before[b].ip);
        }
        assert forall|a: int| 0 <= a < after.len() implies (#[trigger] after[a]).count > 0 by {
            assert(before[a].count > 0);
        }
    }
    lemma_count_at(after, i);
    assert forall|x: Ipv4Addr| x != before[i].ip implies #[trigger] count_of(after, x) == count_of(
        before,
        x,
    ) by {
        lemma_count_cases(before, x);
        if count_of(before, x) > 0 {
            let k = choose|k: int| 0 <= k < before.len() && (#[trigger] before[k]).ip == x;
            lemma_count_at(before, k);
            lemma_count_at(after, k);
            assert(after[k] == before[k]);
        } else {
            assert forall|k: int| 0 <= k < after.len() implies (#[trigger] after[k]).ip != x by {
                assert(before[k].ip != x) by {
                    if before[k].ip == x {
                        lemma_count_at(before, k);
                    }
                }
            }
            lemma_count_absent(after, x);
        }
    }
}

proof fn lemma_counts_after_removal(before: Seq<PeerRoute>, i: int)
    requires
        routes_are_sound(before),
        0 <= i < before.len(),
    ensures
        routes_are_sound(before.remove(i)),
        forall|x: Ipv4Addr|
            x != before[i].ip ==> #[trigger] count_of(before.remove(i), x) == count_of(before, x),
        count_of(before.remove(i), before[i].ip) == 0,
{
    let after = before.remove(i);
    assert forall|a: int| 0 <= a < after.len() implies #[trigger] after[a] == before[if a < i {
        a
    } else {
        a + 1
    }] by {}
    assert(routes_are_sound(after)) by {
        assert forall|a: int, b: int| 0 <= a < b < after.len() implies (#[trigger] after[a]).ip != (
        #[trigger] after[b]).ip by {
            let c = if a < i { a } else { a + 1 };
            let d = if b < i { b } else { b + 1 };
            assert(before[c].ip != before[d].ip);
        }
    }
    assert forall|k: int| 0 <= k < after.len() implies (#[trigger] after[k]).ip
        != before[i].ip by {
        let c = if k < i { k } else { k + 1 };
        if c < i {
            assert(before[c].ip != before[i].ip);
        } else {
            assert(before[i].ip != before[c].ip);
        }
    }
    lemma_count_absent(after, before[i].ip);
    assert forall|x: Ipv4Addr| x != before[i].ip implies #[trigger] count_of(after, x) == count_of(
        before,
        x,
    ) by {
        lemma_count_cases(before, x);
        if count_of(before, x) > 0 {
            let k = choose|k: int| 0 <= k < before.len() && (#[trigger] before[k]).ip == x;
            let c = if k < i { k } else { k - 1 };
            lemma_count_at(before, k);
            lemma_count_at(after, c);
            assert(after[c] == before[k]);
        } else {
            assert forall|k: int| 0 <= k < after.len() implies (#[trigger] after[k]).ip != x by {
                let c = if k < i { k } else { k + 1 };
                if before[c].ip == x {
                    lemma_count_at(before, c);
                }
            }
            lemma_count_absent(after, x);
        }
    }
}

/// An address has a route exactly while a connection needs it.
pub proof fn route_exists_while_needed(s: Seq<PeerRoute>, ip: Ipv4Addr)
    requires
        routes_are_sound(s),
    ensures
        addresses(s).contains(ip) == (count_of(s, ip) > 0),
{
    lemma_count_cases(s, ip);
    if addresses(s).contains(ip) {
        let i = choose|i: int| 0 <= i < addresses(s).len() && addresses(s)[i] == ip;
        assert(s[i].ip == ip);
        lemma_count_at(s, i);
    }
    if count_of(s, ip) > 0 {
        let i = choose|i: int| 0 <= i < s.len() && (#[trigger] s[i]).ip == ip;
        assert(addresses(s)[i] == ip);
    }
}

/// A connection that is made and lost again leaves the routes as they were.
pub proof fn lost_connection_undoes_made_one(
    before: Seq<PeerRoute>,
    between: Seq<PeerRoute>,
    after: Seq<PeerRoute>,
    ip: Ipv4Addr,
)
    requires
        routes_are_sound(before),
        forall|x: Ipv4Addr| #[trigger]
            count_of(between, x) == count_of(before, x) + if x == ip {
                1int
            } else {
                0
            },
        forall|x: Ipv4Addr| #[trigger]
            count_of(after, x) == count_of(between, x) - if x == ip && count_of(between, x) > 0 {
                1int
            } else {
                0
            },
    ensures
        forall|x: Ipv4Addr| #[trigger] count_of(after, x) == count_of(before, x),
{
    lemma_count_cases(before, ip);
    assert(count_of(before, ip) >= 0);
}

// --- The default route ---

/// What stands behind `key` in the last line that begins with it. Lines are taken without
/// the white space around them, and so is what stands behind the key.
pub open spec fn last_value(lines: Seq<Seq<char>>, key: Seq<char>) -> Option<Seq<char>>
    decreases lines.len(),
{
    if lines.len() == 0 {
        None
    } else {
        let line = text::trimmed(lines.last());
        if text::has_prefix(line, key) {
            Some(text::trimmed(line.skip(key.len() as int)))
        } else {
            last_value(lines.drop_last(), key)
        }
    }
}

/// Reads the gateway and the interface of the default route out of what the system prints.
pub fn parse_default_route(output: &str) -> (r: Option<(String, String)>)
    ensures
        ({
            let all = text::lines_of(output@);
            let gateway = last_value(all, "gateway:"@);
            let interface = last_value(all, "interface:"@);
            &&& r is Some == (gateway is Some && interface is Some)
            &&& r matches Some((g, i)) ==> g@ == gateway->0 && i@ == interface->0
        }),
{
    let lines = lines(output);
    let ghost all = text::texts(lines@);
    let mut gateway: Option<String> = None;
    let mut interface: Option<String> = None;
    let mut i: usize = 0;
    assert(all.take(0) =~= Seq::empty());
    proof {
        reveal_strlit("gateway:");
        reveal_strlit("interface:");
    }
    while i < lines.len()
        invariant
            i <= lines@.len(),
            all == text::texts(lines@),
            "gateway:"@.len() == 8,
            "gateway:"@[0] == 'g',
            "interface:"@.len() == 10,
            "interface:"@[0] == 'i',
            ({
                let g = last_value(all.take(i as int), "gateway:"@);
                let n = last_value(all.take(i as int), "interface:"@);
                &&& gateway is Some == g is Some
                &&& gateway matches Some(t) ==> t@ == g->0
                &&& interface is Some == n is Some
                &&& interface matches Some(t) ==> t@ == n->0
            }),
        decreases lines@.len() - i,
    {
        let ghost part = all.take(i + 1);
        assert(part.drop_last() =~= all.take(i as int));
        let line = trim(lines[i].as_str());
        assert(part.last() == lines@[i as int]@);
        assert(!(text::has_prefix(line@, "gateway:"@) && text::has_prefix(
            line@,
            "interface:"@,
        ))) by {
            if text::has_prefix(line@, "gateway:"@) && text::has_prefix(line@, "interface:"@) {
                assert(line@.subrange(0, 8)[0] == line@[0]);
                assert(line@.subrange(0, 10)[0] == line@[0]);
            }
        }
        if let Some(rest) = strip_prefix(line.as_str(), "gateway:") {
            assert(rest@ =~= line@.skip(8));
            gateway = Some(trim(rest.as_str()));
        } else if let Some(rest) = strip_prefix(line.as_str(), "interface:") {
            assert(rest@ =~= line@.skip(10));
            interface = Some(trim(rest.as_str()));
        }
        i += 1;
    }
    assert(all.take(i as int) =~= all);
    match (gateway, interface) {
        (Some(g), Some(n)) => Some((g, n)),
        _ => None,
    }
}

/// What to report where the default route cannot be read.
pub fn parse_failure() -> (r: &'static str)
    ensures
        r@ == "failed to parse default route (gateway or interface not found)"@,
{
    "failed to parse default route (gateway or interface not found)"
}

// --- Addresses of peers ---

/// The IPv4 address that is the host of a URL, if the host is one.
pub open spec fn host_is(host: Option<Seq<char>>, a: Ipv4Addr) -> bool {
    host == Some(display::ipv4_text(a))
}

/// The IPv4 address that is the host of a URL, if the host is one.
pub fn extract_ipv4_from_url(url: &UrlParts) -> (r: Option<Ipv4Addr>)
    ensures
        match r {
            Some(a) => host_is(locator::parts_view(*url).0, a),
            None => forall|a: Ipv4Addr|
                #![trigger host_is(locator::parts_view(*url).0, a)]
                !host_is(locator::parts_view(*url).0, a),
        },
{
    match &url.host {
        Some(host) => {
            let r = parse_ipv4(host.as_str());
            if r.is_none() {
                assert forall|a: Ipv4Addr| !#[trigger] host_is(
                    locator::parts_view(*url).0,
                    a,
                ) by {
                    assert(display::ipv4_text(a) != host@);
                }
            }
            r
        },
        None => None,
    }
}

/// The host of the URL that a text spells.
pub open spec fn text_host(t: Seq<char>) -> Option<Seq<char>> {
    match locator::url_parts(t) {
        Some((host, _)) => host,
        None => None,
    }
}

/// The IPv4 address that is the host of the URL that a text spells.
pub fn extract_ipv4_from_url_str(url_str: &str) -> (r: Option<Ipv4Addr>)
    ensures
        match r {
            Some(a) => host_is(text_host(url_str@), a),
            None => forall|a: Ipv4Addr| !#[trigger] host_is(text_host(url_str@), a),
        },
{
    match parse_url(url_str) {
        Some(url) => extract_ipv4_from_url(&url),
        None => None,
    }
}

} // verus!

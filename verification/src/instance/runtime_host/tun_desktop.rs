//! Keeps the instance's network interface up, and gives it its address.

use crate::common::ifcfg::netlink::IpInet;
use crate::display;
use crate::instance::default_route_macos;
use crate::instance::default_route_macos::{
    extract_ipv4_from_url, extract_ipv4_from_url_str, DefaultRouteManager,
};
use crate::locator;
use crate::locator::UrlParts;
use crate::net::Ipv4Addr;
use vstd::prelude::*;
use vstd::string::*;

verus! {

// --- The default route ---

/// Whether a guard is kept for the default route: only if it is to be taken over and that
/// succeeded. A failure leaves the interface without it.
pub fn keeps_default_route(enabled: bool, activated: bool) -> (r: bool)
    ensures
        r == (enabled && activated),
{
    enabled && activated
}

/// The host of a URL.
pub open spec fn url_host(url: UrlParts) -> Option<Seq<char>> {
    locator::parts_view(url).0
}

/// The IPv4 addresses among the hosts, in order. An address stands there once for each
/// time it is a host.
pub open spec fn ipv4_hosts(hosts: Seq<Option<Seq<char>>>, out: Seq<Ipv4Addr>) -> bool
    decreases hosts.len(),
{
    if hosts.len() == 0 {
        out.len() == 0
    } else if exists|a: Ipv4Addr| #[trigger] default_route_macos::host_is(hosts.last(), a) {
        &&& out.len() > 0
        &&& default_route_macos::host_is(hosts.last(), out.last())
        &&& ipv4_hosts(hosts.drop_last(), out.drop_last())
    } else {
        ipv4_hosts(hosts.drop_last(), out)
    }
}

/// The hosts of configured peers, and after them those of peers that are connected.
pub open spec fn peer_hosts(config: Seq<UrlParts>, connected: Seq<String>) -> Seq<
    Option<Seq<char>>,
> {
    config.map_values(|u: UrlParts| url_host(u)) + connected.map_values(
        |t: String| default_route_macos::text_host(t@),
    )
}

/// The addresses of known peers, to which routes are made before traffic is sent into the
/// tunnel: those that are configured, and those that are connected.
pub fn initial_peer_ips(config: &Vec<UrlParts>, connected: &Vec<String>) -> (r: Vec<Ipv4Addr>)
    ensures
        ipv4_hosts(peer_hosts(config@, connected@), r@),
{
    let ghost hosts = peer_hosts(config@, connected@);
    let mut out: Vec<Ipv4Addr> = Vec::new();
    let mut i: usize = 0;
    while i < config.len()
        invariant
            i <= config@.len(),
            hosts == peer_hosts(config@, connected@),
            ipv4_hosts(hosts.take(i as int), out@),
        decreases config@.len() - i,
    {
        let ghost part = hosts.take(i + 1);
        assert(part.drop_last() =~= hosts.take(i as int));
        assert(part.last() == url_host(config@[i as int]));
        let ghost before = out@;
        if let Some(a) = extract_ipv4_from_url(&config[i]) {
            assert(default_route_macos::host_is(part.last(), a));
            out.push(a);
            assert(out@.drop_last() =~= before);
        }
        i += 1;
    }
    let mut j: usize = 0;
    while j < connected.len()
        invariant
            j <= connected@.len(),
            hosts == peer_hosts(config@, connected@),
            ipv4_hosts(hosts.take(config@.len() + j), out@),
        decreases connected@.len() - j,
    {
        let ghost part = hosts.take(config@.len() + j + 1);
        assert(part.drop_last() =~= hosts.take(config@.len() + j));
        assert(part.last() == default_route_macos::text_host(connected@[j as int]@));
        let ghost before = out@;
        if let Some(a) = extract_ipv4_from_url_str(connected[j].as_str()) {
            assert(default_route_macos::host_is(part.last(), a));
            out.push(a);
            assert(out@.drop_last() =~= before);
        }
        j += 1;
    }
    assert(hosts.take(config@.len() + j) =~= hosts);
    out
}

/// News about the peers, while traffic goes into the tunnel.
#[derive(Debug, Clone)]
pub enum PeerEvent {
    /// A connection was made, to the peer at this URL if that is known.
    Added(Option<String>),
    /// A connection was lost.
    Removed(Option<String>),
    /// Some news were missed, or are about something else.
    Other,
    /// There will be no more news, or the instance is closing.
    Over,
}

/// What to do about news.
#[derive(Debug, Clone, PartialEq, Eq)]
pub enum PeerReaction {
    /// Run this command.
    Run(String),
    Nothing,
    Stop,
}

/// The routes to peers are as they were.
pub open spec fn same_routes(a: DefaultRouteManager, b: DefaultRouteManager) -> bool {
    &&& a.same_but_peers(b)
    &&& a.active() ==> a.peers() == b.peers()
}

/// `url` names a peer by its IPv4 address.
pub open spec fn names_peer(url: Option<String>, a: Ipv4Addr) -> bool {
    url matches Some(t) && default_route_macos::host_is(default_route_macos::text_host(t@), a)
}

/// One more connection can be counted, if the news is of one.
pub open spec fn countable(routes: DefaultRouteManager, event: PeerEvent) -> bool {
    routes.active() && event is Added ==> forall|a: Ipv4Addr| #[trigger]
        names_peer(event->Added_0, a) ==> default_route_macos::count_of(routes.peers(), a)
            < usize::MAX
}

/// Whether one more connection can be counted, if the news is of one.
pub fn can_count(routes: &DefaultRouteManager, event: &PeerEvent) -> (r: bool)
    requires
        routes.well_formed(),
    ensures
        r == countable(*routes, *event),
{
    match event {
        PeerEvent::Added(url) => match peer_address(url) {
            Some(a) => {
                assert(names_peer(*url, a));
                routes.can_count(a)
            },
            None => true,
        },
        _ => true,
    }
}

/// Keeps the routes to peers in step with their connections. A peer that is not known by
/// an IPv4 address needs no route.
pub fn on_peer_event(routes: &mut DefaultRouteManager, event: &PeerEvent) -> (r: PeerReaction)
    requires
        old(routes).well_formed(),
        countable(*old(routes), *event),
    ensures
        final(routes).well_formed(),
        final(routes).same_but_peers(*old(routes)),
        match *event {
            PeerEvent::Over => r == PeerReaction::Stop && same_routes(*final(routes), *old(routes)),
            PeerEvent::Other => r == PeerReaction::Nothing && same_routes(
                *final(routes),
                *old(routes),
            ),
            PeerEvent::Added(url) => {
                &&& (forall|a: Ipv4Addr| !#[trigger] names_peer(url, a)) ==> r
                    == PeerReaction::Nothing && same_routes(*final(routes), *old(routes))
                &&& forall|a: Ipv4Addr| #[trigger]
                    names_peer(url, a) && old(routes).active() ==> {
                        let before = default_route_macos::count_of(old(routes).peers(), a);
                        &&& forall|x: Ipv4Addr| #[trigger]
                            default_route_macos::count_of(final(routes).peers(), x)
                                == default_route_macos::count_of(old(routes).peers(), x) + if x
                                == a {
                                1int
                            } else {
                                0
                            }
                        &&& before > 0 ==> r == PeerReaction::Nothing
                        &&& before == 0 ==> (r matches PeerReaction::Run(c) && c@
                            == default_route_macos::host_route_text(
                            "add"@,
                            a,
                            old(routes).gateway(),
                        ))
                    }
                &&& !old(routes).active() ==> r == PeerReaction::Nothing
            },
            PeerEvent::Removed(url) => {
                &&& (forall|a: Ipv4Addr| !#[trigger] names_peer(url, a)) ==> r
                    == PeerReaction::Nothing && same_routes(*final(routes), *old(routes))
                &&& forall|a: Ipv4Addr| #[trigger]
                    names_peer(url, a) && old(routes).active() ==> {
                        let before = default_route_macos::count_of(old(routes).peers(), a);
                        &&& forall|x: Ipv4Addr| #[trigger]
                            default_route_macos::count_of(final(routes).peers(), x)
                                == default_route_macos::count_of(old(routes).peers(), x) - if x
                                == a && default_route_macos::count_of(old(routes).peers(), x) > 0 {
                                1int
                            } else {
                                0
                            }
                        &&& before != 1 ==> r == PeerReaction::Nothing
                        &&& before == 1 ==> (r matches PeerReaction::Run(c) && c@
                            == default_route_macos::host_route_text(
                            "delete"@,
                            a,
                            old(routes).gateway(),
                        ))
                    }
                &&& !old(routes).active() ==> r == PeerReaction::Nothing
            },
        },
{
    match event {
        PeerEvent::Over => PeerReaction::Stop,
        PeerEvent::Other => PeerReaction::Nothing,
        PeerEvent::Added(url) => match peer_address(url) {
            Some(a) => {
                assert(names_peer(*url, a));
                match routes.add_peer_route(a) {
                    Some(command) => PeerReaction::Run(command),
                    None => PeerReaction::Nothing,
                }
            },
            None => PeerReaction::Nothing,
        },
        PeerEvent::Removed(url) => match peer_address(url) {
            Some(a) => {
                assert(names_peer(*url, a));
                match routes.remove_peer_route(a) {
                    Some(command) => PeerReaction::Run(command),
                    None => PeerReaction::Nothing,
                }
            },
            None => PeerReaction::Nothing,
        },
    }
}

fn peer_address(url: &Option<String>) -> (r: Option<Ipv4Addr>)
    ensures
        match r {
            Some(a) => names_peer(*url, a) && forall|b: Ipv4Addr| #[trigger]
                names_peer(*url, b) ==> b == a,
            None => forall|a: Ipv4Addr| !#[trigger] names_peer(*url, a),
        },
{
    match url {
        Some(t) => {
            let r = extract_ipv4_from_url_str(t.as_str());
            match r {
                Some(a) => {
                    assert forall|b: Ipv4Addr| #[trigger] names_peer(*url, b) implies b == a by {
                        display::ipv4_text_is_unique(a, b);
                    }
                },
                None => {
                    assert forall|a: Ipv4Addr| !#[trigger] names_peer(*url, a) by {
                        assert(!default_route_macos::host_is(
                            default_route_macos::text_host(t@),
                            a,
                        ));
                    }
                },
            }
            r
        },
        None => None,
    }
}

// --- A fixed address ---

/// The next step of keeping an interface with fixed addresses up.
#[derive(Debug, Clone, Copy, PartialEq, Eq, Structural)]
pub enum StaticAction {
    /// Create the interface and run it, unless the instance is closing.
    RunNic,
    /// Wait a second before the next attempt.
    BackOff,
    ActivateDefaultRoute,
    /// Install the interface, with name resolution if it has an IPv4 address.
    Install { magic_dns: bool },
    /// Wait until the interface closes.
    AwaitClosed,
    Stop,
}

/// What a step brought.
#[derive(Debug, Clone, Copy, PartialEq, Eq, Structural)]
pub enum StaticEvent {
    /// It is done, or the time is over, or the interface closed.
    Done,
    Failed,
    /// The instance is closing.
    Cancelled,
}

/// What whoever started the interface is told of the first attempt.
#[derive(Debug, Clone, Copy, PartialEq, Eq, Structural)]
pub enum FirstRound {
    Up,
    /// The interface could not be created.
    Failed,
    Cancelled,
}

/// Keeps an interface with fixed addresses up.
#[derive(Debug, Clone, Copy, PartialEq, Eq, Structural)]
pub struct StaticIp {
    pub has_ipv4: bool,
    /// Nobody was told of the first attempt yet.
    pub unreported: bool,
    pub next: StaticAction,
}

impl StaticIp {
    /// Begins, if there is an address at all.
    pub fn new(has_ipv4: bool, has_ipv6: bool) -> (r: Option<Self>)
        ensures
            r == if has_ipv4 || has_ipv6 {
                Some(StaticIp { has_ipv4, unreported: true, next: StaticAction::RunNic })
            } else {
                None
            },
    {
        if has_ipv4 || has_ipv6 {
            Some(StaticIp { has_ipv4, unreported: true, next: StaticAction::RunNic })
        } else {
            None
        }
    }

    /// An event that the pending step can bring.
    pub open spec fn awaits(self, event: StaticEvent) -> bool {
        match self.next {
            StaticAction::RunNic => true,
            StaticAction::BackOff | StaticAction::AwaitClosed => event != StaticEvent::Failed,
            StaticAction::ActivateDefaultRoute | StaticAction::Install { .. } => event
                == StaticEvent::Done,
            StaticAction::Stop => false,
        }
    }

    /// The step after the pending one.
    pub open spec fn action_after(self, event: StaticEvent) -> StaticAction {
        match (self.next, event) {
            (StaticAction::RunNic, StaticEvent::Done) => StaticAction::ActivateDefaultRoute,
            (StaticAction::RunNic, StaticEvent::Failed) => if self.unreported {
                StaticAction::Stop
            } else {
                StaticAction::BackOff
            },
            (StaticAction::BackOff, StaticEvent::Done) => StaticAction::RunNic,
            (StaticAction::ActivateDefaultRoute, _) => StaticAction::Install {
                magic_dns: self.has_ipv4,
            },
            (StaticAction::Install { .. }, _) => StaticAction::AwaitClosed,
            (StaticAction::AwaitClosed, StaticEvent::Done) => StaticAction::RunNic,
            _ => StaticAction::Stop,
        }
    }

    /// What is reported after the pending step, if anything.
    pub open spec fn report_after(self, event: StaticEvent) -> Option<FirstRound> {
        if !self.unreported {
            None
        } else {
            match (self.next, event) {
                (StaticAction::RunNic, StaticEvent::Failed) => Some(FirstRound::Failed),
                (StaticAction::RunNic, StaticEvent::Cancelled) => Some(FirstRound::Cancelled),
                (StaticAction::Install { .. }, _) => Some(FirstRound::Up),
                _ => None,
            }
        }
    }

    /// What follows an event.
    pub open spec fn stepped(self, event: StaticEvent) -> StaticIp {
        StaticIp {
            has_ipv4: self.has_ipv4,
            unreported: self.unreported && self.report_after(event) is None,
            next: self.action_after(event),
        }
    }

    /// Takes what the pending step brought. Gives what to report of the first attempt.
    pub fn step(&mut self, event: StaticEvent) -> (r: Option<FirstRound>)
        requires
            old(self).awaits(event),
        ensures
            *final(self) == old(self).stepped(event),
            r == old(self).report_after(event),
    {
        let report: Option<FirstRound> = if !self.unreported {
            None
        } else {
            match (self.next, event) {
                (StaticAction::RunNic, StaticEvent::Failed) => Some(FirstRound::Failed),
                (StaticAction::RunNic, StaticEvent::Cancelled) => Some(FirstRound::Cancelled),
                (StaticAction::Install { .. }, _) => Some(FirstRound::Up),
                _ => None,
            }
        };
        self.next = match (self.next, event) {
            (StaticAction::RunNic, StaticEvent::Done) => StaticAction::ActivateDefaultRoute,
            (StaticAction::RunNic, StaticEvent::Failed) => if self.unreported {
                StaticAction::Stop
            } else {
                StaticAction::BackOff
            },
            (StaticAction::BackOff, StaticEvent::Done) => StaticAction::RunNic,
            (StaticAction::ActivateDefaultRoute, _) => StaticAction::Install {
                magic_dns: self.has_ipv4,
            },
            (StaticAction::Install { .. }, _) => StaticAction::AwaitClosed,
            (StaticAction::AwaitClosed, StaticEvent::Done) => StaticAction::RunNic,
            _ => StaticAction::Stop,
        };
        if report.is_some() {
            self.unreported = false;
        }
        report
    }

    /// The reports stay outstanding only up to the first attempt's end.
    pub open spec fn consistent(self) -> bool {
        &&& self.unreported ==> self.next is RunNic || self.next is ActivateDefaultRoute
            || self.next is Install
        &&& self.next is Install ==> self.next->magic_dns == self.has_ipv4
    }

    /// The reports along a run of events.
    pub open spec fn reports(self, events: Seq<StaticEvent>) -> Seq<FirstRound>
        decreases events.len(),
    {
        if events.len() == 0 {
            Seq::empty()
        } else {
            let rest = self.stepped(events[0]).reports(events.drop_first());
            match self.report_after(events[0]) {
                Some(report) => seq![report] + rest,
                None => rest,
            }
        }
    }

    /// Each step brings what it can.
    pub open spec fn admits(self, events: Seq<StaticEvent>) -> bool
        decreases events.len(),
    {
        events.len() > 0 ==> {
            &&& self.awaits(events[0])
            &&& self.stepped(events[0]).admits(events.drop_first())
        }
    }

    /// Where a run of events leads.
    pub open spec fn run(self, events: Seq<StaticEvent>) -> StaticIp
        decreases events.len(),
    {
        if events.len() == 0 {
            self
        } else {
            self.stepped(events[0]).run(events.drop_first())
        }
    }
}

/// Whoever started the interface is told once, whatever happens; and nothing stops before
/// they were told.
pub proof fn first_round_is_reported_once(s: StaticIp, events: Seq<StaticEvent>)
    requires
        s.consistent(),
        s.admits(events),
    ensures
        s.run(events).consistent(),
        s.reports(events).len() == if s.unreported && !s.run(events).unreported {
            1int
        } else {
            0
        },
        !s.unreported ==> !s.run(events).unreported,
        s.run(events).next == StaticAction::Stop ==> !s.run(events).unreported,
    decreases events.len(),
{
    if events.len() > 0 {
        first_round_is_reported_once(s.stepped(events[0]), events.drop_first());
    }
}

/// Once the first attempt succeeded, only closing the instance stops the interface.
pub proof fn later_failures_are_retried(s: StaticIp, event: StaticEvent)
    requires
        !s.unreported,
        s.awaits(event),
        s.stepped(event).next == StaticAction::Stop,
    ensures
        event == StaticEvent::Cancelled,
{
}

/// What to tell whoever waits for an attempt that was cancelled.
pub fn static_ip_cancelled() -> (r: &'static str)
    ensures
        r@ == "instance is closing; static IP setup cancelled"@,
{
    "instance is closing; static IP setup cancelled"
}

// --- An address by DHCP ---

/// The next step of applying an address.
#[derive(Debug, Clone, Copy, PartialEq, Eq, Structural)]
pub enum ApplyAction {
    /// Take the interface down.
    Drain,
    /// Create the interface with the address and run it.
    RunNic,
    ActivateDefaultRoute,
    Install,
    /// Done: this is the instance's address now.
    Applied(Option<IpInet>),
    /// The instance is closing.
    Cancelled,
    /// The interface could not be created.
    Failed,
}

/// Applies an address, or takes it away.
#[derive(Debug, Clone, Copy, PartialEq, Eq, Structural)]
pub struct Apply {
    pub address: Option<IpInet>,
    pub no_tun: bool,
    pub next: ApplyAction,
}

impl Apply {
    /// Begins, unless the instance is closing.
    pub fn new(address: Option<IpInet>, no_tun: bool, closing: bool) -> (r: Self)
        ensures
            r == (Apply {
                address,
                no_tun,
                next: if closing {
                    ApplyAction::Cancelled
                } else {
                    ApplyAction::Drain
                },
            }),
    {
        Apply {
            address,
            no_tun,
            next: if closing {
                ApplyAction::Cancelled
            } else {
                ApplyAction::Drain
            },
        }
    }

    /// The address is applied, or it is not going to be.
    pub open spec fn is_over(self) -> bool {
        self.next is Applied || self.next is Cancelled || self.next is Failed
    }

    /// An event that the pending step can bring. Only taking the interface down cannot
    /// fail, and only the last steps cannot be cancelled.
    pub open spec fn awaits(self, event: StaticEvent) -> bool {
        match self.next {
            ApplyAction::Drain => event != StaticEvent::Failed,
            ApplyAction::RunNic => true,
            _ => event == StaticEvent::Done,
        }
    }

    /// What follows an event.
    pub open spec fn stepped(self, event: StaticEvent) -> Apply {
        let next = match (self.next, event) {
            (_, StaticEvent::Cancelled) => ApplyAction::Cancelled,
            (_, StaticEvent::Failed) => ApplyAction::Failed,
            (ApplyAction::Drain, _) => if self.address is None || self.no_tun {
                ApplyAction::Applied(self.address)
            } else {
                ApplyAction::RunNic
            },
            (ApplyAction::RunNic, _) => ApplyAction::ActivateDefaultRoute,
            (ApplyAction::ActivateDefaultRoute, _) => ApplyAction::Install,
            (ApplyAction::Install, _) => ApplyAction::Applied(self.address),
            (other, _) => other,
        };
        Apply { next, ..self }
    }

    /// Takes what the pending step brought.
    pub fn step(&mut self, event: StaticEvent)
        requires
            !old(self).is_over(),
            old(self).awaits(event),
        ensures
            *final(self) == old(self).stepped(event),
    {
        self.next = match (self.next, event) {
            (_, StaticEvent::Cancelled) => ApplyAction::Cancelled,
            (_, StaticEvent::Failed) => ApplyAction::Failed,
            (ApplyAction::Drain, _) => if self.address.is_none() || self.no_tun {
                ApplyAction::Applied(self.address)
            } else {
                ApplyAction::RunNic
            },
            (ApplyAction::RunNic, _) => ApplyAction::ActivateDefaultRoute,
            (ApplyAction::ActivateDefaultRoute, _) => ApplyAction::Install,
            (ApplyAction::Install, _) => ApplyAction::Applied(self.address),
            (other, _) => other,
        };
    }
}

/// An address is only ever applied as it was asked for, and an interface only runs for an
/// address that needs one.
pub proof fn applied_address_is_the_requested_one(a: Apply, event: StaticEvent)
    requires
        !a.is_over(),
        a.awaits(event),
    ensures
        a.stepped(event).next matches ApplyAction::Applied(x) ==> x == a.address,
        a.stepped(event).next == ApplyAction::RunNic ==> a.address is Some && !a.no_tun,
{
}

/// What to report where the instance closes meanwhile.
pub fn dhcp_cancelled() -> (r: &'static str)
    ensures
        r@ == "instance is closing; DHCP update cancelled"@,
{
    "instance is closing; DHCP update cancelled"
}

/// What is announced of an address.
#[derive(Debug, Clone, Copy, PartialEq, Eq, Structural)]
pub enum DhcpEvent {
    /// The address was given up, because another has it.
    Conflicted { previous: Option<IpInet> },
    Changed { previous: Option<IpInet>, actual: Option<IpInet> },
}

/// What to announce: that the address changed, or that it was given up where none was
/// asked for.
pub fn publish_dhcp_ipv4(
    previous: Option<IpInet>,
    requested: Option<IpInet>,
    actual: Option<IpInet>,
) -> (r: DhcpEvent)
    ensures
        r == match requested {
            None => DhcpEvent::Conflicted { previous },
            Some(_) => DhcpEvent::Changed { previous, actual },
        },
{
    if requested.is_none() {
        DhcpEvent::Conflicted { previous }
    } else {
        DhcpEvent::Changed { previous, actual }
    }
}

} // verus!

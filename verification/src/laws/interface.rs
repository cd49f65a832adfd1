//! The life of the network interface.

use crate::common::ifcfg::netlink::IpInet;
use crate::instance::runtime_host::tun_desktop::{
    Apply, ApplyAction, FirstRound, StaticAction, StaticEvent, StaticIp,
};
use vstd::prelude::*;

verus! {

// --- A fixed address ---

/// An attempt that fails after the first was reported is made again: a wait follows it, the
/// end of the wait is another attempt, and nothing is reported.
pub proof fn failed_attempt_is_made_again(s: StaticIp)
    requires
        s.next == StaticAction::RunNic,
        !s.unreported,
    ensures
        s.stepped(StaticEvent::Failed).next == StaticAction::BackOff,
        s.stepped(StaticEvent::Failed).stepped(StaticEvent::Done).next == StaticAction::RunNic,
        s.report_after(StaticEvent::Failed) is None,
        s.stepped(StaticEvent::Failed).report_after(StaticEvent::Done) is None,
{
}

/// Every wait ends in an attempt to create the interface, and so does the end of an
/// interface; both can be told of their end and of the closing of the instance.
pub proof fn waits_end_in_an_attempt(s: StaticIp)
    requires
        s.next == StaticAction::BackOff || s.next == StaticAction::AwaitClosed,
    ensures
        s.awaits(StaticEvent::Done) && s.awaits(StaticEvent::Cancelled),
        s.stepped(StaticEvent::Done).next == StaticAction::RunNic,
        s.stepped(StaticEvent::Cancelled).next == StaticAction::Stop,
        s.stepped(StaticEvent::Done).unreported == s.unreported,
{
}

/// An interface that was created takes the default route, is installed, with name
/// resolution exactly if it has an IPv4 address, and is then watched until it closes. Only
/// then the first attempt is reported, as a success.
pub proof fn created_interface_is_brought_up(s: StaticIp)
    requires
        s.next == StaticAction::RunNic,
    ensures
        ({
            let routed = s.stepped(StaticEvent::Done);
            let installed = routed.stepped(StaticEvent::Done);
            let watched = installed.stepped(StaticEvent::Done);
            &&& s.awaits(StaticEvent::Done) && routed.awaits(StaticEvent::Done)
                && installed.awaits(StaticEvent::Done)
            &&& routed.next == StaticAction::ActivateDefaultRoute
            &&& installed.next == (StaticAction::Install { magic_dns: s.has_ipv4 })
            &&& watched.next == StaticAction::AwaitClosed
            &&& s.report_after(StaticEvent::Done) is None
            &&& routed.report_after(StaticEvent::Done) is None
            &&& installed.report_after(StaticEvent::Done) == if s.unreported {
                Some(FirstRound::Up)
            } else {
                None
            }
            &&& routed.unreported == s.unreported && installed.unreported == s.unreported
            &&& !watched.unreported
            &&& watched.has_ipv4 == s.has_ipv4
        }),
{
}

/// A first attempt that fails or is cancelled is reported as such, and nothing follows it.
pub proof fn first_attempt_is_not_repeated(s: StaticIp)
    requires
        s.next == StaticAction::RunNic,
        s.unreported,
    ensures
        s.awaits(StaticEvent::Failed) && s.awaits(StaticEvent::Cancelled),
        s.report_after(StaticEvent::Failed) == Some(FirstRound::Failed),
        s.report_after(StaticEvent::Cancelled) == Some(FirstRound::Cancelled),
        s.stepped(StaticEvent::Failed).next == StaticAction::Stop,
        s.stepped(StaticEvent::Cancelled).next == StaticAction::Stop,
        !s.stepped(StaticEvent::Failed).unreported,
        !s.stepped(StaticEvent::Cancelled).unreported,
{
}

/// Whatever runs or waits stops when the instance closes, and without a word once the first
/// attempt was reported; what was begun on an interface that is up is finished first.
pub proof fn closing_stops_the_interface(s: StaticIp, event: StaticEvent)
    requires
        s.awaits(event),
    ensures
        event == StaticEvent::Cancelled ==> s.stepped(event).next == StaticAction::Stop,
        s.awaits(StaticEvent::Cancelled) == (s.next == StaticAction::RunNic || s.next
            == StaticAction::BackOff || s.next == StaticAction::AwaitClosed),
        !s.unreported ==> s.report_after(event) is None && !s.stepped(event).unreported,
        s.stepped(event).has_ipv4 == s.has_ipv4,
{
}

/// The instance never closes along these events.
pub open spec fn never_closes(events: Seq<StaticEvent>) -> bool {
    forall|i: int| 0 <= i < events.len() ==> events[i] != StaticEvent::Cancelled
}

/// Once the first attempt was reported as a success, an interface is never given up: while
/// the instance does not close, no run of events stops it, and from wherever the run led,
/// at most three more steps lead to an attempt to create it.
pub proof fn interface_is_never_given_up(s: StaticIp, events: Seq<StaticEvent>)
    requires
        !s.unreported,
        s.next != StaticAction::Stop,
        s.admits(events),
        never_closes(events),
    ensures
        ({
            let here = s.run(events);
            let done = StaticEvent::Done;
            &&& here.next != StaticAction::Stop
            &&& !here.unreported
            &&& s.reports(events).len() == 0
            &&& here.next == StaticAction::RunNic || here.stepped(done).next == StaticAction::RunNic
                || here.stepped(done).stepped(done).next == StaticAction::RunNic || here.stepped(
                done,
            ).stepped(done).stepped(done).next == StaticAction::RunNic
        }),
    decreases events.len(),
{
    if events.len() > 0 {
        let rest = events.drop_first();
        assert(events[0] != StaticEvent::Cancelled);
        assert forall|i: int| 0 <= i < rest.len() implies rest[i] != StaticEvent::Cancelled by {
            assert(rest[i] == events[i + 1]);
        }
        interface_is_never_given_up(s.stepped(events[0]), rest);
    }
}

// --- An address by DHCP ---

/// An address is applied once the interface that had the former one is down. One that needs
/// an interface gets it: created, given the default route and installed, in this order.
pub proof fn address_is_applied_in_order(a: Apply)
    requires
        a.next == ApplyAction::Drain,
    ensures
        ({
            let done = StaticEvent::Done;
            let created = a.stepped(done);
            let routed = created.stepped(done);
            let installed = routed.stepped(done);
            let applied = installed.stepped(done);
            &&& a.awaits(done) && !a.is_over()
            &&& a.address is None || a.no_tun ==> created.next == ApplyAction::Applied(a.address)
                && created.is_over()
            &&& a.address is Some && !a.no_tun ==> {
                &&& created.next == ApplyAction::RunNic && created.awaits(done)
                    && !created.is_over()
                &&& routed.next == ApplyAction::ActivateDefaultRoute && routed.awaits(done)
                    && !routed.is_over()
                &&& installed.next == ApplyAction::Install && installed.awaits(done)
                    && !installed.is_over()
                &&& applied.next == ApplyAction::Applied(a.address) && applied.is_over()
            }
        }),
{
}

/// Closing the instance ends what can be cancelled, and only an interface that cannot be
/// created is a failure. Neither the address nor the wish for an interface ever changes.
pub proof fn interrupted_address_is_not_applied(a: Apply, event: StaticEvent)
    requires
        !a.is_over(),
    ensures
        a.awaits(StaticEvent::Cancelled) == (a.next == ApplyAction::Drain || a.next
            == ApplyAction::RunNic),
        a.awaits(StaticEvent::Failed) == (a.next == ApplyAction::RunNic),
        a.stepped(StaticEvent::Cancelled).next == ApplyAction::Cancelled,
        a.stepped(StaticEvent::Failed).next == ApplyAction::Failed,
        a.stepped(event).address == a.address,
        a.stepped(event).no_tun == a.no_tun,
{
}

/// Applying an address is over exactly when it is applied, cancelled or failed, and that is
/// after four steps at most.
pub proof fn applying_comes_to_an_end(address: Option<IpInet>, no_tun: bool, events: Seq<StaticEvent>)
    requires
        events.len() == 4,
    ensures
        ({
            let a = Apply { address, no_tun, next: ApplyAction::Drain };
            let end = a.stepped(events[0]).stepped(events[1]).stepped(events[2]).stepped(events[3]);
            end.next is Applied || end.next is Cancelled || end.next is Failed
        }),
{
}

// --- Calls ---

/// After a failure and a wait the interface is created again, as often as it takes: a round
/// of two steps leads from an attempt back to an attempt, with nothing to report.
pub proof fn failures_lead_to_attempts(
    s: &mut StaticIp,
    t: &mut StaticIp,
    first: Option<FirstRound>,
    second: Option<FirstRound>,
)
    requires
        call_ensures(StaticIp::step, (s, StaticEvent::Failed), first),
        call_ensures(StaticIp::step, (t, StaticEvent::Done), second),
        *old(t) == *final(s),
        old(s).next == StaticAction::RunNic,
        !old(s).unreported,
    ensures
        final(s).next == StaticAction::BackOff,
        *final(t) == *old(s),
        first is None,
        second is None,
{
    failed_attempt_is_made_again(*old(s));
}

/// What follows each step: an attempt is followed by the default route, that by the
/// installation, that by the watch; a failure is waited out, and the end of a wait and of an
/// interface is another attempt; the closing of the instance stops everything.
pub proof fn steps_follow_each_other(s: &mut StaticIp, event: StaticEvent, r: Option<FirstRound>)
    requires
        call_ensures(StaticIp::step, (s, event), r),
        old(s).awaits(event),
    ensures
        ({
            let from = old(s).next;
            let to = final(s).next;
            &&& final(s).has_ipv4 == old(s).has_ipv4
            &&& event is Cancelled ==> to == StaticAction::Stop
            &&& event is Done && from == StaticAction::RunNic ==> to
                == StaticAction::ActivateDefaultRoute
            &&& event is Done && from == StaticAction::ActivateDefaultRoute ==> to == (
            StaticAction::Install { magic_dns: old(s).has_ipv4 })
            &&& event is Done && from is Install ==> to == StaticAction::AwaitClosed
            &&& event is Done && (from == StaticAction::AwaitClosed || from
                == StaticAction::BackOff) ==> to == StaticAction::RunNic
            &&& event is Failed && old(s).unreported ==> to == StaticAction::Stop
            &&& event is Failed && !old(s).unreported ==> to == StaticAction::BackOff
            &&& r is Some ==> old(s).unreported && !final(s).unreported
            &&& r is None ==> final(s).unreported == old(s).unreported
            &&& r == Some(FirstRound::Up) <==> old(s).unreported && event is Done && from is Install
        }),
{
}

} // verus!

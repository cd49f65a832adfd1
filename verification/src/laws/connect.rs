//! Making, accepting and taking over connections.

use crate::net::{IpAddr, Ipv4Addr, Ipv6Addr, SocketAddr};
use crate::socket::fake_tcp::connect;
use crate::socket::fake_tcp::connect::{
    AcceptAction, AcceptEvent, Accepting, ConnectAction, ConnectEvent, ConnectFailure, Connecting,
    Probe, ProbeAction, Takeover,
};
use crate::socket::fake_tcp::endpoint::AcceptError;
use crate::socket::fake_tcp::freeze::{Freeze, FreezeAction, FreezeEvent};
use crate::socket::fake_tcp::stack::KernelTcpState;
use vstd::prelude::*;

verus! {

// --- Connecting ---

/// Where an attempt begins: nothing of the local address is known but its family.
pub proof fn attempt_begins_with_the_local_address(t: Takeover, remote: SocketAddr, c: Connecting)
    requires
        call_ensures(Connecting::new, (t, remote), c),
    ensures
        c.next == ConnectAction::FindLocalIp && c.takeover == t && c.remote == remote,
        c.local.port == 0,
        remote.ip is V4 ==> (c.local.ip matches IpAddr::V4(a) && a.bits == 0),
        remote.ip is V6 ==> (c.local.ip matches IpAddr::V6(a) && a.high == 0 && a.low == 0),
{
}

/// A frozen connection comes about in eight steps: from the address and the port that were
/// found, with the numbers that the kernel had, and by way of the handshake.
pub proof fn frozen_connection_comes_about(remote: SocketAddr, ip: IpAddr, port: u16, k: KernelTcpState, c: Connecting)
    requires
        c.takeover == Takeover::Freeze,
        c.remote == remote,
        c.next == ConnectAction::FindLocalIp,
    ensures
        ({
            let bound = c.stepped(ConnectEvent::Ip(ip));
            let found = bound.stepped(ConnectEvent::Port(port));
            let opened = found.stepped(ConnectEvent::Done);
            let ready = opened.stepped(ConnectEvent::Done);
            let registered = ready.stepped(ConnectEvent::Done);
            let greeting = registered.stepped(ConnectEvent::Done);
            let freezing = greeting.stepped(ConnectEvent::Done);
            let end = freezing.stepped(ConnectEvent::State(k));
            &&& bound.next matches ConnectAction::Bind(at) && at.port == 0 && (remote.ip is V4
                ==> at.ip == IpAddr::V4(Ipv4Addr { bits: 0 })) && (remote.ip is V6 ==> at.ip
                == IpAddr::V6(Ipv6Addr { high: 0, low: 0 }))
            &&& found.next == ConnectAction::FindInterface
            &&& opened.next == ConnectAction::CreateTun
            &&& ready.next == ConnectAction::Register
            &&& registered.next == ConnectAction::ConnectKernel
            &&& greeting.next == ConnectAction::AwaitHandshake
            &&& freezing.next == ConnectAction::FreezeKernel
            &&& end == (Connecting {
                takeover: Takeover::Freeze,
                remote,
                local: SocketAddr { ip, port },
                next: ConnectAction::Connected(Some(k)),
            })
        }),
{
}

/// A filtered connection comes about too, whether or not repair mode and the filter could be
/// had; it adopts no numbers.
pub proof fn filtered_connection_comes_about(remote: SocketAddr, ip: IpAddr, port: u16, repair: bool, filter: bool, c: Connecting)
    requires
        c.takeover == Takeover::Filter,
        c.remote == remote,
        c.next == ConnectAction::FindLocalIp,
    ensures
        ({
            let registered = c.stepped(ConnectEvent::Ip(ip)).stepped(
                ConnectEvent::Port(port),
            ).stepped(ConnectEvent::Done).stepped(ConnectEvent::Done).stepped(ConnectEvent::Done);
            let connected = registered.stepped(ConnectEvent::Done);
            let repaired = connected.stepped(
                if repair {
                    ConnectEvent::Done
                } else {
                    ConnectEvent::Failed
                },
            );
            let filtered = repaired.stepped(
                if filter {
                    ConnectEvent::Done
                } else {
                    ConnectEvent::Failed
                },
            );
            let end = filtered.stepped(ConnectEvent::Done);
            &&& registered.next == ConnectAction::ConnectKernel
            &&& connected.next == ConnectAction::EnterRepair
            &&& repaired.next == ConnectAction::InstallFilter
            &&& filtered.next == ConnectAction::AwaitHandshake
            &&& end == (Connecting {
                takeover: Takeover::Filter,
                remote,
                local: SocketAddr { ip, port },
                next: ConnectAction::Connected(None),
            })
        }),
{
}

/// Each step takes the attempt on by what it brought; a step that fails ends it, but for
/// repair mode and the filter, and the end says which step it was.
pub proof fn attempt_takes_each_step(c: &mut Connecting, event: ConnectEvent)
    requires
        call_ensures(Connecting::step, (c, event), ()),
        old(c).awaits(event),
    ensures
        ({
            let from = old(c).next;
            let to = final(c).next;
            let failed = event is Failed;
            &&& final(c).remote == old(c).remote && final(c).takeover == old(c).takeover
            &&& event matches ConnectEvent::Ip(ip) ==> final(c).local.ip == ip && final(c).local.port == old(c).local.port && to is Bind
            &&& event matches ConnectEvent::Port(port) ==> final(c).local.ip == old(c).local.ip
                && final(c).local.port == port && to == ConnectAction::FindInterface
            &&& event matches ConnectEvent::State(k) ==> to == ConnectAction::Connected(Some(k))
            &&& event is State || event is Done || failed ==> final(c).local == old(c).local
            &&& failed && from == ConnectAction::FindLocalIp ==> to == ConnectAction::Failed(
                ConnectFailure::NoLocalIp,
            )
            &&& failed && from == ConnectAction::FindInterface ==> to == ConnectAction::Failed(
                ConnectFailure::NoInterface,
            )
            &&& failed && from == ConnectAction::Register ==> to == ConnectAction::Failed(
                ConnectFailure::StackClosed,
            )
            &&& failed && from == ConnectAction::AwaitHandshake ==> to == ConnectAction::Failed(
                ConnectFailure::NoHandshake,
            )
            &&& failed && from == ConnectAction::FreezeKernel ==> to == ConnectAction::Failed(
                ConnectFailure::NoRepair,
            )
            &&& failed && (from is Bind || from == ConnectAction::CreateTun || from
                == ConnectAction::ConnectKernel) ==> to == ConnectAction::Failed(
                ConnectFailure::Operation,
            )
            &&& from == ConnectAction::EnterRepair ==> to == ConnectAction::InstallFilter
            &&& from == ConnectAction::InstallFilter ==> to == ConnectAction::AwaitHandshake
            &&& event is Done && from == ConnectAction::FindInterface ==> to
                == ConnectAction::CreateTun
            &&& event is Done && from == ConnectAction::CreateTun ==> to == ConnectAction::Register
            &&& event is Done && from == ConnectAction::Register ==> to
                == ConnectAction::ConnectKernel
            &&& event is Done && from == ConnectAction::ConnectKernel ==> to == (if old(c).takeover
                == Takeover::Filter {
                ConnectAction::EnterRepair
            } else {
                ConnectAction::AwaitHandshake
            })
            &&& event is Done && from == ConnectAction::AwaitHandshake ==> to == (if old(c).takeover
                == Takeover::Filter {
                ConnectAction::Connected(None)
            } else {
                ConnectAction::FreezeKernel
            })
        }),
{
}

/// What is reported of a failure: nothing where an operation's own error says it.
pub proof fn failures_are_named(f: ConnectFailure, r: Option<&'static str>)
    requires
        call_ensures(ConnectFailure::message, (&f,), r),
    ensures
        r is None == (f == ConnectFailure::NoRepair || f == ConnectFailure::Operation),
        f == ConnectFailure::NoLocalIp ==> (r->0)@ == "Failed to get local ip"@,
        f == ConnectFailure::NoInterface ==> (r->0)@ == "Failed to get interface name"@,
        f == ConnectFailure::StackClosed ==> (r->0)@
            == "FakeTCP stack closed while allocating socket"@,
        f == ConnectFailure::NoHandshake ==> (r->0)@
            == "Failed to recv bytes to establish connection"@,
{
}

/// A stack is made for the local address, and a listener's device takes what goes to its
/// port at any address of the family.
pub proof fn addresses_of_stack_and_listener(
    ip: IpAddr,
    local: SocketAddr,
    addresses: (Ipv4Addr, Option<Ipv6Addr>),
    filter: SocketAddr,
)
    requires
        call_ensures(connect::stack_addresses, (ip,), addresses),
        call_ensures(connect::listener_filter, (local,), filter),
    ensures
        ip matches IpAddr::V4(a) ==> addresses.0 == a && addresses.1 is None,
        ip matches IpAddr::V6(a) ==> addresses.0.bits == 0 && addresses.1 == Some(a),
        filter.port == local.port,
        local.ip is V4 ==> (filter.ip matches IpAddr::V4(a) && a.bits == 0),
        local.ip is V6 ==> (filter.ip matches IpAddr::V6(a) && a.high == 0 && a.low == 0),
{
}

// --- Accepting ---

/// Each step of accepting leads on. A connection whose interface is not found, or whose
/// stack closed, is dropped and another one awaited; so is one that ended before it was
/// accepted. Without the kernel's numbers a connection that is to be frozen ends the
/// listener, and one that is filtered goes on with zeros.
pub proof fn accepting_takes_each_step(a: &mut Accepting, event: AcceptEvent)
    requires
        call_ensures(Accepting::step, (a, event), ()),
        old(a).awaits(event),
    ensures
        ({
            let from = old(a).next;
            let to = final(a).next;
            let filtered = old(a).takeover == Takeover::Filter;
            &&& final(a).takeover == old(a).takeover
            &&& !(from == AcceptAction::TakeOver) ==> final(a).numbers == old(a).numbers
            &&& from == AcceptAction::Accept && event is Done ==> to == AcceptAction::FindInterface
            &&& from == AcceptAction::Accept && event == AcceptEvent::AcceptError(
                AcceptError::Other,
            ) ==> to == AcceptAction::Failed
            &&& from == AcceptAction::Accept && (event matches AcceptEvent::AcceptError(e) && e
                != AcceptError::Other) ==> to == AcceptAction::Accept
            &&& from == AcceptAction::FindInterface && event is Done ==> to
                == AcceptAction::TakeOver
            &&& from == AcceptAction::FindInterface && event is Failed ==> to
                == AcceptAction::Accept
            &&& from == AcceptAction::TakeOver ==> {
                &&& event matches AcceptEvent::State(k) ==> final(a).numbers == k
                &&& filtered ==> to == AcceptAction::InstallFilter
                &&& !filtered && event is State ==> to == AcceptAction::GetStack
                &&& !filtered && event is Failed ==> to == AcceptAction::Failed
                &&& filtered && event is Failed ==> final(a).numbers.seq == 0
                    && final(a).numbers.ack == 0 && final(a).numbers.ts_offset == 0
            }
            &&& from == AcceptAction::InstallFilter ==> to == AcceptAction::GetStack
            &&& from == AcceptAction::GetStack && event is Done ==> to == AcceptAction::Register(
                old(a).numbers,
            )
            &&& from == AcceptAction::GetStack && event is Failed ==> to == AcceptAction::Failed
            &&& from is Register && event is Done ==> to == AcceptAction::Accepted
            &&& from is Register && event is Failed ==> to == AcceptAction::DropStack
            &&& from == AcceptAction::DropStack ==> to == AcceptAction::Accept
        }),
{
}

/// An accepted connection is registered under the numbers that the kernel had.
pub proof fn accepted_connection_has_the_kernels_numbers(a: Accepting, k: KernelTcpState)
    requires
        a.next == AcceptAction::Accept,
    ensures
        ({
            let taken = a.stepped(AcceptEvent::Done).stepped(AcceptEvent::Done).stepped(
                AcceptEvent::State(k),
            );
            let stack = if a.takeover == Takeover::Filter {
                taken.stepped(AcceptEvent::Done)
            } else {
                taken
            };
            &&& stack.next == AcceptAction::GetStack
            &&& stack.stepped(AcceptEvent::Done).next == AcceptAction::Register(k)
            &&& stack.stepped(AcceptEvent::Done).stepped(AcceptEvent::Done).next
                == AcceptAction::Accepted
        }),
{
}

/// Accepting begins with the kernel.
pub proof fn accepting_begins_with_the_kernel(t: Takeover, a: Accepting)
    requires
        call_ensures(Accepting::new, (t,), a),
    ensures
        a.takeover == t && a.next == AcceptAction::Accept,
        a.numbers.seq == 0 && a.numbers.ack == 0 && a.numbers.ts_offset == 0,
{
}

// --- Reading the kernel's numbers ---

/// A probe reads the number to send after the send queue was chosen and the number received
/// after the other, whatever became of the choice; a number that cannot be read stays zero.
pub proof fn probe_reads_what_it_can(
    any1: Option<u32>,
    seq: Option<u32>,
    any2: Option<u32>,
    ack: Option<u32>,
    start: Option<u32>,
    p: Probe,
)
    requires
        call_ensures(Probe::new, (), p),
    ensures
        ({
            let sending = p.stepped(start);
            let end = sending.stepped(any1).stepped(seq).stepped(any2).stepped(ack);
            &&& p.next == ProbeAction::EnterRepair
            &&& start is None ==> sending.next == ProbeAction::Done && sending.seq == 0
                && sending.ack == 0
            &&& start is Some ==> {
                &&& sending.next == ProbeAction::SelectSendQueue
                &&& sending.stepped(any1).next == ProbeAction::ReadSendSeq
                &&& sending.stepped(any1).stepped(seq).next == ProbeAction::SelectRecvQueue
                &&& sending.stepped(any1).stepped(seq).stepped(any2).next
                    == ProbeAction::ReadRecvSeq
                &&& end.next == ProbeAction::Done
                &&& seq is Some ==> end.seq == seq->0
                &&& seq is None ==> end.seq == 0
                &&& ack is Some ==> end.ack == ack->0
                &&& ack is None ==> end.ack == 0
            }
        }),
{
}

/// A probe takes one step at a time and remembers what it read.
pub proof fn probe_takes_each_step(p: &mut Probe, outcome: Option<u32>)
    requires
        call_ensures(Probe::step, (p, outcome), ()),
    ensures
        ({
            let from = old(p).next;
            let to = final(p).next;
            &&& from == ProbeAction::EnterRepair ==> to == (if outcome is Some {
                ProbeAction::SelectSendQueue
            } else {
                ProbeAction::Done
            })
            &&& from == ProbeAction::SelectSendQueue ==> to == ProbeAction::ReadSendSeq
            &&& from == ProbeAction::ReadSendSeq ==> to == ProbeAction::SelectRecvQueue
            &&& from == ProbeAction::SelectRecvQueue ==> to == ProbeAction::ReadRecvSeq
            &&& from == ProbeAction::ReadRecvSeq || from == ProbeAction::Done ==> to
                == ProbeAction::Done
            &&& final(p).seq == (if from == ProbeAction::ReadSendSeq && outcome is Some {
                outcome->0
            } else {
                old(p).seq
            })
            &&& final(p).ack == (if from == ProbeAction::ReadRecvSeq && outcome is Some {
                outcome->0
            } else {
                old(p).ack
            })
        }),
{
}

/// A freeze that meets no error ends with the two numbers that were read, and with what the
/// kernel's clock is ahead of ours, modulo 2^32; without a kernel clock ours is used as it is.
pub proof fn freeze_reads_the_kernel(seq: u32, ack: u32, clock: Option<u32>, now_ms: u32, f: Freeze)
    requires
        call_ensures(Freeze::new, (), f),
    ensures
        ({
            let ok = FreezeEvent::Succeeded;
            let reading = f.stepped(ok, now_ms).stepped(ok, now_ms);
            let choosing = reading.stepped(FreezeEvent::Read(seq), now_ms);
            let receiving = choosing.stepped(ok, now_ms);
            let timing = receiving.stepped(FreezeEvent::Read(ack), now_ms);
            let end = timing.stepped(
                match clock {
                    Some(ts) => FreezeEvent::Read(ts),
                    None => FreezeEvent::Error,
                },
                now_ms,
            );
            &&& f.next == FreezeAction::EnableRepair
            &&& f.stepped(ok, now_ms).next == FreezeAction::SelectSendQueue
            &&& reading.next == FreezeAction::ReadSendSeq
            &&& choosing.next == FreezeAction::SelectRecvQueue
            &&& receiving.next == FreezeAction::ReadRecvSeq
            &&& timing.next == FreezeAction::ReadTimestamp
            &&& end.next matches FreezeAction::Done(k) && k.seq == seq && k.ack == ack && (
            clock matches Some(ts) ==> (k.ts_offset + now_ms) % 0x1_0000_0000 == ts) && (
            clock is None ==> k.ts_offset == 0)
        }),
{
}

/// A freeze takes one step at a time. Where repair mode cannot be had it fails; where it was
/// had and something is missing, it is given up first.
pub proof fn freeze_takes_each_step(f: &mut Freeze, event: FreezeEvent, now_ms: u32)
    requires
        call_ensures(Freeze::step, (f, event, now_ms), ()),
    ensures
        ({
            let from = old(f).next;
            let to = final(f).next;
            let ok = event is Succeeded;
            &&& from == FreezeAction::EnableRepair ==> to == (if ok {
                FreezeAction::SelectSendQueue
            } else {
                FreezeAction::Failed
            })
            &&& from == FreezeAction::SelectSendQueue ==> to == (if ok {
                FreezeAction::ReadSendSeq
            } else {
                FreezeAction::DisableRepair
            })
            &&& from == FreezeAction::ReadSendSeq ==> to == (if event is Read {
                FreezeAction::SelectRecvQueue
            } else {
                FreezeAction::DisableRepair
            })
            &&& from == FreezeAction::SelectRecvQueue ==> to == (if ok {
                FreezeAction::ReadRecvSeq
            } else {
                FreezeAction::DisableRepair
            })
            &&& from == FreezeAction::ReadRecvSeq ==> to == (if event is Read {
                FreezeAction::ReadTimestamp
            } else {
                FreezeAction::DisableRepair
            })
            &&& from == FreezeAction::ReadTimestamp ==> (to matches FreezeAction::Done(k) && k.seq
                == old(f).seq && k.ack == old(f).ack && (event matches FreezeEvent::Read(ts) ==> (
            k.ts_offset + now_ms) % 0x1_0000_0000 == ts) && (!(event is Read) ==> k.ts_offset
                == 0))
            &&& from == FreezeAction::DisableRepair || from == FreezeAction::Failed ==> to
                == FreezeAction::Failed
            &&& from is Done ==> to == from
            &&& final(f).seq == (if from == FreezeAction::ReadSendSeq && event is Read {
                event->Read_0
            } else {
                old(f).seq
            })
            &&& final(f).ack == (if from == FreezeAction::ReadRecvSeq && event is Read {
                event->Read_0
            } else {
                old(f).ack
            })
        }),
{
}

} // verus!

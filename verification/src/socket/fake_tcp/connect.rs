//! Making and accepting connections: which step comes next, and what ends an attempt.

use crate::net::{IpAddr, Ipv4Addr, Ipv6Addr, SocketAddr};
use crate::socket::fake_tcp::endpoint::{accept_is_retryable, unspecified_for, AcceptError};
use crate::socket::fake_tcp::stack::KernelTcpState;
use vstd::prelude::*;
use vstd::string::*;

verus! {

/// When and how a connection is taken over from the kernel socket that made it.
#[derive(Debug, Clone, Copy, PartialEq, Eq, Structural)]
pub enum Takeover {
    /// Once the handshake is done, the socket is frozen and its numbers are adopted.
    /// Without that the connection is given up.
    Freeze,
    /// Repair mode is entered right after the kernel connected, if that is possible, and
    /// a packet filter keeps the kernel's segments back.
    Filter,
}

/// Why no connection came about.
#[derive(Debug, Clone, Copy, PartialEq, Eq, Structural)]
pub enum ConnectFailure {
    NoLocalIp,
    NoInterface,
    StackClosed,
    NoHandshake,
    /// Repair mode is unavailable.
    NoRepair,
    /// An operation failed with an error of its own.
    Operation,
}

impl ConnectFailure {
    /// What to report; nothing where the operation's own error says it.
    pub open spec fn text(self) -> Option<Seq<char>> {
        match self {
            ConnectFailure::NoLocalIp => Some("Failed to get local ip"@),
            ConnectFailure::NoInterface => Some("Failed to get interface name"@),
            ConnectFailure::StackClosed => Some("FakeTCP stack closed while allocating socket"@),
            ConnectFailure::NoHandshake => Some("Failed to recv bytes to establish connection"@),
            ConnectFailure::NoRepair | ConnectFailure::Operation => None,
        }
    }

    /// What to report; nothing where the operation's own error says it.
    pub fn message(&self) -> (r: Option<&'static str>)
        ensures
            r is Some == self.text() is Some,
            r matches Some(m) ==> m@ == self.text()->0,
    {
        match self {
            ConnectFailure::NoLocalIp => Some("Failed to get local ip"),
            ConnectFailure::NoInterface => Some("Failed to get interface name"),
            ConnectFailure::StackClosed => Some("FakeTCP stack closed while allocating socket"),
            ConnectFailure::NoHandshake => Some("Failed to recv bytes to establish connection"),
            ConnectFailure::NoRepair | ConnectFailure::Operation => None,
        }
    }
}

/// The next step of a connection attempt.
#[derive(Debug, Clone, Copy, PartialEq, Eq, Structural)]
pub enum ConnectAction {
    /// Find the address from which the kernel would reach the peer.
    FindLocalIp,
    /// Bind the kernel socket to this address.
    Bind(SocketAddr),
    /// Find the interface that has the local address.
    FindInterface,
    /// Open the packet device for what the peer sends to the local address.
    CreateTun,
    /// Register the connection with the stack.
    Register,
    /// Let the kernel connect.
    ConnectKernel,
    /// Put the kernel socket in repair mode.
    EnterRepair,
    /// Filter the kernel's segments out.
    InstallFilter,
    /// Wait for the handshake on the registered connection.
    AwaitHandshake,
    /// Freeze the kernel socket and read its numbers.
    FreezeKernel,
    /// Connected. Where the kernel socket was frozen, its numbers are adopted.
    Connected(Option<KernelTcpState>),
    Failed(ConnectFailure),
}

/// What a step brought.
#[derive(Debug, Clone, Copy, PartialEq, Eq, Structural)]
pub enum ConnectEvent {
    Done,
    /// The local address that was found.
    Ip(IpAddr),
    /// The local port that the kernel socket got.
    Port(u16),
    /// The numbers of the frozen socket.
    State(KernelTcpState),
    Failed,
}

/// A connection attempt.
#[derive(Debug, Clone, Copy, PartialEq, Eq, Structural)]
pub struct Connecting {
    pub takeover: Takeover,
    pub remote: SocketAddr,
    pub local: SocketAddr,
    pub next: ConnectAction,
}

/// The wildcard address of the family of `ip`.
pub open spec fn wildcard(ip: IpAddr) -> IpAddr {
    match ip {
        IpAddr::V4(_) => IpAddr::V4(Ipv4Addr { bits: 0 }),
        IpAddr::V6(_) => IpAddr::V6(Ipv6Addr { high: 0, low: 0 }),
    }
}

impl Connecting {
    /// Begins to connect to `remote`.
    pub fn new(takeover: Takeover, remote: SocketAddr) -> (r: Self)
        ensures
            r == (Connecting {
                takeover,
                remote,
                local: SocketAddr { ip: wildcard(remote.ip), port: 0 },
                next: ConnectAction::FindLocalIp,
            }),
    {
        Connecting {
            takeover,
            remote,
            local: SocketAddr { ip: unspecified_for(remote.ip), port: 0 },
            next: ConnectAction::FindLocalIp,
        }
    }

    /// The attempt is over.
    pub open spec fn is_over(self) -> bool {
        self.next is Connected || self.next is Failed
    }

    /// An event that the pending step can bring.
    pub open spec fn awaits(self, event: ConnectEvent) -> bool {
        event is Failed || match self.next {
            ConnectAction::FindLocalIp => event is Ip,
            ConnectAction::Bind(_) => event is Port,
            ConnectAction::FreezeKernel => event is State,
            ConnectAction::Connected(_) | ConnectAction::Failed(_) => false,
            _ => event is Done,
        }
    }

    /// What comes after a step that succeeded.
    pub open spec fn action_after(self) -> ConnectAction {
        match self.next {
            ConnectAction::FindLocalIp => ConnectAction::Bind(
                SocketAddr { ip: wildcard(self.remote.ip), port: 0 },
            ),
            ConnectAction::Bind(_) => ConnectAction::FindInterface,
            ConnectAction::FindInterface => ConnectAction::CreateTun,
            ConnectAction::CreateTun => ConnectAction::Register,
            ConnectAction::Register => ConnectAction::ConnectKernel,
            ConnectAction::ConnectKernel => if self.takeover == Takeover::Filter {
                ConnectAction::EnterRepair
            } else {
                ConnectAction::AwaitHandshake
            },
            ConnectAction::EnterRepair => ConnectAction::InstallFilter,
            ConnectAction::InstallFilter => ConnectAction::AwaitHandshake,
            ConnectAction::AwaitHandshake => if self.takeover == Takeover::Filter {
                ConnectAction::Connected(None)
            } else {
                ConnectAction::FreezeKernel
            },
            other => other,
        }
    }

    /// What a failed step means to the attempt; `None` where it goes on regardless.
    pub open spec fn failure(self) -> Option<ConnectFailure> {
        match self.next {
            ConnectAction::FindLocalIp => Some(ConnectFailure::NoLocalIp),
            ConnectAction::FindInterface => Some(ConnectFailure::NoInterface),
            ConnectAction::Register => Some(ConnectFailure::StackClosed),
            ConnectAction::AwaitHandshake => Some(ConnectFailure::NoHandshake),
            ConnectAction::FreezeKernel => Some(ConnectFailure::NoRepair),
            ConnectAction::EnterRepair | ConnectAction::InstallFilter => None,
            _ => Some(ConnectFailure::Operation),
        }
    }

    /// The attempt after the pending step.
    pub open spec fn stepped(self, event: ConnectEvent) -> Connecting {
        match event {
            ConnectEvent::Failed => match self.failure() {
                Some(why) => Connecting { next: ConnectAction::Failed(why), ..self },
                None => Connecting { next: self.action_after(), ..self },
            },
            ConnectEvent::Ip(ip) => Connecting {
                local: SocketAddr { ip, port: self.local.port },
                next: self.action_after(),
                ..self
            },
            ConnectEvent::Port(port) => Connecting {
                local: SocketAddr { ip: self.local.ip, port },
                next: self.action_after(),
                ..self
            },
            ConnectEvent::State(state) => Connecting {
                next: ConnectAction::Connected(Some(state)),
                ..self
            },
            ConnectEvent::Done => Connecting { next: self.action_after(), ..self },
        }
    }

    /// Takes what the pending step brought.
    pub fn step(&mut self, event: ConnectEvent)
        requires
            !old(self).is_over(),
            old(self).awaits(event),
        ensures
            *final(self) == old(self).stepped(event),
    {
        let after: ConnectAction = match self.next {
            ConnectAction::FindLocalIp => ConnectAction::Bind(
                SocketAddr { ip: unspecified_for(self.remote.ip), port: 0 },
            ),
            ConnectAction::Bind(_) => ConnectAction::FindInterface,
            ConnectAction::FindInterface => ConnectAction::CreateTun,
            ConnectAction::CreateTun => ConnectAction::Register,
            ConnectAction::Register => ConnectAction::ConnectKernel,
            ConnectAction::ConnectKernel => if self.takeover == Takeover::Filter {
                ConnectAction::EnterRepair
            } else {
                ConnectAction::AwaitHandshake
            },
            ConnectAction::EnterRepair => ConnectAction::InstallFilter,
            ConnectAction::InstallFilter => ConnectAction::AwaitHandshake,
            ConnectAction::AwaitHandshake => if self.takeover == Takeover::Filter {
                ConnectAction::Connected(None)
            } else {
                ConnectAction::FreezeKernel
            },
            other => other,
        };
        match event {
            ConnectEvent::Failed => {
                self.next = match self.next {
                    ConnectAction::FindLocalIp => ConnectAction::Failed(ConnectFailure::NoLocalIp),
                    ConnectAction::FindInterface => ConnectAction::Failed(
                        ConnectFailure::NoInterface,
                    ),
                    ConnectAction::Register => ConnectAction::Failed(ConnectFailure::StackClosed),
                    ConnectAction::AwaitHandshake => ConnectAction::Failed(
                        ConnectFailure::NoHandshake,
                    ),
                    ConnectAction::FreezeKernel => ConnectAction::Failed(ConnectFailure::NoRepair),
                    ConnectAction::EnterRepair | ConnectAction::InstallFilter => after,
                    _ => ConnectAction::Failed(ConnectFailure::Operation),
                };
            },
            ConnectEvent::Ip(ip) => {
                self.local.ip = ip;
                self.next = after;
            },
            ConnectEvent::Port(port) => {
                self.local.port = port;
                self.next = after;
            },
            ConnectEvent::State(state) => {
                self.next = ConnectAction::Connected(Some(state));
            },
            ConnectEvent::Done => {
                self.next = after;
            },
        }
    }

    /// The attempt after a run of steps.
    pub open spec fn run(self, events: Seq<ConnectEvent>) -> Connecting
        decreases events.len(),
    {
        if events.len() == 0 {
            self
        } else {
            self.stepped(events[0]).run(events.drop_first())
        }
    }

    /// Each step brings what it can, and none follows the end.
    pub open spec fn admits(self, events: Seq<ConnectEvent>) -> bool
        decreases events.len(),
    {
        events.len() > 0 ==> {
            &&& !self.is_over()
            &&& self.awaits(events[0])
            &&& self.stepped(events[0]).admits(events.drop_first())
        }
    }

    /// How far the attempt has come.
    pub open spec fn progress(self) -> int {
        match self.next {
            ConnectAction::FindLocalIp => 0,
            ConnectAction::Bind(_) => 1,
            ConnectAction::FindInterface => 2,
            ConnectAction::CreateTun => 3,
            ConnectAction::Register => 4,
            ConnectAction::ConnectKernel => 5,
            ConnectAction::EnterRepair => 6,
            ConnectAction::InstallFilter => 7,
            ConnectAction::AwaitHandshake => 8,
            ConnectAction::FreezeKernel => 9,
            ConnectAction::Connected(_) | ConnectAction::Failed(_) => 10,
        }
    }

    /// The steps that were taken or are pending fit how the connection is taken over.
    pub open spec fn consistent(self) -> bool {
        match self.next {
            ConnectAction::EnterRepair | ConnectAction::InstallFilter => self.takeover
                == Takeover::Filter,
            ConnectAction::FreezeKernel => self.takeover == Takeover::Freeze,
            ConnectAction::Connected(state) => state is Some == (self.takeover
                == Takeover::Freeze),
            _ => true,
        }
    }
}

/// An attempt ends after at most ten steps, never comes back to a step, and where the
/// socket is to be frozen, succeeds only with its numbers.
pub proof fn attempt_ends(c: Connecting, events: Seq<ConnectEvent>)
    requires
        c.consistent(),
        c.admits(events),
    ensures
        c.run(events).consistent(),
        c.run(events).remote == c.remote,
        c.run(events).progress() >= c.progress() + events.len(),
        c.progress() + events.len() <= 10,
    decreases events.len(),
{
    if events.len() > 0 {
        attempt_ends(c.stepped(events[0]), events.drop_first());
    }
}

/// The connection is registered before the kernel connects, so that the answer to the
/// handshake finds it.
pub proof fn registered_before_connecting(c: Connecting, event: ConnectEvent)
    requires
        c.consistent(),
        !c.is_over(),
        c.awaits(event),
        c.stepped(event).next == ConnectAction::ConnectKernel,
    ensures
        c.next == ConnectAction::Register,
        event is Done,
{
}

/// The addresses that a stack is made for: an IPv4 address, or the IPv4 wildcard beside an
/// IPv6 address.
pub fn stack_addresses(local_ip: IpAddr) -> (r: (Ipv4Addr, Option<Ipv6Addr>))
    ensures
        r == match local_ip {
            IpAddr::V4(ip) => (ip, None),
            IpAddr::V6(ip) => (Ipv4Addr { bits: 0 }, Some(ip)),
        },
{
    match local_ip {
        IpAddr::V4(ip) => (ip, None),
        IpAddr::V6(ip) => (Ipv4Addr { bits: 0 }, Some(ip)),
    }
}

/// The address that a listener's packet device filters for: any address of the family, at
/// the local port.
pub fn listener_filter(local: SocketAddr) -> (r: SocketAddr)
    ensures
        r == (SocketAddr { ip: wildcard(local.ip), port: local.port }),
{
    SocketAddr { ip: unspecified_for(local.ip), port: local.port }
}

// --- Accepting ---

/// The next step of accepting a connection.
#[derive(Debug, Clone, Copy, PartialEq, Eq, Structural)]
pub enum AcceptAction {
    /// Wait for the kernel to accept a connection.
    Accept,
    /// Find the local address of the accepted connection, and its interface.
    FindInterface,
    /// Take the kernel's numbers over.
    TakeOver,
    /// Filter the kernel's segments out.
    InstallFilter,
    /// Find or make the stack of the interface.
    GetStack,
    /// Register the connection with the stack, under these numbers.
    Register(KernelTcpState),
    /// Forget the stack, which closed meanwhile, and drop the connection.
    DropStack,
    Accepted,
    Failed,
}

/// What a step brought.
#[derive(Debug, Clone, Copy, PartialEq, Eq, Structural)]
pub enum AcceptEvent {
    Done,
    /// The kernel's numbers.
    State(KernelTcpState),
    /// The kernel failed to accept.
    AcceptError(AcceptError),
    Failed,
}

/// Accepting a connection.
#[derive(Debug, Clone, Copy, PartialEq, Eq, Structural)]
pub struct Accepting {
    pub takeover: Takeover,
    pub numbers: KernelTcpState,
    pub next: AcceptAction,
}

impl Accepting {
    /// Begins to wait for a connection.
    pub fn new(takeover: Takeover) -> (r: Self)
        ensures
            r == (Accepting {
                takeover,
                numbers: KernelTcpState { seq: 0, ack: 0, ts_offset: 0 },
                next: AcceptAction::Accept,
            }),
    {
        Accepting {
            takeover,
            numbers: KernelTcpState { seq: 0, ack: 0, ts_offset: 0 },
            next: AcceptAction::Accept,
        }
    }

    pub open spec fn is_over(self) -> bool {
        self.next is Accepted || self.next is Failed
    }

    /// An event that the pending step can bring.
    pub open spec fn awaits(self, event: AcceptEvent) -> bool {
        match self.next {
            AcceptAction::Accept => event is Done || event is AcceptError,
            AcceptAction::TakeOver => event is State || event is Failed,
            AcceptAction::InstallFilter | AcceptAction::DropStack => event is Done,
            AcceptAction::Accepted | AcceptAction::Failed => false,
            _ => event is Done || event is Failed,
        }
    }

    /// The step after the pending one. A connection without an interface, and one whose
    /// stack closed, is dropped and the next one is awaited.
    pub open spec fn stepped(self, event: AcceptEvent) -> Accepting {
        let zero = KernelTcpState { seq: 0, ack: 0, ts_offset: 0 };
        match (self.next, event) {
            (AcceptAction::Accept, AcceptEvent::Done) => Accepting {
                next: AcceptAction::FindInterface,
                ..self
            },
            (AcceptAction::Accept, AcceptEvent::AcceptError(e)) => if e == AcceptError::Other {
                Accepting { next: AcceptAction::Failed, ..self }
            } else {
                self
            },
            (AcceptAction::FindInterface, AcceptEvent::Done) => Accepting {
                next: AcceptAction::TakeOver,
                ..self
            },
            (AcceptAction::FindInterface, AcceptEvent::Failed) => Accepting {
                next: AcceptAction::Accept,
                ..self
            },
            (AcceptAction::TakeOver, AcceptEvent::State(numbers)) => Accepting {
                numbers,
                next: if self.takeover == Takeover::Filter {
                    AcceptAction::InstallFilter
                } else {
                    AcceptAction::GetStack
                },
                ..self
            },
            (AcceptAction::TakeOver, AcceptEvent::Failed) => if self.takeover == Takeover::Filter {
                Accepting { numbers: zero, next: AcceptAction::InstallFilter, ..self }
            } else {
                Accepting { next: AcceptAction::Failed, ..self }
            },
            (AcceptAction::InstallFilter, _) => Accepting { next: AcceptAction::GetStack, ..self },
            (AcceptAction::GetStack, AcceptEvent::Done) => Accepting {
                next: AcceptAction::Register(self.numbers),
                ..self
            },
            (AcceptAction::Register(_), AcceptEvent::Done) => Accepting {
                next: AcceptAction::Accepted,
                ..self
            },
            (AcceptAction::Register(_), AcceptEvent::Failed) => Accepting {
                next: AcceptAction::DropStack,
                ..self
            },
            (AcceptAction::DropStack, _) => Accepting { next: AcceptAction::Accept, ..self },
            _ => Accepting { next: AcceptAction::Failed, ..self },
        }
    }

    /// Takes what the pending step brought.
    pub fn step(&mut self, event: AcceptEvent)
        requires
            !old(self).is_over(),
            old(self).awaits(event),
        ensures
            *final(self) == old(self).stepped(event),
    {
        match (self.next, event) {
            (AcceptAction::Accept, AcceptEvent::Done) => {
                self.next = AcceptAction::FindInterface;
            },
            (AcceptAction::Accept, AcceptEvent::AcceptError(e)) => {
                if !accept_is_retryable(e) {
                    self.next = AcceptAction::Failed;
                }
            },
            (AcceptAction::FindInterface, AcceptEvent::Done) => {
                self.next = AcceptAction::TakeOver;
            },
            (AcceptAction::FindInterface, AcceptEvent::Failed) => {
                self.next = AcceptAction::Accept;
            },
            (AcceptAction::TakeOver, AcceptEvent::State(numbers)) => {
                self.numbers = numbers;
                self.next = if self.takeover == Takeover::Filter {
                    AcceptAction::InstallFilter
                } else {
                    AcceptAction::GetStack
                };
            },
            (AcceptAction::TakeOver, AcceptEvent::Failed) => {
                if self.takeover == Takeover::Filter {
                    self.numbers = KernelTcpState { seq: 0, ack: 0, ts_offset: 0 };
                    self.next = AcceptAction::InstallFilter;
                } else {
                    self.next = AcceptAction::Failed;
                }
            },
            (AcceptAction::InstallFilter, _) => {
                self.next = AcceptAction::GetStack;
            },
            (AcceptAction::GetStack, AcceptEvent::Done) => {
                self.next = AcceptAction::Register(self.numbers);
            },
            (AcceptAction::Register(_), AcceptEvent::Done) => {
                self.next = AcceptAction::Accepted;
            },
            (AcceptAction::Register(_), AcceptEvent::Failed) => {
                self.next = AcceptAction::DropStack;
            },
            (AcceptAction::DropStack, _) => {
                self.next = AcceptAction::Accept;
            },
            _ => {
                self.next = AcceptAction::Failed;
            },
        }
    }
}

/// A connection that fails on the way to its stack never ends the listener: only the
/// kernel's own failure to accept, a takeover that must not fail, and a stack that cannot
/// be made do.
pub proof fn listener_outlives_connections(a: Accepting, event: AcceptEvent)
    requires
        !a.is_over(),
        a.awaits(event),
        a.stepped(event).next is Failed,
    ensures
        a.next is Accept || a.next is GetStack || (a.next is TakeOver && a.takeover
            == Takeover::Freeze),
{
}

// --- Numbers of a kernel socket, as far as they can be had ---

/// The next operation on the kernel socket.
#[derive(Debug, Clone, Copy, PartialEq, Eq, Structural)]
pub enum ProbeAction {
    EnterRepair,
    SelectSendQueue,
    ReadSendSeq,
    SelectRecvQueue,
    ReadRecvSeq,
    Done,
}

/// Reads the sequence numbers of a kernel socket. Unlike a freeze it goes on when an
/// operation fails, and takes zero for a number that it could not read.
#[derive(Debug, Clone, Copy, PartialEq, Eq, Structural)]
pub struct Probe {
    pub next: ProbeAction,
    pub seq: u32,
    pub ack: u32,
}

impl Probe {
    /// Begins with repair mode.
    pub fn new() -> (r: Self)
        ensures
            r == (Probe { next: ProbeAction::EnterRepair, seq: 0, ack: 0 }),
    {
        Probe { next: ProbeAction::EnterRepair, seq: 0, ack: 0 }
    }

    /// The probe after the pending operation, which failed or brought a number.
    pub open spec fn stepped(self, outcome: Option<u32>) -> Probe {
        match self.next {
            ProbeAction::EnterRepair => Probe {
                next: if outcome is Some {
                    ProbeAction::SelectSendQueue
                } else {
                    ProbeAction::Done
                },
                ..self
            },
            ProbeAction::SelectSendQueue => Probe { next: ProbeAction::ReadSendSeq, ..self },
            ProbeAction::ReadSendSeq => Probe {
                next: ProbeAction::SelectRecvQueue,
                seq: if outcome is Some {
                    outcome->0
                } else {
                    self.seq
                },
                ..self
            },
            ProbeAction::SelectRecvQueue => Probe { next: ProbeAction::ReadRecvSeq, ..self },
            ProbeAction::ReadRecvSeq => Probe {
                next: ProbeAction::Done,
                ack: if outcome is Some {
                    outcome->0
                } else {
                    self.ack
                },
                ..self
            },
            ProbeAction::Done => self,
        }
    }

    /// Takes the outcome of the pending operation: `None` if it failed, otherwise the
    /// number that was read, or any number where nothing is read.
    pub fn step(&mut self, outcome: Option<u32>)
        ensures
            *final(self) == old(self).stepped(outcome),
    {
        match self.next {
            ProbeAction::EnterRepair => {
                self.next = if outcome.is_some() {
                    ProbeAction::SelectSendQueue
                } else {
                    ProbeAction::Done
                };
            },
            ProbeAction::SelectSendQueue => {
                self.next = ProbeAction::ReadSendSeq;
            },
            ProbeAction::ReadSendSeq => {
                if let Some(seq) = outcome {
                    self.seq = seq;
                }
                self.next = ProbeAction::SelectRecvQueue;
            },
            ProbeAction::SelectRecvQueue => {
                self.next = ProbeAction::ReadRecvSeq;
            },
            ProbeAction::ReadRecvSeq => {
                if let Some(ack) = outcome {
                    self.ack = ack;
                }
                self.next = ProbeAction::Done;
            },
            ProbeAction::Done => {},
        }
    }
}

/// Without repair mode both numbers are zero; with it they are what the queues hold.
pub proof fn probe_reads_both_numbers(seq: u32, ack: u32, any: u32)
    ensures
        ({
            let start = Probe { next: ProbeAction::EnterRepair, seq: 0, ack: 0 };
            let send = start.stepped(Some(any)).stepped(Some(any)).stepped(Some(seq));
            let both = send.stepped(Some(any)).stepped(Some(ack));
            &&& start.stepped(None) == (Probe { next: ProbeAction::Done, seq: 0, ack: 0 })
            &&& both == (Probe { next: ProbeAction::Done, seq, ack })
        }),
{
}

} // verus!

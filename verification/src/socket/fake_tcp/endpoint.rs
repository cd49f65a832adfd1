//! A byte stream over a [`Socket`]: small writes are collected into segments, segments
//! into batches.

use crate::net::{IpAddr, Ipv4Addr, Ipv6Addr, SocketAddr};
use crate::socket::fake_tcp::stack::{Socket, State};
use crate::wire::{append, copy_range, drop_front};
use vstd::prelude::*;
use vstd::string::*;

verus! {

/// Writes are collected up to so many bytes.
pub const MAX_COALESCED_PAYLOAD: usize = 1348;

/// So many waiting segments are sent before more are collected.
pub const BATCH_SIZE: usize = 64;

/// Names the transport after its packet driver.
pub fn faketcp_transport_label(driver_type: &str) -> (r: String)
    ensures
        r@ == "faketcp_"@ + driver_type@,
{
    let mut out = String::new();
    out.append("faketcp_");
    out.append(driver_type);
    assert(out@ =~= "faketcp_"@ + driver_type@);
    out
}

/// Where the reading side stands.
enum ReadState {
    Buffered,
    Receiving,
    Closed,
}

/// What a read does next.
#[derive(Debug, Clone, PartialEq, Eq)]
pub enum ReadStep {
    /// Give these bytes to the caller; none means the end of the stream, or no room.
    Deliver(Vec<u8>),
    /// Wait for the socket; report with `on_receive`.
    Receive,
}

/// A connection and the data on its way through it.
pub struct FakeTcpSocket {
    socket: Socket,
    read_state: ReadState,
    buffered: Vec<u8>,
    raw_pending: Vec<u8>,
    pending_frames: Vec<Vec<u8>>,
}

impl FakeTcpSocket {
    /// The connection.
    pub closed spec fn connection(self) -> Socket {
        self.socket
    }

    /// Received bytes that wait for the reader.
    pub closed spec fn unread(self) -> Seq<u8> {
        self.buffered@
    }

    /// The reading side saw the end of the connection.
    pub closed spec fn read_closed(self) -> bool {
        self.read_state is Closed
    }

    /// The reading side waits for the socket.
    pub closed spec fn receiving(self) -> bool {
        self.read_state is Receiving
    }

    /// Written bytes that no segment carries yet.
    pub closed spec fn collected(self) -> Seq<u8> {
        self.raw_pending@
    }

    /// Built segments that were not sent yet.
    pub closed spec fn frames(self) -> Seq<Seq<u8>> {
        self.pending_frames@.map_values(|f: Vec<u8>| f@)
    }

    /// What a write, a flush or a shutdown leaves alone.
    pub open spec fn same_read_side(self, other: FakeTcpSocket) -> bool {
        &&& self.unread() == other.unread()
        &&& self.read_closed() == other.read_closed()
        &&& self.receiving() == other.receiving()
    }

    pub closed spec fn well_formed(self) -> bool {
        &&& self.socket.well_formed()
        &&& !(self.read_state is Buffered) ==> self.buffered@.len() == 0
    }

    /// Wraps a connection.
    pub fn new(socket: Socket) -> (r: Self)
        requires
            socket.well_formed(),
        ensures
            r.well_formed(),
            r.connection() == socket,
            r.unread().len() == 0,
            !r.read_closed(),
            !r.receiving(),
            r.collected().len() == 0,
            r.frames().len() == 0,
    {
        FakeTcpSocket {
            socket,
            read_state: ReadState::Buffered,
            buffered: Vec::new(),
            raw_pending: Vec::new(),
            pending_frames: Vec::new(),
        }
    }

    /// The connection, for what concerns it alone.
    pub fn socket(&mut self) -> (r: &mut Socket)
        requires
            old(self).well_formed(),
        ensures
            *r == old(self).connection(),
            final(self).connection() == *final(r),
            final(r).well_formed() ==> final(self).well_formed(),
            final(self).same_read_side(*old(self)),
            final(self).collected() == old(self).collected(),
            final(self).frames() == old(self).frames(),
    {
        &mut self.socket
    }

    /// The connection can send.
    pub open spec fn ready(self) -> bool {
        self.connection().state == State::Established && self.connection().seq_calibrated
    }

    /// Whether the collected bytes fit one segment, or stay because the connection cannot
    /// send yet.
    pub fn can_seal(&self) -> (r: bool)
        ensures
            r == (self.ready() ==> self.connection().can_carry(self.collected().len() as int)),
    {
        !(self.socket.state == State::Established && self.socket.seq_calibrated)
            || self.socket.carries(self.raw_pending.len())
    }

    /// Puts the collected bytes into a segment. A connection that cannot send yet keeps
    /// them.
    pub fn seal_current_frame(&mut self, now_ms: u32, now_secs: u32)
        requires
            old(self).well_formed(),
            old(self).ready() ==> old(self).connection().can_carry(
                old(self).collected().len() as int,
            ),
        ensures
            final(self).well_formed(),
            final(self).same_read_side(*old(self)),
            ({
                let data = old(self).collected();
                if data.len() == 0 || !old(self).ready() {
                    &&& final(self).collected() == data
                    &&& final(self).frames() == old(self).frames()
                    &&& final(self).connection() == old(self).connection()
                } else {
                    &&& final(self).collected().len() == 0
                    &&& final(self).connection() == old(self).connection().after_build(
                        data.len() as int,
                        now_secs,
                    )
                    &&& exists|window: u16|
                        65023 < window && final(self).frames() == old(self).frames().push(
                            #[trigger] old(self).connection().outgoing(
                                0x18,
                                data,
                                old(self).connection().seq,
                                now_ms,
                                window,
                            ),
                        )
                }
            }),
    {
        if self.raw_pending.is_empty() {
            return;
        }
        match self.socket.build_packet(self.raw_pending.as_slice(), now_ms, now_secs) {
            Some(frame) => {
                let ghost before = self.pending_frames@;
                let ghost bytes = frame@;
                self.pending_frames.push(frame);
                self.raw_pending = Vec::new();
                assert(self.frames() =~= before.map_values(|f: Vec<u8>| f@).push(bytes));
            },
            None => {},
        }
    }

    /// Begins to write `len` bytes: what is collected goes into a segment if it would grow
    /// too long. Says whether the waiting segments should be sent first.
    pub fn begin_write(&mut self, len: usize, now_ms: u32, now_secs: u32) -> (r: bool)
        requires
            old(self).well_formed(),
            old(self).ready() && old(self).collected().len() + len > 1348 ==> old(
                self,
            ).connection().can_carry(old(self).collected().len() as int),
        ensures
            final(self).well_formed(),
            final(self).same_read_side(*old(self)),
            r == (final(self).frames().len() >= 64),
            ({
                let data = old(self).collected();
                let sealed = data.len() + len > 1348 && data.len() > 0 && old(self).ready();
                if sealed {
                    &&& final(self).collected().len() == 0
                    &&& final(self).connection() == old(self).connection().after_build(
                        data.len() as int,
                        now_secs,
                    )
                    &&& exists|window: u16|
                        65023 < window && final(self).frames() == old(self).frames().push(
                            #[trigger] old(self).connection().outgoing(
                                0x18,
                                data,
                                old(self).connection().seq,
                                now_ms,
                                window,
                            ),
                        )
                } else {
                    &&& final(self).collected() == data
                    &&& final(self).frames() == old(self).frames()
                    &&& final(self).connection() == old(self).connection()
                }
            }),
    {
        if self.raw_pending.len() > MAX_COALESCED_PAYLOAD || len > MAX_COALESCED_PAYLOAD
            - self.raw_pending.len() {
            self.seal_current_frame(now_ms, now_secs);
        }
        self.pending_frames.len() >= BATCH_SIZE
    }

    /// Collects the written bytes.
    pub fn end_write(&mut self, buffer: &[u8]) -> (r: usize)
        requires
            old(self).well_formed(),
        ensures
            final(self).well_formed(),
            final(self).same_read_side(*old(self)),
            final(self).connection() == old(self).connection(),
            final(self).frames() == old(self).frames(),
            final(self).collected() == old(self).collected() + buffer@,
            r == buffer@.len(),
    {
        append(&mut self.raw_pending, buffer);
        buffer.len()
    }

    /// The segments to send.
    pub fn pending(&self) -> (r: &Vec<Vec<u8>>)
        ensures
            r@.map_values(|f: Vec<u8>| f@) == self.frames(),
    {
        &self.pending_frames
    }

    /// The device took the first `sent` of the waiting segments.
    pub fn on_sent(&mut self, sent: usize)
        requires
            old(self).well_formed(),
        ensures
            final(self).well_formed(),
            final(self).same_read_side(*old(self)),
            final(self).connection() == old(self).connection(),
            final(self).collected() == old(self).collected(),
            final(self).frames() == if sent >= old(self).frames().len() {
                Seq::empty()
            } else {
                old(self).frames().skip(sent as int)
            },
    {
        let n: usize = self.pending_frames.len();
        if sent >= n {
            self.pending_frames = Vec::new();
            assert(self.frames() =~= Seq::empty());
        } else if sent > 0 {
            let rest = self.pending_frames.split_off(sent);
            self.pending_frames = rest;
            assert(self.frames() =~= old(self).frames().skip(sent as int));
        } else {
            assert(self.frames() =~= old(self).frames().skip(0));
        }
    }

    /// The next step of a read into a buffer with `room` bytes left.
    pub fn begin_read(&mut self, room: usize) -> (r: ReadStep)
        requires
            old(self).well_formed(),
        ensures
            final(self).well_formed(),
            final(self).connection() == old(self).connection(),
            final(self).collected() == old(self).collected(),
            final(self).frames() == old(self).frames(),
            final(self).read_closed() == old(self).read_closed(),
            final(self).receiving() == (r is Receive),
            ({
                let data = old(self).unread();
                let n = if room < data.len() { room as int } else { data.len() as int };
                if old(self).read_closed() {
                    r matches ReadStep::Deliver(out) && out@.len() == 0 && final(self).unread()
                        == data
                } else if data.len() > 0 {
                    r matches ReadStep::Deliver(out) && out@ == data.take(n)
                        && final(self).unread() == data.skip(n)
                } else {
                    r is Receive && final(self).receiving() && final(self).unread() == data
                }
            }),
    {
        if let ReadState::Closed = self.read_state {
            return ReadStep::Deliver(Vec::new());
        }
        let n: usize = self.buffered.len();
        if n > 0 {
            let length: usize = if n < room { n } else { room };
            let out = copy_range(self.buffered.as_slice(), 0, length);
            drop_front(&mut self.buffered, length);
            assert(out@ =~= old(self).unread().take(length as int));
            assert(self.buffered@ =~= old(self).unread().skip(length as int));
            return ReadStep::Deliver(out);
        }
        self.read_state = ReadState::Receiving;
        ReadStep::Receive
    }

    /// The socket received a payload, or `None` at the end of the connection. The read
    /// then begins anew.
    pub fn on_receive(&mut self, payload: Option<Vec<u8>>)
        requires
            old(self).well_formed(),
            old(self).receiving(),
        ensures
            final(self).well_formed(),
            final(self).connection() == old(self).connection(),
            final(self).collected() == old(self).collected(),
            final(self).frames() == old(self).frames(),
            !final(self).receiving(),
            match payload {
                Some(data) => final(self).unread() == data@ && !final(self).read_closed(),
                None => final(self).read_closed() && final(self).unread().len() == 0,
            },
    {
        match payload {
            Some(data) => {
                self.buffered = data;
                self.read_state = ReadState::Buffered;
            },
            None => {
                self.read_state = ReadState::Closed;
            },
        }
    }
}

// --- Addresses and interfaces ---

/// The address in its own family: an IPv4 address mapped into IPv6 is IPv4.
pub open spec fn canonical(ip: IpAddr) -> IpAddr {
    match ip {
        IpAddr::V6(a) => if a.high == 0 && a.low as int / 0x1_0000_0000 == 0xffff {
            IpAddr::V4(Ipv4Addr { bits: (a.low as int % 0x1_0000_0000) as u32 })
        } else {
            ip
        },
        IpAddr::V4(_) => ip,
    }
}

/// Takes an IPv4 address that is mapped into IPv6 back to IPv4.
pub fn to_canonical(ip: IpAddr) -> (r: IpAddr)
    ensures
        r == canonical(ip),
{
    match ip {
        IpAddr::V6(a) => {
            if a.high == 0 && a.low / 0x1_0000_0000 == 0xffff {
                IpAddr::V4(Ipv4Addr { bits: (a.low % 0x1_0000_0000) as u32 })
            } else {
                ip
            }
        },
        IpAddr::V4(_) => ip,
    }
}

/// The wildcard address of the destination's family, to which a probe is bound.
pub fn unspecified_for(destination: IpAddr) -> (r: IpAddr)
    ensures
        r == match destination {
            IpAddr::V4(_) => IpAddr::V4(Ipv4Addr { bits: 0 }),
            IpAddr::V6(_) => IpAddr::V6(Ipv6Addr { high: 0, low: 0 }),
        },
{
    match destination {
        IpAddr::V4(_) => IpAddr::V4(Ipv4Addr { bits: 0 }),
        IpAddr::V6(_) => IpAddr::V6(Ipv6Addr { high: 0, low: 0 }),
    }
}

/// Whether a listener really owns what it asked for: the address, and the port unless it
/// asked for any.
pub fn bound_as_requested(bound: SocketAddr, wanted: SocketAddr, port: u16) -> (r: bool)
    ensures
        r == (bound.ip == wanted.ip && (port == 0 || bound.port == port)),
{
    bound.ip == wanted.ip && (port == 0 || bound.port == port)
}

/// Why accepting a connection failed.
#[derive(Debug, Clone, Copy, PartialEq, Eq, Structural)]
pub enum AcceptError {
    NotConnected,
    ConnectionAborted,
    ConnectionRefused,
    ConnectionReset,
    Other,
}

/// Whether to go on accepting after an error: the errors of a single connection do not
/// concern the listener.
pub fn accept_is_retryable(error: AcceptError) -> (r: bool)
    ensures
        r == (error != AcceptError::Other),
{
    error != AcceptError::Other
}

/// What to do about the stack for an accepted connection.
#[derive(Debug, Clone, Copy, PartialEq, Eq, Structural)]
pub enum StackPlan {
    /// Use the stack that is there.
    Reuse,
    /// The stack that is there closed: remove it and create another.
    Replace,
    /// Create one.
    Create,
}

/// Decides by what is known of the stack: nothing, or whether it closed.
pub fn plan_stack(known_closed: Option<bool>) -> (r: StackPlan)
    ensures
        r == match known_closed {
            None => StackPlan::Create,
            Some(true) => StackPlan::Replace,
            Some(false) => StackPlan::Reuse,
        },
{
    match known_closed {
        None => StackPlan::Create,
        Some(closed) => if closed {
            StackPlan::Replace
        } else {
            StackPlan::Reuse
        },
    }
}

} // verus!

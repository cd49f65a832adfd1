//! The tunnel's own TCP state machine: it numbers its segments from what the kernel left
//! off and drops data while the peer acknowledges nothing.

use crate::net;
use crate::net::{IpAddr, MacAddr, SocketAddr};
use crate::socket::fake_tcp::packet;
use crate::socket::fake_tcp::packet::{build_frame, parse_ip_packet, TcpFields, TCP_ACK, TCP_RST};
use crate::socket::fake_tcp::stack;
use crate::socket::fake_tcp::stack::{advance, distance, Dispatch, PurgeEvent, ReaderCache};
use crate::socket::fake_tcp::tuples::AddrTuple;
use crate::wire;
use crate::wire::read_be32;
use vstd::prelude::*;

verus! {

/// A socket drops data while more than this is unacknowledged; numbers further ahead
/// than this are not believed.
pub const MAX_UNACKED_LEN: u32 = 0x800_0000;

/// So much received data is acknowledged at once.
pub const ACK_THRESHOLD: u32 = 65536;

#[derive(Debug, Clone, Copy, PartialEq, Eq, Structural, Hash)]
pub enum State {
    Idle,
    SynSent,
    SynReceived,
    Established,
}

/// What a received packet says, and where its payload stands in the frame.
#[derive(Debug, Clone, Copy, PartialEq, Eq, Structural)]
pub struct ParsedPacketMeta {
    pub src_mac: MacAddr,
    pub flags: u8,
    pub seq: u32,
    pub ack: u32,
    pub window: u16,
    pub payload_offset: usize,
    pub payload_len: usize,
    pub tsval: Option<u32>,
    pub has_sack: bool,
}

/// The sender's timestamp: that of the last timestamps option that holds one.
pub open spec fn last_tsval(opts: Seq<u8>, found: Option<u32>) -> Option<u32>
    decreases opts.len(),
{
    if opts.len() == 0 {
        found
    } else {
        let size = packet::option_size(opts);
        last_tsval(
            opts.skip(size),
            if opts[0] == 8 && size >= 6 {
                Some(wire::from_be32(opts.subrange(2, 6)) as u32)
            } else {
                found
            },
        )
    }
}

/// The options hold a selective acknowledgement.
pub open spec fn holds_sack(opts: Seq<u8>) -> bool
    decreases opts.len(),
{
    if opts.len() == 0 {
        false
    } else {
        opts[0] == 5 || holds_sack(opts.skip(packet::option_size(opts)))
    }
}

fn scan_options(opts: &[u8]) -> (r: (Option<u32>, bool))
    ensures
        r.0 == last_tsval(opts@, None),
        r.1 == holds_sack(opts@),
{
    let n: usize = opts.len();
    let mut i: usize = 0;
    let mut tsval: Option<u32> = None;
    let mut sack: bool = false;
    assert(opts@.skip(0) =~= opts@);
    while i < n
        invariant
            n == opts@.len(),
            i <= n,
            last_tsval(opts@, None) == last_tsval(opts@.skip(i as int), tsval),
            holds_sack(opts@) == (sack || holds_sack(opts@.skip(i as int))),
        decreases n - i,
    {
        let ghost rest = opts@.skip(i as int);
        let mut size: usize = 2;
        if opts[i] <= 1 {
            size = 1;
        } else if n - i >= 2 && opts[i + 1] >= 2 {
            size = opts[i + 1] as usize;
        }
        if size > n - i {
            size = n - i;
        }
        assert(size == packet::option_size(rest));
        if opts[i] == 8 && size >= 6 {
            assert(rest.subrange(2, 6) =~= opts@.subrange(i + 2, i + 6));
            tsval = Some(read_be32(opts, i + 2));
        }
        if opts[i] == 5 {
            sack = true;
        }
        assert(rest.skip(size as int) =~= opts@.skip(i + size));
        i += size;
    }
    (tsval, sack)
}

/// What the frame `b`, whose TCP header starts at `t`, says.
pub open spec fn meta_in(b: Seq<u8>, t: int) -> ParsedPacketMeta {
    let data = packet::payload_in(b, t);
    ParsedPacketMeta {
        src_mac: stack::mac_in(b, 6),
        flags: b[t + 13],
        seq: wire::from_be32(b.subrange(t + 4, t + 8)) as u32,
        ack: wire::from_be32(b.subrange(t + 8, t + 12)) as u32,
        window: wire::from_be16(b.subrange(t + 14, t + 16)) as u16,
        payload_offset: if data.len() == 0 {
            0
        } else {
            packet::payload_start(b, t) as usize
        },
        payload_len: data.len() as usize,
        tsval: last_tsval(packet::options_in(b, t), None),
        has_sack: holds_sack(packet::options_in(b, t)),
    }
}

/// Reads what a frame says.
pub fn parse_meta(raw: &[u8]) -> (r: Option<ParsedPacketMeta>)
    ensures
        r == match packet::tcp_start(raw@) {
            Some(t) => Some(meta_in(raw@, t)),
            None => None,
        },
{
    let (src_mac, _, _, tcp) = match parse_ip_packet(raw) {
        Some(parsed) => parsed,
        None => return None,
    };
    proof {
        stack::lemma_mac_in(src_mac, raw@, 6);
    }
    let (tsval, has_sack) = scan_options(&tcp.options);
    Some(
        ParsedPacketMeta {
            src_mac,
            flags: tcp.flags,
            seq: tcp.sequence,
            ack: tcp.acknowledgement,
            window: tcp.window,
            payload_offset: if tcp.payload.is_empty() {
                0
            } else {
                tcp.payload_offset
            },
            payload_len: tcp.payload.len(),
            tsval,
            has_sack,
        },
    )
}

/// What a received packet means to the caller.
#[derive(Debug, Clone, Copy, PartialEq, Eq, Structural)]
pub enum Received {
    /// Nothing: wait for the next packet.
    Nothing,
    /// A payload of so many bytes to deliver, from this place in the frame.
    Payload { offset: usize, len: usize },
    /// The handshake is complete.
    Connected,
    /// The connection is broken.
    Closed,
}

/// One connection.
#[derive(Debug, Clone, Copy, PartialEq, Eq, Structural)]
pub struct Socket {
    pub local_addr: SocketAddr,
    pub remote_addr: SocketAddr,
    pub local_mac: MacAddr,
    pub remote_mac: Option<MacAddr>,
    pub seq: u32,
    pub ack: u32,
    /// What the last segment acknowledged.
    pub last_ack: u32,
    /// What the peer acknowledged.
    pub remote_ack: u32,
    pub remote_window: u32,
    pub remote_tsval: u32,
    pub ip_id: u16,
    pub state: State,
}

impl Socket {
    /// Both ends are addresses of one family.
    pub open spec fn well_formed(self) -> bool {
        net::same_family(self.local_addr, self.remote_addr)
    }

    /// A payload that one segment can carry.
    pub open spec fn can_carry(self, len: int) -> bool {
        len + 52 <= if self.local_addr.ip is V4 {
            65535int
        } else {
            65555
        }
    }

    /// Whether the socket takes a payload of so many bytes: it drops all of them, or one
    /// segment can carry them.
    pub fn takes(&self, len: usize) -> (r: bool)
        ensures
            r == (self.state == State::Established && !self.choked() ==> self.can_carry(
                len as int,
            )),
    {
        if self.state != State::Established || distance(self.seq, self.remote_ack)
            > MAX_UNACKED_LEN {
            return true;
        }
        match self.local_addr.ip {
            IpAddr::V4(_) => len <= 65483,
            IpAddr::V6(_) => len <= 65503,
        }
    }

    /// A fresh socket that numbers from `seq` and `ack`.
    pub fn new(
        local_addr: SocketAddr,
        remote_addr: SocketAddr,
        local_mac: MacAddr,
        remote_mac: Option<MacAddr>,
        seq: u32,
        ack: u32,
        state: State,
    ) -> (r: Socket)
        ensures
            r == (Socket {
                local_addr,
                remote_addr,
                local_mac,
                remote_mac,
                seq,
                ack,
                last_ack: ack,
                remote_ack: seq,
                remote_window: 0x3fff_c000,
                remote_tsval: 0,
                ip_id: 1,
                state,
            }),
    {
        Socket {
            local_addr,
            remote_addr,
            local_mac,
            remote_mac,
            seq,
            ack,
            last_ack: ack,
            remote_ack: seq,
            remote_window: 0x3fff_c000,
            remote_tsval: 0,
            ip_id: 1,
            state,
        }
    }

    /// The frame of an outgoing segment.
    pub open spec fn outgoing(
        self,
        flags: u8,
        payload: Seq<u8>,
        seq: u32,
        ack: u32,
        timestamps: Option<(u32, u32)>,
    ) -> Seq<u8> {
        packet::frame(
            self.local_mac,
            match self.remote_mac {
                Some(mac) => mac,
                None => MacAddr(0, 0, 0, 0, 0, 0),
            },
            self.local_addr.ip,
            self.remote_addr.ip,
            TcpFields {
                source: self.local_addr.port,
                destination: self.remote_addr.port,
                seq,
                ack,
                flags,
                window: 0xffff,
                timestamps,
            },
            self.ip_id,
            payload,
        )
    }

    /// The state after a segment was built: what it acknowledged is remembered.
    pub open spec fn after_build(self) -> Socket {
        Socket {
            last_ack: self.ack,
            ip_id: ((self.ip_id + 1) % 0x10000) as u16,
            ..self
        }
    }

    fn build_frame_with(
        &self,
        flags: u8,
        payload: &[u8],
        seq: u32,
        ack: u32,
        timestamps: Option<(u32, u32)>,
    ) -> (r: Vec<u8>)
        requires
            self.well_formed(),
            !packet::has_syn(flags),
            self.can_carry(payload@.len() as int),
        ensures
            r@ == self.outgoing(flags, payload@, seq, ack, timestamps),
    {
        let f = TcpFields {
            source: self.local_addr.port,
            destination: self.remote_addr.port,
            seq,
            ack,
            flags,
            window: 0xffff,
            timestamps,
        };
        let remote_mac: MacAddr = match self.remote_mac {
            Some(mac) => mac,
            None => MacAddr::zero(),
        };
        assert(f.options().len() <= 12);
        build_frame(
            self.local_mac,
            remote_mac,
            self.local_addr.ip,
            self.remote_addr.ip,
            &f,
            self.ip_id,
            payload,
        )
    }

    fn build_tcp_packet_with_seq(&mut self, flags: u8, payload: &[u8], seq: u32, now_ms: u32) -> (r: Vec<
        u8,
    >)
        requires
            old(self).well_formed(),
            !packet::has_syn(flags),
            old(self).can_carry(payload@.len() as int),
        ensures
            *final(self) == old(self).after_build(),
            r@ == old(self).outgoing(
                flags,
                payload@,
                seq,
                old(self).ack,
                Some((now_ms, old(self).remote_tsval)),
            ),
    {
        let ack: u32 = self.ack;
        let buf = self.build_frame_with(
            flags,
            payload,
            seq,
            ack,
            Some((now_ms, self.remote_tsval)),
        );
        self.last_ack = ack;
        self.ip_id = self.ip_id.wrapping_add(1);
        buf
    }

    /// More is unacknowledged than the socket tolerates.
    pub open spec fn choked(self) -> bool {
        stack::ahead(self.seq, self.remote_ack) > MAX_UNACKED_LEN
    }

    /// Builds a segment that carries `payload`. A socket that is not established, or
    /// whose peer acknowledges nothing, builds none: the data is dropped.
    pub fn build_packet(&mut self, payload: &[u8], now_ms: u32) -> (r: Option<Vec<u8>>)
        requires
            old(self).well_formed(),
            old(self).state == State::Established && !old(self).choked() ==> old(self).can_carry(
                payload@.len() as int,
            ),
        ensures
            r is Some == (old(self).state == State::Established && !old(self).choked()),
            r is None ==> *final(self) == *old(self),
            r matches Some(buf) ==> {
                &&& buf@ == old(self).outgoing(
                    TCP_ACK,
                    payload@,
                    old(self).seq,
                    old(self).ack,
                    Some((now_ms, old(self).remote_tsval)),
                )
                &&& *final(self) == (Socket {
                    seq: stack::wrap_add(old(self).seq, payload@.len() as int),
                    ..old(self).after_build()
                })
            },
    {
        if self.state != State::Established {
            return None;
        }
        if distance(self.seq, self.remote_ack) > MAX_UNACKED_LEN {
            return None;
        }
        let seq: u32 = self.seq;
        let buf = self.build_tcp_packet_with_seq(TCP_ACK, payload, seq, now_ms);
        self.seq = advance(seq, payload.len());
        Some(buf)
    }

    /// The segment with which an established socket sends `payload`; `None` where the
    /// data is dropped, which counts as sent.
    pub fn try_send(&mut self, payload: &[u8], now_ms: u32) -> (r: Option<Vec<u8>>)
        requires
            old(self).well_formed(),
            old(self).state == State::Established,
            !old(self).choked() ==> old(self).can_carry(payload@.len() as int),
        ensures
            r is None == old(self).choked(),
            r is None ==> *final(self) == *old(self),
            r matches Some(buf) ==> {
                &&& buf@ == old(self).outgoing(
                    TCP_ACK,
                    payload@,
                    old(self).seq,
                    old(self).ack,
                    Some((now_ms, old(self).remote_tsval)),
                )
                &&& *final(self) == (Socket {
                    seq: stack::wrap_add(old(self).seq, payload@.len() as int),
                    ..old(self).after_build()
                })
            },
    {
        self.build_packet(payload, now_ms)
    }

    /// A bare acknowledgement, if there is something new to acknowledge.
    pub fn send_ack(&mut self, now_ms: u32) -> (r: Option<Vec<u8>>)
        requires
            old(self).well_formed(),
        ensures
            r is Some == (old(self).ack != old(self).last_ack),
            r is None ==> *final(self) == *old(self),
            r matches Some(buf) ==> {
                &&& buf@ == old(self).outgoing(
                    TCP_ACK,
                    Seq::empty(),
                    old(self).seq,
                    old(self).ack,
                    Some((now_ms, old(self).remote_tsval)),
                )
                &&& *final(self) == old(self).after_build()
            },
    {
        if self.ack == self.last_ack {
            return None;
        }
        let empty: Vec<u8> = Vec::new();
        let seq: u32 = self.seq;
        assert(empty@ =~= Seq::empty());
        Some(self.build_tcp_packet_with_seq(TCP_ACK, &empty, seq, now_ms))
    }

    /// Closes the connection with an RST, once.
    pub fn close(&mut self, now_ms: u32) -> (r: Option<Vec<u8>>)
        requires
            old(self).well_formed(),
        ensures
            r is Some == (old(self).state != State::Idle),
            r is None ==> *final(self) == *old(self),
            r matches Some(buf) ==> {
                &&& buf@ == old(self).outgoing(
                    TCP_RST,
                    Seq::empty(),
                    old(self).seq,
                    old(self).ack,
                    Some((now_ms, old(self).remote_tsval)),
                )
                &&& *final(self) == (Socket { state: State::Idle, ..old(self).after_build() })
            },
    {
        if self.state == State::Idle {
            return None;
        }
        let empty: Vec<u8> = Vec::new();
        let seq: u32 = self.seq;
        assert(empty@ =~= Seq::empty());
        let buf = self.build_tcp_packet_with_seq(TCP_RST, &empty, seq, now_ms);
        self.state = State::Idle;
        Some(buf)
    }

    /// The RST that a socket leaves behind when it is dropped: it acknowledges nothing and
    /// carries no timestamps.
    pub fn farewell(&mut self) -> (r: Vec<u8>)
        requires
            old(self).well_formed(),
        ensures
            r@ == old(self).outgoing(TCP_RST, Seq::empty(), old(self).seq, 0, None),
            *final(self) == (Socket {
                ip_id: ((old(self).ip_id + 1) % 0x10000) as u16,
                ..*old(self)
            }),
    {
        let empty: Vec<u8> = Vec::new();
        assert(empty@ =~= Seq::empty());
        let buf = self.build_frame_with(TCP_RST, &empty, self.seq, 0, None);
        self.ip_id = self.ip_id.wrapping_add(1);
        buf
    }

    /// `current`, or `new` if that is ahead of it and not too far.
    pub open spec fn moved(current: u32, new: u32) -> u32 {
        if 0 < stack::ahead(new, current) < MAX_UNACKED_LEN {
            new
        } else {
            current
        }
    }

    /// The state after a segment without RST, while established and before anything is
    /// acknowledged.
    pub open spec fn after_segment(self, m: ParsedPacketMeta) -> Socket {
        let acks = stack::has_flag(m.flags, 16);
        Socket {
            remote_mac: Some(m.src_mac),
            remote_ack: if acks {
                Socket::moved(self.remote_ack, m.ack)
            } else {
                self.remote_ack
            },
            remote_window: if acks {
                (m.window * 16384) as u32
            } else {
                self.remote_window
            },
            remote_tsval: if acks && m.tsval is Some {
                m.tsval->0
            } else {
                self.remote_tsval
            },
            ack: Socket::moved(self.ack, stack::wrap_add(m.seq, m.payload_len as int)),
            ..self
        }
    }

    /// An acknowledgement goes out at once: much is unacknowledged, or the peer sent a
    /// selective one.
    pub open spec fn acks_at_once(self, m: ParsedPacketMeta) -> bool {
        stack::ahead(stack::wrap_add(m.seq, m.payload_len as int), self.last_ack) >= ACK_THRESHOLD
            || m.has_sack
    }

    /// The state after the peer's SYN-ACK.
    pub open spec fn after_syn_ack(self, m: ParsedPacketMeta) -> Socket {
        Socket {
            seq: m.ack,
            remote_ack: m.ack,
            ack: stack::wrap_add(m.seq, 1),
            remote_window: (m.window * 16384) as u32,
            remote_mac: Some(m.src_mac),
            remote_tsval: if m.tsval is Some {
                m.tsval->0
            } else {
                self.remote_tsval
            },
            state: State::Established,
            ..self
        }
    }

    fn move_to(current: u32, new: u32) -> (r: u32)
        ensures
            r == Socket::moved(current, new),
    {
        let diff: u32 = distance(new, current);
        if diff > 0 && diff < MAX_UNACKED_LEN {
            new
        } else {
            current
        }
    }

    /// Takes a packet. Returns what it means, and an acknowledgement to send at once. A
    /// socket that was closed must not receive.
    pub fn on_packet(&mut self, m: &ParsedPacketMeta, now_ms: u32) -> (r: (
        Received,
        Option<Vec<u8>>,
    ))
        requires
            old(self).well_formed(),
            old(self).state == State::Established || old(self).state == State::SynSent,
        ensures
            ({
                let rst = stack::has_flag(m.flags, 4);
                let syn_ack = stack::has_flag(m.flags, 2) && stack::has_flag(m.flags, 16);
                if old(self).state == State::Established {
                    if rst {
                        &&& r.0 == Received::Closed
                        &&& r.1 is None
                        &&& *final(self) == (Socket { remote_mac: Some(m.src_mac), ..*old(self) })
                    } else {
                        let next = old(self).after_segment(*m);
                        &&& r.0 == if m.payload_len == 0 {
                            Received::Nothing
                        } else {
                            Received::Payload { offset: m.payload_offset, len: m.payload_len }
                        }
                        &&& r.1 is Some == (next.acks_at_once(*m) && next.ack != next.last_ack)
                        &&& r.1 is None ==> *final(self) == next
                        &&& r.1 matches Some(buf) ==> *final(self) == next.after_build() && buf@
                            == next.outgoing(
                            TCP_ACK,
                            Seq::empty(),
                            next.seq,
                            next.ack,
                            Some((now_ms, next.remote_tsval)),
                        )
                    }
                } else {
                    &&& r.1 is None
                    &&& if rst {
                        r.0 == Received::Closed && *final(self) == *old(self)
                    } else if syn_ack {
                        r.0 == Received::Connected && *final(self) == old(self).after_syn_ack(*m)
                    } else {
                        r.0 == Received::Nothing && *final(self) == *old(self)
                    }
                }
            }),
    {
        if self.state == State::Established {
            self.remote_mac = Some(m.src_mac);
            if m.flags / 4 % 2 == 1 {
                return (Received::Closed, None);
            }
            if m.flags / 16 % 2 == 1 {
                self.remote_ack = Socket::move_to(self.remote_ack, m.ack);
                self.remote_window = m.window as u32 * 16384;
                if let Some(tsval) = m.tsval {
                    self.remote_tsval = tsval;
                }
            }
            let new_ack: u32 = advance(m.seq, m.payload_len);
            self.ack = Socket::move_to(self.ack, new_ack);
            assert(*self == old(self).after_segment(*m));
            let mut out: Option<Vec<u8>> = None;
            if distance(new_ack, self.last_ack) >= ACK_THRESHOLD || m.has_sack {
                out = self.send_ack(now_ms);
            }
            if m.payload_len == 0 {
                return (Received::Nothing, out);
            }
            return (Received::Payload { offset: m.payload_offset, len: m.payload_len }, out);
        }
        if m.flags / 4 % 2 == 1 {
            return (Received::Closed, None);
        }
        if m.flags / 2 % 2 == 1 && m.flags / 16 % 2 == 1 {
            self.seq = m.ack;
            self.remote_ack = m.ack;
            self.ack = advance(m.seq, 1);
            self.remote_window = m.window as u32 * 16384;
            self.remote_mac = Some(m.src_mac);
            if let Some(tsval) = m.tsval {
                self.remote_tsval = tsval;
            }
            self.state = State::Established;
            return (Received::Connected, None);
        }
        (Received::Nothing, None)
    }
}

/// What the peer acknowledged, and what was received, never move backwards.
pub proof fn numbers_only_advance(s: Socket, m: ParsedPacketMeta)
    ensures
        stack::ahead(s.after_segment(m).ack, s.ack) < MAX_UNACKED_LEN,
        stack::ahead(s.after_segment(m).remote_ack, s.remote_ack) < MAX_UNACKED_LEN,
{
}

/// A socket whose peer acknowledged everything is not choked.
pub proof fn acknowledged_socket_sends(s: Socket)
    requires
        s.remote_ack == s.seq,
    ensures
        !s.choked(),
{
}

// --- Stack ---

/// A packet for which no socket is registered.
#[derive(Debug, Clone, Copy, PartialEq, Eq, Structural)]
pub enum Unmatched {
    /// A SYN to a port that is listened on: the kernel answers it.
    ListenedSyn,
    /// An RST.
    Rst,
    Other,
}

/// The connections of a stack, and the ports that are listened on.
pub struct Stack {
    connections: stack::Stack,
    listening: Vec<u16>,
}

impl Stack {
    pub closed spec fn inner(self) -> stack::Stack {
        self.connections
    }

    /// The ports that are listened on.
    pub closed spec fn ports(self) -> Seq<u16> {
        self.listening@
    }

    pub open spec fn well_formed(self) -> bool {
        self.inner().well_formed()
    }

    /// A stack without connections.
    pub fn new(local_mac: Option<MacAddr>) -> (r: Self)
        ensures
            r.well_formed(),
            r.inner().connections() == Map::<AddrTuple, u64>::empty(),
            !r.inner().closed(),
            r.inner().next() == 0,
            r.inner().mac() == match local_mac {
                Some(mac) => mac,
                None => MacAddr(0, 0, 0, 0, 0, 0),
            },
            r.ports() == Seq::<u16>::empty(),
    {
        Stack { connections: stack::Stack::new(local_mac), listening: Vec::new() }
    }

    /// Whether the stack takes no connections any more.
    pub fn is_closed(&self, reader_done: bool) -> (r: bool)
        ensures
            r == self.inner().refuses(reader_done),
    {
        self.connections.is_closed(reader_done)
    }

    fn listens_on(&self, port: u16) -> (r: bool)
        ensures
            r == self.ports().contains(port),
    {
        let mut i: usize = 0;
        while i < self.listening.len()
            invariant
                i <= self.listening@.len(),
                forall|k: int| 0 <= k < i ==> self.listening@[k] != port,
            decreases self.listening@.len() - i,
        {
            if self.listening[i] == port {
                assert(self.listening@[i as int] == port);
                return true;
            }
            i += 1;
        }
        false
    }

    /// Listens for incoming connections on the given `port`, once.
    pub fn listen(&mut self, port: u16)
        requires
            !old(self).ports().contains(port),
        ensures
            final(self).inner() == old(self).inner(),
            final(self).ports() == old(self).ports().push(port),
    {
        self.listening.push(port);
    }

    /// Allocates a socket and the channel on which it receives. A closed stack, or one
    /// without a reader, refuses. No connection may be allocated twice.
    pub fn try_alloc_established_socket(
        &mut self,
        local_addr: SocketAddr,
        remote_addr: SocketAddr,
        initial_seq: u32,
        initial_ack: u32,
        state: State,
        reader_done: bool,
    ) -> (r: Option<(Socket, u64)>)
        requires
            old(self).well_formed(),
            !old(self).inner().refuses(reader_done) ==> {
                &&& !old(self).inner().connections().contains_key(
                    (AddrTuple { local_addr, remote_addr }),
                )
                &&& old(self).inner().next() < u64::MAX
            },
        ensures
            final(self).well_formed(),
            final(self).ports() == old(self).ports(),
            final(self).inner().mac() == old(self).inner().mac(),
            r is Some == !old(self).inner().refuses(reader_done),
            r is None ==> {
                &&& final(self).inner().closed()
                &&& final(self).inner().connections() == old(self).inner().connections()
                &&& final(self).inner().next() == old(self).inner().next()
            },
            r matches Some((sock, channel)) ==> {
                &&& sock == (Socket {
                    local_addr,
                    remote_addr,
                    local_mac: old(self).inner().mac(),
                    remote_mac: None,
                    seq: initial_seq,
                    ack: initial_ack,
                    last_ack: initial_ack,
                    remote_ack: initial_seq,
                    remote_window: 0x3fff_c000,
                    remote_tsval: 0,
                    ip_id: 1,
                    state,
                })
                &&& channel == old(self).inner().next()
                &&& final(self).inner().next() == old(self).inner().next() + 1
                &&& final(self).inner().closed() == old(self).inner().closed()
                &&& final(self).inner().connections() == old(self).inner().connections().insert(
                    AddrTuple { local_addr, remote_addr },
                    channel,
                )
            },
    {
        match self.connections.register(AddrTuple::new(local_addr, remote_addr), reader_done) {
            Some(channel) => {
                let sock = Socket::new(
                    local_addr,
                    remote_addr,
                    self.connections.local_mac(),
                    None,
                    initial_seq,
                    initial_ack,
                    state,
                );
                Some((sock, channel))
            },
            None => None,
        }
    }

    /// Finds the socket that a received packet is for, and what the packet says.
    pub fn dispatch(&self, cache: &mut ReaderCache, raw: &[u8]) -> (r: Option<
        (ParsedPacketMeta, Result<u64, Unmatched>),
    >)
        requires
            self.well_formed(),
            old(cache).well_formed(),
        ensures
            final(cache).well_formed(),
            match packet::tcp_start(raw@) {
                None => r is None && final(cache).known() == old(cache).known(),
                Some(t) => {
                    let tuple = stack::tuple_in(raw@, t);
                    &&& r is Some
                    &&& r matches Some((meta, found)) && meta == meta_in(raw@, t)
                        && match self.inner().channel_of(*old(cache), tuple) {
                        Some(channel) => found == Ok::<u64, Unmatched>(channel)
                            && final(cache).known() == old(cache).known().insert(tuple, channel),
                        None => {
                            &&& final(cache).known() == old(cache).known()
                            &&& found == Err::<u64, Unmatched>(
                                if raw@[t + 13] == 2 && self.ports().contains(
                                    tuple.local_addr.port,
                                ) {
                                    Unmatched::ListenedSyn
                                } else if stack::has_flag(raw@[t + 13], 4) {
                                    Unmatched::Rst
                                } else {
                                    Unmatched::Other
                                },
                            )
                        },
                    }
                },
            },
    {
        let meta = match parse_meta(raw) {
            Some(m) => m,
            None => return None,
        };
        let found = self.connections.dispatch(cache, raw);
        match found {
            Dispatch::Channel(channel) => Some((meta, Ok(channel))),
            Dispatch::Unknown { rst } => {
                let port: u16 = match parse_ip_packet(raw) {
                    Some((_, _, _, tcp)) => tcp.destination,
                    None => 0,
                };
                if meta.flags == 2 && self.listens_on(port) {
                    Some((meta, Err(Unmatched::ListenedSyn)))
                } else if rst {
                    Some((meta, Err(Unmatched::Rst)))
                } else {
                    Some((meta, Err(Unmatched::Other)))
                }
            },
            Dispatch::Malformed => None,
        }
    }

    /// A socket was dropped: forgets its connection.
    pub fn remove(&mut self, tuple: AddrTuple) -> (r: bool)
        requires
            old(self).well_formed(),
        ensures
            final(self).well_formed(),
            final(self).ports() == old(self).ports(),
            final(self).inner().closed() == old(self).inner().closed(),
            final(self).inner().next() == old(self).inner().next(),
            final(self).inner().mac() == old(self).inner().mac(),
            final(self).inner().connections() == old(self).inner().connections().remove(tuple),
            r == old(self).inner().connections().contains_key(tuple),
    {
        self.connections.remove(tuple)
    }

    /// Handles news from the sockets. Says whether the reader goes on.
    pub fn on_purge(&mut self, cache: &mut ReaderCache, event: PurgeEvent) -> (r: bool)
        requires
            old(self).well_formed(),
            old(cache).well_formed(),
        ensures
            final(self).well_formed(),
            final(cache).well_formed(),
            final(self).ports() == old(self).ports(),
            r == (event != PurgeEvent::Closed),
            match event {
                PurgeEvent::Dropped(tuple) => final(self).inner() == old(self).inner()
                    && final(cache).known() == old(cache).known().remove(tuple),
                PurgeEvent::Lagged => final(self).inner() == old(self).inner()
                    && final(cache).known() == Map::<AddrTuple, u64>::empty(),
                PurgeEvent::Closed => final(self).inner().ended_from(
                    old(self).inner(),
                    *final(cache),
                ),
            },
    {
        self.connections.on_purge(cache, event)
    }

    /// The device failed: the stack closes and every connection ends.
    pub fn on_read_error(&mut self, cache: &mut ReaderCache)
        requires
            old(self).well_formed(),
        ensures
            final(self).well_formed(),
            final(cache).well_formed(),
            final(self).ports() == old(self).ports(),
            final(self).inner().ended_from(old(self).inner(), *final(cache)),
    {
        self.connections.on_read_error(cache);
    }
}

} // verus!

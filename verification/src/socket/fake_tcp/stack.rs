//! A minimum TCP state machine over raw packets.
//!
//! [`Socket`] is one connection: it decides what every received packet means and builds
//! what goes out. [`Stack`] knows the connections and finds the one that a packet is for.
//! Reading and writing packets, and the clock, are left to their owner.

use crate::entropy::{random_u16, random_u32};
use crate::net;
use crate::net::{IpAddr, MacAddr, SocketAddr};
use crate::socket::fake_tcp::packet;
use crate::socket::fake_tcp::packet::{
    build_frame, find_tsval, parse_ip_packet, TcpFields, TCP_ACK, TCP_PSH, TCP_RST,
};
use crate::socket::fake_tcp::tuples::{AddrTuple, TupleTable};
use vstd::prelude::*;

verus! {

/// A socket that sent nothing for so long sends a keepalive.
pub const KEEPALIVE_INTERVAL_SECS: u32 = 20;

/// Only advance our receive cursor forward, and only within this window, so a stale
/// or reordered inbound segment cannot drag it backwards. Half the sequence space
/// is the usual "is this ahead of us" boundary for wrapping u32 comparisons.
pub const MAX_UNACKED_LEN: u32 = 0x7fff_ffff;

/// The largest window that a socket advertises.
pub const RECV_WINDOW_MAX: u16 = 0xffff;

/// The advertised window lies below the largest by less than this.
pub const RECV_WINDOW_JITTER: u16 = 512;

/// How many inbound RSTs to absorb within `RST_WINDOW_SECS` before treating the
/// connection as reset.
pub const MAX_RST_ALLOWED: u32 = 3;

/// An RST that comes later than this after the one before it starts a new count.
pub const RST_WINDOW_SECS: u32 = 10;

#[derive(Debug, Clone, Copy, PartialEq, Eq, Structural, Hash)]
pub enum State {
    Idle,
    SynSent,
    Established,
}

/// What a frozen kernel socket knows of its connection.
#[derive(Debug, Clone, Copy, PartialEq, Eq, Structural)]
pub struct KernelTcpState {
    pub seq: u32,
    pub ack: u32,
    pub ts_offset: u32,
}

/// One connection.
#[derive(Debug, Clone, Copy, PartialEq, Eq, Structural)]
pub struct Socket {
    pub local_addr: SocketAddr,
    pub remote_addr: SocketAddr,
    pub local_mac: MacAddr,
    pub remote_mac: Option<MacAddr>,
    /// The sequence number of the next segment.
    pub seq: u32,
    /// Our receive progress: the peer's sequence number plus the bytes we have
    /// taken from it. Written to outgoing segments only when `repair_active`.
    pub ack: u32,
    /// The peer *kernel*'s initial sequence number plus one: what outgoing segments
    /// acknowledge while the kernel is not silenced.
    pub peer_isn_ack: u32,
    /// Whether the kernel's own numbers were adopted, so that the acknowledgement may
    /// advance with received data.
    pub repair_active: bool,
    /// Payload bytes received since our last acknowledgement.
    pub recv_since_ack: u32,
    pub state: State,
    /// Whether `seq` is known.
    pub seq_calibrated: bool,
    pub ts_offset: u32,
    pub remote_tsval: u32,
    pub ip_id: u16,
    pub last_send_time_secs: u32,
    /// Inbound RSTs in the current window, and when the last one landed.
    pub rst_received: u32,
    pub last_rst_time_secs: u32,
}

/// What a received packet means to the caller.
#[derive(Debug, Clone, PartialEq, Eq)]
pub enum Received {
    /// Nothing: wait for the next packet.
    Nothing,
    /// A payload to deliver; an acknowledgement is now owed.
    Payload(Vec<u8>),
    /// The handshake is complete.
    Connected,
    /// The connection is broken.
    Closed,
}

/// `a + n` modulo 2^32.
pub open spec fn wrap_add(a: u32, n: int) -> u32 {
    ((a + n) % 0x1_0000_0000) as u32
}

/// How far `a` is ahead of `b`, modulo 2^32.
pub open spec fn ahead(a: u32, b: u32) -> int {
    (a - b) % 0x1_0000_0000
}

/// Advances `a` by `n`, modulo 2^32.
pub fn advance(a: u32, n: usize) -> (r: u32)
    ensures
        r == wrap_add(a, n as int),
{
    let low: u64 = n as u64 % 0x1_0000_0000;
    ((a as u64 + low) % 0x1_0000_0000) as u32
}

/// How far `a` is ahead of `b`, modulo 2^32.
pub fn distance(a: u32, b: u32) -> (r: u32)
    ensures
        r == ahead(a, b),
{
    if a >= b {
        a - b
    } else {
        (0x1_0000_0000u64 - (b - a) as u64) as u32
    }
}

/// The flag with the value `bit` is set.
pub open spec fn has_flag(flags: u8, bit: int) -> bool {
    flags as int / bit % 2 == 1
}

/// The hardware address at `at`.
pub open spec fn mac_in(b: Seq<u8>, at: int) -> MacAddr {
    MacAddr(b[at], b[at + 1], b[at + 2], b[at + 3], b[at + 4], b[at + 5])
}

/// An address whose octets stand at `at` is the address there.
pub(crate) proof fn lemma_mac_in(mac: MacAddr, b: Seq<u8>, at: int)
    requires
        0 <= at <= b.len() - 6,
        mac.octets() == b.subrange(at, at + 6),
    ensures
        mac == mac_in(b, at),
{
    let m = mac.octets();
    assert(m[0] == b[at] && m[1] == b[at + 1] && m[2] == b[at + 2]);
    assert(m[3] == b[at + 3] && m[4] == b[at + 4] && m[5] == b[at + 5]);
}

impl Socket {
    /// Both ends are addresses of one family.
    pub open spec fn well_formed(self) -> bool {
        net::same_family(self.local_addr, self.remote_addr)
    }

    /// A payload that one segment can carry.
    pub open spec fn can_carry(self, len: int) -> bool {
        len + 52 <= if self.local_addr.ip is V4 {
            65535int
        } else {
            65555
        }
    }

    /// Whether one segment can carry a payload of so many bytes.
    pub fn carries(&self, len: usize) -> (r: bool)
        ensures
            r == self.can_carry(len as int),
    {
        match self.local_addr.ip {
            IpAddr::V4(_) => len <= 65483,
            IpAddr::V6(_) => len <= 65503,
        }
    }

    /// A fresh socket. With the kernel's numbers in hand it is calibrated; otherwise the
    /// first inbound segment supplies them.
    pub open spec fn fresh(
        local_addr: SocketAddr,
        remote_addr: SocketAddr,
        local_mac: MacAddr,
        kernel: Option<KernelTcpState>,
        state: State,
        ip_id: u16,
    ) -> Socket {
        let k = match kernel {
            Some(k) => k,
            None => KernelTcpState { seq: 0, ack: 0, ts_offset: 0 },
        };
        Socket {
            local_addr,
            remote_addr,
            local_mac,
            remote_mac: None,
            seq: k.seq,
            ack: k.ack,
            peer_isn_ack: k.ack,
            repair_active: k.seq != 0 || k.ack != 0,
            recv_since_ack: 0,
            state,
            seq_calibrated: k.seq != 0 || k.ack != 0,
            ts_offset: k.ts_offset,
            remote_tsval: 0,
            ip_id,
            last_send_time_secs: 0,
            rst_received: 0,
            last_rst_time_secs: 0,
        }
    }

    /// Creates a socket with the given first IP identification.
    pub fn with_ip_id(
        local_addr: SocketAddr,
        remote_addr: SocketAddr,
        local_mac: MacAddr,
        kernel_state: Option<KernelTcpState>,
        state: State,
        ip_id: u16,
    ) -> (r: Socket)
        ensures
            r == Socket::fresh(local_addr, remote_addr, local_mac, kernel_state, state, ip_id),
    {
        let k = match kernel_state {
            Some(k) => k,
            None => KernelTcpState { seq: 0, ack: 0, ts_offset: 0 },
        };
        let calibrated: bool = k.seq != 0 || k.ack != 0;
        Socket {
            local_addr,
            remote_addr,
            local_mac,
            remote_mac: None,
            seq: k.seq,
            ack: k.ack,
            peer_isn_ack: k.ack,
            repair_active: calibrated,
            recv_since_ack: 0,
            state,
            seq_calibrated: calibrated,
            ts_offset: k.ts_offset,
            remote_tsval: 0,
            ip_id,
            last_send_time_secs: 0,
            rst_received: 0,
            last_rst_time_secs: 0,
        }
    }

    /// Creates a socket with a random first IP identification.
    pub fn new(
        local_addr: SocketAddr,
        remote_addr: SocketAddr,
        local_mac: MacAddr,
        kernel_state: Option<KernelTcpState>,
        state: State,
    ) -> (r: Socket)
        ensures
            r == Socket::fresh(local_addr, remote_addr, local_mac, kernel_state, state, r.ip_id),
    {
        Socket::with_ip_id(local_addr, remote_addr, local_mac, kernel_state, state, random_u16())
    }

    /// Overwrites the sequence state with the kernel socket's own.
    ///
    /// A connector calibrates from the SYN-ACK it captured, which is enough to
    /// start sending, but the kernel's numbers are authoritative -- and they only
    /// become readable once its handshake has finished.
    pub fn adopt_kernel_state(&mut self, kernel_state: KernelTcpState)
        ensures
            *final(self) == (Socket {
                seq: kernel_state.seq,
                ack: kernel_state.ack,
                peer_isn_ack: kernel_state.ack,
                ts_offset: kernel_state.ts_offset,
                repair_active: true,
                seq_calibrated: true,
                ..*old(self)
            }),
    {
        self.seq = kernel_state.seq;
        self.ack = kernel_state.ack;
        self.peer_isn_ack = kernel_state.ack;
        self.ts_offset = kernel_state.ts_offset;
        self.repair_active = true;
        self.seq_calibrated = true;
    }

    /// What outgoing segments acknowledge: received data where the kernel is silenced,
    /// and otherwise the peer kernel's initial number, which never moves.
    pub open spec fn wire_ack(self) -> u32 {
        if self.repair_active {
            self.ack
        } else {
            self.peer_isn_ack
        }
    }

    /// The header fields of an outgoing segment.
    pub open spec fn fields(self, flags: u8, seq: u32, now_ms: u32, window: u16) -> TcpFields {
        TcpFields {
            source: self.local_addr.port,
            destination: self.remote_addr.port,
            seq,
            ack: self.wire_ack(),
            flags,
            window,
            timestamps: Some((wrap_add(now_ms, self.ts_offset as int), self.remote_tsval)),
        }
    }

    /// The frame of an outgoing segment.
    pub open spec fn outgoing(
        self,
        flags: u8,
        payload: Seq<u8>,
        seq: u32,
        now_ms: u32,
        window: u16,
    ) -> Seq<u8> {
        packet::frame(
            self.local_mac,
            match self.remote_mac {
                Some(mac) => mac,
                None => MacAddr(0, 0, 0, 0, 0, 0),
            },
            self.local_addr.ip,
            self.remote_addr.ip,
            self.fields(flags, seq, now_ms, window),
            self.ip_id,
            payload,
        )
    }

    /// A bare RST advertises no window; everything else the largest minus some jitter.
    pub open spec fn window_allowed(flags: u8, window: u16) -> bool {
        if flags == TCP_RST {
            window == 0
        } else {
            65535 - 512 < window <= 65535
        }
    }

    /// Builds a segment with the given window, and moves on to the next IP identification.
    pub fn build_segment(
        &mut self,
        flags: u8,
        payload: &[u8],
        seq: u32,
        now_ms: u32,
        window: u16,
    ) -> (r: Vec<u8>)
        requires
            old(self).well_formed(),
            !packet::has_syn(flags),
            old(self).can_carry(payload@.len() as int),
        ensures
            *final(self) == (Socket {
                ip_id: ((old(self).ip_id + 1) % 0x10000) as u16,
                ..*old(self)
            }),
            r@ == old(self).outgoing(flags, payload@, seq, now_ms, window),
    {
        let ack: u32 = if self.repair_active {
            self.ack
        } else {
            self.peer_isn_ack
        };
        let tsval: u32 = advance(now_ms, self.ts_offset as usize);
        let ip_id: u16 = self.ip_id;
        self.ip_id = ip_id.wrapping_add(1);
        let f = TcpFields {
            source: self.local_addr.port,
            destination: self.remote_addr.port,
            seq,
            ack,
            flags,
            window,
            timestamps: Some((tsval, self.remote_tsval)),
        };
        let remote_mac: MacAddr = match self.remote_mac {
            Some(mac) => mac,
            None => MacAddr::zero(),
        };
        assert(f.options().len() == 12);
        build_frame(
            self.local_mac,
            remote_mac,
            self.local_addr.ip,
            self.remote_addr.ip,
            &f,
            ip_id,
            payload,
        )
    }

    /// Builds a segment with a window of its own choosing.
    fn build_tcp_packet_inner(&mut self, flags: u8, payload: &[u8], seq: u32, now_ms: u32) -> (r: Vec<
        u8,
    >)
        requires
            old(self).well_formed(),
            !packet::has_syn(flags),
            old(self).can_carry(payload@.len() as int),
        ensures
            *final(self) == (Socket {
                ip_id: ((old(self).ip_id + 1) % 0x10000) as u16,
                ..*old(self)
            }),
            exists|window: u16|
                Socket::window_allowed(flags, window) && r@ == #[trigger] old(self).outgoing(
                    flags,
                    payload@,
                    seq,
                    now_ms,
                    window,
                ),
    {
        let window: u16 = if flags == TCP_RST {
            0
        } else {
            RECV_WINDOW_MAX - (random_u32() % RECV_WINDOW_JITTER as u32) as u16
        };
        self.build_segment(flags, payload, seq, now_ms, window)
    }

    /// The state after a segment with `len` bytes of payload was built.
    pub open spec fn after_build(self, len: int, now_secs: u32) -> Socket {
        Socket {
            seq: wrap_add(self.seq, len),
            ip_id: ((self.ip_id + 1) % 0x10000) as u16,
            last_send_time_secs: now_secs,
            ..self
        }
    }

    /// The state once the whole acknowledgement debt is claimed.
    pub open spec fn claimed(self) -> Socket {
        Socket { recv_since_ack: 0, ..self }
    }

    /// The state once a claimed debt is settled: it comes back if nothing was sent.
    pub open spec fn settled(self, owed: u32, sent: bool) -> Socket {
        Socket {
            recv_since_ack: if sent {
                self.recv_since_ack
            } else {
                wrap_add(self.recv_since_ack, owed as int)
            },
            ..self
        }
    }

    /// The state after a bare acknowledgement was built, which claims the debt.
    pub open spec fn after_ack_built(self) -> Socket {
        Socket { ip_id: ((self.ip_id + 1) % 0x10000) as u16, ..self.claimed() }
    }

    /// The state after a bare acknowledgement was sent, or could not be.
    pub open spec fn after_ack(self, owed: u32, sent: bool, now_secs: u32) -> Socket {
        Socket { last_send_time_secs: now_secs, ..self.settled(owed, sent) }
    }

    /// Builds a TCP packet with the given payload but does not send it.
    /// Returns `None` if the socket is not established or SEQ is not yet calibrated.
    pub fn build_packet(&mut self, payload: &[u8], now_ms: u32, now_secs: u32) -> (r: Option<Vec<u8>>)
        requires
            old(self).well_formed(),
            old(self).state == State::Established && old(self).seq_calibrated ==> old(
                self,
            ).can_carry(payload@.len() as int),
        ensures
            ({
                let ready = old(self).state == State::Established && old(self).seq_calibrated;
                &&& r is Some == ready
                &&& !ready ==> *final(self) == *old(self)
                &&& ready ==> {
                    &&& *final(self) == old(self).after_build(payload@.len() as int, now_secs)
                    &&& exists|window: u16|
                        65023 < window && (r->0)@ == #[trigger] old(self).outgoing(
                            0x18,
                            payload@,
                            old(self).seq,
                            now_ms,
                            window,
                        )
                }
            }),
    {
        if self.state != State::Established {
            return None;
        }
        if !self.seq_calibrated {
            return None;
        }
        let seq: u32 = self.seq;
        let buf = self.build_tcp_packet_inner(0x18, payload, seq, now_ms);
        self.seq = advance(seq, payload.len());
        self.last_send_time_secs = now_secs;
        Some(buf)
    }

    /// Claims the whole acknowledgement debt before frames are sent.
    pub fn claim_debt(&mut self) -> (r: u32)
        ensures
            r == old(self).recv_since_ack,
            *final(self) == old(self).claimed(),
    {
        let owed: u32 = self.recv_since_ack;
        self.recv_since_ack = 0;
        owed
    }

    /// Settles a claimed debt: frames that reached the wire acknowledged it; if none did,
    /// the debt comes back on top of what arrived since.
    pub fn settle_debt(&mut self, owed: u32, sent: usize)
        ensures
            *final(self) == old(self).settled(owed, sent > 0),
    {
        if sent == 0 {
            self.recv_since_ack = advance(self.recv_since_ack, owed as usize);
        }
    }

    /// How many RSTs the current window holds once one more came.
    pub open spec fn rst_count(self, now_secs: u32) -> int {
        if self.rst_received == 0 || ahead(now_secs, self.last_rst_time_secs) > RST_WINDOW_SECS {
            1
        } else {
            self.rst_received + 1
        }
    }

    /// Records an inbound RST and returns how many have arrived in the current
    /// window, restarting the window if the last one is older than it.
    fn count_rst(&mut self, now_secs: u32) -> (r: u32)
        requires
            old(self).rst_received < u32::MAX,
        ensures
            r == old(self).rst_count(now_secs),
            *final(self) == (Socket {
                rst_received: r,
                last_rst_time_secs: now_secs,
                ..*old(self)
            }),
    {
        let seen: u32 = if self.rst_received == 0 || distance(now_secs, self.last_rst_time_secs)
            > RST_WINDOW_SECS {
            1
        } else {
            self.rst_received + 1
        };
        self.rst_received = seen;
        self.last_rst_time_secs = now_secs;
        seen
    }

    /// A bare acknowledgement is due: data is unacknowledged, or nothing was sent for the
    /// keepalive interval.
    pub open spec fn ack_due(self, now_secs: u32) -> bool {
        self.seq_calibrated && (self.recv_since_ack != 0 || ahead(
            now_secs,
            self.last_send_time_secs,
        ) >= KEEPALIVE_INTERVAL_SECS)
    }

    /// Builds a bare ACK if we have unacknowledged inbound data or the keepalive
    /// interval has elapsed, and claims the debt that it settles.
    ///
    /// The trigger is the volume of payload received, not movement of the ACK
    /// field, which does not move while the kernel is not silenced.
    pub fn send_ack(&mut self, now_ms: u32, now_secs: u32) -> (r: Option<(u32, Vec<u8>)>)
        requires
            old(self).well_formed(),
        ensures
            r is Some == old(self).ack_due(now_secs),
            r is None ==> *final(self) == *old(self),
            r matches Some((owed, buf)) ==> {
                &&& owed == old(self).recv_since_ack
                &&& *final(self) == old(self).after_ack_built()
                &&& exists|window: u16|
                    65023 < window && buf@ == #[trigger] old(self).outgoing(
                        TCP_ACK,
                        Seq::empty(),
                        old(self).seq,
                        now_ms,
                        window,
                    )
            },
    {
        if !self.seq_calibrated {
            return None;
        }
        let force_keepalive: bool = distance(now_secs, self.last_send_time_secs)
            >= KEEPALIVE_INTERVAL_SECS;
        if self.recv_since_ack == 0 && !force_keepalive {
            return None;
        }
        let seq: u32 = self.seq;
        let empty: Vec<u8> = Vec::new();
        let buf = self.build_tcp_packet_inner(TCP_ACK, &empty, seq, now_ms);
        assert(empty@ =~= Seq::empty());
        let owed: u32 = self.claim_debt();
        Some((owed, buf))
    }

    /// The bare ACK that `send_ack` built was sent, or could not be. In the second case the debt comes back.
    pub fn end_ack(&mut self, owed: u32, sent: bool, now_secs: u32)
        ensures
            *final(self) == old(self).after_ack(owed, sent, now_secs),
    {
        if !sent {
            self.recv_since_ack = advance(self.recv_since_ack, owed as usize);
        }
        self.last_send_time_secs = now_secs;
    }

    fn build_rst(&mut self, now_ms: u32) -> (r: Vec<u8>)
        requires
            old(self).well_formed(),
        ensures
            *final(self) == (Socket {
                ip_id: ((old(self).ip_id + 1) % 0x10000) as u16,
                ..*old(self)
            }),
            r@ == old(self).outgoing(TCP_RST, Seq::empty(), old(self).seq, now_ms, 0),
    {
        let seq: u32 = self.seq;
        let empty: Vec<u8> = Vec::new();
        assert(empty@ =~= Seq::empty());
        self.build_tcp_packet_inner(TCP_RST, &empty, seq, now_ms)
    }

    /// Closes the connection. Without a calibrated SEQ an RST would carry sequence 0, far
    /// outside any window the peer will accept, so none is built then.
    pub fn close(&mut self, now_ms: u32) -> (r: Option<Vec<u8>>)
        requires
            old(self).well_formed(),
        ensures
            r is Some == (old(self).state != State::Idle && old(self).seq_calibrated),
            r is None ==> *final(self) == (Socket { state: State::Idle, ..*old(self) }),
            r matches Some(rst) ==> {
                &&& rst@ == old(self).outgoing(TCP_RST, Seq::empty(), old(self).seq, now_ms, 0)
                &&& *final(self) == (Socket {
                    state: State::Idle,
                    ip_id: ((old(self).ip_id + 1) % 0x10000) as u16,
                    ..*old(self)
                })
            },
    {
        if self.state == State::Idle {
            return None;
        }
        if !self.seq_calibrated {
            self.state = State::Idle;
            return None;
        }
        let buf = self.build_rst(now_ms);
        self.state = State::Idle;
        Some(buf)
    }

    /// The RST that a socket leaves behind when it is dropped, in whatever state, if its
    /// SEQ is calibrated.
    pub fn farewell(&mut self, now_ms: u32) -> (r: Option<Vec<u8>>)
        requires
            old(self).well_formed(),
        ensures
            r is Some == old(self).seq_calibrated,
            r is None ==> *final(self) == *old(self),
            r matches Some(rst) ==> {
                &&& rst@ == old(self).outgoing(TCP_RST, Seq::empty(), old(self).seq, now_ms, 0)
                &&& *final(self) == (Socket {
                    ip_id: ((old(self).ip_id + 1) % 0x10000) as u16,
                    ..*old(self)
                })
            },
    {
        if !self.seq_calibrated {
            return None;
        }
        Some(self.build_rst(now_ms))
    }

    // --- Receiving ---

    /// Where the receive cursor goes for a segment that ends at `end`: forward only, and
    /// only within half the sequence space.
    pub open spec fn advanced_ack(self, end: u32) -> u32 {
        if 0 < ahead(end, self.ack) < MAX_UNACKED_LEN {
            end
        } else {
            self.ack
        }
    }

    /// The state after a segment without RST, while established.
    pub open spec fn after_segment(self, b: Seq<u8>, t: int) -> Socket {
        let flags = b[t + 13];
        let data = packet::payload_in(b, t);
        let seq = crate::wire::from_be32(b.subrange(t + 4, t + 8)) as u32;
        let acked = crate::wire::from_be32(b.subrange(t + 8, t + 12)) as u32;
        let end = wrap_add(seq, data.len() as int);
        let calibrates = !self.seq_calibrated && has_flag(flags, 16) && acked != 0;
        let ts = packet::tsval_in(packet::options_in(b, t));
        Socket {
            remote_mac: Some(mac_in(b, 6)),
            remote_tsval: if has_flag(flags, 16) && ts is Some {
                ts->0
            } else {
                self.remote_tsval
            },
            seq: if calibrates {
                acked
            } else {
                self.seq
            },
            peer_isn_ack: if calibrates {
                seq
            } else {
                self.peer_isn_ack
            },
            ack: if calibrates {
                end
            } else if data.len() > 0 {
                self.advanced_ack(end)
            } else {
                self.ack
            },
            recv_since_ack: wrap_add(self.recv_since_ack, data.len() as int),
            seq_calibrated: self.seq_calibrated || calibrates,
            ..self
        }
    }

    /// The state after an RST, while established.
    pub open spec fn after_rst(self, b: Seq<u8>, now_secs: u32) -> Socket {
        Socket {
            remote_mac: Some(mac_in(b, 6)),
            rst_received: self.rst_count(now_secs) as u32,
            last_rst_time_secs: now_secs,
            ..self
        }
    }

    /// The state after the peer's SYN-ACK.
    pub open spec fn after_syn_ack(self, b: Seq<u8>, t: int) -> Socket {
        let seq = crate::wire::from_be32(b.subrange(t + 4, t + 8)) as u32;
        let acked = crate::wire::from_be32(b.subrange(t + 8, t + 12)) as u32;
        let ts = packet::tsval_in(packet::options_in(b, t));
        Socket {
            seq: acked,
            peer_isn_ack: wrap_add(seq, 1),
            ack: wrap_add(seq, 1),
            remote_mac: Some(mac_in(b, 6)),
            remote_tsval: if ts is Some {
                ts->0
            } else {
                self.remote_tsval
            },
            seq_calibrated: true,
            state: State::Established,
            ..self
        }
    }

    /// Takes a packet while established.
    fn on_established(&mut self, raw: &[u8], now_secs: u32) -> (r: Received)
        requires
            old(self).rst_received < u32::MAX,
        ensures
            match packet::tcp_start(raw@) {
                None => r is Nothing && *final(self) == *old(self),
                Some(t) => if has_flag(raw@[t + 13], 4) {
                    &&& *final(self) == old(self).after_rst(raw@, now_secs)
                    &&& r == if old(self).rst_count(now_secs) > MAX_RST_ALLOWED {
                        Received::Closed
                    } else {
                        Received::Nothing
                    }
                } else {
                    let data = packet::payload_in(raw@, t);
                    &&& *final(self) == old(self).after_segment(raw@, t)
                    &&& data.len() == 0 ==> r is Nothing
                    &&& data.len() > 0 ==> (r matches Received::Payload(p) && p@ == data)
                },
            },
    {
        let (src_mac, _, _, tcp) = match parse_ip_packet(raw) {
            Some(parsed) => parsed,
            None => return Received::Nothing,
        };
        let ghost t = packet::tcp_start(raw@)->0;
        proof {
            lemma_mac_in(src_mac, raw@, 6);
        }
        self.remote_mac = Some(src_mac);
        if tcp.flags / 4 % 2 == 1 {
            let seen: u32 = self.count_rst(now_secs);
            if seen > MAX_RST_ALLOWED {
                return Received::Closed;
            }
            return Received::Nothing;
        }
        let is_ack: bool = tcp.flags / 16 % 2 == 1;
        if is_ack {
            if let Some(tsval) = find_tsval(&tcp.options) {
                self.remote_tsval = tsval;
            }
        }
        let has_data: bool = !tcp.payload.is_empty();
        let end: u32 = advance(tcp.sequence, tcp.payload.len());
        if has_data {
            let diff: u32 = distance(end, self.ack);
            if diff > 0 && diff < MAX_UNACKED_LEN {
                self.ack = end;
            }
            self.recv_since_ack = advance(self.recv_since_ack, tcp.payload.len());
        }
        if !self.seq_calibrated && is_ack && tcp.acknowledgement != 0 {
            self.seq = tcp.acknowledgement;
            self.peer_isn_ack = tcp.sequence;
            self.ack = end;
            self.seq_calibrated = true;
        }
        if !has_data {
            return Received::Nothing;
        }
        Received::Payload(tcp.payload)
    }

    /// Takes a packet while the handshake is under way.
    fn on_syn_sent(&mut self, raw: &[u8]) -> (r: Received)
        ensures
            match packet::tcp_start(raw@) {
                None => r is Nothing && *final(self) == *old(self),
                Some(t) => if has_flag(raw@[t + 13], 4) {
                    r is Closed && *final(self) == *old(self)
                } else if has_flag(raw@[t + 13], 2) && has_flag(raw@[t + 13], 16) {
                    r is Connected && *final(self) == old(self).after_syn_ack(raw@, t)
                } else {
                    r is Nothing && *final(self) == *old(self)
                },
            },
    {
        let (src_mac, _, _, tcp) = match parse_ip_packet(raw) {
            Some(parsed) => parsed,
            None => return Received::Nothing,
        };
        proof {
            lemma_mac_in(src_mac, raw@, 6);
        }
        if tcp.flags / 4 % 2 == 1 {
            return Received::Closed;
        }
        if tcp.flags / 2 % 2 == 1 && tcp.flags / 16 % 2 == 1 {
            self.seq = tcp.acknowledgement;
            let peer_isn_next: u32 = advance(tcp.sequence, 1);
            self.peer_isn_ack = peer_isn_next;
            self.ack = peer_isn_next;
            self.remote_mac = Some(src_mac);
            if let Some(tsval) = find_tsval(&tcp.options) {
                self.remote_tsval = tsval;
            }
            self.seq_calibrated = true;
            self.state = State::Established;
            return Received::Connected;
        }
        Received::Nothing
    }

    /// What one packet changes and means. A packet that is no TCP segment changes
    /// nothing. A socket that was closed must not receive.
    pub fn on_packet(&mut self, raw: &[u8], now_secs: u32) -> (r: Received)
        requires
            old(self).state != State::Idle,
            old(self).rst_received < u32::MAX,
        ensures
            match packet::tcp_start(raw@) {
                None => r is Nothing && *final(self) == *old(self),
                Some(t) => {
                    let rst = has_flag(raw@[t + 13], 4);
                    let syn_ack = has_flag(raw@[t + 13], 2) && has_flag(raw@[t + 13], 16);
                    let data = packet::payload_in(raw@, t);
                    if old(self).state == State::Established {
                        if rst {
                            &&& *final(self) == old(self).after_rst(raw@, now_secs)
                            &&& r == if old(self).rst_count(now_secs) > MAX_RST_ALLOWED {
                                Received::Closed
                            } else {
                                Received::Nothing
                            }
                        } else {
                            &&& *final(self) == old(self).after_segment(raw@, t)
                            &&& data.len() == 0 ==> r is Nothing
                            &&& data.len() > 0 ==> (r matches Received::Payload(p) && p@ == data)
                        }
                    } else {
                        if rst {
                            r is Closed && *final(self) == *old(self)
                        } else if syn_ack {
                            r is Connected && *final(self) == old(self).after_syn_ack(raw@, t)
                        } else {
                            r is Nothing && *final(self) == *old(self)
                        }
                    }
                },
            },
    {
        if self.state == State::Established {
            self.on_established(raw, now_secs)
        } else {
            self.on_syn_sent(raw)
        }
    }
}

// --- Laws of a socket ---

/// While the kernel is not silenced, a calibrated socket acknowledges the same number
/// forever, whatever it receives.
pub proof fn pinned_ack_never_moves(s: Socket, b: Seq<u8>, t: int, now_secs: u32)
    requires
        !s.repair_active,
        s.seq_calibrated,
    ensures
        s.after_segment(b, t).wire_ack() == s.wire_ack(),
        s.after_rst(b, now_secs).wire_ack() == s.wire_ack(),
{
}

/// The receive cursor of a calibrated socket never moves backwards: a segment leaves it
/// or moves it forward to the segment's end, by less than half the sequence space.
pub proof fn cursor_only_advances(s: Socket, b: Seq<u8>, t: int)
    requires
        s.seq_calibrated,
    ensures
        ahead(s.after_segment(b, t).ack, s.ack) < MAX_UNACKED_LEN,
{
}

/// A stale segment, one that ends at or behind the cursor, leaves the cursor alone.
pub proof fn stale_segment_leaves_cursor(s: Socket, b: Seq<u8>, t: int)
    requires
        s.seq_calibrated,
        ahead(
            s.ack,
            wrap_add(
                crate::wire::from_be32(b.subrange(t + 4, t + 8)) as u32,
                packet::payload_in(b, t).len() as int,
            ),
        ) <= MAX_UNACKED_LEN,
    ensures
        s.after_segment(b, t).ack == s.ack,
{
}

/// A silenced kernel implies known sequence numbers, whatever happens to the socket.
pub proof fn repair_implies_calibrated(s: Socket, b: Seq<u8>, t: int, now_secs: u32)
    requires
        s.repair_active ==> s.seq_calibrated,
    ensures
        s.after_segment(b, t).repair_active ==> s.after_segment(b, t).seq_calibrated,
        s.after_rst(b, now_secs).repair_active ==> s.after_rst(b, now_secs).seq_calibrated,
        s.after_syn_ack(b, t).repair_active ==> s.after_syn_ack(b, t).seq_calibrated,
        s.after_segment(b, t).repair_active == s.repair_active,
        s.seq_calibrated ==> s.after_segment(b, t).seq_calibrated,
{
}

/// A fresh socket's kernel is silenced exactly when its numbers are known.
pub proof fn fresh_socket_is_consistent(
    local: SocketAddr,
    remote: SocketAddr,
    mac: MacAddr,
    kernel: Option<KernelTcpState>,
    state: State,
    ip_id: u16,
)
    ensures
        ({
            let s = Socket::fresh(local, remote, mac, kernel, state, ip_id);
            s.repair_active == s.seq_calibrated
        }),
{
}

/// The socket after RSTs at the given times.
pub open spec fn after_rsts(s: Socket, b: Seq<u8>, times: Seq<u32>) -> Socket
    decreases times.len(),
{
    if times.len() == 0 {
        s
    } else {
        after_rsts(s, b, times.drop_last()).after_rst(b, times.last())
    }
}

/// A socket that saw no RST yet absorbs the first three, whenever they come.
pub proof fn first_rsts_are_absorbed(s: Socket, b: Seq<u8>, times: Seq<u32>, now: u32)
    requires
        s.rst_received == 0,
        times.len() < MAX_RST_ALLOWED,
    ensures
        after_rsts(s, b, times).rst_count(now) <= MAX_RST_ALLOWED,
{
    lemma_rsts_counted(s, b, times);
}

proof fn lemma_rsts_counted(s: Socket, b: Seq<u8>, times: Seq<u32>)
    requires
        s.rst_received == 0,
        times.len() < 1000,
    ensures
        after_rsts(s, b, times).rst_received <= times.len(),
    decreases times.len(),
{
    if times.len() > 0 {
        lemma_rsts_counted(s, b, times.drop_last());
    }
}

/// A fourth RST within ten seconds of the third of a burst closes the connection.
pub proof fn burst_closes(s: Socket, now: u32)
    requires
        s.rst_received == MAX_RST_ALLOWED,
        ahead(now, s.last_rst_time_secs) <= RST_WINDOW_SECS,
    ensures
        s.rst_count(now) > MAX_RST_ALLOWED,
{
}

/// An RST that comes long after the one before it starts a new count.
pub proof fn stray_rsts_do_not_accumulate(s: Socket, b: Seq<u8>, now: u32)
    requires
        ahead(now, s.last_rst_time_secs) > RST_WINDOW_SECS,
    ensures
        s.rst_count(now) == 1,
        s.after_rst(b, now).rst_received == 1,
{
}

/// A debt that was claimed for frames that never reached the wire is owed again, together
/// with what arrived meanwhile; nothing wraps below zero.
pub proof fn failed_send_returns_the_debt(owed: u32, arrived: u32)
    requires
        owed + arrived <= u32::MAX,
    ensures
        wrap_add(arrived, owed as int) == owed + arrived,
{
}

/// What can happen to the acknowledgement debt of a socket.
pub enum DebtEvent {
    /// The segment that begins at this place of the frame arrived.
    Arrived(Seq<u8>, int),
    /// A segment with so much payload was built at this time, and waits to be sent.
    Built(int, u32),
    /// Waiting segments went to the device, which took some or none of them.
    Flushed { sent: bool },
    /// At this time `send_ack` gave the device an acknowledgement if one was due, and
    /// `end_ack` was told whether the device took it.
    Acknowledged { sent: bool, now_secs: u32 },
}

/// The socket after an event.
pub open spec fn after_debt_event(s: Socket, e: DebtEvent) -> Socket {
    match e {
        DebtEvent::Arrived(b, t) => s.after_segment(b, t),
        DebtEvent::Built(len, now_secs) => s.after_build(len, now_secs),
        DebtEvent::Flushed { sent } => s.claimed().settled(s.recv_since_ack, sent),
        DebtEvent::Acknowledged { sent, now_secs } => if s.ack_due(now_secs) {
            s.after_ack_built().after_ack(s.recv_since_ack, sent, now_secs)
        } else {
            s
        },
    }
}

/// The socket after a run of events.
pub open spec fn after_debt_events(s: Socket, events: Seq<DebtEvent>) -> Socket
    decreases events.len(),
{
    if events.len() == 0 {
        s
    } else {
        after_debt_event(after_debt_events(s, events.drop_last()), events.last())
    }
}

/// The payload bytes that arrived since something last went out.
pub open spec fn unacknowledged(events: Seq<DebtEvent>) -> int
    decreases events.len(),
{
    if events.len() == 0 {
        0
    } else {
        owed_after(unacknowledged(events.drop_last()), events.last())
    }
}

/// The law of `send_ack` and `end_ack`: a socket owes an acknowledgement for exactly the
/// bytes that arrived since something last went out, whatever was only built meanwhile.
/// While the keepalive interval lasts, one is due exactly if there are such bytes. One that
/// went out settles the debt; one that did not is tried again.
pub proof fn arrived_bytes_are_owed(s: Socket, events: Seq<DebtEvent>, now_secs: u32, later: u32)
    requires
        s.seq_calibrated,
        s.recv_since_ack == 0,
        unacknowledged(events) <= u32::MAX,
    ensures
        ({
            let here = after_debt_events(s, events);
            let owed = unacknowledged(events);
            let acknowledged = |sent: bool|
                after_debt_events(s, events.push(DebtEvent::Acknowledged { sent, now_secs }));
            &&& here.recv_since_ack == owed
            &&& ahead(now_secs, here.last_send_time_secs) < KEEPALIVE_INTERVAL_SECS
                ==> here.ack_due(now_secs) == (owed > 0)
            &&& here.ack_due(now_secs) ==> !acknowledged(true).ack_due(now_secs)
            &&& acknowledged(false).recv_since_ack == owed
            &&& owed > 0 ==> acknowledged(false).ack_due(later)
        }),
{
    lemma_debt_counts(s, events);
    let here = after_debt_events(s, events);
    let sent = events.push(DebtEvent::Acknowledged { sent: true, now_secs });
    let failed = events.push(DebtEvent::Acknowledged { sent: false, now_secs });
    assert(sent.drop_last() =~= events);
    assert(failed.drop_last() =~= events);
    assert(after_debt_events(s, sent) == after_debt_event(here, sent.last()));
    assert(after_debt_events(s, failed) == after_debt_event(here, failed.last()));
    lemma_ack_settles(here, now_secs, later);
}

proof fn lemma_ack_settles(here: Socket, now_secs: u32, later: u32)
    requires
        here.seq_calibrated,
    ensures
        ({
            let sent = after_debt_event(here, DebtEvent::Acknowledged { sent: true, now_secs });
            let failed = after_debt_event(here, DebtEvent::Acknowledged { sent: false, now_secs });
            &&& here.ack_due(now_secs) ==> !sent.ack_due(now_secs)
            &&& failed.recv_since_ack == here.recv_since_ack
            &&& here.recv_since_ack > 0 ==> failed.ack_due(later)
        }),
{
    assert(wrap_add(0, here.recv_since_ack as int) == here.recv_since_ack);
    assert(ahead(now_secs, now_secs) == 0);
}

/// The debt after an event, if `before` was owed.
pub open spec fn owed_after(before: int, e: DebtEvent) -> int {
    match e {
        DebtEvent::Arrived(b, t) => before + packet::payload_in(b, t).len(),
        DebtEvent::Built(_, _) => before,
        DebtEvent::Flushed { sent } => if sent {
            0
        } else {
            before
        },
        DebtEvent::Acknowledged { sent, .. } => if sent {
            0
        } else {
            before
        },
    }
}

proof fn lemma_sum_wraps(owed: u32, before: int, n: int)
    requires
        before >= 0,
        n >= 0,
        owed == before % 0x1_0000_0000,
    ensures
        wrap_add(owed, n) == (before + n) % 0x1_0000_0000,
{
}

proof fn lemma_debt_step(s: Socket, e: DebtEvent, before: int)
    requires
        s.seq_calibrated,
        before >= 0,
        s.recv_since_ack == before % 0x1_0000_0000,
    ensures
        after_debt_event(s, e).seq_calibrated,
        after_debt_event(s, e).recv_since_ack == owed_after(before, e) % 0x1_0000_0000,
        owed_after(before, e) >= 0,
{
    match e {
        DebtEvent::Arrived(b, t) => {
            lemma_sum_wraps(s.recv_since_ack, before, packet::payload_in(b, t).len() as int);
        },
        DebtEvent::Built(_, _) => {},
        DebtEvent::Flushed { .. } => {
            assert(wrap_add(0, s.recv_since_ack as int) == s.recv_since_ack);
        },
        DebtEvent::Acknowledged { .. } => {
            assert(wrap_add(0, s.recv_since_ack as int) == s.recv_since_ack);
        },
    }
}

proof fn lemma_debt_counts(s: Socket, events: Seq<DebtEvent>)
    requires
        s.seq_calibrated,
        s.recv_since_ack == 0,
    ensures
        after_debt_events(s, events).seq_calibrated,
        after_debt_events(s, events).recv_since_ack == unacknowledged(events) % 0x1_0000_0000,
        unacknowledged(events) >= 0,
    decreases events.len(),
{
    if events.len() > 0 {
        lemma_debt_counts(s, events.drop_last());
        lemma_debt_step(
            after_debt_events(s, events.drop_last()),
            events.last(),
            unacknowledged(events.drop_last()),
        );
    }
}

// --- Stack ---

/// The connections of a stack, and whether it still takes new ones.
pub struct Stack {
    tuples: TupleTable,
    closed: bool,
    local_mac: MacAddr,
    next_channel: u64,
}

/// A copy of the table that the reader keeps for itself.
pub struct ReaderCache {
    tuples: TupleTable,
}

/// Where a packet goes.
#[derive(Debug, Clone, Copy, PartialEq, Eq, Structural)]
pub enum Dispatch {
    /// To the socket that reads from this channel.
    Channel(u64),
    /// No socket is registered for it; the flag tells an RST.
    Unknown { rst: bool },
    /// It is no TCP packet.
    Malformed,
}

/// What the reader hears from the sockets.
#[derive(Debug, Clone, Copy, PartialEq, Eq, Structural)]
pub enum PurgeEvent {
    /// A connection went away.
    Dropped(AddrTuple),
    /// Some news was missed.
    Lagged,
    /// Nobody will report any more.
    Closed,
}

/// The connection that a packet belongs to, seen from its destination.
pub open spec fn tuple_in(b: Seq<u8>, t: int) -> AddrTuple {
    let (local, remote) = if crate::wire::from_be16(b.subrange(12, 14)) == 0x0800 {
        (
            IpAddr::V4(
                crate::net::Ipv4Addr { bits: crate::wire::from_be32(b.subrange(30, 34)) as u32 },
            ),
            IpAddr::V4(
                crate::net::Ipv4Addr { bits: crate::wire::from_be32(b.subrange(26, 30)) as u32 },
            ),
        )
    } else {
        (
            IpAddr::V6(
                crate::net::Ipv6Addr {
                    high: crate::wire::from_be64(b.subrange(38, 46)) as u64,
                    low: crate::wire::from_be64(b.subrange(46, 54)) as u64,
                },
            ),
            IpAddr::V6(
                crate::net::Ipv6Addr {
                    high: crate::wire::from_be64(b.subrange(22, 30)) as u64,
                    low: crate::wire::from_be64(b.subrange(30, 38)) as u64,
                },
            ),
        )
    };
    AddrTuple {
        local_addr: SocketAddr {
            ip: local,
            port: crate::wire::from_be16(b.subrange(t + 2, t + 4)) as u16,
        },
        remote_addr: SocketAddr {
            ip: remote,
            port: crate::wire::from_be16(b.subrange(t, t + 2)) as u16,
        },
    }
}

impl Stack {
    /// The channel of every connection.
    pub closed spec fn connections(self) -> Map<AddrTuple, u64> {
        self.tuples@
    }

    pub closed spec fn closed(self) -> bool {
        self.closed
    }

    /// Channels below this number were handed out.
    pub closed spec fn next(self) -> u64 {
        self.next_channel
    }

    pub closed spec fn mac(self) -> MacAddr {
        self.local_mac
    }

    pub closed spec fn well_formed(self) -> bool {
        &&& self.tuples.well_formed()
        &&& forall|t: AddrTuple| #[trigger]
            self.tuples@.contains_key(t) ==> self.tuples@[t] < self.next_channel
    }

    /// The stack takes no new connections: it closed, or its reader stopped.
    pub open spec fn refuses(self, reader_done: bool) -> bool {
        self.closed() || reader_done
    }

    /// The channel for packets of a connection, by the reader's cache or the table.
    pub open spec fn channel_of(self, cache: ReaderCache, tuple: AddrTuple) -> Option<u64> {
        if cache.known().contains_key(tuple) {
            Some(cache.known()[tuple])
        } else if self.connections().contains_key(tuple) {
            Some(self.connections()[tuple])
        } else {
            None
        }
    }

    /// Somebody can still send into the channel. A socket whose channel nobody can send
    /// into is at its end once it took what is queued.
    pub open spec fn feeds(self, cache: ReaderCache, channel: u64) -> bool {
        exists|t: AddrTuple| #[trigger] self.channel_of(cache, t) == Some(channel)
    }

    /// `self` is what a failed reader leaves of `before`.
    pub open spec fn ended_from(self, before: Stack, cache: ReaderCache) -> bool {
        &&& self.closed()
        &&& self.connections() == Map::<AddrTuple, u64>::empty()
        &&& self.next() == before.next()
        &&& self.mac() == before.mac()
        &&& cache.known() == Map::<AddrTuple, u64>::empty()
    }

    /// A stack without connections.
    pub fn new(local_mac: Option<MacAddr>) -> (r: Self)
        ensures
            r.well_formed(),
            r.connections() == Map::<AddrTuple, u64>::empty(),
            !r.closed(),
            r.next() == 0,
            r.mac() == match local_mac {
                Some(mac) => mac,
                None => MacAddr(0, 0, 0, 0, 0, 0),
            },
    {
        Stack {
            tuples: TupleTable::new(),
            closed: false,
            local_mac: match local_mac {
                Some(mac) => mac,
                None => MacAddr::zero(),
            },
            next_channel: 0,
        }
    }

    /// The hardware address that sockets send from.
    pub fn local_mac(&self) -> (r: MacAddr)
        ensures
            r == self.mac(),
    {
        self.local_mac
    }

    /// Whether the stack takes no connections any more. `reader_done` tells whether its
    /// reader stopped.
    pub fn is_closed(&self, reader_done: bool) -> (r: bool)
        ensures
            r == self.refuses(reader_done),
    {
        self.closed || reader_done
    }

    /// Closes the stack and forgets its connections.
    pub fn mark_closed_and_clear_tuples(&mut self)
        requires
            old(self).well_formed(),
        ensures
            final(self).well_formed(),
            final(self).closed(),
            final(self).connections() == Map::<AddrTuple, u64>::empty(),
            final(self).next() == old(self).next(),
            final(self).mac() == old(self).mac(),
    {
        self.closed = true;
        self.tuples.clear();
    }

    /// Allocates a socket for a 4-tuple whose handshake the kernel already did, and the
    /// channel on which it receives. A closed stack, or one without a reader, refuses.
    ///
    /// `kernel_state` carries the frozen kernel socket's sequence numbers when we
    /// were able to read them. Without it the socket calibrates itself from the first
    /// inbound segment instead. No connection may be allocated twice.
    pub fn try_alloc_established_socket(
        &mut self,
        local_addr: SocketAddr,
        remote_addr: SocketAddr,
        state: State,
        kernel_state: Option<KernelTcpState>,
        reader_done: bool,
    ) -> (r: Option<(Socket, u64)>)
        requires
            old(self).well_formed(),
            !old(self).refuses(reader_done) ==> {
                &&& !old(self).connections().contains_key((AddrTuple { local_addr, remote_addr }))
                &&& old(self).next() < u64::MAX
            },
        ensures
            final(self).well_formed(),
            final(self).mac() == old(self).mac(),
            r is Some == !old(self).refuses(reader_done),
            r is None ==> {
                &&& final(self).closed()
                &&& final(self).connections() == old(self).connections()
                &&& final(self).next() == old(self).next()
            },
            r matches Some((sock, channel)) ==> {
                &&& sock == Socket::fresh(
                    local_addr,
                    remote_addr,
                    old(self).mac(),
                    kernel_state,
                    state,
                    sock.ip_id,
                )
                &&& channel == old(self).next()
                &&& final(self).next() == old(self).next() + 1
                &&& final(self).closed() == old(self).closed()
                &&& final(self).connections() == old(self).connections().insert(
                    AddrTuple { local_addr, remote_addr },
                    channel,
                )
            },
    {
        match self.register(AddrTuple::new(local_addr, remote_addr), reader_done) {
            Some(channel) => {
                let sock = Socket::new(
                    local_addr,
                    remote_addr,
                    self.local_mac,
                    kernel_state,
                    state,
                );
                Some((sock, channel))
            },
            None => None,
        }
    }

    /// Enters a connection and hands out its channel. A closed stack, or one without a
    /// reader, refuses. No connection may be entered twice.
    pub fn register(&mut self, tuple: AddrTuple, reader_done: bool) -> (r: Option<u64>)
        requires
            old(self).well_formed(),
            !old(self).refuses(reader_done) ==> {
                &&& !old(self).connections().contains_key(tuple)
                &&& old(self).next() < u64::MAX
            },
        ensures
            final(self).well_formed(),
            final(self).mac() == old(self).mac(),
            r is Some == !old(self).refuses(reader_done),
            r is None ==> {
                &&& final(self).closed()
                &&& final(self).connections() == old(self).connections()
                &&& final(self).next() == old(self).next()
            },
            r matches Some(channel) ==> {
                &&& channel == old(self).next()
                &&& final(self).next() == old(self).next() + 1
                &&& final(self).closed() == old(self).closed()
                &&& final(self).connections() == old(self).connections().insert(tuple, channel)
            },
    {
        if self.closed || reader_done {
            self.closed = true;
            return None;
        }
        let channel: u64 = self.next_channel;
        self.next_channel = channel + 1;
        let _ = self.tuples.insert(tuple, channel);
        Some(channel)
    }

    /// A socket was dropped: forgets its connection. Says whether it was known.
    pub fn remove(&mut self, tuple: AddrTuple) -> (r: bool)
        requires
            old(self).well_formed(),
        ensures
            final(self).well_formed(),
            final(self).closed() == old(self).closed(),
            final(self).next() == old(self).next(),
            final(self).mac() == old(self).mac(),
            final(self).connections() == old(self).connections().remove(tuple),
            r == old(self).connections().contains_key(tuple),
    {
        self.tuples.remove(tuple)
    }

    /// Finds the socket that a received packet is for: first in the reader's cache, then
    /// in the table, whose answer the cache remembers.
    pub fn dispatch(&self, cache: &mut ReaderCache, raw: &[u8]) -> (r: Dispatch)
        requires
            self.well_formed(),
            old(cache).well_formed(),
        ensures
            final(cache).well_formed(),
            match packet::tcp_start(raw@) {
                None => r is Malformed && final(cache).known() == old(cache).known(),
                Some(t) => {
                    let tuple = tuple_in(raw@, t);
                    match self.channel_of(*old(cache), tuple) {
                        Some(channel) => r == Dispatch::Channel(channel) && final(cache).known()
                            == old(cache).known().insert(tuple, channel),
                        None => r == (Dispatch::Unknown { rst: has_flag(raw@[t + 13], 4) })
                            && final(cache).known() == old(cache).known(),
                    }
                },
            },
    {
        let (_, _, ip, tcp) = match parse_ip_packet(raw) {
            Some(parsed) => parsed,
            None => return Dispatch::Malformed,
        };
        let tuple = AddrTuple::new(
            SocketAddr { ip: ip.get_destination(), port: tcp.destination },
            SocketAddr { ip: ip.get_source(), port: tcp.source },
        );
        assert(tuple == tuple_in(raw@, packet::tcp_start(raw@)->0));
        if let Some(channel) = cache.tuples.get(tuple) {
            assert(cache.known().insert(tuple, channel) =~= cache.known());
            return Dispatch::Channel(channel);
        }
        if let Some(channel) = self.tuples.get(tuple) {
            let _ = cache.tuples.insert(tuple, channel);
            return Dispatch::Channel(channel);
        }
        Dispatch::Unknown { rst: tcp.flags / 4 % 2 == 1 }
    }

    /// Handles news from the sockets. Says whether the reader goes on.
    pub fn on_purge(&mut self, cache: &mut ReaderCache, event: PurgeEvent) -> (r: bool)
        requires
            old(self).well_formed(),
            old(cache).well_formed(),
        ensures
            final(self).well_formed(),
            final(cache).well_formed(),
            r == (event != PurgeEvent::Closed),
            match event {
                PurgeEvent::Dropped(tuple) => *final(self) == *old(self) && final(cache).known()
                    == old(cache).known().remove(tuple),
                PurgeEvent::Lagged => *final(self) == *old(self) && final(cache).known() == Map::<
                    AddrTuple,
                    u64,
                >::empty(),
                PurgeEvent::Closed => final(self).ended_from(*old(self), *final(cache)),
            },
    {
        match event {
            PurgeEvent::Dropped(tuple) => {
                let _ = cache.tuples.remove(tuple);
                true
            },
            PurgeEvent::Lagged => {
                cache.tuples.clear();
                true
            },
            PurgeEvent::Closed => {
                self.on_read_error(cache);
                false
            },
        }
    }

    /// The device failed: the stack closes and every connection ends.
    pub fn on_read_error(&mut self, cache: &mut ReaderCache)
        requires
            old(self).well_formed(),
        ensures
            final(self).well_formed(),
            final(cache).well_formed(),
            final(self).ended_from(*old(self), *final(cache)),
    {
        self.mark_closed_and_clear_tuples();
        cache.tuples.clear();
    }
}

impl ReaderCache {
    /// The connections in the cache.
    pub closed spec fn known(self) -> Map<AddrTuple, u64> {
        self.tuples@
    }

    pub closed spec fn well_formed(self) -> bool {
        self.tuples.well_formed()
    }

    /// An empty cache.
    pub fn new() -> (r: Self)
        ensures
            r.well_formed(),
            r.known() == Map::<AddrTuple, u64>::empty(),
    {
        ReaderCache { tuples: TupleTable::new() }
    }
}

/// Once the reader failed, the stack refuses every connection, no packet finds a socket,
/// and nobody can send into any socket's channel: every socket comes to its end.
pub proof fn failed_stack_ends_its_sockets(
    before: Stack,
    after: Stack,
    cache: ReaderCache,
    tuple: AddrTuple,
    channel: u64,
    reader_done: bool,
)
    requires
        after.ended_from(before, cache),
    ensures
        after.refuses(reader_done),
        after.channel_of(cache, tuple) is None,
        !after.feeds(cache, channel),
{
}

/// The cache holds nothing that the table does not hold, but for connections whose end
/// was reported and not heard yet.
pub open spec fn cache_is_current(
    known: Map<AddrTuple, u64>,
    connections: Map<AddrTuple, u64>,
    unheard: Set<AddrTuple>,
) -> bool {
    forall|t: AddrTuple| #[trigger]
        known.contains_key(t) ==> unheard.contains(t) || (connections.contains_key(t)
            && connections[t] == known[t])
}

/// A dropped connection that the reader hears of, a packet that fills the cache and a
/// connection that is new to the cache all keep the cache current.
pub proof fn cache_stays_current(
    known: Map<AddrTuple, u64>,
    connections: Map<AddrTuple, u64>,
    unheard: Set<AddrTuple>,
    tuple: AddrTuple,
    channel: u64,
)
    requires
        cache_is_current(known, connections, unheard),
    ensures
        cache_is_current(known, connections.remove(tuple), unheard.insert(tuple)),
        cache_is_current(known.remove(tuple), connections, unheard.remove(tuple)),
        cache_is_current(Map::<AddrTuple, u64>::empty(), connections, unheard),
        connections.contains_key(tuple) ==> cache_is_current(
            known.insert(tuple, connections[tuple]),
            connections,
            unheard,
        ),
        !known.contains_key(tuple) ==> cache_is_current(
            known,
            connections.insert(tuple, channel),
            unheard,
        ),
{
}

} // verus!

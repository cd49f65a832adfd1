//! Packets over the tunnel's socket: each starts with its own length.

use crate::socket::fake_tcp::packet::{TCP_ACK, TCP_RST};
use crate::socket::fake_tcp::stack;
use crate::tunnel::fake_tcp::stack::{Socket, State};
use crate::tunnel::packet_def::{PEER_MANAGER_HEADER_SIZE, TCP_TUNNEL_HEADER_SIZE};
use crate::wire;
use crate::wire::{copy_range, drop_front, read_le32};
use vstd::prelude::*;

verus! {

/// So many segments wait before they are sent.
pub const FAKE_TCP_SINK_BATCH_SIZE: usize = 64;

/// How the tunnel names its type, whatever the driver.
pub fn get_faketcp_tunnel_type_str(_driver_type: &str) -> (r: String)
    ensures
        r@ == "faketcp"@,
{
    let mut out = String::new();
    out.append("faketcp");
    assert(out@ =~= "faketcp"@);
    out
}

/// What comes next out of a buffer.
pub enum NextPacket {
    /// A packet of this length.
    Packet(int),
    /// Nothing whole: what is there is dropped.
    Nothing,
    /// A length that no packet has.
    Invalid,
}

/// Reads the length at the front of `buf`.
pub open spec fn next_packet(buf: Seq<u8>) -> NextPacket {
    if buf.len() < 4 {
        NextPacket::Nothing
    } else {
        let len = wire::from_le32(buf.take(4));
        if len < 20 {
            NextPacket::Invalid
        } else if len <= buf.len() {
            NextPacket::Packet(len)
        } else {
            NextPacket::Nothing
        }
    }
}

enum StreamState {
    Consuming,
    Receiving,
    Closed,
}

/// What the stream does next.
#[derive(Debug, Clone, PartialEq, Eq)]
pub enum StreamStep {
    /// Hand out this packet.
    Packet(Vec<u8>),
    /// Wait for the socket; report with `on_receive`.
    Receive,
    /// The stream is over.
    End,
}

/// Splits what the socket receives into packets.
pub struct FakeTcpStream {
    state: StreamState,
    buf: Vec<u8>,
}

impl FakeTcpStream {
    /// Received bytes that were not handed out yet.
    pub closed spec fn unread(self) -> Seq<u8> {
        self.buf@
    }

    /// The stream is over.
    pub closed spec fn is_over(self) -> bool {
        self.state is Closed
    }

    /// The stream waits for the socket.
    pub closed spec fn receiving(self) -> bool {
        self.state is Receiving
    }

    pub closed spec fn well_formed(self) -> bool {
        !(self.state is Consuming) ==> self.buf@.len() == 0
    }

    /// A stream that has received nothing.
    pub fn new() -> (r: Self)
        ensures
            r.well_formed(),
            r.unread().len() == 0,
            !r.is_over(),
            !r.receiving(),
    {
        FakeTcpStream { state: StreamState::Consuming, buf: Vec::new() }
    }

    /// The next step.
    pub fn poll_next(&mut self) -> (r: StreamStep)
        requires
            old(self).well_formed(),
        ensures
            final(self).well_formed(),
            ({
                let buf = old(self).unread();
                if old(self).is_over() {
                    r is End && *final(self) == *old(self)
                } else {
                    match next_packet(buf) {
                        NextPacket::Packet(len) => {
                            &&& r matches StreamStep::Packet(p) && p@ == buf.take(len)
                            &&& final(self).unread() == buf.skip(len)
                            &&& !final(self).is_over()
                            &&& !final(self).receiving()
                        },
                        NextPacket::Nothing => {
                            &&& r is Receive
                            &&& final(self).unread().len() == 0
                            &&& final(self).receiving()
                            &&& !final(self).is_over()
                        },
                        NextPacket::Invalid => r is End && final(self).is_over()
                            && final(self).unread().len() == 0,
                    }
                }
            }),
    {
        if let StreamState::Closed = self.state {
            return StreamStep::End;
        }
        let n: usize = self.buf.len();
        if n >= TCP_TUNNEL_HEADER_SIZE {
            assert(self.buf@.subrange(0, 4) =~= self.buf@.take(4));
            let expected: usize = read_le32(self.buf.as_slice(), 0) as usize;
            if expected < TCP_TUNNEL_HEADER_SIZE + PEER_MANAGER_HEADER_SIZE {
                self.state = StreamState::Closed;
                self.buf = Vec::new();
                return StreamStep::End;
            }
            if expected <= n {
                let out = copy_range(self.buf.as_slice(), 0, expected);
                drop_front(&mut self.buf, expected);
                assert(out@ =~= old(self).unread().take(expected as int));
                assert(self.buf@ =~= old(self).unread().skip(expected as int));
                return StreamStep::Packet(out);
            }
        }
        self.buf = Vec::new();
        self.state = StreamState::Receiving;
        StreamStep::Receive
    }

    /// The socket received a payload, or `None` at the end of the connection.
    pub fn on_receive(&mut self, payload: Option<Vec<u8>>)
        requires
            old(self).well_formed(),
            old(self).receiving(),
        ensures
            final(self).well_formed(),
            !final(self).receiving(),
            match payload {
                Some(data) => final(self).unread() == data@ && !final(self).is_over(),
                None => final(self).is_over() && final(self).unread().len() == 0,
            },
    {
        match payload {
            Some(data) => {
                self.buf = data;
                self.state = StreamState::Consuming;
            },
            None => {
                self.state = StreamState::Closed;
            },
        }
    }
}

/// A packet that states its own length.
pub open spec fn is_framed(p: Seq<u8>) -> bool {
    &&& 20 <= p.len() < 0x1_0000_0000
    &&& p.take(4) == wire::le32(p.len() as int)
}

/// All packets that come out of one received payload, in order.
pub open spec fn packets_of(buf: Seq<u8>) -> Seq<Seq<u8>>
    decreases buf.len(),
{
    match next_packet(buf) {
        NextPacket::Packet(len) => if 0 < len <= buf.len() {
            seq![buf.take(len)] + packets_of(buf.skip(len))
        } else {
            Seq::empty()
        },
        _ => Seq::empty(),
    }
}

/// Packets that travel in one segment come out one by one, whole and in order.
pub proof fn coalesced_packets_come_apart(packets: Seq<Seq<u8>>)
    requires
        forall|i: int| 0 <= i < packets.len() ==> is_framed(#[trigger] packets[i]),
    ensures
        packets_of(wire::joined(packets)) == packets,
    decreases packets.len(),
{
    let buf = wire::joined(packets);
    if packets.len() == 0 {
        assert(packets =~= Seq::empty());
    } else {
        let p = packets[0];
        let rest = packets.drop_first();
        assert(is_framed(p));
        assert forall|i: int| 0 <= i < rest.len() implies is_framed(#[trigger] rest[i]) by {
            assert(rest[i] == packets[i + 1]);
        }
        assert(buf == p + wire::joined(rest));
        assert(buf.take(4) =~= p.take(4));
        wire::le32_reads_back(p.len() as int);
        assert(buf.take(p.len() as int) =~= p);
        assert(buf.skip(p.len() as int) =~= wire::joined(rest));
        coalesced_packets_come_apart(rest);
        assert(packets =~= seq![p] + rest);
    }
}

/// The packet with its length written at its front.
pub open spec fn framed(packet: Seq<u8>) -> Seq<u8> {
    wire::le32(packet.len() as int) + packet.skip(4)
}

/// What the writing side frames, the reading side takes for one packet.
pub proof fn framed_packet_is_one_packet(packet: Seq<u8>)
    requires
        20 <= packet.len() < 0x1_0000_0000,
    ensures
        is_framed(framed(packet)),
        packets_of(framed(packet)) == seq![framed(packet)],
{
    let f = framed(packet);
    assert(f.take(4) =~= wire::le32(f.len() as int));
    coalesced_packets_come_apart(seq![f]);
    reveal_with_fuel(wire::joined, 2);
    assert(seq![f].drop_first() =~= Seq::empty());
    assert(wire::joined(seq![f]) =~= f);
}

/// Turns packets into segments and collects them.
pub struct FakeTcpSink {
    pub socket: Socket,
    pub pending: Vec<Vec<u8>>,
}

impl FakeTcpSink {
    /// The segments that wait.
    pub open spec fn frames(self) -> Seq<Seq<u8>> {
        self.pending@.map_values(|f: Vec<u8>| f@)
    }

    /// A sink in front of `socket`.
    pub fn new(socket: Socket) -> (r: Self)
        ensures
            r.socket == socket,
            r.frames().len() == 0,
    {
        FakeTcpSink { socket, pending: Vec::new() }
    }

    /// Whether the waiting segments should be sent before more are collected.
    pub fn poll_ready(&self) -> (r: bool)
        ensures
            r == (self.frames().len() >= 64),
    {
        self.pending.len() >= FAKE_TCP_SINK_BATCH_SIZE
    }

    /// Takes a packet, which begins with room for its length. A socket that cannot send
    /// drops it.
    pub fn start_send(&mut self, packet: Vec<u8>, now_ms: u32)
        requires
            old(self).socket.well_formed(),
            4 <= packet@.len() <= u32::MAX,
            old(self).socket.state == State::Established && !old(self).socket.choked() ==> old(
                self,
            ).socket.can_carry(packet@.len() as int),
        ensures
            ({
                let s = old(self).socket;
                if s.state == State::Established && !s.choked() {
                    &&& final(self).frames() == old(self).frames().push(
                        s.outgoing(
                            TCP_ACK,
                            framed(packet@),
                            s.seq,
                            s.ack,
                            Some((now_ms, s.remote_tsval)),
                        ),
                    )
                    &&& final(self).socket == (Socket {
                        seq: stack::wrap_add(s.seq, packet@.len() as int),
                        ..s.after_build()
                    })
                } else {
                    final(self).frames() == old(self).frames() && final(self).socket == s
                }
            }),
    {
        let n: u32 = packet.len() as u32;
        let mut data = packet;
        data[0] = (n % 0x100) as u8;
        data[1] = (n / 0x100 % 0x100) as u8;
        data[2] = (n / 0x10000 % 0x100) as u8;
        data[3] = (n / 0x1000000 % 0x100) as u8;
        assert(data@ =~= framed(packet@));
        match self.socket.build_packet(data.as_slice(), now_ms) {
            Some(built) => {
                let ghost bytes = built@;
                self.pending.push(built);
                assert(self.frames() =~= old(self).frames().push(bytes));
            },
            None => {},
        }
    }

    /// Hands out the waiting segments to be sent. None waits afterwards, whatever becomes
    /// of them.
    pub fn do_flush(&mut self) -> (r: Vec<Vec<u8>>)
        ensures
            r@.map_values(|f: Vec<u8>| f@) == old(self).frames(),
            final(self).frames().len() == 0,
            final(self).socket == old(self).socket,
    {
        let mut out: Vec<Vec<u8>> = Vec::new();
        std::mem::swap(&mut out, &mut self.pending);
        out
    }

    /// Hands out what waits, and the RST that closes the socket if it is open.
    pub fn poll_close(&mut self, now_ms: u32) -> (r: (Vec<Vec<u8>>, Option<Vec<u8>>))
        requires
            old(self).socket.well_formed(),
        ensures
            r.0@.map_values(|f: Vec<u8>| f@) == old(self).frames(),
            final(self).frames().len() == 0,
            r.1 is Some == (old(self).socket.state != State::Idle),
            final(self).socket == if old(self).socket.state == State::Idle {
                old(self).socket
            } else {
                (Socket { state: State::Idle, ..old(self).socket.after_build() })
            },
            r.1 matches Some(rst) ==> rst@ == old(self).socket.outgoing(
                TCP_RST,
                Seq::empty(),
                old(self).socket.seq,
                old(self).socket.ack,
                Some((now_ms, old(self).socket.remote_tsval)),
            ),
    {
        let frames = self.do_flush();
        let rst = self.socket.close(now_ms);
        (frames, rst)
    }
}

} // verus!

//! Connections of the tunnel: what their segments say, and what they make of segments that
//! arrive.

use crate::laws::bytes;
use crate::laws::bytes::{u16_at, u32_at, u64_at};
use crate::laws::frame;
use crate::laws::frame::{data_at, data_from, mac_at, segment_at};
use crate::laws::packet::le32_at;
use crate::laws::segment;
use crate::laws::socket::gap;
use crate::net::{IpAddr, MacAddr, SocketAddr};
use crate::socket::fake_tcp::packet;
use crate::socket::fake_tcp::packet::TcpFields;
use crate::socket::fake_tcp::stack::{PurgeEvent, ReaderCache};
use crate::socket::fake_tcp::tuples::AddrTuple;
use crate::socket::fake_tcp::stack as kernel_stack;
use crate::tunnel::fake_tcp::stack;
use crate::tunnel::fake_tcp::stack::{ParsedPacketMeta, Received, Socket, Stack, State, Unmatched};
use crate::tunnel::fake_tcp::stream::FakeTcpSink;
use vstd::prelude::*;

verus! {

/// Where the segment of a socket's frame starts.
pub open spec fn segment_start(s: Socket) -> int {
    if s.local_addr.ip is V4 {
        34
    } else {
        54
    }
}

/// Both ends of the socket are of one family, and its frame can hold so much payload.
pub open spec fn holds(s: Socket, len: int) -> bool {
    &&& s.local_addr.ip is V4 ==> s.remote_addr.ip is V4 && 20 + 32 + len <= 65535
    &&& s.local_addr.ip is V6 ==> s.remote_addr.ip is V6 && 32 + len <= 65535
}

/// The frame goes from the socket's addresses to those of its peer; a peer whose hardware
/// address is unknown is addressed as zero.
pub open spec fn frame_between(s: Socket, b: Seq<u8>) -> bool {
    let t = segment_start(s);
    &&& mac_at(b, 6, s.local_mac)
    &&& s.remote_mac matches Some(mac) ==> mac_at(b, 0, mac)
    &&& s.remote_mac is None ==> mac_at(b, 0, MacAddr(0, 0, 0, 0, 0, 0))
    &&& s.local_addr.ip matches IpAddr::V4(a) ==> u32_at(b, 26) == a.bits
    &&& s.remote_addr.ip matches IpAddr::V4(a) ==> u32_at(b, 30) == a.bits
    &&& s.local_addr.ip matches IpAddr::V6(a) ==> u64_at(b, 22) == a.high && u64_at(b, 30) == a.low
    &&& s.remote_addr.ip matches IpAddr::V6(a) ==> u64_at(b, 38) == a.high && u64_at(b, 46) == a.low
    &&& u16_at(b, t) == s.local_addr.port
    &&& u16_at(b, t + 2) == s.remote_addr.port
    &&& s.local_addr.ip is V4 ==> u16_at(b, 18) == s.ip_id && u16_at(b, 16) == b.len() - 14
}

/// The segment says these numbers and flags, a full window, the time and the peer's last
/// time.
pub open spec fn says(b: Seq<u8>, t: int, seq: int, ack: int, flags: u8, now_ms: u32, peer_ms: u32) -> bool {
    &&& u32_at(b, t + 4) == seq
    &&& u32_at(b, t + 8) == ack
    &&& b[t + 12] == 8 * 16
    &&& b[t + 13] == flags
    &&& u16_at(b, t + 14) == 65535
    &&& b[t + 20] == 1 && b[t + 21] == 1 && b[t + 22] == 8 && b[t + 23] == 10
    &&& u32_at(b, t + 24) == now_ms
    &&& u32_at(b, t + 28) == peer_ms
}

#[verifier::spinoff_prover]
proof fn lemma_frame(s: Socket, f: TcpFields, payload: Seq<u8>)
    requires
        f.flags as int / 2 % 2 == 0,
        f.source == s.local_addr.port,
        f.destination == s.remote_addr.port,
        holds(s, payload.len() as int),
    ensures
        ({
            let mac = match s.remote_mac {
                Some(mac) => mac,
                None => MacAddr(0, 0, 0, 0, 0, 0),
            };
            let b = packet::frame(
                s.local_mac,
                mac,
                s.local_addr.ip,
                s.remote_addr.ip,
                f,
                s.ip_id,
                payload,
            );
            frame_between(s, b) && segment_at(b, segment_start(s), f, payload)
        }),
{
    let mac = match s.remote_mac {
        Some(mac) => mac,
        None => MacAddr(0, 0, 0, 0, 0, 0),
    };
    frame::frame_has_an_ethernet_header(
        s.local_mac,
        mac,
        s.local_addr.ip,
        s.remote_addr.ip,
        f,
        s.ip_id,
        payload,
    );
    match (s.local_addr.ip, s.remote_addr.ip) {
        (IpAddr::V4(src), IpAddr::V4(dst)) => {
            frame::ipv4_frame_is_right(s.local_mac, mac, src, dst, f, s.ip_id, payload);
        },
        (IpAddr::V6(src), IpAddr::V6(dst)) => {
            frame::ipv6_frame_is_right(s.local_mac, mac, src, dst, f, s.ip_id, payload);
        },
        _ => {},
    }
}

#[verifier::spinoff_prover]
proof fn lemma_outgoing(
    s: Socket,
    flags: u8,
    payload: Seq<u8>,
    seq: u32,
    ack: u32,
    timestamps: Option<(u32, u32)>,
)
    requires
        flags as int / 2 % 2 == 0,
        holds(s, payload.len() as int),
    ensures
        ({
            let b = s.outgoing(flags, payload, seq, ack, timestamps);
            let t = segment_start(s);
            &&& frame_between(s, b)
            &&& timestamps matches Some((ms, peer)) ==> says(
                b,
                t,
                seq as int,
                ack as int,
                flags,
                ms,
                peer,
            ) && b.len() == t + 32 + payload.len() && b.subrange(t + 32, b.len() as int) == payload
            &&& timestamps is None ==> b.len() == t + 20 + payload.len() && u32_at(b, t + 4) == seq
                && u32_at(b, t + 8) == ack && b[t + 13] == flags && u16_at(b, t + 14) == 65535
        }),
{
    let f = TcpFields {
        source: s.local_addr.port,
        destination: s.remote_addr.port,
        seq,
        ack,
        flags,
        window: 0xffff,
        timestamps,
    };
    lemma_frame(s, f, payload);
}

/// A socket takes what its IP header can count, and everything where it would drop it.
pub proof fn socket_takes_what_fits(s: Socket, len: usize, r: bool)
    requires
        call_ensures(Socket::takes, (&s, len), r),
        (s.local_addr.ip is V4) == (s.remote_addr.ip is V4),
    ensures
        r == (holds(s, len as int) || s.state != State::Established || gap(
            s.seq as int,
            s.remote_ack as int,
        ) > 0x800_0000),
{
}

/// A packet is built by an established socket whose peer keeps up: no more than 2^27 bytes
/// are unacknowledged. It stands at the socket's cursor, which moves behind it; it
/// acknowledges all that was received, which is remembered. Otherwise nothing is built and
/// nothing changes.
#[verifier::spinoff_prover]
pub proof fn packet_is_built_at_the_cursor(
    s: &mut Socket,
    payload: &[u8],
    now_ms: u32,
    r: Option<Vec<u8>>,
)
    requires
        call_ensures(Socket::build_packet, (s, payload, now_ms), r),
        holds(*old(s), payload@.len() as int),
    ensures
        ({
            let t = segment_start(*old(s));
            let ready = old(s).state == State::Established && gap(
                old(s).seq as int,
                old(s).remote_ack as int,
            ) <= 0x800_0000;
            &&& r is Some == ready
            &&& !ready ==> *final(s) == *old(s)
            &&& r matches Some(built) ==> {
                &&& frame_between(*old(s), built@)
                &&& says(
                    built@,
                    t,
                    old(s).seq as int,
                    old(s).ack as int,
                    16,
                    now_ms,
                    old(s).remote_tsval,
                )
                &&& built@.len() == t + 32 + payload@.len()
                &&& built@.subrange(t + 32, built@.len() as int) == payload@
                &&& final(s).seq == (old(s).seq + payload@.len()) % 0x1_0000_0000
                &&& final(s).last_ack == old(s).ack
                &&& final(s).ip_id == (old(s).ip_id + 1) % 0x10000
                &&& *final(s) == (Socket {
                    seq: final(s).seq,
                    last_ack: final(s).last_ack,
                    ip_id: final(s).ip_id,
                    ..*old(s)
                })
            }
        }),
{
    lemma_outgoing(
        *old(s),
        16,
        payload@,
        old(s).seq,
        old(s).ack,
        Some((now_ms, old(s).remote_tsval)),
    );
}

/// Sending builds the same packet as building does.
pub proof fn sending_is_building(
    s: &mut Socket,
    u: &mut Socket,
    payload: &[u8],
    now_ms: u32,
    r: Option<Vec<u8>>,
    built: Option<Vec<u8>>,
)
    requires
        call_ensures(Socket::try_send, (s, payload, now_ms), r),
        call_ensures(Socket::build_packet, (u, payload, now_ms), built),
        *old(u) == *old(s),
        old(s).state == State::Established,
    ensures
        r is Some == built is Some,
        r is Some ==> (r->0)@ == (built->0)@,
        *final(s) == *final(u),
{
}

/// An acknowledgement goes out exactly if something new was received. It carries nothing and
/// does not move the cursor; a second one has nothing to say.
#[verifier::spinoff_prover]
pub proof fn news_is_acknowledged_once(
    s: &mut Socket,
    u: &mut Socket,
    now_ms: u32,
    r: Option<Vec<u8>>,
    again: Option<Vec<u8>>,
)
    requires
        call_ensures(Socket::send_ack, (s, now_ms), r),
        call_ensures(Socket::send_ack, (u, now_ms), again),
        *old(u) == *final(s),
        holds(*old(s), 0),
    ensures
        r is Some == (old(s).ack != old(s).last_ack),
        r is None ==> *final(s) == *old(s),
        again is None,
        r matches Some(b) ==> {
            let t = segment_start(*old(s));
            &&& frame_between(*old(s), b@)
            &&& says(b@, t, old(s).seq as int, old(s).ack as int, 16, now_ms, old(s).remote_tsval)
            &&& b@.len() == t + 32
            &&& final(s).seq == old(s).seq && final(s).ack == old(s).ack
            &&& final(s).last_ack == old(s).ack
            &&& final(s).ip_id == (old(s).ip_id + 1) % 0x10000
        },
{
    lemma_outgoing(
        *old(s),
        16,
        Seq::empty(),
        old(s).seq,
        old(s).ack,
        Some((now_ms, old(s).remote_tsval)),
    );
}

/// Closing sends one RST at the cursor and leaves the socket idle; an idle socket sends none.
/// A socket that is dropped sends an RST that acknowledges nothing and carries no times.
#[verifier::spinoff_prover]
pub proof fn connection_is_reset_once(
    s: &mut Socket,
    u: &mut Socket,
    d: &mut Socket,
    now_ms: u32,
    r: Option<Vec<u8>>,
    again: Option<Vec<u8>>,
    dropped: Vec<u8>,
)
    requires
        call_ensures(Socket::close, (s, now_ms), r),
        call_ensures(Socket::close, (u, now_ms), again),
        *old(u) == *final(s),
        call_ensures(Socket::farewell, (d,), dropped),
        *old(d) == *old(s),
        holds(*old(s), 0),
    ensures
        ({
            let t = segment_start(*old(s));
            &&& r is Some == (old(s).state != State::Idle)
            &&& final(s).state == State::Idle && final(s).seq == old(s).seq
            &&& again is None
            &&& r matches Some(b) ==> frame_between(*old(s), b@) && says(
                b@,
                t,
                old(s).seq as int,
                old(s).ack as int,
                4,
                now_ms,
                old(s).remote_tsval,
            ) && b@.len() == t + 32
            &&& frame_between(*old(s), dropped@) && dropped@.len() == t + 20 && dropped@[t + 13]
                == 4
            &&& u32_at(dropped@, t + 4) == old(s).seq && u32_at(dropped@, t + 8) == 0
        }),
{
    lemma_outgoing(
        *old(s),
        4,
        Seq::empty(),
        old(s).seq,
        old(s).ack,
        Some((now_ms, old(s).remote_tsval)),
    );
    lemma_outgoing(*old(s), 4, Seq::empty(), old(s).seq, 0, None);
}

/// A fresh socket has acknowledged what it begins with, has nothing unacknowledged, and
/// counts its frames from one.
pub proof fn fresh_socket_owes_nothing(
    local: SocketAddr,
    remote: SocketAddr,
    mac: MacAddr,
    peer: Option<MacAddr>,
    seq: u32,
    ack: u32,
    state: State,
    s: Socket,
)
    requires
        call_ensures(Socket::new, (local, remote, mac, peer, seq, ack, state), s),
    ensures
        s.local_addr == local && s.remote_addr == remote,
        s.local_mac == mac && s.remote_mac == peer,
        s.seq == seq && s.remote_ack == seq,
        s.ack == ack && s.last_ack == ack,
        s.state == state && s.ip_id == 1 && s.remote_tsval == 0,
        s.remote_window == 65535 * 16384,
{
}

// --- What arrives ---

/// What is read of a frame is what stands in it; a frame without payload has it nowhere.
#[verifier::spinoff_prover]
pub proof fn frame_is_read_as_it_stands(raw: &[u8], t: int, r: Option<ParsedPacketMeta>)
    requires
        call_ensures(stack::parse_meta, (raw,), r),
    ensures
        r is Some == packet::tcp_start(raw@) is Some,
        packet::tcp_start(raw@) == Some(t) ==> {
            let b = raw@;
            let m = r->0;
            &&& mac_at(b, 6, m.src_mac)
            &&& m.flags == b[t + 13]
            &&& m.seq == u32_at(b, t + 4) && m.ack == u32_at(b, t + 8)
            &&& m.window == u16_at(b, t + 14)
            &&& m.payload_len == data_at(b, t).len()
            &&& m.payload_len > 0 ==> m.payload_offset == data_from(b, t)
            &&& m.payload_len == 0 ==> m.payload_offset == 0
        },
{
    if packet::tcp_start(raw@) == Some(t) {
        let b = raw@;
        frame::segment_is_found_where_it_stands(b);
        bytes::lemma_reads(b, t + 4);
        bytes::lemma_reads(b, t + 8);
        bytes::lemma_reads(b, t + 14);
        frame::lemma_data(b, t);
        assert(b.len() == raw.len());
    }
}

/// Options are read one after the other, by their lengths. The last timestamps option
/// counts, and selective acknowledgements anywhere are seen.
pub proof fn options_are_read_in_order(
    kind: u8,
    body: Seq<u8>,
    rest: Seq<u8>,
    found: Option<u32>,
)
    requires
        body.len() <= 253,
    ensures
        stack::last_tsval(Seq::empty(), found) == found,
        !stack::holds_sack(Seq::empty()),
        kind <= 1 ==> {
            &&& stack::last_tsval(seq![kind] + rest, found) == stack::last_tsval(rest, found)
            &&& stack::holds_sack(seq![kind] + rest) == stack::holds_sack(rest)
        },
        kind >= 2 ==> {
            let o = seq![kind, (2 + body.len()) as u8] + body + rest;
            &&& kind == 8 && body.len() >= 4 ==> stack::last_tsval(o, found) == stack::last_tsval(
                rest,
                Some(u32_at(body, 0) as u32),
            )
            &&& kind != 8 || body.len() < 4 ==> stack::last_tsval(o, found) == stack::last_tsval(
                rest,
                found,
            )
            &&& stack::holds_sack(o) == (kind == 5 || stack::holds_sack(rest))
        },
{
    let filler = seq![kind] + rest;
    assert(filler.skip(1) =~= rest);
    let o = seq![kind, (2 + body.len()) as u8] + body + rest;
    assert(o.skip(2 + body.len() as int) =~= rest);
    if kind >= 2 {
        assert(packet::option_size(o) == 2 + body.len());
    }
    if kind == 8 && body.len() >= 4 {
        assert(o.subrange(2, 6) =~= body.subrange(0, 4));
        bytes::lemma_reads(body, 0);
    }
}

/// A segment that arrives at an established socket. Its payload is delivered; what it
/// acknowledges and what it brings move the socket's numbers, forward and by less than 2^27;
/// an acknowledging segment brings the window and the peer's time.
#[verifier::spinoff_prover]
pub proof fn arriving_segment_moves_the_numbers(
    s: &mut Socket,
    m: ParsedPacketMeta,
    now_ms: u32,
    r: (Received, Option<Vec<u8>>),
)
    requires
        call_ensures(Socket::on_packet, (s, &m, now_ms), r),
        old(s).state == State::Established,
        m.flags as int / 4 % 2 == 0,
    ensures
        ({
            let acks = m.flags as int / 16 % 2 == 1;
            let end = (m.seq + m.payload_len) % 0x1_0000_0000;
            let reached = gap(m.ack as int, old(s).remote_ack as int);
            let brought = gap(end, old(s).ack as int);
            &&& m.payload_len > 0 ==> r.0 == (Received::Payload {
                offset: m.payload_offset,
                len: m.payload_len,
            })
            &&& m.payload_len == 0 ==> r.0 == Received::Nothing
            &&& final(s).remote_mac == Some(m.src_mac)
            &&& final(s).state == old(s).state && final(s).seq == old(s).seq
            &&& final(s).remote_ack == if acks && 0 < reached < 0x800_0000 {
                m.ack
            } else {
                old(s).remote_ack
            }
            &&& final(s).ack == if 0 < brought < 0x800_0000 {
                end
            } else {
                old(s).ack as int
            }
            &&& acks ==> final(s).remote_window == m.window * 16384
            &&& !acks ==> final(s).remote_window == old(s).remote_window
            &&& acks && m.tsval is Some ==> final(s).remote_tsval == m.tsval->0
            &&& !acks || m.tsval is None ==> final(s).remote_tsval == old(s).remote_tsval
        }),
{
}

/// An acknowledgement goes out at once when 65536 bytes or more are unacknowledged, or the
/// peer sent a selective one, and there is news; it acknowledges all that was received.
#[verifier::spinoff_prover]
pub proof fn much_data_is_acknowledged_at_once(
    s: &mut Socket,
    m: ParsedPacketMeta,
    now_ms: u32,
    r: (Received, Option<Vec<u8>>),
)
    requires
        call_ensures(Socket::on_packet, (s, &m, now_ms), r),
        old(s).state == State::Established,
        m.flags as int / 4 % 2 == 0,
        holds(*old(s), 0),
    ensures
        ({
            let end = (m.seq + m.payload_len) % 0x1_0000_0000;
            let t = segment_start(*old(s));
            &&& r.1 is Some == ((gap(end, old(s).last_ack as int) >= 65536 || m.has_sack)
                && final(s).ack != old(s).last_ack)
            &&& r.1 is None ==> final(s).last_ack == old(s).last_ack && final(s).ip_id
                == old(s).ip_id
            &&& r.1 matches Some(b) ==> final(s).last_ack == final(s).ack && u32_at(b@, t + 8)
                == final(s).ack && u32_at(b@, t + 4) == old(s).seq && b@[t + 13] == 16 && b@.len()
                == t + 32
        }),
{
    let next = old(s).after_segment(m);
    lemma_outgoing(
        next,
        16,
        Seq::empty(),
        next.seq,
        next.ack,
        Some((now_ms, next.remote_tsval)),
    );
}

/// An RST closes. A connecting socket is connected by a SYN-ACK, with the numbers that it
/// brings, and by nothing else.
#[verifier::spinoff_prover]
pub proof fn syn_ack_connects_and_rst_closes(
    s: &mut Socket,
    m: ParsedPacketMeta,
    now_ms: u32,
    r: (Received, Option<Vec<u8>>),
)
    requires
        call_ensures(Socket::on_packet, (s, &m, now_ms), r),
        old(s).state == State::Established || old(s).state == State::SynSent,
    ensures
        ({
            let rst = m.flags as int / 4 % 2 == 1;
            let syn_ack = m.flags as int / 2 % 2 == 1 && m.flags as int / 16 % 2 == 1;
            let connecting = old(s).state == State::SynSent;
            &&& r.0 == Received::Closed <==> rst
            &&& rst ==> r.1 is None && final(s).seq == old(s).seq && final(s).ack == old(s).ack
            &&& connecting ==> r.1 is None
            &&& r.0 == Received::Connected <==> connecting && !rst && syn_ack
            &&& connecting && !rst && syn_ack ==> {
                &&& final(s).state == State::Established
                &&& final(s).seq == m.ack && final(s).remote_ack == m.ack
                &&& final(s).ack == (m.seq + 1) % 0x1_0000_0000
                &&& final(s).last_ack == old(s).last_ack
                &&& final(s).remote_window == m.window * 16384
                &&& final(s).remote_mac == Some(m.src_mac)
                &&& m.tsval is Some ==> final(s).remote_tsval == m.tsval->0
                &&& m.tsval is None ==> final(s).remote_tsval == old(s).remote_tsval
            }
            &&& connecting && (rst || !syn_ack) ==> *final(s) == *old(s)
        }),
{
}

// --- Stack ---

/// A connection is allocated exactly by a stack that is open and has a reader. It gets a
/// channel of its own, under which its packets are then found, and a socket with the stack's
/// hardware address and the given numbers.
pub proof fn connection_gets_a_channel(
    s: &mut Stack,
    local_addr: SocketAddr,
    remote_addr: SocketAddr,
    seq: u32,
    ack: u32,
    state: State,
    reader_done: bool,
    r: Option<(Socket, u64)>,
)
    requires
        call_ensures(
            Stack::try_alloc_established_socket,
            (s, local_addr, remote_addr, seq, ack, state, reader_done),
            r,
        ),
    ensures
        r is Some == (!old(s).inner().closed() && !reader_done),
        r is None ==> final(s).inner().closed() && final(s).inner().connections()
            == old(s).inner().connections(),
        final(s).ports() == old(s).ports(),
        r matches Some((sock, channel)) ==> {
            let key = AddrTuple { local_addr, remote_addr };
            &&& sock.local_addr == local_addr && sock.remote_addr == remote_addr
            &&& sock.local_mac == old(s).inner().mac() && sock.remote_mac is None
            &&& sock.seq == seq && sock.remote_ack == seq && sock.ack == ack && sock.last_ack == ack
            &&& sock.state == state
            &&& channel == old(s).inner().next() && final(s).inner().next() == channel + 1
            &&& final(s).inner().connections().contains_key(key)
            &&& final(s).inner().connections()[key] == channel
            &&& forall|k: AddrTuple|
                k != key ==> (#[trigger] final(s).inner().connections().contains_key(k)
                    == old(s).inner().connections().contains_key(k))
        },
{
}

/// A packet is for the connection that it names, seen from its destination: first as the
/// reader remembers it, then as the table has it. A SYN alone to a port that is listened on,
/// and an RST, are told apart from other strays.
#[verifier::spinoff_prover]
pub proof fn packet_finds_its_connection(
    s: Stack,
    cache: &mut ReaderCache,
    raw: &[u8],
    t: int,
    r: Option<(ParsedPacketMeta, Result<u64, Unmatched>)>,
)
    requires
        call_ensures(Stack::dispatch, (&s, cache, raw), r),
        packet::tcp_start(raw@) == Some(t),
    ensures
        ({
            let key = kernel_stack::tuple_in(raw@, t);
            let cached = old(cache).known().contains_key(key);
            let listed = s.inner().connections().contains_key(key);
            let flags = raw@[t + 13] as int;
            let listened = flags == 2 && s.ports().contains(key.local_addr.port);
            &&& key.local_addr.port == u16_at(raw@, t + 2) && key.remote_addr.port == u16_at(raw@, t)
            &&& r matches Some((_, found)) && {
                &&& cached ==> found == Ok::<u64, Unmatched>(old(cache).known()[key])
                &&& !cached && listed ==> found == Ok::<u64, Unmatched>(
                    s.inner().connections()[key],
                )
                &&& found matches Ok(channel) ==> final(cache).known() == old(cache).known().insert(
                    key,
                    channel,
                )
                &&& found is Err ==> final(cache).known() == old(cache).known()
                &&& !cached && !listed && listened ==> found == Err::<u64, Unmatched>(
                    Unmatched::ListenedSyn,
                )
                &&& !cached && !listed && !listened && flags / 4 % 2 == 1 ==> found == Err::<
                    u64,
                    Unmatched,
                >(Unmatched::Rst)
                &&& !cached && !listed && !listened && flags / 4 % 2 == 0 ==> found == Err::<
                    u64,
                    Unmatched,
                >(Unmatched::Other)
            }
        }),
{
    frame::connection_is_seen_from_the_destination(raw@, t);
}

/// A connection that is removed is found no longer, and the others stay.
pub proof fn removed_connection_is_gone(s: &mut Stack, key: AddrTuple, r: bool)
    requires
        call_ensures(Stack::remove, (s, key), r),
    ensures
        r == old(s).inner().connections().contains_key(key),
        !final(s).inner().connections().contains_key(key),
        forall|k: AddrTuple|
            k != key && old(s).inner().connections().contains_key(k)
                ==> #[trigger] final(s).inner().connections().contains_key(k)
                && final(s).inner().connections()[k] == old(s).inner().connections()[k],
        final(s).ports() == old(s).ports(),
{
}

/// What the reader remembers goes with the news: one dropped connection is forgotten alone,
/// after lost news everything is, and the end of the news closes the stack and ends the
/// reader, as a failure of the device does.
pub proof fn reader_forgets_what_ended(
    s: &mut Stack,
    cache: &mut ReaderCache,
    event: PurgeEvent,
    r: bool,
    failed: &mut Stack,
    failed_cache: &mut ReaderCache,
)
    requires
        call_ensures(Stack::on_purge, (s, cache, event), r),
        call_ensures(Stack::on_read_error, (failed, failed_cache), ()),
    ensures
        r == !(event is Closed),
        event matches PurgeEvent::Dropped(key) ==> !final(cache).known().contains_key(key)
            && final(s).inner() == old(s).inner() && forall|k: AddrTuple|
            k != key ==> (#[trigger] final(cache).known().contains_key(k)
                == old(cache).known().contains_key(k)),
        event is Lagged ==> final(s).inner() == old(s).inner() && forall|k: AddrTuple|
            !#[trigger] final(cache).known().contains_key(k),
        event is Closed ==> final(s).inner().closed() && forall|k: AddrTuple|
            !final(cache).known().contains_key(k)
                && !#[trigger] final(s).inner().connections().contains_key(k),
        final(failed).inner().closed(),
        forall|k: AddrTuple|
            !final(failed_cache).known().contains_key(k)
                && !#[trigger] final(failed).inner().connections().contains_key(k),
{
}

/// A port that is listened on is one of the stack's, with those before it.
pub proof fn listened_port_is_known(s: &mut Stack, port: u16, other: u16)
    requires
        call_ensures(Stack::listen, (s, port), ()),
    ensures
        final(s).ports().contains(port),
        other != port ==> final(s).ports().contains(other) == old(s).ports().contains(other),
        final(s).inner() == old(s).inner(),
{
    let p = old(s).ports();
    assert(final(s).ports()[p.len() as int] == port);
    if p.contains(other) {
        let i = choose|i: int| 0 <= i < p.len() && p[i] == other;
        assert(final(s).ports()[i] == other);
    }
}

// --- Sink ---

/// A packet that is sent waits as one more segment, with its length in its first four bytes;
/// a socket that cannot send drops it.
#[verifier::spinoff_prover]
pub proof fn sent_packet_waits(s: &mut FakeTcpSink, packet: Vec<u8>, now_ms: u32)
    requires
        call_ensures(FakeTcpSink::start_send, (s, packet, now_ms), ()),
        holds(old(s).socket, packet@.len() as int),
        4 <= packet@.len(),
    ensures
        ({
            let t = segment_start(old(s).socket);
            let n = old(s).frames().len();
            let ready = old(s).socket.state == State::Established && gap(
                old(s).socket.seq as int,
                old(s).socket.remote_ack as int,
            ) <= 0x800_0000;
            &&& !ready ==> final(s).frames() == old(s).frames() && final(s).socket == old(s).socket
            &&& ready ==> {
                let b = final(s).frames()[n as int];
                &&& final(s).frames().len() == n + 1
                &&& final(s).frames().subrange(0, n as int) == old(s).frames()
                &&& u32_at(b, t + 4) == old(s).socket.seq
                &&& b.len() == t + 32 + packet@.len()
                &&& le32_at(b, t + 32) == packet@.len()
                &&& b.subrange(t + 36, b.len() as int) == packet@.subrange(
                    4,
                    packet@.len() as int,
                )
                &&& final(s).socket.seq == (old(s).socket.seq + packet@.len()) % 0x1_0000_0000
            }
        }),
{
    let q = old(s).socket;
    let framed = crate::tunnel::fake_tcp::stream::framed(packet@);
    segment::packet_states_its_length(packet@);
    lemma_outgoing(q, 16, framed, q.seq, q.ack, Some((now_ms, q.remote_tsval)));
    let b = q.outgoing(16, framed, q.seq, q.ack, Some((now_ms, q.remote_tsval)));
    let t = segment_start(q);
    let inside = b.subrange(t + 32, b.len() as int);
    assert(inside[0] == b[t + 32] && inside[1] == b[t + 33] && inside[2] == b[t + 34] && inside[3]
        == b[t + 35]);
    assert(b.subrange(t + 36, b.len() as int) =~= inside.subrange(4, inside.len() as int));
    let before = old(s).frames();
    assert(before.push(b).subrange(0, before.len() as int) =~= before);
}

/// Segments are handed out once, all of them and in order; a full batch of 64 is reported.
pub proof fn waiting_segments_are_handed_out(
    s: &mut FakeTcpSink,
    full: bool,
    r: Vec<Vec<u8>>,
)
    requires
        call_ensures(FakeTcpSink::poll_ready, (&*old(s),), full),
        call_ensures(FakeTcpSink::do_flush, (s,), r),
    ensures
        full == (old(s).frames().len() >= 64),
        r@.len() == old(s).frames().len(),
        forall|i: int| 0 <= i < r@.len() ==> (#[trigger] r@[i])@ == old(s).frames()[i],
        final(s).frames().len() == 0,
        final(s).socket == old(s).socket,
{
    let v = r@.map_values(|f: Vec<u8>| f@);
    assert(v.len() == r@.len());
    assert forall|i: int| 0 <= i < r@.len() implies (#[trigger] r@[i])@ == old(s).frames()[i] by {
        assert(v[i] == r@[i]@);
    }
}

/// Closing hands out what waits and resets a connection that is open.
pub proof fn closing_resets_the_connection(
    s: &mut FakeTcpSink,
    u: &mut FakeTcpSink,
    now_ms: u32,
    r: (Vec<Vec<u8>>, Option<Vec<u8>>),
    again: (Vec<Vec<u8>>, Option<Vec<u8>>),
)
    requires
        call_ensures(FakeTcpSink::poll_close, (s, now_ms), r),
        call_ensures(FakeTcpSink::poll_close, (u, now_ms), again),
        *old(u) == *final(s),
    ensures
        r.0@.map_values(|f: Vec<u8>| f@) == old(s).frames(),
        r.1 is Some == (old(s).socket.state != State::Idle),
        final(s).socket.state == State::Idle,
        again.0@.len() == 0 && again.1 is None,
{
    assert(again.0@.map_values(|f: Vec<u8>| f@).len() == again.0@.len());
}

/// An option that states less than its own two bytes takes two, and one that states more
/// than there is takes the rest.
pub proof fn misstated_options_are_passed_over(
    kind: u8,
    stated: u8,
    rest: Seq<u8>,
    found: Option<u32>,
)
    requires
        kind >= 2,
    ensures
        stated < 2 ==> {
            let o = seq![kind, stated] + rest;
            &&& stack::last_tsval(o, found) == stack::last_tsval(rest, found)
            &&& stack::holds_sack(o) == (kind == 5 || stack::holds_sack(rest))
        },
        kind != 8 && stated >= 2 + rest.len() ==> {
            let o = seq![kind, stated] + rest;
            &&& stack::last_tsval(o, found) == found
            &&& stack::holds_sack(o) == (kind == 5)
        },
{
    let o = seq![kind, stated] + rest;
    if stated < 2 {
        assert(o.skip(2) =~= rest);
        assert(packet::option_size(o) == 2);
    }
    if stated >= 2 + rest.len() {
        assert(packet::option_size(o) == o.len());
        assert(stack::last_tsval(o.skip(o.len() as int), found) == found);
        assert(!stack::holds_sack(o.skip(o.len() as int)));
    }
}

/// A failed reader takes the connections along and nothing else.
pub proof fn failed_reader_keeps_the_rest(
    s: &mut Stack,
    cache: &mut ReaderCache,
    failed: &mut Stack,
    failed_cache: &mut ReaderCache,
    r: bool,
)
    requires
        call_ensures(Stack::on_purge, (s, cache, PurgeEvent::Closed), r),
        call_ensures(Stack::on_read_error, (failed, failed_cache), ()),
    ensures
        final(s).inner().next() == old(s).inner().next(),
        final(s).inner().mac() == old(s).inner().mac(),
        final(failed).inner().next() == old(failed).inner().next(),
        final(failed).inner().mac() == old(failed).inner().mac(),
{
}

} // verus!

//! Connections that are continued in user space: what their segments say, and what they
//! make of segments that arrive.

use crate::laws::bytes;
use crate::laws::bytes::{u16_at, u32_at, u64_at};
use crate::laws::frame;
use crate::laws::frame::{data_at, mac_at, segment_at};
use crate::net::{IpAddr, MacAddr, SocketAddr};
use crate::socket::fake_tcp::packet;
use crate::socket::fake_tcp::packet::TcpFields;
use crate::socket::fake_tcp::stack;
use crate::socket::fake_tcp::stack::{KernelTcpState, Socket, State};
use vstd::prelude::*;

verus! {

/// Where the segment of a socket's frame starts.
pub open spec fn segment_start(s: Socket) -> int {
    if s.local_addr.ip is V4 {
        34
    } else {
        54
    }
}

/// Both ends of the socket are of one family, and its frame can hold so much payload: the
/// IP header counts the segment in 16 bits, over IPv4 with the header itself.
pub open spec fn holds(s: Socket, len: int) -> bool {
    &&& s.local_addr.ip is V4 ==> s.remote_addr.ip is V4 && 20 + 32 + len <= 65535
    &&& s.local_addr.ip is V6 ==> s.remote_addr.ip is V6 && 32 + len <= 65535
}

/// The frame goes from the socket's addresses to those of its peer; a peer whose hardware
/// address is unknown is addressed as zero.
pub open spec fn frame_between(s: Socket, b: Seq<u8>) -> bool {
    &&& mac_at(b, 6, s.local_mac)
    &&& s.remote_mac matches Some(mac) ==> mac_at(b, 0, mac)
    &&& s.remote_mac is None ==> mac_at(b, 0, MacAddr(0, 0, 0, 0, 0, 0))
    &&& s.local_addr.ip matches IpAddr::V4(a) ==> u32_at(b, 26) == a.bits
    &&& s.remote_addr.ip matches IpAddr::V4(a) ==> u32_at(b, 30) == a.bits
    &&& s.local_addr.ip matches IpAddr::V6(a) ==> u64_at(b, 22) == a.high && u64_at(b, 30) == a.low
    &&& s.remote_addr.ip matches IpAddr::V6(a) ==> u64_at(b, 38) == a.high && u64_at(b, 46) == a.low
}

/// A socket's segment carries its ports and the given numbers. It acknowledges what the
/// socket received where the kernel's numbers were adopted, and the peer kernel's first
/// number otherwise; and it carries the kernel's clock and the peer's last time.
pub proof fn segment_says_what_the_socket_knows(
    s: Socket,
    flags: u8,
    payload: Seq<u8>,
    seq: u32,
    now_ms: u32,
    window: u16,
)
    requires
        flags as int / 2 % 2 == 0,
        holds(s, payload.len() as int),
    ensures
        ({
            let b = s.outgoing(flags, payload, seq, now_ms, window);
            &&& s.well_formed()
            &&& s.can_carry(payload.len() as int)
            &&& frame_between(s, b)
            &&& segment_at(
                b,
                segment_start(s),
                TcpFields {
                    source: s.local_addr.port,
                    destination: s.remote_addr.port,
                    seq,
                    ack: if s.repair_active {
                        s.ack
                    } else {
                        s.peer_isn_ack
                    },
                    flags,
                    window,
                    timestamps: Some(
                        (((now_ms + s.ts_offset) % 0x1_0000_0000) as u32, s.remote_tsval),
                    ),
                },
                payload,
            )
            &&& s.local_addr.ip is V4 ==> u16_at(b, 18) == s.ip_id
        }),
{
    let f = s.fields(flags, seq, now_ms, window);
    let mac = match s.remote_mac {
        Some(mac) => mac,
        None => MacAddr(0, 0, 0, 0, 0, 0),
    };
    frame::frame_has_an_ethernet_header(
        s.local_mac,
        mac,
        s.local_addr.ip,
        s.remote_addr.ip,
        f,
        s.ip_id,
        payload,
    );
    match (s.local_addr.ip, s.remote_addr.ip) {
        (IpAddr::V4(src), IpAddr::V4(dst)) => {
            frame::ipv4_frame_is_right(s.local_mac, mac, src, dst, f, s.ip_id, payload);
        },
        (IpAddr::V6(src), IpAddr::V6(dst)) => {
            frame::ipv6_frame_is_right(s.local_mac, mac, src, dst, f, s.ip_id, payload);
        },
        _ => {},
    }
}

/// A socket carries exactly what its IP header can count.
pub proof fn socket_carries_what_fits(s: Socket, len: int)
    requires
        (s.local_addr.ip is V4) == (s.remote_addr.ip is V4),
    ensures
        s.can_carry(len) == holds(s, len),
        s.well_formed(),
{
}

/// Segments that are built one after the other follow each other: the sequence number of
/// the second is that of the first plus the length of the first's payload, modulo 2^32,
/// whether or not the kernel's numbers were adopted. Both acknowledge the same, and the IP
/// identification counts on.
pub proof fn segments_follow_each_other(
    s: Socket,
    p1: Seq<u8>,
    p2: Seq<u8>,
    ms1: u32,
    ms2: u32,
    secs: u32,
    window1: u16,
    window2: u16,
)
    requires
        holds(s, p1.len() as int),
        holds(s, p2.len() as int),
    ensures
        ({
            let later = s.after_build(p1.len() as int, secs);
            let b1 = s.outgoing(0x18, p1, s.seq, ms1, window1);
            let b2 = later.outgoing(0x18, p2, later.seq, ms2, window2);
            let t = segment_start(s);
            &&& u32_at(b1, t + 4) == s.seq
            &&& u32_at(b2, t + 4) == (u32_at(b1, t + 4) + p1.len()) % 0x1_0000_0000
            &&& u32_at(b2, t + 8) == u32_at(b1, t + 8)
            &&& b1[t + 13] == 0x18 && b2[t + 13] == 0x18
            &&& b1.subrange(t + 32, b1.len() as int) == p1
            &&& b2.subrange(t + 32, b2.len() as int) == p2
            &&& s.local_addr.ip is V4 ==> u16_at(b2, 18) == (u16_at(b1, 18) + 1) % 0x10000
            &&& frame_between(s, b1) && frame_between(s, b2)
        }),
{
    let later = s.after_build(p1.len() as int, secs);
    segment_says_what_the_socket_knows(s, 0x18, p1, s.seq, ms1, window1);
    segment_says_what_the_socket_knows(later, 0x18, p2, later.seq, ms2, window2);
}

/// Building a segment leaves everything but the next sequence number, the IP identification
/// and the time of the last segment.
pub proof fn building_changes_nothing_else(s: Socket, len: int, secs: u32)
    requires
        0 <= len,
    ensures
        ({
            let a = s.after_build(len, secs);
            &&& a.seq == (s.seq + len) % 0x1_0000_0000
            &&& a.ip_id == (s.ip_id + 1) % 0x10000
            &&& a.last_send_time_secs == secs
            &&& a == (Socket {
                seq: a.seq,
                ip_id: a.ip_id,
                last_send_time_secs: a.last_send_time_secs,
                ..s
            })
        }),
{
}

/// The socket after segments with so many bytes each were built.
pub open spec fn after_builds(s: Socket, lens: Seq<nat>, secs: u32) -> Socket
    decreases lens.len(),
{
    if lens.len() == 0 {
        s
    } else {
        after_builds(s, lens.drop_last(), secs).after_build(lens.last() as int, secs)
    }
}

/// How many bytes there are in all.
pub open spec fn total(lens: Seq<nat>) -> int
    decreases lens.len(),
{
    if lens.len() == 0 {
        0
    } else {
        total(lens.drop_last()) + lens.last()
    }
}

/// The sequence number counts every byte that was built, however the bytes are cut into
/// segments.
pub proof fn sequence_number_counts_the_bytes(s: Socket, lens: Seq<nat>, secs: u32)
    ensures
        total(lens) >= 0,
        after_builds(s, lens, secs).seq == (s.seq + total(lens)) % 0x1_0000_0000,
        after_builds(s, lens, secs).recv_since_ack == s.recv_since_ack,
        after_builds(s, lens, secs).ack == s.ack,
        after_builds(s, lens, secs).peer_isn_ack == s.peer_isn_ack,
    decreases lens.len(),
{
    if lens.len() > 0 {
        sequence_number_counts_the_bytes(s, lens.drop_last(), secs);
    }
}

// --- Beginning ---

/// A socket that is given the kernel's numbers goes on from them; one that is given none, or
/// zeros, waits for the peer's.
pub proof fn socket_goes_on_from_the_kernel(
    local: SocketAddr,
    remote: SocketAddr,
    mac: MacAddr,
    kernel: Option<KernelTcpState>,
    state: State,
    ip_id: u16,
)
    ensures
        ({
            let s = Socket::fresh(local, remote, mac, kernel, state, ip_id);
            let known = kernel matches Some(k) && (k.seq != 0 || k.ack != 0);
            &&& s.local_addr == local && s.remote_addr == remote && s.local_mac == mac
            &&& s.remote_mac is None && s.state == state && s.ip_id == ip_id
            &&& s.repair_active == known && s.seq_calibrated == known
            &&& kernel matches Some(k) ==> s.seq == k.seq && s.ack == k.ack && s.peer_isn_ack
                == k.ack && s.ts_offset == k.ts_offset
            &&& kernel is None ==> s.seq == 0 && s.ack == 0 && s.peer_isn_ack == 0 && s.ts_offset
                == 0
            &&& s.recv_since_ack == 0 && s.remote_tsval == 0 && s.last_send_time_secs == 0
            &&& s.rst_received == 0 && s.last_rst_time_secs == 0
        }),
{
}

// --- Receiving ---

/// How far `a` is ahead of `b` on the circle of sequence numbers.
pub open spec fn gap(a: int, b: int) -> int {
    (a - b) % 0x1_0000_0000
}

/// What arrives while a socket is established. Every payload byte is owed an
/// acknowledgement; an acknowledging segment brings the peer's time; the sender's hardware
/// address is the peer's. Nothing else but the numbers changes.
#[verifier::spinoff_prover]
pub proof fn arriving_segment_is_counted(s: Socket, b: Seq<u8>, t: int)
    requires
        34 <= t,
        t + 20 <= b.len(),
    ensures
        ({
            let a = s.after_segment(b, t);
            let n = data_at(b, t).len();
            let acknowledges = b[t + 13] as int / 16 % 2 == 1;
            let time = packet::tsval_in(packet::options_in(b, t));
            &&& a.recv_since_ack == (s.recv_since_ack + n) % 0x1_0000_0000
            &&& a.remote_mac matches Some(mac) && mac_at(b, 6, mac)
            &&& acknowledges && time is Some ==> a.remote_tsval == time->0
            &&& !acknowledges || time is None ==> a.remote_tsval == s.remote_tsval
            &&& a == (Socket {
                remote_mac: a.remote_mac,
                remote_tsval: a.remote_tsval,
                recv_since_ack: a.recv_since_ack,
                seq: a.seq,
                ack: a.ack,
                peer_isn_ack: a.peer_isn_ack,
                seq_calibrated: a.seq_calibrated,
                ..s
            })
        }),
{
    frame::lemma_data(b, t);
}

/// The numbers of a socket that knows them move only forward: to the end of a segment with
/// payload that ends ahead of the cursor by less than half the sequence space.
#[verifier::spinoff_prover]
pub proof fn known_numbers_move_forward(s: Socket, b: Seq<u8>, t: int)
    requires
        34 <= t,
        t + 20 <= b.len(),
        s.seq_calibrated,
    ensures
        ({
            let a = s.after_segment(b, t);
            let n = data_at(b, t).len();
            let end = (u32_at(b, t + 4) + n) % 0x1_0000_0000;
            &&& a.seq_calibrated
            &&& a.seq == s.seq && a.peer_isn_ack == s.peer_isn_ack
            &&& n > 0 && 0 < gap(end, s.ack as int) < 0x7fff_ffff ==> a.ack == end
            &&& !(n > 0 && 0 < gap(end, s.ack as int) < 0x7fff_ffff) ==> a.ack == s.ack
        }),
{
    frame::lemma_data(b, t);
    bytes::lemma_reads(b, t + 4);
}

/// A socket that does not know its numbers takes them from the first segment that
/// acknowledges something: it goes on where the peer expects it, acknowledges from the
/// segment's first byte, and has received up to its last.
#[verifier::spinoff_prover]
pub proof fn first_acknowledgement_calibrates(s: Socket, b: Seq<u8>, t: int)
    requires
        34 <= t,
        t + 20 <= b.len(),
        !s.seq_calibrated,
    ensures
        ({
            let a = s.after_segment(b, t);
            let n = data_at(b, t).len();
            let end = (u32_at(b, t + 4) + n) % 0x1_0000_0000;
            let calibrates = b[t + 13] as int / 16 % 2 == 1 && u32_at(b, t + 8) != 0;
            &&& a.seq_calibrated == calibrates
            &&& calibrates ==> a.seq == u32_at(b, t + 8) && a.peer_isn_ack == u32_at(b, t + 4)
                && a.ack == end
            &&& !calibrates ==> {
                &&& a.seq == s.seq && a.peer_isn_ack == s.peer_isn_ack
                &&& n > 0 && 0 < gap(end, s.ack as int) < 0x7fff_ffff ==> a.ack == end
                &&& !(n > 0 && 0 < gap(end, s.ack as int) < 0x7fff_ffff) ==> a.ack == s.ack
            }
        }),
{
    frame::lemma_data(b, t);
    bytes::lemma_reads(b, t + 4);
    bytes::lemma_reads(b, t + 8);
}

/// A segment that arrives is acknowledged: where the kernel's numbers were adopted, the next
/// segment of a socket whose cursor stood at the segment's beginning acknowledges its end.
#[verifier::spinoff_prover]
pub proof fn received_data_is_acknowledged(
    s: Socket,
    b: Seq<u8>,
    t: int,
    payload: Seq<u8>,
    now_ms: u32,
    window: u16,
)
    requires
        34 <= t,
        t + 20 <= b.len(),
        s.seq_calibrated,
        s.repair_active,
        holds(s, payload.len() as int),
        u32_at(b, t + 4) == s.ack,
        0 < data_at(b, t).len() < 0x7fff_ffff,
    ensures
        ({
            let a = s.after_segment(b, t);
            let reply = a.outgoing(0x18, payload, a.seq, now_ms, window);
            &&& u32_at(reply, segment_start(s) + 8) == (u32_at(b, t + 4) + data_at(b, t).len())
                % 0x1_0000_0000
            &&& u32_at(reply, segment_start(s) + 4) == s.seq
        }),
{
    known_numbers_move_forward(s, b, t);
    arriving_segment_is_counted(s, b, t);
    let a = s.after_segment(b, t);
    segment_says_what_the_socket_knows(a, 0x18, payload, a.seq, now_ms, window);
}

/// The peer's SYN-ACK completes the handshake: the socket goes on with the number that is
/// acknowledged, and has received the SYN.
#[verifier::spinoff_prover]
pub proof fn syn_ack_completes_the_handshake(s: Socket, b: Seq<u8>, t: int)
    requires
        34 <= t,
        t + 20 <= b.len(),
    ensures
        ({
            let a = s.after_syn_ack(b, t);
            let time = packet::tsval_in(packet::options_in(b, t));
            &&& a.state == State::Established && a.seq_calibrated
            &&& a.seq == u32_at(b, t + 8)
            &&& a.ack == (u32_at(b, t + 4) + 1) % 0x1_0000_0000
            &&& a.peer_isn_ack == a.ack
            &&& a.remote_mac matches Some(mac) && mac_at(b, 6, mac)
            &&& time is Some ==> a.remote_tsval == time->0
            &&& time is None ==> a.remote_tsval == s.remote_tsval
            &&& a == (Socket {
                state: a.state,
                seq_calibrated: a.seq_calibrated,
                seq: a.seq,
                ack: a.ack,
                peer_isn_ack: a.peer_isn_ack,
                remote_mac: a.remote_mac,
                remote_tsval: a.remote_tsval,
                ..s
            })
        }),
{
    bytes::lemma_reads(b, t + 4);
    bytes::lemma_reads(b, t + 8);
}

/// RSTs are counted while each comes within ten seconds of the one before it. Up to three
/// are absorbed; the fourth closes the connection.
pub proof fn fourth_rst_of_a_burst_closes(s: Socket, b: Seq<u8>, now: u32)
    requires
        s.rst_received < u32::MAX,
    ensures
        s.rst_received == 0 || gap(now as int, s.last_rst_time_secs as int) > 10 ==> s.rst_count(now)
            == 1,
        s.rst_received > 0 && gap(now as int, s.last_rst_time_secs as int) <= 10 ==> s.rst_count(
            now,
        ) == s.rst_received + 1,
        s.after_rst(b, now).rst_received == s.rst_count(now),
        s.after_rst(b, now).last_rst_time_secs == now,
        s.after_rst(b, now) == (Socket {
            remote_mac: s.after_rst(b, now).remote_mac,
            rst_received: s.after_rst(b, now).rst_received,
            last_rst_time_secs: now,
            ..s
        }),
        s.after_rst(b, now).remote_mac matches Some(mac) && mac_at(b, 6, mac),
        (s.rst_count(now) > stack::MAX_RST_ALLOWED) == (s.rst_count(now) >= 4),
{
}

// --- The acknowledgement debt ---

/// A bare acknowledgement is due exactly if the numbers are known and bytes are owed or
/// twenty seconds passed since the last segment.
pub proof fn acknowledgement_is_due_for_data_or_silence(s: Socket, now: u32)
    ensures
        s.ack_due(now) == (s.seq_calibrated && (s.recv_since_ack > 0 || gap(
            now as int,
            s.last_send_time_secs as int,
        ) >= 20)),
{
}

/// A debt that is claimed and settled is gone if something was sent; otherwise it is as it
/// was, with what arrived meanwhile.
pub proof fn debt_is_paid_once(s: Socket, arrived: u32, sent: bool, now: u32)
    requires
        s.recv_since_ack + arrived <= u32::MAX,
    ensures
        ({
            let owed = s.recv_since_ack;
            let claimed = s.claimed();
            let waiting = Socket { recv_since_ack: arrived, ..claimed };
            let settled = waiting.settled(owed, sent);
            let built = s.after_ack_built();
            let acknowledged = Socket { recv_since_ack: arrived, ..built }.after_ack(owed, sent, now);
            &&& claimed == (Socket { recv_since_ack: 0, ..s })
            &&& settled == (Socket {
                recv_since_ack: if sent {
                    arrived
                } else {
                    (owed + arrived) as u32
                },
                ..s
            })
            &&& built.recv_since_ack == 0 && built.ip_id == (s.ip_id + 1) % 0x10000
            &&& acknowledged == (Socket {
                recv_since_ack: if sent {
                    arrived
                } else {
                    (owed + arrived) as u32
                },
                ip_id: built.ip_id,
                last_send_time_secs: now,
                ..s
            })
        }),
{
}

/// The flags of a segment: SYN, RST and ACK, and what the segments of a socket carry.
pub proof fn flags_are_bits(flags: u8)
    ensures
        stack::has_flag(flags, 2) == (flags as int % 4 >= 2),
        stack::has_flag(flags, 4) == (flags as int % 8 >= 4),
        stack::has_flag(flags, 16) == (flags as int % 32 >= 16),
        packet::TCP_SYN == 2 && packet::TCP_RST == 4 && packet::TCP_PSH == 8 && packet::TCP_ACK
            == 16,
{
}

/// What a socket advertises: nothing in an RST, and otherwise less than 512 below the
/// largest window.
pub proof fn window_is_nearly_the_largest(flags: u8, window: u16)
    ensures
        flags == 4 ==> Socket::window_allowed(flags, window) == (window == 0),
        flags != 4 ==> Socket::window_allowed(flags, window) == (window >= 65024),
{
}

// --- Calls ---

/// A packet is built by an established socket that knows its numbers, and by no other. It
/// stands at the socket's cursor, which moves behind it, modulo 2^32, whoever set the
/// numbers; the IP identification and the time of the last segment move with it, and
/// nothing else changes.
#[verifier::spinoff_prover]
pub proof fn packet_is_built_at_the_cursor(
    s: &mut Socket,
    payload: &[u8],
    now_ms: u32,
    now_secs: u32,
    r: Option<Vec<u8>>,
)
    requires
        call_ensures(Socket::build_packet, (s, payload, now_ms, now_secs), r),
        holds(*old(s), payload@.len() as int),
    ensures
        ({
            let ready = old(s).state == State::Established && old(s).seq_calibrated;
            let t = segment_start(*old(s));
            &&& r is Some == ready
            &&& !ready ==> *final(s) == *old(s)
            &&& r matches Some(built) ==> {
                let b = built@;
                &&& frame_between(*old(s), b)
                &&& u16_at(b, t) == old(s).local_addr.port
                &&& u16_at(b, t + 2) == old(s).remote_addr.port
                &&& u32_at(b, t + 4) == old(s).seq
                &&& old(s).repair_active ==> u32_at(b, t + 8) == old(s).ack
                &&& !old(s).repair_active ==> u32_at(b, t + 8) == old(s).peer_isn_ack
                &&& b[t + 13] == 0x18
                &&& u16_at(b, t + 14) > 65023
                &&& u32_at(b, t + 24) == (now_ms + old(s).ts_offset) % 0x1_0000_0000
                &&& u32_at(b, t + 28) == old(s).remote_tsval
                &&& b.len() == t + 32 + payload@.len()
                &&& b.subrange(t + 32, b.len() as int) == payload@
                &&& final(s).seq == (old(s).seq + payload@.len()) % 0x1_0000_0000
                &&& final(s).ip_id == (old(s).ip_id + 1) % 0x10000
                &&& final(s).last_send_time_secs == now_secs
                &&& *final(s) == (Socket {
                    seq: final(s).seq,
                    ip_id: final(s).ip_id,
                    last_send_time_secs: now_secs,
                    ..*old(s)
                })
            }
        }),
{
    let ready = old(s).state == State::Established && old(s).seq_calibrated;
    if ready {
        let window = choose|window: u16|
            65023 < window && (r->0)@ == #[trigger] old(s).outgoing(
                0x18,
                payload@,
                old(s).seq,
                now_ms,
                window,
            );
        segment_says_what_the_socket_knows(
            *old(s),
            0x18,
            payload@,
            old(s).seq,
            now_ms,
            window,
        );
        building_changes_nothing_else(*old(s), payload@.len() as int, now_secs);
    }
}

/// Of two packets that are built one after the other the second begins where the first ends.
#[verifier::spinoff_prover]
pub proof fn packets_do_not_overlap(
    s: &mut Socket,
    u: &mut Socket,
    p1: &[u8],
    p2: &[u8],
    ms: u32,
    secs: u32,
    r1: Option<Vec<u8>>,
    r2: Option<Vec<u8>>,
)
    requires
        call_ensures(Socket::build_packet, (s, p1, ms, secs), r1),
        call_ensures(Socket::build_packet, (u, p2, ms, secs), r2),
        *old(u) == *final(s),
        holds(*old(s), p1@.len() as int),
        holds(*old(s), p2@.len() as int),
    ensures
        r1 is Some == r2 is Some,
        r1 matches Some(b1) ==> {
            let t = segment_start(*old(s));
            u32_at((r2->0)@, t + 4) == (u32_at(b1@, t + 4) + (b1@.len() - t - 32)) % 0x1_0000_0000
        },
{
    let t = segment_start(*old(s));
    let n = p1@.len();
    let from = old(s).seq;
    let to = old(u).seq;
    assert(r1 is Some ==> u32_at((r1->0)@, t + 4) == from && (r1->0)@.len() == t + 32 + n && to == (
    from + n) % 0x1_0000_0000) by {
        packet_is_built_at_the_cursor(s, p1, ms, secs, r1);
    }
    assert(old(u).state == old(s).state && old(u).seq_calibrated == old(s).seq_calibrated
        && old(u).local_addr == old(s).local_addr && old(u).remote_addr == old(s).remote_addr
        && r1 is Some == (old(s).state == State::Established && old(s).seq_calibrated)) by {
        packet_is_built_at_the_cursor(s, p1, ms, secs, r1);
    }
    assert(r2 is Some == (old(u).state == State::Established && old(u).seq_calibrated) && (
    r2 is Some ==> u32_at((r2->0)@, t + 4) == to)) by {
        packet_is_built_at_the_cursor(u, p2, ms, secs, r2);
    }
}

/// A bare acknowledgement is built exactly if the numbers are known and bytes are owed or
/// twenty seconds passed since the last segment. It carries no data and does not move the
/// cursor, and the debt is handed out.
#[verifier::spinoff_prover]
pub proof fn acknowledgement_carries_nothing(
    s: &mut Socket,
    now_ms: u32,
    now_secs: u32,
    r: Option<(u32, Vec<u8>)>,
)
    requires
        call_ensures(Socket::send_ack, (s, now_ms, now_secs), r),
        holds(*old(s), 0),
    ensures
        ({
            let t = segment_start(*old(s));
            &&& r is Some == (old(s).seq_calibrated && (old(s).recv_since_ack > 0 || gap(
                now_secs as int,
                old(s).last_send_time_secs as int,
            ) >= 20))
            &&& r is None ==> *final(s) == *old(s)
            &&& r matches Some((owed, built)) ==> {
                let b = built@;
                &&& owed == old(s).recv_since_ack
                &&& frame_between(*old(s), b)
                &&& u32_at(b, t + 4) == old(s).seq
                &&& old(s).repair_active ==> u32_at(b, t + 8) == old(s).ack
                &&& b[t + 13] == 0x10
                &&& b.len() == t + 32
                &&& final(s).recv_since_ack == 0
                &&& final(s).ip_id == (old(s).ip_id + 1) % 0x10000
                &&& *final(s) == (Socket { recv_since_ack: 0, ip_id: final(s).ip_id, ..*old(s) })
            }
        }),
{
    if let Some((owed, built)) = r {
        let window = choose|window: u16|
            65023 < window && built@ == #[trigger] old(s).outgoing(
                packet::TCP_ACK,
                Seq::empty(),
                old(s).seq,
                now_ms,
                window,
            );
        segment_says_what_the_socket_knows(
            *old(s),
            0x10,
            Seq::empty(),
            old(s).seq,
            now_ms,
            window,
        );
    }
}

/// Closing sends one RST, at the cursor and with no window, if the socket was open and knows
/// its numbers; a closed socket stays closed. A socket that is dropped sends it in any case
/// in which it knows its numbers.
#[verifier::spinoff_prover]
pub proof fn connection_is_reset_once(
    s: &mut Socket,
    u: &mut Socket,
    d: &mut Socket,
    now_ms: u32,
    r: Option<Vec<u8>>,
    again: Option<Vec<u8>>,
    dropped: Option<Vec<u8>>,
)
    requires
        call_ensures(Socket::close, (s, now_ms), r),
        call_ensures(Socket::close, (u, now_ms), again),
        *old(u) == *final(s),
        call_ensures(Socket::farewell, (d, now_ms), dropped),
        *old(d) == *old(s),
        holds(*old(s), 0),
    ensures
        ({
            let t = segment_start(*old(s));
            &&& r is Some == (old(s).state != State::Idle && old(s).seq_calibrated)
            &&& final(s).state == State::Idle && final(s).seq == old(s).seq
            &&& again is None
            &&& dropped is Some == old(s).seq_calibrated
            &&& r matches Some(b) ==> b@[t + 13] == 4 && u32_at(b@, t + 4) == old(s).seq && u16_at(
                b@,
                t + 14,
            ) == 0 && b@.len() == t + 32 && frame_between(*old(s), b@)
            &&& dropped matches Some(b) ==> b@[t + 13] == 4 && u32_at(b@, t + 4) == old(s).seq
                && u16_at(b@, t + 14) == 0 && b@.len() == t + 32 && frame_between(*old(s), b@)
        }),
{
    segment_says_what_the_socket_knows(*old(s), 4, Seq::empty(), old(s).seq, now_ms, 0);
}

/// The kernel's numbers replace the socket's own.
pub proof fn adopted_numbers_are_the_kernels(s: &mut Socket, k: KernelTcpState)
    requires
        call_ensures(Socket::adopt_kernel_state, (s, k), ()),
    ensures
        final(s).seq == k.seq && final(s).ack == k.ack && final(s).peer_isn_ack == k.ack,
        final(s).ts_offset == k.ts_offset,
        final(s).repair_active && final(s).seq_calibrated,
        final(s).state == old(s).state && final(s).remote_mac == old(s).remote_mac,
        final(s).recv_since_ack == old(s).recv_since_ack && final(s).ip_id == old(s).ip_id,
{
}

/// What a packet means. To an established socket: its payload, if it has one; an RST closes
/// it from the fourth of a burst on. To a connecting one: a SYN-ACK connects it, an RST
/// closes it, and everything else is nothing.
#[verifier::spinoff_prover]
pub proof fn packet_means_what_it_says(s: &mut Socket, raw: &[u8], now_secs: u32, t: int, r: stack::Received)
    requires
        call_ensures(Socket::on_packet, (s, raw, now_secs), r),
        packet::tcp_start(raw@) == Some(t),
        old(s).rst_received < u32::MAX,
    ensures
        ({
            let flags = raw@[t + 13] as int;
            let rst = flags / 4 % 2 == 1;
            let syn_ack = flags / 2 % 2 == 1 && flags / 16 % 2 == 1;
            let data = data_at(raw@, t);
            let open = old(s).state == State::Established;
            let burst = old(s).rst_received > 0 && gap(
                now_secs as int,
                old(s).last_rst_time_secs as int,
            ) <= 10;
            &&& open && !rst && data.len() > 0 ==> (r matches stack::Received::Payload(p) && p@
                == data)
            &&& open && !rst && data.len() == 0 ==> r is Nothing
            &&& open && !rst ==> final(s).recv_since_ack == (old(s).recv_since_ack + data.len())
                % 0x1_0000_0000
            &&& open && rst ==> r is Closed == (burst && old(s).rst_received >= 3)
            &&& open && rst && !(r is Closed) ==> r is Nothing
            &&& open && rst ==> final(s).rst_received == if burst {
                old(s).rst_received + 1
            } else {
                1
            }
            &&& !open && rst ==> r is Closed && *final(s) == *old(s)
            &&& !open && !rst && syn_ack ==> r is Connected && final(s).state
                == State::Established && final(s).seq == u32_at(raw@, t + 8) && final(s).ack == (
            u32_at(raw@, t + 4) + 1) % 0x1_0000_0000
            &&& !open && !rst && !syn_ack ==> r is Nothing && *final(s) == *old(s)
        }),
{
    let b = raw@;
    frame::segment_is_found_where_it_stands(b);
    frame::lemma_data(b, t);
    arriving_segment_is_counted(*old(s), b, t);
    syn_ack_completes_the_handshake(*old(s), b, t);
    fourth_rst_of_a_burst_closes(*old(s), b, now_secs);
}

/// A debt that was handed out comes back if nothing was sent, and only then.
pub proof fn unsent_debt_comes_back(s: &mut Socket, u: &mut Socket, sent: usize, owed: u32)
    requires
        call_ensures(Socket::claim_debt, (s,), owed),
        call_ensures(Socket::settle_debt, (u, owed, sent), ()),
        *old(u) == *final(s),
    ensures
        owed == old(s).recv_since_ack,
        final(s).recv_since_ack == 0,
        sent == 0 ==> *final(u) == *old(s),
        sent > 0 ==> *final(u) == (Socket { recv_since_ack: 0, ..*old(s) }),
{
}

/// The end of an acknowledgement: its time is noted, and a debt that was not paid is owed
/// again.
pub proof fn acknowledgement_ends(s: &mut Socket, owed: u32, sent: bool, now_secs: u32)
    requires
        call_ensures(Socket::end_ack, (s, owed, sent, now_secs), ()),
        old(s).recv_since_ack + owed <= u32::MAX,
    ensures
        final(s).last_send_time_secs == now_secs,
        sent ==> final(s).recv_since_ack == old(s).recv_since_ack,
        !sent ==> final(s).recv_since_ack == old(s).recv_since_ack + owed,
        final(s).seq == old(s).seq && final(s).ack == old(s).ack && final(s).state == old(s).state,
{
}

/// A segment that is built by itself says what it is told and moves nothing but the IP
/// identification.
pub proof fn single_segment_moves_nothing(
    s: &mut Socket,
    flags: u8,
    payload: &[u8],
    seq: u32,
    now_ms: u32,
    window: u16,
    r: Vec<u8>,
)
    requires
        call_ensures(Socket::build_segment, (s, flags, payload, seq, now_ms, window), r),
        flags as int / 2 % 2 == 0,
        holds(*old(s), payload@.len() as int),
    ensures
        ({
            let t = segment_start(*old(s));
            &&& frame_between(*old(s), r@)
            &&& u32_at(r@, t + 4) == seq
            &&& r@[t + 13] == flags
            &&& u16_at(r@, t + 14) == window
            &&& r@.subrange(t + 32, r@.len() as int) == payload@
            &&& final(s).ip_id == (old(s).ip_id + 1) % 0x10000
            &&& *final(s) == (Socket { ip_id: final(s).ip_id, ..*old(s) })
        }),
{
    segment_says_what_the_socket_knows(*old(s), flags, payload@, seq, now_ms, window);
}

/// A socket begins with the kernel's numbers, whatever its identification is.
pub proof fn socket_begins_with_the_kernel(
    local: SocketAddr,
    remote: SocketAddr,
    mac: MacAddr,
    kernel: Option<KernelTcpState>,
    state: State,
    ip_id: u16,
    s: Socket,
    any: Socket,
)
    requires
        call_ensures(Socket::with_ip_id, (local, remote, mac, kernel, state, ip_id), s),
        call_ensures(Socket::new, (local, remote, mac, kernel, state), any),
    ensures
        s.ip_id == ip_id,
        any == (Socket { ip_id: any.ip_id, ..s }),
        s.local_addr == local && s.remote_addr == remote && s.local_mac == mac && s.state == state,
        kernel matches Some(k) ==> s.seq == k.seq && s.ack == k.ack && s.ts_offset == k.ts_offset,
        kernel is None ==> s.seq == 0 && s.ack == 0 && !s.seq_calibrated && !s.repair_active,
{
    socket_goes_on_from_the_kernel(local, remote, mac, kernel, state, ip_id);
    socket_goes_on_from_the_kernel(local, remote, mac, kernel, state, any.ip_id);
}

/// The peer's time is read from the options of a segment.
pub proof fn time_is_read_from_the_options(opts: &[u8], r: Option<u32>, s: Socket, len: usize, fits: bool)
    requires
        call_ensures(packet::find_tsval, (opts,), r),
        call_ensures(Socket::carries, (&s, len), fits),
        (s.local_addr.ip is V4) == (s.remote_addr.ip is V4),
    ensures
        r == packet::tsval_in(opts@),
        fits == holds(s, len as int),
{
}

} // verus!

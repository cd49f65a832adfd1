//! Ethernet frames with TCP segments: every byte that is built, and what is read.

use crate::laws::bytes;
use crate::laws::bytes::{u16_at, u32_at, u64_at, words_from};
use crate::net::{IpAddr, Ipv4Addr, Ipv6Addr, MacAddr, SocketAddr};
use crate::socket::fake_tcp::packet;
use crate::socket::fake_tcp::packet::{IPPacket, TcpFields, TcpPacket};
use crate::socket::fake_tcp::stack;
use crate::wire;
use vstd::prelude::*;

verus! {

/// How long the options are: twelve bytes on a SYN, and twelve for timestamps.
pub open spec fn options_size(f: TcpFields) -> int {
    (if f.flags as int / 2 % 2 == 1 {
        12int
    } else {
        0
    }) + (if f.timestamps is Some {
        12int
    } else {
        0
    })
}

/// The six bytes at `at` are the hardware address.
pub open spec fn mac_at(b: Seq<u8>, at: int, mac: MacAddr) -> bool {
    &&& b[at] == mac.0 && b[at + 1] == mac.1 && b[at + 2] == mac.2
    &&& b[at + 3] == mac.3 && b[at + 4] == mac.4 && b[at + 5] == mac.5
}

/// The segment whose header starts at `t`, and with which the frame ends, has these fields
/// and this data.
pub open spec fn segment_at(b: Seq<u8>, t: int, f: TcpFields, data: Seq<u8>) -> bool {
    let k = options_size(f);
    let ts = t + 20 + if f.flags as int / 2 % 2 == 1 {
        12int
    } else {
        0
    };
    &&& b.len() == t + 20 + k + data.len()
    &&& u16_at(b, t) == f.source
    &&& u16_at(b, t + 2) == f.destination
    &&& u32_at(b, t + 4) == f.seq
    &&& u32_at(b, t + 8) == f.ack
    &&& b[t + 12] == (5 + k / 4) * 16
    &&& b[t + 13] == f.flags
    &&& u16_at(b, t + 14) == f.window
    &&& u16_at(b, t + 18) == 0
    &&& f.flags as int / 2 % 2 == 1 ==> {
        // a segment size of 1400, two fillers, selective acknowledgements, a filler, scale 5
        &&& b[t + 20] == 2 && b[t + 21] == 4 && u16_at(b, t + 22) == 1400
        &&& b[t + 24] == 1 && b[t + 25] == 1
        &&& b[t + 26] == 4 && b[t + 27] == 2
        &&& b[t + 28] == 1
        &&& b[t + 29] == 3 && b[t + 30] == 3 && b[t + 31] == 5
    }
    &&& f.timestamps matches Some((tsval, tsecr)) ==> {
        &&& b[ts] == 1 && b[ts + 1] == 1
        &&& b[ts + 2] == 8 && b[ts + 3] == 10
        &&& u32_at(b, ts + 4) == tsval
        &&& u32_at(b, ts + 8) == tsecr
    }
    &&& b.subrange(t + 20 + k, b.len() as int) == data
}

#[verifier::spinoff_prover]
proof fn lemma_segment_head(f: TcpFields, ck: int, data: Seq<u8>)
    requires
        0 <= ck < 0x10000,
    ensures
        ({
            let s = packet::tcp_segment(f, ck, data);
            let k = f.options().len() as int;
            &&& s.len() == 20 + k + data.len()
            &&& u16_at(s, 0) == f.source
            &&& u16_at(s, 2) == f.destination
            &&& u32_at(s, 4) == f.seq
            &&& u32_at(s, 8) == f.ack
            &&& s[12] == ((20 + k) / 4 * 16) as u8
            &&& s[13] == f.flags
            &&& u16_at(s, 14) == f.window
            &&& u16_at(s, 16) == ck
            &&& u16_at(s, 18) == 0
            &&& s.subrange(20, 20 + k) == f.options()
            &&& s.subrange(20 + k, s.len() as int) == data
        }),
{
    let s = packet::tcp_segment(f, ck, data);
    let k = f.options().len() as int;
    bytes::lemma_be16(f.source as int);
    bytes::lemma_be16(f.destination as int);
    bytes::lemma_be32(f.seq as int);
    bytes::lemma_be32(f.ack as int);
    bytes::lemma_be16(f.window as int);
    bytes::lemma_be16(ck);
    bytes::lemma_be16(0);
    assert(s.subrange(0, 2) =~= wire::be16(f.source as int));
    assert(s.subrange(2, 4) =~= wire::be16(f.destination as int));
    assert(s.subrange(4, 8) =~= wire::be32(f.seq as int));
    assert(s.subrange(8, 12) =~= wire::be32(f.ack as int));
    assert(s.subrange(14, 16) =~= wire::be16(f.window as int));
    assert(s.subrange(16, 18) =~= wire::be16(ck));
    assert(s.subrange(18, 20) =~= wire::be16(0));
    assert(s.subrange(20, 20 + k) =~= f.options());
    assert(s.subrange(20 + k, s.len() as int) =~= data);
    bytes::lemma_u16_in(s, 0, wire::be16(f.source as int));
    bytes::lemma_u16_in(s, 2, wire::be16(f.destination as int));
    bytes::lemma_u32_in(s, 4, wire::be32(f.seq as int));
    bytes::lemma_u32_in(s, 8, wire::be32(f.ack as int));
    bytes::lemma_u16_in(s, 14, wire::be16(f.window as int));
    bytes::lemma_u16_in(s, 16, wire::be16(ck));
    bytes::lemma_u16_in(s, 18, wire::be16(0));
}

#[verifier::spinoff_prover]
proof fn lemma_options(f: TcpFields)
    ensures
        ({
            let o = f.options();
            let syn = f.flags as int / 2 % 2 == 1;
            let ts = if syn {
                12int
            } else {
                0
            };
            &&& o.len() == options_size(f)
            &&& syn ==> {
                &&& o[0] == 2 && o[1] == 4 && o[2] == 5 && o[3] == 0x78
                &&& o[4] == 1 && o[5] == 1 && o[6] == 4 && o[7] == 2
                &&& o[8] == 1 && o[9] == 3 && o[10] == 3 && o[11] == 5
            }
            &&& f.timestamps matches Some((tsval, tsecr)) ==> {
                &&& o[ts] == 1 && o[ts + 1] == 1 && o[ts + 2] == 8 && o[ts + 3] == 10
                &&& u32_at(o, ts + 4) == tsval
                &&& u32_at(o, ts + 8) == tsecr
            }
        }),
{
    let o = f.options();
    let ts = if f.flags as int / 2 % 2 == 1 {
        12int
    } else {
        0
    };
    if let Some((tsval, tsecr)) = f.timestamps {
        bytes::lemma_be32(tsval as int);
        bytes::lemma_be32(tsecr as int);
        assert(o.subrange(ts + 4, ts + 8) =~= wire::be32(tsval as int));
        assert(o.subrange(ts + 8, ts + 12) =~= wire::be32(tsecr as int));
        bytes::lemma_u32_in(o, ts + 4, wire::be32(tsval as int));
        bytes::lemma_u32_in(o, ts + 8, wire::be32(tsecr as int));
    }
}

/// The segment is the same wherever it stands.
#[verifier::spinoff_prover]
proof fn lemma_segment_stands(front: Seq<u8>, f: TcpFields, ck: int, data: Seq<u8>)
    requires
        0 <= ck < 0x10000,
    ensures
        segment_at(front + packet::tcp_segment(f, ck, data), front.len() as int, f, data),
        u16_at(front + packet::tcp_segment(f, ck, data), front.len() as int + 16) == ck,
{
    let s = packet::tcp_segment(f, ck, data);
    let b = front + s;
    let t = front.len() as int;
    let k = f.options().len() as int;
    lemma_segment_head(f, ck, data);
    lemma_options(f);
    assert forall|i: int| 0 <= i < s.len() implies b[t + i] == s[i] by {}
    assert(b[t] == s[0] && b[t + 1] == s[1] && b[t + 2] == s[2] && b[t + 3] == s[3]);
    assert(b[t + 4] == s[4] && b[t + 5] == s[5] && b[t + 6] == s[6] && b[t + 7] == s[7]);
    assert(b[t + 8] == s[8] && b[t + 9] == s[9] && b[t + 10] == s[10] && b[t + 11] == s[11]);
    assert(b[t + 12] == s[12] && b[t + 13] == s[13] && b[t + 14] == s[14] && b[t + 15] == s[15]);
    assert(b[t + 16] == s[16] && b[t + 17] == s[17] && b[t + 18] == s[18] && b[t + 19] == s[19]);
    let o = f.options();
    assert forall|i: int| 0 <= i < k implies b[t + 20 + i] == o[i] by {
        assert(s.subrange(20, 20 + k)[i] == s[20 + i]);
        assert(b[t + (20 + i)] == s[20 + i]);
    }
    if f.flags as int / 2 % 2 == 1 {
        assert(b[t + 20 + 0] == o[0] && b[t + 20 + 1] == o[1] && b[t + 20 + 2] == o[2]);
        assert(b[t + 20 + 3] == o[3] && b[t + 20 + 4] == o[4] && b[t + 20 + 5] == o[5]);
        assert(b[t + 20 + 6] == o[6] && b[t + 20 + 7] == o[7] && b[t + 20 + 8] == o[8]);
        assert(b[t + 20 + 9] == o[9] && b[t + 20 + 10] == o[10] && b[t + 20 + 11] == o[11]);
    }
    if f.timestamps is Some {
        let ts = if f.flags as int / 2 % 2 == 1 {
            12int
        } else {
            0
        };
        let at = t + 20 + ts;
        assert(b[t + 20 + (ts + 0)] == o[ts] && b[t + 20 + (ts + 1)] == o[ts + 1]);
        assert(b[t + 20 + (ts + 2)] == o[ts + 2] && b[t + 20 + (ts + 3)] == o[ts + 3]);
        assert(b[t + 20 + (ts + 4)] == o[ts + 4] && b[t + 20 + (ts + 5)] == o[ts + 5]);
        assert(b[t + 20 + (ts + 6)] == o[ts + 6] && b[t + 20 + (ts + 7)] == o[ts + 7]);
        assert(b[t + 20 + (ts + 8)] == o[ts + 8] && b[t + 20 + (ts + 9)] == o[ts + 9]);
        assert(b[t + 20 + (ts + 10)] == o[ts + 10] && b[t + 20 + (ts + 11)] == o[ts + 11]);
    }
    assert(b.subrange(t + 20 + k, b.len() as int) =~= s.subrange(20 + k, s.len() as int));
}

proof fn lemma_word_sum(d: Seq<u8>)
    ensures
        packet::word_sum(d) == words_from(d, 0),
        packet::word_sum(d) >= 0,
    decreases d.len(),
{
    if d.len() >= 2 {
        lemma_word_sum(d.skip(2));
        bytes::lemma_words_skip(d, 2);
    }
}

/// A sum that folds to all ones is a multiple of 65535.
proof fn lemma_folds_to_ones(n: int)
    requires
        n >= 0,
        packet::ones_fold(n) == 65535,
    ensures
        n % 65535 == 0,
        n > 0,
{
}

proof fn lemma_checksum_range(d: Seq<u8>)
    requires
        packet::word_sum(d) > 0,
    ensures
        0 <= packet::internet_checksum(d) < 65535,
{
}

/// The first fourteen bytes of a frame: where it goes, where it comes from, and what it
/// holds.
pub proof fn frame_has_an_ethernet_header(
    src_mac: MacAddr,
    dst_mac: MacAddr,
    local: IpAddr,
    remote: IpAddr,
    f: TcpFields,
    ip_id: u16,
    data: Seq<u8>,
)
    requires
        (local is V4) == (remote is V4),
    ensures
        ({
            let b = packet::frame(src_mac, dst_mac, local, remote, f, ip_id, data);
            &&& b.len() >= 14
            &&& mac_at(b, 0, dst_mac)
            &&& mac_at(b, 6, src_mac)
            &&& local is V4 ==> b[12] == 0x08 && b[13] == 0x00
            &&& local is V6 ==> b[12] == 0x86 && b[13] == 0xdd
        }),
{
    reveal(packet::frame);
    let n = packet::segment_len(f, data.len() as int);
    match (local, remote) {
        (IpAddr::V4(src), IpAddr::V4(dst)) => {
            let ck = packet::internet_checksum(packet::ipv4_header(src, dst, 20 + n, ip_id, 0));
            lemma_ethernet_header(
                dst_mac,
                src_mac,
                0x0800,
                packet::ipv4_header(src, dst, 20 + n, ip_id, ck),
                packet::summed_segment(f, data, packet::pseudo_v4(src, dst, n)),
            );
        },
        (IpAddr::V6(src), IpAddr::V6(dst)) => {
            lemma_ethernet_header(
                dst_mac,
                src_mac,
                0x86dd,
                packet::ipv6_header(src, dst, n),
                packet::summed_segment(f, data, packet::pseudo_v6(src, dst, n)),
            );
        },
        _ => {},
    }
}

#[verifier::spinoff_prover]
proof fn lemma_ethernet_header(
    dst_mac: MacAddr,
    src_mac: MacAddr,
    kind: int,
    ip: Seq<u8>,
    seg: Seq<u8>,
)
    requires
        0 <= kind < 0x10000,
    ensures
        ({
            let b = packet::eth_header(dst_mac, src_mac, kind) + ip + seg;
            &&& b.len() >= 14
            &&& mac_at(b, 0, dst_mac)
            &&& mac_at(b, 6, src_mac)
            &&& b[12] == kind / 256 && b[13] == kind % 256
        }),
{
    let e = packet::eth_header(dst_mac, src_mac, kind);
    let b = e + ip + seg;
    assert(e.len() == 14);
    assert forall|i: int| 0 <= i < 14 implies b[i] == e[i] by {}
    assert(e[12] == wire::be16(kind)[0] && e[13] == wire::be16(kind)[1]);
}

/// What follows the front of a frame has the same words there.
proof fn lemma_words_behind(front: Seq<u8>, seg: Seq<u8>)
    ensures
        words_from(front + seg, front.len() as int) == words_from(seg, 0),
{
    assert((front + seg).skip(front.len() as int) =~= seg);
    bytes::lemma_words_skip(front + seg, front.len() as int);
}

proof fn lemma_halves(b: Seq<u8>, at: int)
    ensures
        u16_at(b, at) == u32_at(b, at) / 0x10000,
        u16_at(b, at + 2) == u32_at(b, at) % 0x10000,
{
}

#[verifier::spinoff_prover]
proof fn lemma_ipv6_addresses(eth: Seq<u8>, src: Ipv6Addr, dst: Ipv6Addr, n: int, seg: Seq<u8>)
    requires
        eth.len() == 14,
    ensures
        (eth + packet::ipv6_header(src, dst, n) + seg).subrange(22, 54) == src.octets()
            + dst.octets(),
        packet::ipv6_header(src, dst, n).len() == 40,
{
    assert((eth + packet::ipv6_header(src, dst, n) + seg).subrange(22, 54) =~= src.octets()
        + dst.octets());
}

/// An IPv4 frame: the header's length field counts all that follows the Ethernet header,
/// its checksum makes the header's words sum up to a multiple of 65535, and the segment
/// follows it.
#[verifier::spinoff_prover]
pub proof fn ipv4_frame_is_right(
    src_mac: MacAddr,
    dst_mac: MacAddr,
    src: Ipv4Addr,
    dst: Ipv4Addr,
    f: TcpFields,
    ip_id: u16,
    data: Seq<u8>,
)
    requires
        40 + options_size(f) + data.len() <= 65535,
    ensures
        ({
            let b = packet::frame(
                src_mac,
                dst_mac,
                IpAddr::V4(src),
                IpAddr::V4(dst),
                f,
                ip_id,
                data,
            );
            &&& packet::frame_fits(IpAddr::V4(src), IpAddr::V4(dst), f, data.len() as int)
            &&& segment_at(b, 34, f, data)
            &&& b[14] == 0x45 && b[15] == 0
            &&& u16_at(b, 16) == b.len() - 14
            &&& u16_at(b, 18) == ip_id
            &&& b[20] == 0x40 && b[21] == 0
            &&& b[22] == 64 && b[23] == 6
            &&& u32_at(b, 26) == src.bits
            &&& u32_at(b, 30) == dst.bits
            &&& u16_at(b, 24) < 65535
            &&& (u16_at(b, 14) + u16_at(b, 16) + u16_at(b, 18) + u16_at(b, 20) + u16_at(b, 22)
                + u16_at(b, 24) + u16_at(b, 26) + u16_at(b, 28) + u16_at(b, 30) + u16_at(b, 32))
                % 65535 == 0
        }),
{
    reveal(packet::frame);
    let n = packet::segment_len(f, data.len() as int);
    let pseudo = packet::pseudo_v4(src, dst, n);
    let blank = packet::ipv4_header(src, dst, 20 + n, ip_id, 0);
    let ip_ck = packet::internet_checksum(blank);
    let eth = packet::eth_header(dst_mac, src_mac, 0x0800);
    let ip = packet::ipv4_header(src, dst, 20 + n, ip_id, ip_ck);
    let ck = packet::internet_checksum(pseudo + packet::tcp_segment(f, 0, data));
    let seg = packet::tcp_segment(f, ck, data);
    let b = packet::frame(src_mac, dst_mac, IpAddr::V4(src), IpAddr::V4(dst), f, ip_id, data);
    lemma_options(f);
    lemma_word_sum(pseudo + packet::tcp_segment(f, 0, data));
    lemma_segment_stands(eth + ip, f, ck, data);
    assert(b == eth + ip + seg);
    lemma_ipv4_header(src, dst, 20 + n, ip_id);
    assert forall|i: int| 0 <= i < 20 implies b[14 + i] == ip[i] by {}
    assert(b[14] == ip[0] && b[15] == ip[1] && b[16] == ip[2] && b[17] == ip[3]);
    assert(b[18] == ip[4] && b[19] == ip[5] && b[20] == ip[6] && b[21] == ip[7]);
    assert(b[22] == ip[8] && b[23] == ip[9] && b[24] == ip[10]);
    assert(b[25] == ip[11] && b[26] == ip[12] && b[27] == ip[13]);
    assert(b[28] == ip[14] && b[29] == ip[15] && b[30] == ip[16]);
    assert(b[31] == ip[17] && b[32] == ip[18] && b[33] == ip[19]);
}

#[verifier::spinoff_prover]
proof fn lemma_ipv4_header(src: Ipv4Addr, dst: Ipv4Addr, total: int, id: u16)
    requires
        0 <= total < 0x10000,
    ensures
        ({
            let ck = packet::internet_checksum(packet::ipv4_header(src, dst, total, id, 0));
            let h = packet::ipv4_header(src, dst, total, id, ck);
            &&& h.len() == 20
            &&& h[0] == 0x45 && h[1] == 0
            &&& u16_at(h, 2) == total
            &&& u16_at(h, 4) == id
            &&& h[6] == 0x40 && h[7] == 0 && h[8] == 64 && h[9] == 6
            &&& u16_at(h, 10) < 65535
            &&& u32_at(h, 12) == src.bits
            &&& u32_at(h, 16) == dst.bits
            &&& (u16_at(h, 0) + u16_at(h, 2) + u16_at(h, 4) + u16_at(h, 6) + u16_at(h, 8) + u16_at(
                h,
                10,
            ) + u16_at(h, 12) + u16_at(h, 14) + u16_at(h, 16) + u16_at(h, 18)) % 65535 == 0
        }),
{
    let blank = packet::ipv4_header(src, dst, total, id, 0);
    let ck = packet::internet_checksum(blank);
    let h = packet::ipv4_header(src, dst, total, id, ck);
    lemma_word_sum(blank);
    assert(blank[0] == 0x45);
    lemma_words_ten(blank);
    lemma_checksum_range(blank);
    bytes::lemma_be16(total);
    bytes::lemma_be16(id as int);
    bytes::lemma_be16(ck);
    bytes::lemma_be32(src.bits as int);
    bytes::lemma_be32(dst.bits as int);
    assert(h.subrange(2, 4) =~= wire::be16(total));
    assert(h.subrange(4, 6) =~= wire::be16(id as int));
    assert(h.subrange(10, 12) =~= wire::be16(ck));
    assert(h.subrange(12, 16) =~= wire::be32(src.bits as int));
    assert(h.subrange(16, 20) =~= wire::be32(dst.bits as int));
    bytes::lemma_u16_in(h, 2, wire::be16(total));
    bytes::lemma_u16_in(h, 4, wire::be16(id as int));
    bytes::lemma_u16_in(h, 10, wire::be16(ck));
    bytes::lemma_u32_in(h, 12, wire::be32(src.bits as int));
    bytes::lemma_u32_in(h, 16, wire::be32(dst.bits as int));
    packet::ip_checksum_verifies(src, dst, total, id);
    lemma_word_sum(h);
    lemma_folds_to_ones(packet::word_sum(h));
    lemma_words_ten(h);
}

proof fn lemma_words_ten(h: Seq<u8>)
    requires
        h.len() == 20,
    ensures
        words_from(h, 0) == u16_at(h, 0) + u16_at(h, 2) + u16_at(h, 4) + u16_at(h, 6) + u16_at(
            h,
            8,
        ) + u16_at(h, 10) + u16_at(h, 12) + u16_at(h, 14) + u16_at(h, 16) + u16_at(h, 18),
{
    reveal_with_fuel(words_from, 11);
}

/// An IPv6 frame: the header's length field counts all that follows the header, which
/// follows the Ethernet header, and the segment follows it.
#[verifier::spinoff_prover]
pub proof fn ipv6_frame_is_right(
    src_mac: MacAddr,
    dst_mac: MacAddr,
    src: Ipv6Addr,
    dst: Ipv6Addr,
    f: TcpFields,
    ip_id: u16,
    data: Seq<u8>,
)
    requires
        20 + options_size(f) + data.len() <= 65535,
    ensures
        ({
            let b = packet::frame(
                src_mac,
                dst_mac,
                IpAddr::V6(src),
                IpAddr::V6(dst),
                f,
                ip_id,
                data,
            );
            &&& packet::frame_fits(IpAddr::V6(src), IpAddr::V6(dst), f, data.len() as int)
            &&& segment_at(b, 54, f, data)
            &&& b[14] == 0x60 && b[15] == 0 && b[16] == 0 && b[17] == 0
            &&& u16_at(b, 18) == b.len() - 54
            &&& b[20] == 6 && b[21] == 64
            &&& u64_at(b, 22) == src.high
            &&& u64_at(b, 30) == src.low
            &&& u64_at(b, 38) == dst.high
            &&& u64_at(b, 46) == dst.low
        }),
{
    reveal(packet::frame);
    let n = packet::segment_len(f, data.len() as int);
    let pseudo = packet::pseudo_v6(src, dst, n);
    let eth = packet::eth_header(dst_mac, src_mac, 0x86dd);
    let ip = packet::ipv6_header(src, dst, n);
    let ck = packet::internet_checksum(pseudo + packet::tcp_segment(f, 0, data));
    let seg = packet::tcp_segment(f, ck, data);
    let b = packet::frame(src_mac, dst_mac, IpAddr::V6(src), IpAddr::V6(dst), f, ip_id, data);
    lemma_options(f);
    lemma_word_sum(pseudo + packet::tcp_segment(f, 0, data));
    lemma_segment_stands(eth + ip, f, ck, data);
    assert(b == eth + ip + seg);
    lemma_ipv6_header(eth, src, dst, n, seg);
}

#[verifier::spinoff_prover]
proof fn lemma_ipv6_header(eth: Seq<u8>, src: Ipv6Addr, dst: Ipv6Addr, n: int, seg: Seq<u8>)
    requires
        eth.len() == 14,
        0 <= n < 0x10000,
    ensures
        ({
            let b = eth + packet::ipv6_header(src, dst, n) + seg;
            &&& packet::ipv6_header(src, dst, n).len() == 40
            &&& b[14] == 0x60 && b[15] == 0 && b[16] == 0 && b[17] == 0
            &&& u16_at(b, 18) == n
            &&& b[20] == 6 && b[21] == 64
            &&& u64_at(b, 22) == src.high
            &&& u64_at(b, 30) == src.low
            &&& u64_at(b, 38) == dst.high
            &&& u64_at(b, 46) == dst.low
        }),
{
    let b = eth + packet::ipv6_header(src, dst, n) + seg;
    bytes::lemma_be16(n);
    bytes::lemma_be64(src.high as int);
    bytes::lemma_be64(src.low as int);
    bytes::lemma_be64(dst.high as int);
    bytes::lemma_be64(dst.low as int);
    assert(b.subrange(18, 20) =~= wire::be16(n));
    assert(b.subrange(22, 30) =~= wire::be64(src.high as int));
    assert(b.subrange(30, 38) =~= wire::be64(src.low as int));
    assert(b.subrange(38, 46) =~= wire::be64(dst.high as int));
    assert(b.subrange(46, 54) =~= wire::be64(dst.low as int));
    bytes::lemma_u16_in(b, 18, wire::be16(n));
    bytes::lemma_u64_in(b, 22, wire::be64(src.high as int));
    bytes::lemma_u64_in(b, 30, wire::be64(src.low as int));
    bytes::lemma_u64_in(b, 38, wire::be64(dst.high as int));
    bytes::lemma_u64_in(b, 46, wire::be64(dst.low as int));
}

/// A receiver of an IPv4 frame that sums the words of the addresses, the protocol, the
/// length of the segment and the segment itself gets a multiple of 65535.
#[verifier::spinoff_prover]
pub proof fn tcp_checksum_is_right_over_ipv4(
    src_mac: MacAddr,
    dst_mac: MacAddr,
    src: Ipv4Addr,
    dst: Ipv4Addr,
    f: TcpFields,
    ip_id: u16,
    data: Seq<u8>,
)
    requires
        40 + options_size(f) + data.len() <= 65535,
    ensures
        ({
            let b = packet::frame(
                src_mac,
                dst_mac,
                IpAddr::V4(src),
                IpAddr::V4(dst),
                f,
                ip_id,
                data,
            );
            &&& (u16_at(b, 26) + u16_at(b, 28) + u16_at(b, 30) + u16_at(b, 32) + 6 + (b.len() - 34)
                + words_from(b, 34)) % 65535 == 0
            &&& u16_at(b, 50) < 65535
        }),
{
    ipv4_frame_is_right(src_mac, dst_mac, src, dst, f, ip_id, data);
    reveal(packet::frame);
    let n = packet::segment_len(f, data.len() as int);
    let pseudo = packet::pseudo_v4(src, dst, n);
    let blank = packet::ipv4_header(src, dst, 20 + n, ip_id, 0);
    let eth = packet::eth_header(dst_mac, src_mac, 0x0800);
    let ip = packet::ipv4_header(src, dst, 20 + n, ip_id, packet::internet_checksum(blank));
    let ck = packet::internet_checksum(pseudo + packet::tcp_segment(f, 0, data));
    let seg = packet::tcp_segment(f, ck, data);
    let b = packet::frame(src_mac, dst_mac, IpAddr::V4(src), IpAddr::V4(dst), f, ip_id, data);
    assert(b == eth + ip + seg);
    lemma_options(f);
    lemma_pseudo_v4(src, dst, n);
    lemma_sum_with_pseudo(f, data, pseudo);
    lemma_segment_stands(eth + ip, f, ck, data);
    lemma_words_behind(eth + ip, seg);
    lemma_ipv4_header(src, dst, 20 + n, ip_id);
    assert((eth + ip).len() == 34);
    lemma_halves(b, 26);
    lemma_halves(b, 30);
}

/// The checksum of a segment makes its sum with the pseudo-header a multiple of 65535.
proof fn lemma_sum_with_pseudo(f: TcpFields, data: Seq<u8>, pseudo: Seq<u8>)
    requires
        pseudo.len() % 2 == 0,
        words_from(pseudo, 0) > 0,
    ensures
        (words_from(pseudo, 0) + words_from(packet::summed_segment(f, data, pseudo), 0)) % 65535
            == 0,
        0 <= packet::internet_checksum(pseudo + packet::tcp_segment(f, 0, data)) < 65535,
{
    let seg = packet::summed_segment(f, data, pseudo);
    let blank = packet::tcp_segment(f, 0, data);
    packet::tcp_checksum_verifies(f, data, pseudo);
    packet::word_sums_add(pseudo, seg);
    packet::word_sums_add(pseudo, blank);
    lemma_word_sum(pseudo);
    lemma_word_sum(seg);
    lemma_word_sum(blank);
    lemma_folds_to_ones(packet::word_sum(pseudo + seg));
    lemma_checksum_range(pseudo + blank);
}

#[verifier::spinoff_prover]
proof fn lemma_pseudo_v4(src: Ipv4Addr, dst: Ipv4Addr, n: int)
    requires
        0 <= n < 0x10000,
    ensures
        ({
            let p = packet::pseudo_v4(src, dst, n);
            &&& p.len() == 12
            &&& words_from(p, 0) == src.bits as int / 0x10000 + src.bits as int % 0x10000
                + dst.bits as int / 0x10000 + dst.bits as int % 0x10000 + 6 + n
        }),
{
    let p = packet::pseudo_v4(src, dst, n);
    bytes::lemma_be32(src.bits as int);
    bytes::lemma_be32(dst.bits as int);
    assert(p.subrange(0, 4) =~= wire::be32(src.bits as int));
    assert(p.subrange(4, 8) =~= wire::be32(dst.bits as int));
    bytes::lemma_u32_in(p, 0, wire::be32(src.bits as int));
    bytes::lemma_u32_in(p, 4, wire::be32(dst.bits as int));
    lemma_halves(p, 0);
    lemma_halves(p, 4);
    bytes::lemma_be16(n);
    assert(p.subrange(10, 12) =~= wire::be16(n));
    bytes::lemma_u16_in(p, 10, wire::be16(n));
    assert(p[8] == 0 && p[9] == 6);
    reveal_with_fuel(words_from, 7);
}

/// A receiver of an IPv6 frame that sums the words of the addresses, the protocol, the
/// length of the segment and the segment itself gets a multiple of 65535.
#[verifier::spinoff_prover]
pub proof fn tcp_checksum_is_right_over_ipv6(
    src_mac: MacAddr,
    dst_mac: MacAddr,
    src: Ipv6Addr,
    dst: Ipv6Addr,
    f: TcpFields,
    ip_id: u16,
    data: Seq<u8>,
)
    requires
        20 + options_size(f) + data.len() <= 65535,
    ensures
        ({
            let b = packet::frame(
                src_mac,
                dst_mac,
                IpAddr::V6(src),
                IpAddr::V6(dst),
                f,
                ip_id,
                data,
            );
            &&& (words_from(b.subrange(22, 54), 0) + 6 + (b.len() - 54) + words_from(b, 54)) % 65535
                == 0
            &&& u16_at(b, 70) < 65535
        }),
{
    reveal(packet::frame);
    let n = packet::segment_len(f, data.len() as int);
    let eth = packet::eth_header(dst_mac, src_mac, 0x86dd);
    let ip = packet::ipv6_header(src, dst, n);
    let pseudo = packet::pseudo_v6(src, dst, n);
    let seg = packet::summed_segment(f, data, pseudo);
    let b = packet::frame(src_mac, dst_mac, IpAddr::V6(src), IpAddr::V6(dst), f, ip_id, data);
    lemma_options(f);
    assert(b == eth + ip + seg);
    assert(eth.len() == 14);
    lemma_ipv6_addresses(eth, src, dst, n, seg);
    lemma_pseudo_v6(src, dst, n);
    lemma_sum_behind(eth + ip, src.octets() + dst.octets(), pseudo, f, data);
}

/// The sum of a segment behind a header of 40 bytes.
proof fn lemma_sum_behind(
    front: Seq<u8>,
    addresses: Seq<u8>,
    pseudo: Seq<u8>,
    f: TcpFields,
    data: Seq<u8>,
)
    requires
        front.len() == 54,
        pseudo.len() == 40,
        words_from(addresses, 0) >= 0,
        words_from(pseudo, 0) == words_from(addresses, 0) + 6 + packet::segment_len(
            f,
            data.len() as int,
        ),
    ensures
        ({
            let b = front + packet::summed_segment(f, data, pseudo);
            &&& (words_from(addresses, 0) + 6 + (b.len() - 54) + words_from(b, 54)) % 65535 == 0
            &&& u16_at(b, 70) < 65535
        }),
{
    lemma_sum_with_pseudo(f, data, pseudo);
    let ck = packet::internet_checksum(pseudo + packet::tcp_segment(f, 0, data));
    lemma_segment_stands(front, f, ck, data);
    lemma_words_behind(front, packet::tcp_segment(f, ck, data));
    lemma_options(f);
}

#[verifier::spinoff_prover]
proof fn lemma_pseudo_v6(src: Ipv6Addr, dst: Ipv6Addr, n: int)
    requires
        0 <= n < 0x10000,
    ensures
        packet::pseudo_v6(src, dst, n).len() == 40,
        words_from(packet::pseudo_v6(src, dst, n), 0) == words_from(src.octets() + dst.octets(), 0)
            + 6 + n,
        words_from(src.octets() + dst.octets(), 0) >= 0,
{
    let p = packet::pseudo_v6(src, dst, n);
    let addresses = src.octets() + dst.octets();
    let tail = wire::be32(n) + seq![0u8, 0, 0, 6];
    assert(p =~= addresses + tail);
    packet::word_sums_add(addresses, tail);
    lemma_word_sum(p);
    lemma_word_sum(addresses);
    lemma_word_sum(tail);
    bytes::lemma_be32(n);
    assert(tail.subrange(0, 4) =~= wire::be32(n));
    bytes::lemma_u32_in(tail, 0, wire::be32(n));
    assert(tail[4] == 0 && tail[5] == 0 && tail[6] == 0 && tail[7] == 6);
    assert(words_from(tail, 0) == u16_at(tail, 0) + u16_at(tail, 2) + u16_at(tail, 4) + u16_at(
        tail,
        6,
    )) by {
        reveal_with_fuel(words_from, 5);
    }
}

// --- Reading ---

/// A frame holds a segment exactly if it says so and holds all of the segment's header. Over
/// IPv4 that stands where the header's length says, over IPv6 behind the fixed header.
pub proof fn segment_is_found_where_it_stands(b: Seq<u8>)
    ensures
        b.len() < 14 ==> packet::tcp_start(b) is None,
        b.len() >= 14 && b[12] == 0x08 && b[13] == 0x00 ==> {
            let t = 14 + b[14] % 16 * 4;
            packet::tcp_start(b) == if b.len() >= 34 && b[23] == 6 && t >= 34 && b.len() >= t + 20 {
                Some(t)
            } else {
                None
            }
        },
        b.len() >= 14 && b[12] == 0x86 && b[13] == 0xdd ==> packet::tcp_start(b) == if b.len() >= 74
            && b[20] == 6 {
            Some(54int)
        } else {
            None
        },
        b.len() >= 14 && !(b[12] == 0x08 && b[13] == 0x00) && !(b[12] == 0x86 && b[13] == 0xdd)
            ==> packet::tcp_start(b) is None,
        packet::tcp_start(b) matches Some(t) ==> 34 <= t && t + 20 <= b.len(),
{
    if b.len() >= 14 {
        bytes::lemma_reads(b, 12);
    }
}

/// Where the payload of a segment begins: behind as many words as its header says, and at
/// least behind the fixed header.
pub open spec fn data_from(b: Seq<u8>, t: int) -> int {
    let words = b[t + 12] as int / 16;
    t + if words > 5 {
        words * 4
    } else {
        20
    }
}

/// The payload of a segment is all that follows its options; a frame that ends before has
/// none.
pub open spec fn data_at(b: Seq<u8>, t: int) -> Seq<u8> {
    if data_from(b, t) < b.len() {
        b.subrange(data_from(b, t), b.len() as int)
    } else {
        Seq::empty()
    }
}

/// What is read of a segment is what stands in the frame.
pub proof fn segment_is_read_as_it_stands(tcp: TcpPacket, b: Seq<u8>, t: int)
    requires
        0 <= t,
        t + 20 <= b.len(),
        tcp.stands_at(b, t),
    ensures
        tcp.source == u16_at(b, t),
        tcp.destination == u16_at(b, t + 2),
        tcp.sequence == u32_at(b, t + 4),
        tcp.acknowledgement == u32_at(b, t + 8),
        tcp.flags == b[t + 13],
        tcp.window == u16_at(b, t + 14),
        tcp.checksum == u16_at(b, t + 16),
        tcp.payload_offset == data_from(b, t),
        tcp.payload@ == data_at(b, t),
        tcp.options@.len() <= 40,
        data_from(b, t) <= b.len() ==> tcp.options@ == b.subrange(t + 20, data_from(b, t)),
        data_from(b, t) > b.len() ==> tcp.options@ == b.subrange(t + 20, b.len() as int),
{
    bytes::lemma_reads(b, t);
    bytes::lemma_reads(b, t + 2);
    bytes::lemma_reads(b, t + 4);
    bytes::lemma_reads(b, t + 8);
    bytes::lemma_reads(b, t + 14);
    bytes::lemma_reads(b, t + 16);
    lemma_data(b, t);
}

/// The payload that sockets take out of a frame is the one that stands there.
pub proof fn payload_is_what_follows_the_options(b: Seq<u8>, t: int)
    requires
        0 <= t,
        t + 20 <= b.len(),
    ensures
        packet::payload_in(b, t) == data_at(b, t),
        packet::payload_start(b, t) == data_from(b, t),
{
    lemma_data(b, t);
}

pub(crate) proof fn lemma_data(b: Seq<u8>, t: int)
    requires
        0 <= t,
        t + 20 <= b.len(),
    ensures
        packet::payload_in(b, t) == data_at(b, t),
        packet::payload_start(b, t) == data_from(b, t),
{
    assert(packet::payload_in(b, t) =~= data_at(b, t));
}

/// The addresses that are read of a frame are those that stand in it.
pub proof fn addresses_are_read_as_they_stand(ip: IPPacket, b: Seq<u8>)
    requires
        packet::addresses_in(ip, b),
        b.len() >= 34,
        b[12] == 0x86 ==> b.len() >= 54,
    ensures
        match ip {
            IPPacket::V4 { source, destination } => b[12] == 0x08 && b[13] == 0x00 && source.bits
                == u32_at(b, 26) && destination.bits == u32_at(b, 30),
            IPPacket::V6 { source, destination } => {
                &&& b[12] == 0x86 && b[13] == 0xdd
                &&& source.high == u64_at(b, 22) && source.low == u64_at(b, 30)
                &&& destination.high == u64_at(b, 38) && destination.low == u64_at(b, 46)
            },
        },
{
    bytes::lemma_reads(b, 12);
    bytes::lemma_reads(b, 26);
    bytes::lemma_reads(b, 30);
    if b.len() >= 54 {
        bytes::lemma_reads(b, 22);
        bytes::lemma_reads(b, 38);
        bytes::lemma_reads(b, 46);
    }
}

/// The connection of a frame is its destination's: local is where the frame goes, remote
/// where it comes from.
pub proof fn connection_is_seen_from_the_destination(b: Seq<u8>, t: int)
    requires
        packet::tcp_start(b) == Some(t),
    ensures
        ({
            let c = stack::tuple_in(b, t);
            &&& c.remote_addr.port == u16_at(b, t)
            &&& c.local_addr.port == u16_at(b, t + 2)
            &&& b[12] == 0x08 ==> {
                &&& c.remote_addr.ip matches IpAddr::V4(a) && a.bits == u32_at(b, 26)
                &&& c.local_addr.ip matches IpAddr::V4(a) && a.bits == u32_at(b, 30)
            }
            &&& b[12] == 0x86 ==> {
                &&& c.remote_addr.ip matches IpAddr::V6(a) && a.high == u64_at(b, 22) && a.low
                    == u64_at(b, 30)
                &&& c.local_addr.ip matches IpAddr::V6(a) && a.high == u64_at(b, 38) && a.low
                    == u64_at(b, 46)
            }
        }),
{
    segment_is_found_where_it_stands(b);
    bytes::lemma_reads(b, 12);
    bytes::lemma_reads(b, 26);
    bytes::lemma_reads(b, 30);
    bytes::lemma_reads(b, t);
    bytes::lemma_reads(b, t + 2);
    if b[12] == 0x86 {
        bytes::lemma_reads(b, 22);
        bytes::lemma_reads(b, 38);
        bytes::lemma_reads(b, 46);
    }
}

/// Options are read one after the other: fillers are one byte, every other option is as
/// long as its second byte says, and the first timestamps option decides.
pub proof fn timestamp_is_read_behind_other_options(
    kind: u8,
    body: Seq<u8>,
    rest: Seq<u8>,
    tsval: u32,
    tsecr: u32,
)
    requires
        body.len() <= 253,
    ensures
        packet::tsval_in(Seq::<u8>::empty()) is None,
        kind <= 1 ==> packet::tsval_in(seq![kind] + rest) == packet::tsval_in(rest),
        kind >= 2 && kind != 8 ==> packet::tsval_in(
            seq![kind, (2 + body.len()) as u8] + body + rest,
        ) == packet::tsval_in(rest),
        kind == 8 && body.len() >= 4 ==> packet::tsval_in(
            seq![kind, (2 + body.len()) as u8] + body + rest,
        ) == Some(u32_at(body, 0) as u32),
        kind == 8 && body.len() < 4 ==> packet::tsval_in(
            seq![kind, (2 + body.len()) as u8] + body + rest,
        ) is None,
{
    reveal(packet::tsval_in);
    let filler = seq![kind] + rest;
    assert(filler.skip(1) =~= rest);
    let o = seq![kind, (2 + body.len()) as u8] + body + rest;
    assert(o.skip(2 + body.len() as int) =~= rest);
    assert(o.subrange(2, 2 + body.len() as int) =~= body);
    if kind >= 2 {
        assert(packet::option_size(o) == 2 + body.len());
    }
    if kind == 8 && body.len() >= 4 {
        assert(packet::timestamps_in(o) == Some(body));
    }
    if kind == 8 && body.len() == 0 && rest.len() == 0 {
        assert(o.len() == 2);
    }
}

// --- Calls ---

/// A built frame over IPv4 counts itself: its total length is all that follows the Ethernet
/// header, its IP header of twenty bytes sums up right, and its segment stands behind that.
pub proof fn built_ipv4_frame_is_right(
    src_mac: MacAddr,
    dst_mac: MacAddr,
    src: Ipv4Addr,
    dst: Ipv4Addr,
    f: TcpFields,
    ip_id: u16,
    data: &[u8],
    r: Vec<u8>,
)
    requires
        call_ensures(
            packet::build_frame,
            (src_mac, dst_mac, IpAddr::V4(src), IpAddr::V4(dst), &f, ip_id, data),
            r,
        ),
        20 + 20 + options_size(f) + data@.len() <= 65535,
    ensures
        ({
            let b = r@;
            &&& mac_at(b, 0, dst_mac) && mac_at(b, 6, src_mac)
            &&& u16_at(b, 12) == 0x0800
            &&& b[14] == 0x45
            &&& u16_at(b, 16) == b.len() - 14
            &&& u16_at(b, 18) == ip_id
            &&& b[23] == 6
            &&& u32_at(b, 26) == src.bits && u32_at(b, 30) == dst.bits
            &&& (u16_at(b, 14) + u16_at(b, 16) + u16_at(b, 18) + u16_at(b, 20) + u16_at(b, 22)
                + u16_at(b, 24) + u16_at(b, 26) + u16_at(b, 28) + u16_at(b, 30) + u16_at(b, 32))
                % 65535 == 0
            &&& segment_at(b, 34, f, data@)
        }),
{
    frame_has_an_ethernet_header(
        src_mac,
        dst_mac,
        IpAddr::V4(src),
        IpAddr::V4(dst),
        f,
        ip_id,
        data@,
    );
    ipv4_frame_is_right(src_mac, dst_mac, src, dst, f, ip_id, data@);
}

/// A built frame over IPv6 counts its segment, which stands behind forty bytes of IP header.
pub proof fn built_ipv6_frame_is_right(
    src_mac: MacAddr,
    dst_mac: MacAddr,
    src: Ipv6Addr,
    dst: Ipv6Addr,
    f: TcpFields,
    ip_id: u16,
    data: &[u8],
    r: Vec<u8>,
)
    requires
        call_ensures(
            packet::build_frame,
            (src_mac, dst_mac, IpAddr::V6(src), IpAddr::V6(dst), &f, ip_id, data),
            r,
        ),
        20 + options_size(f) + data@.len() <= 65535,
    ensures
        ({
            let b = r@;
            &&& mac_at(b, 0, dst_mac) && mac_at(b, 6, src_mac)
            &&& u16_at(b, 12) == 0x86dd
            &&& b[14] as int / 16 == 6
            &&& u16_at(b, 18) == b.len() - 54
            &&& b[20] == 6
            &&& u64_at(b, 22) == src.high && u64_at(b, 30) == src.low
            &&& u64_at(b, 38) == dst.high && u64_at(b, 46) == dst.low
            &&& segment_at(b, 54, f, data@)
        }),
{
    frame_has_an_ethernet_header(
        src_mac,
        dst_mac,
        IpAddr::V6(src),
        IpAddr::V6(dst),
        f,
        ip_id,
        data@,
    );
    ipv6_frame_is_right(src_mac, dst_mac, src, dst, f, ip_id, data@);
}

/// How long an optional payload is.
pub open spec fn optional_len(payload: Option<&[u8]>) -> int {
    match payload {
        Some(p) => p@.len() as int,
        None => 0,
    }
}

/// A packet between two addresses carries its payload and, behind it, so many bytes of
/// padding, with the numbers, flags, window and timestamps it was given.
#[verifier::spinoff_prover]
pub proof fn built_packet_carries_payload_and_padding(
    src_mac: MacAddr,
    dst_mac: MacAddr,
    local: SocketAddr,
    remote: SocketAddr,
    f: TcpFields,
    payload: Option<&[u8]>,
    ip_id: u16,
    padding_len: usize,
    r: Vec<u8>,
)
    requires
        call_ensures(
            packet::build_tcp_packet,
            (
                src_mac,
                dst_mac,
                local,
                remote,
                f.seq,
                f.ack,
                f.flags,
                payload,
                f.timestamps,
                ip_id,
                f.window,
                padding_len,
            ),
            r,
        ),
        f.source == local.port,
        f.destination == remote.port,
        (local.ip is V4) == (remote.ip is V4),
        20 + 20 + options_size(f) + optional_len(payload) + padding_len <= 65535,
    ensures
        ({
            let b = r@;
            let n = optional_len(payload);
            let t = if local.ip is V4 {
                34int
            } else {
                54
            };
            let from = t + 20 + options_size(f);
            &&& b.len() == from + n + padding_len
            &&& payload matches Some(p) ==> b.subrange(from, from + n) == p@
            &&& segment_at(b, t, f, b.subrange(from, b.len() as int))
            &&& mac_at(b, 0, dst_mac) && mac_at(b, 6, src_mac)
            &&& local.ip is V4 ==> u16_at(b, 16) == b.len() - 14 && u16_at(b, 18) == ip_id
            &&& local.ip is V6 ==> u16_at(b, 18) == b.len() - 54
        }),
{
    let padding = choose|padding: Seq<u8>|
        padding.len() == padding_len && r@ == #[trigger] packet::frame(
            src_mac,
            dst_mac,
            local.ip,
            remote.ip,
            f,
            ip_id,
            packet::payload_bytes(payload) + padding,
        );
    let data = packet::payload_bytes(payload) + padding;
    let b = r@;
    let n = optional_len(payload);
    frame_has_an_ethernet_header(src_mac, dst_mac, local.ip, remote.ip, f, ip_id, data);
    match (local.ip, remote.ip) {
        (IpAddr::V4(src), IpAddr::V4(dst)) => {
            ipv4_frame_is_right(src_mac, dst_mac, src, dst, f, ip_id, data);
            assert(b.subrange(54 + options_size(f), b.len() as int) == data);
            assert(b.subrange(54 + options_size(f), 54 + options_size(f) + n) =~= data.take(n));
        },
        (IpAddr::V6(src), IpAddr::V6(dst)) => {
            ipv6_frame_is_right(src_mac, dst_mac, src, dst, f, ip_id, data);
            assert(b.subrange(74 + options_size(f), b.len() as int) == data);
            assert(b.subrange(74 + options_size(f), 74 + options_size(f) + n) =~= data.take(n));
        },
        _ => {},
    }
    assert(data.take(n) =~= packet::payload_bytes(payload));
}

/// A frame is parsed exactly if it holds a segment, and what is read of it is what stands in
/// it.
#[verifier::spinoff_prover]
pub proof fn frame_is_parsed_as_it_stands(
    buf: &[u8],
    r: Option<(MacAddr, MacAddr, IPPacket, TcpPacket)>,
)
    requires
        call_ensures(packet::parse_ip_packet, (buf,), r),
    ensures
        ({
            let b = buf@;
            let over_v4 = b.len() >= 54 && u16_at(b, 12) == 0x0800 && b[23] == 6 && b[14] as int % 16
                >= 5 && b.len() >= 34 + b[14] as int % 16 * 4;
            let over_v6 = b.len() >= 74 && u16_at(b, 12) == 0x86dd && b[20] == 6;
            let t = if over_v4 {
                14 + b[14] as int % 16 * 4
            } else {
                54
            };
            &&& r is Some == (over_v4 || over_v6)
            &&& r matches Some((src_mac, dst_mac, ip, tcp)) ==> {
                &&& mac_at(b, 0, dst_mac) && mac_at(b, 6, src_mac)
                &&& over_v4 ==> (ip matches IPPacket::V4 { source, destination } && source.bits
                    == u32_at(b, 26) && destination.bits == u32_at(b, 30))
                &&& over_v6 ==> (ip matches IPPacket::V6 { source, destination } && source.high
                    == u64_at(b, 22) && source.low == u64_at(b, 30) && destination.high == u64_at(
                    b,
                    38,
                ) && destination.low == u64_at(b, 46))
                &&& tcp.source == u16_at(b, t) && tcp.destination == u16_at(b, t + 2)
                &&& tcp.sequence == u32_at(b, t + 4) && tcp.acknowledgement == u32_at(b, t + 8)
                &&& tcp.flags == b[t + 13] && tcp.window == u16_at(b, t + 14)
                &&& tcp.payload@ == data_at(b, t)
                &&& tcp.payload_offset == data_from(b, t)
            }
        }),
{
    let b = buf@;
    segment_is_found_where_it_stands(b);
    if let Some((src_mac, dst_mac, ip, tcp)) = r {
        let t = packet::tcp_start(b)->0;
        segment_is_read_as_it_stands(tcp, b, t);
        addresses_are_read_as_they_stand(ip, b);
        assert(dst_mac.octets()[0] == b.subrange(0, 6)[0]);
        assert(dst_mac.octets()[1] == b.subrange(0, 6)[1]);
        assert(dst_mac.octets()[2] == b.subrange(0, 6)[2]);
        assert(dst_mac.octets()[3] == b.subrange(0, 6)[3]);
        assert(dst_mac.octets()[4] == b.subrange(0, 6)[4]);
        assert(dst_mac.octets()[5] == b.subrange(0, 6)[5]);
        assert(src_mac.octets()[0] == b.subrange(6, 12)[0]);
        assert(src_mac.octets()[1] == b.subrange(6, 12)[1]);
        assert(src_mac.octets()[2] == b.subrange(6, 12)[2]);
        assert(src_mac.octets()[3] == b.subrange(6, 12)[3]);
        assert(src_mac.octets()[4] == b.subrange(6, 12)[4]);
        assert(src_mac.octets()[5] == b.subrange(6, 12)[5]);
    }
}

/// A checksum over even parts is the checksum over the whole: with it, the words sum up to a
/// multiple of 65535.
pub proof fn checksum_completes_the_sum(
    fresh: packet::Checksum,
    c: &mut packet::Checksum,
    d: &mut packet::Checksum,
    a: &[u8],
    b: &[u8],
    r: u16,
)
    requires
        call_ensures(packet::Checksum::new, (), fresh),
        call_ensures(packet::Checksum::add, (c, a), ()),
        call_ensures(packet::Checksum::add, (d, b), ()),
        call_ensures(packet::Checksum::finish, (*final(d),), r),
        *old(c) == fresh,
        *old(d) == *final(c),
        a@.len() % 2 == 0,
    ensures
        (words_from(a@ + b@, 0) + r) % 65535 == 0,
        words_from(a@ + b@, 0) > 0 ==> r < 65535,
        words_from(a@ + b@, 0) == 0 ==> r == 65535,
{
    packet::word_sums_add(a@, b@);
    lemma_word_sum(a@ + b@);
    let n = words_from(a@ + b@, 0);
    assert(final(d).total() == n);
    if n > 0 {
        assert((n + r) % 65535 == 0 && r < 65535);
    }
}

/// Where a packet comes from and where it goes.
pub proof fn packet_has_two_ends(
    s4: Ipv4Addr,
    d4: Ipv4Addr,
    s6: Ipv6Addr,
    d6: Ipv6Addr,
    from4: IpAddr,
    to4: IpAddr,
    from6: IpAddr,
    to6: IpAddr,
)
    requires
        call_ensures(
            IPPacket::get_source,
            (&(IPPacket::V4 { source: s4, destination: d4 }),),
            from4,
        ),
        call_ensures(
            IPPacket::get_destination,
            (&(IPPacket::V4 { source: s4, destination: d4 }),),
            to4,
        ),
        call_ensures(
            IPPacket::get_source,
            (&(IPPacket::V6 { source: s6, destination: d6 }),),
            from6,
        ),
        call_ensures(
            IPPacket::get_destination,
            (&(IPPacket::V6 { source: s6, destination: d6 }),),
            to6,
        ),
    ensures
        from4 == IpAddr::V4(s4) && to4 == IpAddr::V4(d4),
        from6 == IpAddr::V6(s6) && to6 == IpAddr::V6(d6),
{
}

/// An option that states less than its own two bytes takes two, one that states more than
/// there is takes the rest, and one of a single byte ends the options.
pub proof fn misstated_options_are_passed_over(kind: u8, stated: u8, rest: Seq<u8>)
    requires
        kind >= 2,
        kind != 8,
    ensures
        stated < 2 ==> packet::tsval_in(seq![kind, stated] + rest) == packet::tsval_in(rest),
        stated >= 2 + rest.len() ==> packet::tsval_in(seq![kind, stated] + rest) is None,
        packet::tsval_in(seq![kind]) is None,
{
    reveal(packet::tsval_in);
    let o = seq![kind, stated] + rest;
    if stated < 2 {
        assert(o.skip(2) =~= rest);
        assert(packet::option_size(o) == 2);
    }
    if stated >= 2 + rest.len() {
        assert(packet::option_size(o) == o.len());
        assert(packet::timestamps_in(o.skip(o.len() as int)) is None);
    }
    let one = seq![kind];
    assert(packet::option_size(one) == 1);
    assert(packet::timestamps_in(one.skip(1)) is None);
}

} // verus!

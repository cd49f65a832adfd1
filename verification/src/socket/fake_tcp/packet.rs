//! Ethernet frames that carry a TCP segment over IPv4 or IPv6.

use crate::entropy::random_bytes;
use crate::net::{IpAddr, Ipv4Addr, Ipv6Addr, MacAddr, SocketAddr};
use crate::wire;
use crate::wire::{append, append_be16, append_be32, append_be64, copy_range, read_be16, read_be32, read_be64};
use vstd::prelude::*;
use vstd::slice::*;

verus! {

pub const ETH_HDR_LEN: usize = 14;

pub const IPV4_HEADER_LEN: usize = 20;

pub const IPV6_HEADER_LEN: usize = 40;

pub const TCP_HEADER_LEN: usize = 20;

pub const TCP_FIN: u8 = 0x01;

pub const TCP_SYN: u8 = 0x02;

pub const TCP_RST: u8 = 0x04;

pub const TCP_PSH: u8 = 0x08;

pub const TCP_ACK: u8 = 0x10;

/// Window scale advertised on SYN. Only reached when this crate builds the SYN
/// itself; in the normal flow the kernel decoy socket performs the handshake and
/// negotiates its own scale.
pub const WINDOW_SCALE: u8 = 5;

// --- Checksum ---

/// The sum of the 16-bit big-endian words of `d`; a last odd byte is the high byte of a
/// word.
pub open spec fn word_sum(d: Seq<u8>) -> int
    decreases d.len(),
{
    if d.len() == 0 {
        0
    } else if d.len() == 1 {
        d[0] * 256
    } else {
        d[0] * 256 + d[1] + word_sum(d.skip(2))
    }
}

/// `n` in one's complement arithmetic of 16 bits: carries are added back in.
pub open spec fn ones_fold(n: int) -> int {
    if n == 0 {
        0
    } else {
        (n - 1) % 65535 + 1
    }
}

/// The Internet checksum of `d`.
pub open spec fn internet_checksum(d: Seq<u8>) -> int {
    65535 - ones_fold(word_sum(d))
}

proof fn lemma_word_sum_bounds(d: Seq<u8>)
    ensures
        0 <= word_sum(d) <= 65535 * d.len(),
    decreases d.len(),
{
    if d.len() >= 2 {
        lemma_word_sum_bounds(d.skip(2));
    }
}

/// It does not matter how data is split, as long as the first part has whole words: the
/// word sum of `a + b` is the word sum of `a` plus the word sum of `b`.
pub proof fn word_sums_add(a: Seq<u8>, b: Seq<u8>)
    requires
        a.len() % 2 == 0,
    ensures
        word_sum(a + b) == word_sum(a) + word_sum(b),
    decreases a.len(),
{
    if a.len() == 0 {
        assert(a + b =~= b);
    } else {
        assert((a + b).skip(2) =~= a.skip(2) + b);
        word_sums_add(a.skip(2), b);
    }
}

proof fn lemma_fold_step(n: int)
    requires
        n >= 65536,
    ensures
        ones_fold(n % 65536 + n / 65536) == ones_fold(n),
        0 < n % 65536 + n / 65536 < n,
{
    let q = n / 65536;
    let r = n % 65536;
    assert(n - 1 == q * 65535 + (q + r - 1));
    assert((q * 65535 + (q + r - 1)) % 65535 == (q + r - 1) % 65535) by {
        vstd::arithmetic::div_mod::lemma_mod_multiples_vanish(q, q + r - 1, 65535);
    }
}

/// Accumulator for the RFC 1071 ones-complement sum used by IP/TCP checksums.
///
/// Feed pseudo-header bytes then payload bytes with `add`, then `finish`.
pub struct Checksum {
    sum: u64,
}

impl Checksum {
    /// The sum of the words added so far.
    pub closed spec fn total(self) -> int {
        self.sum as int
    }

    /// Nothing was added yet.
    pub fn new() -> (r: Self)
        ensures
            r.total() == 0,
    {
        Checksum { sum: 0 }
    }

    /// Adds a byte slice as a sequence of 16-bit big-endian words. A trailing odd
    /// byte is treated as the high byte of a word padded with a zero low byte,
    /// exactly as RFC 1071 specifies.
    pub fn add(&mut self, data: &[u8])
        requires
            old(self).total() + word_sum(data@) <= u64::MAX,
        ensures
            final(self).total() == old(self).total() + word_sum(data@),
            forall|before: Seq<u8>|
                before.len() % 2 == 0 && old(self).total() == #[trigger] word_sum(before)
                    ==> final(self).total() == word_sum(before + data@),
    {
        proof {
            assert forall|before: Seq<u8>|
                before.len() % 2 == 0 && old(self).total() == #[trigger] word_sum(
                    before,
                ) implies old(self).total() + word_sum(data@) == word_sum(before + data@) by {
                word_sums_add(before, data@);
            }
        }
        let n: usize = data.len();
        let mut i: usize = 0;
        assert(data@.skip(0) =~= data@);
        while n - i >= 2
            invariant
                n == data@.len(),
                i <= n,
                old(self).total() + word_sum(data@) == self.total() + word_sum(data@.skip(i as int)),
                old(self).total() + word_sum(data@) <= u64::MAX,
            decreases n - i,
        {
            proof {
                lemma_word_sum_bounds(data@.skip(i as int).skip(2));
                assert(data@.skip(i as int).skip(2) =~= data@.skip(i + 2));
            }
            self.sum = self.sum + (data[i] as u64 * 256 + data[i + 1] as u64);
            i += 2;
        }
        if i < n {
            self.sum = self.sum + data[i] as u64 * 256;
        }
    }

    /// Folds the accumulated carries into 16 bits and returns the one's
    /// complement, as it should appear in the checksum field.
    pub fn finish(self) -> (r: u16)
        ensures
            r == 65535 - ones_fold(self.total()),
            forall|data: Seq<u8>|
                self.total() == #[trigger] word_sum(data) ==> r == internet_checksum(data),
    {
        let mut sum: u64 = self.sum;
        while sum >= 65536
            invariant
                ones_fold(sum as int) == ones_fold(self.total()),
            decreases sum,
        {
            proof {
                lemma_fold_step(sum as int);
            }
            sum = sum % 65536 + sum / 65536;
        }
        65535 - sum as u16
    }
}

/// The word sum of data in parts.
pub open spec fn sum_of_parts(parts: Seq<Seq<u8>>) -> int
    decreases parts.len(),
{
    if parts.len() == 0 {
        0
    } else {
        word_sum(parts[0]) + sum_of_parts(parts.drop_first())
    }
}

/// Data that is added in parts, all but the last of whole words, has the checksum of the
/// whole: the complement of its word sum with all carries folded in.
pub proof fn parts_have_the_checksum_of_the_whole(parts: Seq<Seq<u8>>)
    requires
        forall|i: int| 0 <= i < parts.len() - 1 ==> (#[trigger] parts[i]).len() % 2 == 0,
    ensures
        sum_of_parts(parts) == word_sum(wire::joined(parts)),
        65535 - ones_fold(sum_of_parts(parts)) == internet_checksum(wire::joined(parts)),
    decreases parts.len(),
{
    if parts.len() > 0 {
        let rest = parts.drop_first();
        assert forall|i: int| 0 <= i < rest.len() - 1 implies (#[trigger] rest[i]).len() % 2
            == 0 by {
            assert(rest[i] == parts[i + 1]);
        }
        parts_have_the_checksum_of_the_whole(rest);
        if rest.len() == 0 {
            assert(wire::joined(parts) =~= parts[0]);
        } else {
            assert(parts[0].len() % 2 == 0);
            word_sums_add(parts[0], wire::joined(rest));
        }
    }
}

proof fn lemma_checksum_cancels(total: int)
    requires
        total >= 0,
    ensures
        ones_fold(total + (65535 - ones_fold(total))) == 65535,
{
    if total > 0 {
        let m = (total - 1) % 65535;
        let q = (total - 1) / 65535;
        assert(total - 1 == q * 65535 + m);
        assert(total + (65535 - ones_fold(total)) - 1 == q * 65535 + 65534);
        assert((q * 65535 + 65534) % 65535 == 65534) by {
            vstd::arithmetic::div_mod::lemma_mod_multiples_vanish(q, 65534, 65535);
        }
    }
}

// --- Layout ---

/// The Ethernet header.
pub open spec fn eth_header(dst: MacAddr, src: MacAddr, ethertype: int) -> Seq<u8> {
    dst.octets() + src.octets() + wire::be16(ethertype)
}

/// The IPv4 header: no options, don't fragment, a time to live of 64, TCP.
pub open spec fn ipv4_header(
    src: Ipv4Addr,
    dst: Ipv4Addr,
    total_len: int,
    id: u16,
    checksum: int,
) -> Seq<u8> {
    seq![0x45u8, 0x00] + wire::be16(total_len) + wire::be16(id as int) + seq![0x40u8, 0x00, 64, 6]
        + wire::be16(checksum) + src.octets() + dst.octets()
}

/// The IPv6 header: no extension headers, a hop limit of 64, TCP.
pub open spec fn ipv6_header(src: Ipv6Addr, dst: Ipv6Addr, payload_len: int) -> Seq<u8> {
    seq![0x60u8, 0x00, 0x00, 0x00] + wire::be16(payload_len) + seq![6u8, 64] + src.octets()
        + dst.octets()
}

/// The options: on a SYN an MSS of 1400, SACK permitted and a window scale; and the
/// timestamps, if there are any.
pub open spec fn tcp_options(syn: bool, timestamps: Option<(u32, u32)>) -> Seq<u8> {
    (if syn {
        seq![0x02u8, 0x04, 0x05, 0x78, 0x01, 0x01, 0x04, 0x02, 0x01, 0x03, 0x03, WINDOW_SCALE]
    } else {
        Seq::<u8>::empty()
    }) + match timestamps {
        Some((tsval, tsecr)) => seq![0x01u8, 0x01, 0x08, 0x0a] + wire::be32(tsval as int)
            + wire::be32(tsecr as int),
        None => Seq::<u8>::empty(),
    }
}

/// The SYN flag is set.
pub open spec fn has_syn(flags: u8) -> bool {
    flags / 2 % 2 == 1
}

/// What the fields of a TCP header hold.
pub struct TcpFields {
    pub source: u16,
    pub destination: u16,
    pub seq: u32,
    pub ack: u32,
    pub flags: u8,
    pub window: u16,
    pub timestamps: Option<(u32, u32)>,
}

impl TcpFields {
    /// The options of the segment.
    pub open spec fn options(self) -> Seq<u8> {
        tcp_options(has_syn(self.flags), self.timestamps)
    }
}

/// The TCP segment with the given checksum.
pub open spec fn tcp_segment(f: TcpFields, checksum: int, data: Seq<u8>) -> Seq<u8> {
    wire::be16(f.source as int) + wire::be16(f.destination as int) + wire::be32(f.seq as int)
        + wire::be32(f.ack as int) + seq![((20 + f.options().len()) / 4 * 16) as u8, f.flags]
        + wire::be16(f.window as int) + wire::be16(checksum) + wire::be16(0) + f.options() + data
}

/// What the TCP checksum covers besides the segment, over IPv4.
pub open spec fn pseudo_v4(src: Ipv4Addr, dst: Ipv4Addr, tcp_len: int) -> Seq<u8> {
    src.octets() + dst.octets() + seq![0u8, 6] + wire::be16(tcp_len)
}

/// What the TCP checksum covers besides the segment, over IPv6.
pub open spec fn pseudo_v6(src: Ipv6Addr, dst: Ipv6Addr, tcp_len: int) -> Seq<u8> {
    src.octets() + dst.octets() + wire::be32(tcp_len) + seq![0u8, 0, 0, 6]
}

/// The segment with the checksum that its pseudo-header asks for.
pub open spec fn summed_segment(f: TcpFields, data: Seq<u8>, pseudo: Seq<u8>) -> Seq<u8> {
    tcp_segment(f, internet_checksum(pseudo + tcp_segment(f, 0, data)), data)
}

/// How long the segment is.
pub open spec fn segment_len(f: TcpFields, data_len: int) -> int {
    20 + f.options().len() + data_len
}

/// The whole frame.
#[verifier::opaque]
pub open spec fn frame(
    src_mac: MacAddr,
    dst_mac: MacAddr,
    local: IpAddr,
    remote: IpAddr,
    f: TcpFields,
    ip_id: u16,
    data: Seq<u8>,
) -> Seq<u8> {
    let n = segment_len(f, data.len() as int);
    match (local, remote) {
        (IpAddr::V4(src), IpAddr::V4(dst)) => {
            let ip_ck = internet_checksum(ipv4_header(src, dst, 20 + n, ip_id, 0));
            eth_header(dst_mac, src_mac, 0x0800) + ipv4_header(src, dst, 20 + n, ip_id, ip_ck)
                + summed_segment(f, data, pseudo_v4(src, dst, n))
        },
        (IpAddr::V6(src), IpAddr::V6(dst)) => {
            eth_header(dst_mac, src_mac, 0x86dd) + ipv6_header(src, dst, n) + summed_segment(
                f,
                data,
                pseudo_v6(src, dst, n),
            )
        },
        _ => Seq::empty(),
    }
}

/// Both addresses are of one family, and the lengths fit the IP header.
pub open spec fn frame_fits(local: IpAddr, remote: IpAddr, f: TcpFields, data_len: int) -> bool {
    match (local, remote) {
        (IpAddr::V4(_), IpAddr::V4(_)) => 20 + segment_len(f, data_len) <= 65535,
        (IpAddr::V6(_), IpAddr::V6(_)) => segment_len(f, data_len) <= 65535,
        _ => false,
    }
}

// --- Building ---

fn append_mac(buf: &mut Vec<u8>, mac: MacAddr)
    ensures
        final(buf)@ == old(buf)@ + mac.octets(),
{
    buf.push(mac.0);
    buf.push(mac.1);
    buf.push(mac.2);
    buf.push(mac.3);
    buf.push(mac.4);
    buf.push(mac.5);
    assert(buf@ =~= old(buf)@ + mac.octets());
}

fn append_v6(buf: &mut Vec<u8>, ip: Ipv6Addr)
    ensures
        final(buf)@ == old(buf)@ + ip.octets(),
{
    append_be64(buf, ip.high);
    append_be64(buf, ip.low);
    assert(buf@ =~= old(buf)@ + ip.octets());
}

fn tcp_options_of(syn: bool, timestamps: Option<(u32, u32)>) -> (r: Vec<u8>)
    ensures
        r@ == tcp_options(syn, timestamps),
        r@.len() % 4 == 0,
        r@.len() <= 24,
{
    let mut opts: Vec<u8> = Vec::new();
    if syn {
        // MSS 1400, NOP, NOP, SACK permitted, NOP, window scale
        append(
            &mut opts,
            &[0x02, 0x04, 0x05, 0x78, 0x01, 0x01, 0x04, 0x02, 0x01, 0x03, 0x03, WINDOW_SCALE],
        );
    }
    if let Some((tsval, tsecr)) = timestamps {
        append(&mut opts, &[0x01, 0x01, 0x08, 0x0a]);
        append_be32(&mut opts, tsval);
        append_be32(&mut opts, tsecr);
    }
    assert(opts@ =~= tcp_options(syn, timestamps));
    opts
}

fn tcp_segment_of(f: &TcpFields, data: &[u8]) -> (r: Vec<u8>)
    ensures
        r@ == tcp_segment(*f, 0, data@),
{
    let opts = tcp_options_of(f.flags / 2 % 2 == 1, f.timestamps);
    let mut seg: Vec<u8> = Vec::new();
    append_be16(&mut seg, f.source);
    append_be16(&mut seg, f.destination);
    append_be32(&mut seg, f.seq);
    append_be32(&mut seg, f.ack);
    seg.push(((20 + opts.len()) / 4 * 16) as u8);
    seg.push(f.flags);
    append_be16(&mut seg, f.window);
    append_be16(&mut seg, 0);
    append_be16(&mut seg, 0);
    append(&mut seg, &opts);
    append(&mut seg, data);
    assert(seg@ =~= tcp_segment(*f, 0, data@));
    seg
}

proof fn lemma_segment_len(f: TcpFields, checksum: int, data: Seq<u8>)
    ensures
        tcp_segment(f, checksum, data).len() == segment_len(f, data.len() as int),
        f.options().len() % 4 == 0,
        f.options().len() <= 24,
{
}

proof fn lemma_set_checksum(f: TcpFields, data: Seq<u8>, ck: u16)
    ensures
        tcp_segment(f, 0, data).update(16, wire::be16(ck as int)[0]).update(
            17,
            wire::be16(ck as int)[1],
        ) == tcp_segment(f, ck as int, data),
{
    let a = tcp_segment(f, 0, data).update(16, wire::be16(ck as int)[0]).update(
        17,
        wire::be16(ck as int)[1],
    );
    let b = tcp_segment(f, ck as int, data);
    assert(a =~= b);
}

/// Writes the checksum into a segment that was built without it.
fn set_tcp_checksum(seg: &mut Vec<u8>, ck: u16, f: &TcpFields, data: &[u8])
    requires
        old(seg)@ == tcp_segment(*f, 0, data@),
    ensures
        final(seg)@ == tcp_segment(*f, ck as int, data@),
{
    proof {
        lemma_segment_len(*f, 0, data@);
        lemma_set_checksum(*f, data@, ck);
    }
    seg[16] = (ck / 0x100) as u8;
    seg[17] = (ck % 0x100) as u8;
}

fn ipv4_header_of(src: Ipv4Addr, dst: Ipv4Addr, total_len: u16, id: u16) -> (r: Vec<u8>)
    ensures
        r@ == ipv4_header(
            src,
            dst,
            total_len as int,
            id,
            internet_checksum(ipv4_header(src, dst, total_len as int, id, 0)),
        ),
{
    let mut ip: Vec<u8> = Vec::new();
    append(&mut ip, &[0x45, 0x00]);
    append_be16(&mut ip, total_len);
    append_be16(&mut ip, id);
    append(&mut ip, &[0x40, 0x00, 64, 6]);  // don't fragment, TTL, TCP
    append_be16(&mut ip, 0);
    append_be32(&mut ip, src.bits);
    append_be32(&mut ip, dst.bits);
    assert(ip@ =~= ipv4_header(src, dst, total_len as int, id, 0));
    let mut ck = Checksum::new();
    proof {
        lemma_word_sum_bounds(ip@);
    }
    ck.add(&ip);
    let sum: u16 = ck.finish();
    ip[10] = (sum / 0x100) as u8;
    ip[11] = (sum % 0x100) as u8;
    assert(ip@ =~= ipv4_header(src, dst, total_len as int, id, sum as int));
    ip
}

fn ipv6_header_of(src: Ipv6Addr, dst: Ipv6Addr, payload_len: u16) -> (r: Vec<u8>)
    ensures
        r@ == ipv6_header(src, dst, payload_len as int),
{
    let mut ip: Vec<u8> = Vec::new();
    append(&mut ip, &[0x60, 0x00, 0x00, 0x00]);
    append_be16(&mut ip, payload_len);
    append(&mut ip, &[6, 64]);  // TCP, hop limit
    append_v6(&mut ip, src);
    append_v6(&mut ip, dst);
    assert(ip@ =~= ipv6_header(src, dst, payload_len as int));
    ip
}

fn checksum_of(pseudo: &[u8], seg: &[u8]) -> (r: u16)
    requires
        pseudo@.len() % 2 == 0,
        65535 * (pseudo@.len() + seg@.len()) <= u64::MAX,
    ensures
        r == internet_checksum(pseudo@ + seg@),
{
    let mut ck = Checksum::new();
    proof {
        lemma_word_sum_bounds(pseudo@);
        lemma_word_sum_bounds(seg@);
        word_sums_add(pseudo@, seg@);
    }
    ck.add(pseudo);
    ck.add(seg);
    ck.finish()
}

fn pseudo_v4_of(src: Ipv4Addr, dst: Ipv4Addr, tcp_len: u16) -> (r: Vec<u8>)
    ensures
        r@ == pseudo_v4(src, dst, tcp_len as int),
        r@.len() == 12,
{
    let mut p: Vec<u8> = Vec::new();
    append_be32(&mut p, src.bits);
    append_be32(&mut p, dst.bits);
    append(&mut p, &[0, 6]);
    append_be16(&mut p, tcp_len);
    assert(p@ =~= pseudo_v4(src, dst, tcp_len as int));
    p
}

fn pseudo_v6_of(src: Ipv6Addr, dst: Ipv6Addr, tcp_len: u32) -> (r: Vec<u8>)
    ensures
        r@ == pseudo_v6(src, dst, tcp_len as int),
        r@.len() == 40,
{
    let mut p: Vec<u8> = Vec::new();
    append_v6(&mut p, src);
    append_v6(&mut p, dst);
    append_be32(&mut p, tcp_len);
    append(&mut p, &[0, 0, 0, 6]);
    assert(p@ =~= pseudo_v6(src, dst, tcp_len as int));
    p
}

fn eth_header_of(dst: MacAddr, src: MacAddr, ethertype: u16) -> (r: Vec<u8>)
    ensures
        r@ == eth_header(dst, src, ethertype as int),
{
    let mut eth: Vec<u8> = Vec::new();
    append_mac(&mut eth, dst);
    append_mac(&mut eth, src);
    append_be16(&mut eth, ethertype);
    assert(eth@ =~= eth_header(dst, src, ethertype as int));
    eth
}

/// Builds a frame around the given segment fields and data.
pub fn build_frame(
    src_mac: MacAddr,
    dst_mac: MacAddr,
    local: IpAddr,
    remote: IpAddr,
    f: &TcpFields,
    ip_id: u16,
    data: &[u8],
) -> (r: Vec<u8>)
    requires
        frame_fits(local, remote, *f, data@.len() as int),
    ensures
        r@ == frame(src_mac, dst_mac, local, remote, *f, ip_id, data@),
{
    let mut seg = tcp_segment_of(f, data);
    proof {
        reveal(frame);
        lemma_segment_len(*f, 0, data@);
    }
    let n: usize = seg.len();
    match (local, remote) {
        (IpAddr::V4(src), IpAddr::V4(dst)) => {
            let pseudo = pseudo_v4_of(src, dst, n as u16);
            let ck: u16 = checksum_of(&pseudo, &seg);
            set_tcp_checksum(&mut seg, ck, f, data);
            let ip = ipv4_header_of(src, dst, 20 + n as u16, ip_id);
            let mut out = eth_header_of(dst_mac, src_mac, 0x0800);
            append(&mut out, &ip);
            append(&mut out, &seg);
            out
        },
        (IpAddr::V6(src), IpAddr::V6(dst)) => {
            let pseudo = pseudo_v6_of(src, dst, n as u32);
            let ck: u16 = checksum_of(&pseudo, &seg);
            set_tcp_checksum(&mut seg, ck, f, data);
            let ip = ipv6_header_of(src, dst, n as u16);
            let mut out = eth_header_of(dst_mac, src_mac, 0x86dd);
            append(&mut out, &ip);
            append(&mut out, &seg);
            out
        },
        _ => Vec::new(),
    }
}

/// The fields of a segment between two endpoints.
pub open spec fn fields_between(
    local: SocketAddr,
    remote: SocketAddr,
    seq: u32,
    ack: u32,
    flags: u8,
    timestamps: Option<(u32, u32)>,
    window: u16,
) -> TcpFields {
    TcpFields {
        source: local.port,
        destination: remote.port,
        seq,
        ack,
        flags,
        window,
        timestamps,
    }
}

/// The bytes of an optional payload.
pub open spec fn payload_bytes(payload: Option<&[u8]>) -> Seq<u8> {
    match payload {
        Some(p) => p@,
        None => Seq::empty(),
    }
}

/// Builds a frame with a TCP segment. Both addresses must be of one family, and the
/// packet must fit the length field of its IP header. `padding_len` random bytes follow
/// the payload.
pub fn build_tcp_packet(
    src_mac: MacAddr,
    dst_mac: MacAddr,
    local_addr: SocketAddr,
    remote_addr: SocketAddr,
    seq: u32,
    ack: u32,
    flags: u8,
    payload: Option<&[u8]>,
    timestamps: Option<(u32, u32)>,
    ip_id: u16,
    window: u16,
    padding_len: usize,
) -> (r: Vec<u8>)
    requires
        frame_fits(
            local_addr.ip,
            remote_addr.ip,
            fields_between(local_addr, remote_addr, seq, ack, flags, timestamps, window),
            payload_bytes(payload).len() + padding_len,
        ),
    ensures
        exists|padding: Seq<u8>|
            padding.len() == padding_len && r@ == #[trigger] frame(
                src_mac,
                dst_mac,
                local_addr.ip,
                remote_addr.ip,
                fields_between(local_addr, remote_addr, seq, ack, flags, timestamps, window),
                ip_id,
                payload_bytes(payload) + padding,
            ),
        padding_len == 0 ==> r@ == frame(
            src_mac,
            dst_mac,
            local_addr.ip,
            remote_addr.ip,
            fields_between(local_addr, remote_addr, seq, ack, flags, timestamps, window),
            ip_id,
            payload_bytes(payload),
        ),
{
    let f = TcpFields {
        source: local_addr.port,
        destination: remote_addr.port,
        seq,
        ack,
        flags,
        window,
        timestamps,
    };
    let mut data: Vec<u8> = Vec::new();
    if let Some(p) = payload {
        append(&mut data, p);
    }
    assert(data@ =~= payload_bytes(payload));
    let padding = random_bytes(padding_len);
    append(&mut data, &padding);
    proof {
        if padding_len == 0 {
            assert(data@ =~= payload_bytes(payload));
        }
    }
    let r = build_frame(src_mac, dst_mac, local_addr.ip, remote_addr.ip, &f, ip_id, &data);
    assert(data@ == payload_bytes(payload) + padding@);
    r
}

// --- Parsing ---

/// The addresses in an IP header.
#[derive(Debug, Clone, Copy, PartialEq, Eq, Structural)]
pub enum IPPacket {
    V4 { source: Ipv4Addr, destination: Ipv4Addr },
    V6 { source: Ipv6Addr, destination: Ipv6Addr },
}

impl IPPacket {
    pub open spec fn source(self) -> IpAddr {
        match self {
            IPPacket::V4 { source, .. } => IpAddr::V4(source),
            IPPacket::V6 { source, .. } => IpAddr::V6(source),
        }
    }

    pub open spec fn destination(self) -> IpAddr {
        match self {
            IPPacket::V4 { destination, .. } => IpAddr::V4(destination),
            IPPacket::V6 { destination, .. } => IpAddr::V6(destination),
        }
    }

    /// Where the packet comes from.
    pub fn get_source(&self) -> (r: IpAddr)
        ensures
            r == self.source(),
    {
        match self {
            IPPacket::V4 { source, .. } => IpAddr::V4(*source),
            IPPacket::V6 { source, .. } => IpAddr::V6(*source),
        }
    }

    /// Where the packet goes.
    pub fn get_destination(&self) -> (r: IpAddr)
        ensures
            r == self.destination(),
    {
        match self {
            IPPacket::V4 { destination, .. } => IpAddr::V4(*destination),
            IPPacket::V6 { destination, .. } => IpAddr::V6(*destination),
        }
    }
}

/// Where the TCP header starts, in a frame that holds one whole.
pub open spec fn tcp_start(b: Seq<u8>) -> Option<int> {
    if b.len() < 14 {
        None
    } else if wire::from_be16(b.subrange(12, 14)) == 0x0800 {
        let start = 14 + (b[14] % 16) * 4;
        if b.len() < 34 || b[23] != 6 || start < 34 || b.len() < start + 20 {
            None
        } else {
            Some(start)
        }
    } else if wire::from_be16(b.subrange(12, 14)) == 0x86dd {
        if b.len() < 74 || b[20] != 6 {
            None
        } else {
            Some(54)
        }
    } else {
        None
    }
}

/// How long the options are, by the header's data offset.
pub open spec fn options_len(b: Seq<u8>, t: int) -> int {
    let words = b[t + 12] / 16;
    if words > 5 {
        words * 4 - 20
    } else {
        0
    }
}

/// Where the payload starts.
pub open spec fn payload_start(b: Seq<u8>, t: int) -> int {
    t + 20 + options_len(b, t)
}

/// The payload: all that follows the options.
pub open spec fn payload_in(b: Seq<u8>, t: int) -> Seq<u8> {
    if b.len() <= payload_start(b, t) {
        Seq::empty()
    } else {
        b.skip(payload_start(b, t))
    }
}

/// The options, as far as the frame holds them.
pub open spec fn options_in(b: Seq<u8>, t: int) -> Seq<u8> {
    let end = payload_start(b, t);
    b.subrange(t + 20, if end < b.len() { end } else { b.len() as int })
}

/// A TCP segment.
#[derive(Debug, Clone)]
pub struct TcpPacket {
    pub source: u16,
    pub destination: u16,
    pub sequence: u32,
    pub acknowledgement: u32,
    pub flags: u8,
    pub window: u16,
    pub checksum: u16,
    pub options: Vec<u8>,
    /// Where the payload starts in the frame.
    pub payload_offset: usize,
    pub payload: Vec<u8>,
}

impl TcpPacket {
    /// The segment is the one whose header starts at `t`.
    pub open spec fn stands_at(self, b: Seq<u8>, t: int) -> bool {
        &&& self.source == wire::from_be16(b.subrange(t, t + 2))
        &&& self.destination == wire::from_be16(b.subrange(t + 2, t + 4))
        &&& self.sequence == wire::from_be32(b.subrange(t + 4, t + 8))
        &&& self.acknowledgement == wire::from_be32(b.subrange(t + 8, t + 12))
        &&& self.flags == b[t + 13]
        &&& self.window == wire::from_be16(b.subrange(t + 14, t + 16))
        &&& self.checksum == wire::from_be16(b.subrange(t + 16, t + 18))
        &&& self.options@ == options_in(b, t)
        &&& self.payload_offset == payload_start(b, t)
        &&& self.payload@ == payload_in(b, t)
    }
}

/// The addresses are those of the frame's IP header.
pub open spec fn addresses_in(ip: IPPacket, b: Seq<u8>) -> bool {
    match ip {
        IPPacket::V4 { source, destination } => {
            &&& wire::from_be16(b.subrange(12, 14)) == 0x0800
            &&& source.bits == wire::from_be32(b.subrange(26, 30))
            &&& destination.bits == wire::from_be32(b.subrange(30, 34))
        },
        IPPacket::V6 { source, destination } => {
            &&& wire::from_be16(b.subrange(12, 14)) == 0x86dd
            &&& source.high == wire::from_be64(b.subrange(22, 30))
            &&& source.low == wire::from_be64(b.subrange(30, 38))
            &&& destination.high == wire::from_be64(b.subrange(38, 46))
            &&& destination.low == wire::from_be64(b.subrange(46, 54))
        },
    }
}

fn mac_at(buf: &[u8], at: usize) -> (r: MacAddr)
    requires
        at + 6 <= buf@.len(),
    ensures
        r.octets() == buf@.subrange(at as int, at + 6),
{
    let n: usize = buf.len();
    let m = MacAddr(buf[at], buf[at + 1], buf[at + 2], buf[at + 3], buf[at + 4], buf[at + 5]);
    assert(m.octets() =~= buf@.subrange(at as int, at + 6));
    m
}

fn tcp_at(buf: &[u8], t: usize) -> (r: TcpPacket)
    requires
        t + 20 <= buf@.len(),
        t < 0x1000,
    ensures
        r.stands_at(buf@, t as int),
{
    let n: usize = buf.len();
    let words: usize = (buf[t + 12] / 16) as usize;
    let opts_len: usize = if words > 5 { words * 4 - 20 } else { 0 };
    let start: usize = t + 20 + opts_len;
    let opts_end: usize = if start < n { start } else { n };
    let payload: Vec<u8> = if n <= start { Vec::new() } else { copy_range(buf, start, n) };
    assert(payload@ =~= payload_in(buf@, t as int));
    TcpPacket {
        source: read_be16(buf, t),
        destination: read_be16(buf, t + 2),
        sequence: read_be32(buf, t + 4),
        acknowledgement: read_be32(buf, t + 8),
        flags: buf[t + 13],
        window: read_be16(buf, t + 14),
        checksum: read_be16(buf, t + 16),
        options: copy_range(buf, t + 20, opts_end),
        payload_offset: start,
        payload,
    }
}

/// Parses a frame: source and destination hardware address, IP addresses, TCP segment.
pub fn parse_ip_packet(buf: &[u8]) -> (r: Option<(MacAddr, MacAddr, IPPacket, TcpPacket)>)
    ensures
        match r {
            Some((src_mac, dst_mac, ip, tcp)) => {
                &&& tcp_start(buf@) is Some
                &&& src_mac.octets() == buf@.subrange(6, 12)
                &&& dst_mac.octets() == buf@.subrange(0, 6)
                &&& addresses_in(ip, buf@)
                &&& tcp.stands_at(buf@, tcp_start(buf@)->0)
            },
            None => tcp_start(buf@) is None,
        },
{
    let n: usize = buf.len();
    if n < ETH_HDR_LEN {
        return None;
    }
    let src_mac = mac_at(buf, 6);
    let dst_mac = mac_at(buf, 0);
    let ethertype: u16 = read_be16(buf, 12);
    if ethertype == 0x0800 {
        if n < ETH_HDR_LEN + IPV4_HEADER_LEN {
            return None;
        }
        if buf[23] != 6 {
            return None;
        }
        let start: usize = ETH_HDR_LEN + (buf[14] % 16) as usize * 4;
        if start < ETH_HDR_LEN + IPV4_HEADER_LEN || start > n {
            return None;
        }
        if n - start < TCP_HEADER_LEN {
            return None;
        }
        let ip = IPPacket::V4 {
            source: Ipv4Addr { bits: read_be32(buf, 26) },
            destination: Ipv4Addr { bits: read_be32(buf, 30) },
        };
        return Some((src_mac, dst_mac, ip, tcp_at(buf, start)));
    }
    if ethertype == 0x86dd {
        if n < ETH_HDR_LEN + IPV6_HEADER_LEN + TCP_HEADER_LEN {
            return None;
        }
        if buf[20] != 6 {
            return None;
        }
        let ip = IPPacket::V6 {
            source: Ipv6Addr { high: read_be64(buf, 22), low: read_be64(buf, 30) },
            destination: Ipv6Addr { high: read_be64(buf, 38), low: read_be64(buf, 46) },
        };
        return Some((src_mac, dst_mac, ip, tcp_at(buf, ETH_HDR_LEN + IPV6_HEADER_LEN)));
    }
    None
}

/// How many bytes the first option takes: one for end-of-list and no-operation, else what
/// its length says, and at least its first two.
pub open spec fn option_size(opts: Seq<u8>) -> int {
    let size = if opts[0] <= 1 {
        1int
    } else if opts.len() >= 2 && opts[1] >= 2 {
        opts[1] as int
    } else {
        2
    };
    if size < opts.len() {
        size
    } else {
        opts.len() as int
    }
}

/// The data of the first timestamps option.
pub open spec fn timestamps_in(opts: Seq<u8>) -> Option<Seq<u8>>
    decreases opts.len(),
{
    if opts.len() == 0 {
        None
    } else if opts[0] == 8 {
        Some(if opts.len() <= 2 { Seq::empty() } else { opts.subrange(2, option_size(opts)) })
    } else {
        timestamps_in(opts.skip(option_size(opts)))
    }
}

/// The sender's timestamp, if the first timestamps option holds one.
#[verifier::opaque]
pub open spec fn tsval_in(opts: Seq<u8>) -> Option<u32> {
    match timestamps_in(opts) {
        Some(data) => if data.len() >= 4 {
            Some(wire::from_be32(data) as u32)
        } else {
            None
        },
        None => None,
    }
}

/// Finds the sender's timestamp.
pub fn find_tsval(opts: &[u8]) -> (r: Option<u32>)
    ensures
        r == tsval_in(opts@),
{
    proof {
        reveal(tsval_in);
    }
    let n: usize = opts.len();
    let mut i: usize = 0;
    assert(opts@.skip(0) =~= opts@);
    while i < n
        invariant
            n == opts@.len(),
            i <= n,
            timestamps_in(opts@.skip(i as int)) == timestamps_in(opts@),
        decreases n - i,
    {
        let ghost rest = opts@.skip(i as int);
        proof {
            reveal(tsval_in);
        }
        let mut size: usize = 2;
        if opts[i] <= 1 {
            size = 1;
        } else if n - i >= 2 && opts[i + 1] >= 2 {
            size = opts[i + 1] as usize;
        }
        if size > n - i {
            size = n - i;
        }
        assert(size == option_size(rest));
        if opts[i] == 8 {
            if size >= 6 {
                proof {
                    let data = timestamps_in(opts@)->0;
                    assert(data =~= opts@.subrange(i + 2, i + size));
                    assert(opts@.subrange(i + 2, i + 6) =~= data.subrange(0, 4));
                }
                return Some(read_be32(opts, i + 2));
            }
            return None;
        }
        assert(rest.skip(size as int) =~= opts@.skip(i + size));
        i += size;
    }
    None
}

// --- Laws ---

proof fn lemma_sum_with_field(head: Seq<u8>, field: int, tail: Seq<u8>)
    requires
        head.len() % 2 == 0,
        0 <= field < 65536,
    ensures
        word_sum(head + wire::be16(field) + tail) == word_sum(head) + field + word_sum(tail),
{
    let mid = wire::be16(field);
    assert(head + mid + tail =~= head + (mid + tail));
    word_sums_add(head, mid + tail);
    word_sums_add(mid, tail);
    assert(mid.skip(2) =~= Seq::empty());
    assert(word_sum(mid.skip(2)) == 0);
}

proof fn lemma_fold_range(n: int)
    requires
        n >= 0,
    ensures
        0 <= ones_fold(n) <= 65535,
{
}

/// A receiver that sums a built segment with its pseudo-header gets all ones: the
/// checksum is right, whatever the segment carries.
pub proof fn tcp_checksum_verifies(f: TcpFields, data: Seq<u8>, pseudo: Seq<u8>)
    requires
        pseudo.len() % 2 == 0,
    ensures
        ones_fold(word_sum(pseudo + summed_segment(f, data, pseudo))) == 65535,
{
    let blank = tcp_segment(f, 0, data);
    let total = word_sum(pseudo + blank);
    let ck = internet_checksum(pseudo + blank);
    let head = wire::be16(f.source as int) + wire::be16(f.destination as int) + wire::be32(
        f.seq as int,
    ) + wire::be32(f.ack as int) + seq![((20 + f.options().len()) / 4 * 16) as u8, f.flags]
        + wire::be16(f.window as int);
    let tail = wire::be16(0) + f.options() + data;
    lemma_word_sum_bounds(pseudo + blank);
    lemma_fold_range(total);
    assert(head.len() == 16);
    assert(blank =~= head + wire::be16(0) + tail);
    assert(summed_segment(f, data, pseudo) =~= head + wire::be16(ck) + tail);
    lemma_sum_with_field(head, 0, tail);
    lemma_sum_with_field(head, ck, tail);
    word_sums_add(pseudo, blank);
    word_sums_add(pseudo, summed_segment(f, data, pseudo));
    lemma_checksum_cancels(total);
}

/// A receiver that sums a built IPv4 header gets all ones.
pub proof fn ip_checksum_verifies(src: Ipv4Addr, dst: Ipv4Addr, total_len: int, id: u16)
    ensures
        ({
            let ck = internet_checksum(ipv4_header(src, dst, total_len, id, 0));
            ones_fold(word_sum(ipv4_header(src, dst, total_len, id, ck))) == 65535
        }),
{
    let blank = ipv4_header(src, dst, total_len, id, 0);
    let ck = internet_checksum(blank);
    let head = seq![0x45u8, 0x00] + wire::be16(total_len) + wire::be16(id as int) + seq![
        0x40u8, 0x00, 64, 6,
    ];
    let tail = src.octets() + dst.octets();
    lemma_word_sum_bounds(blank);
    lemma_fold_range(word_sum(blank));
    assert(head.len() == 10);
    assert(blank =~= head + wire::be16(0) + tail);
    assert(ipv4_header(src, dst, total_len, id, ck) =~= head + wire::be16(ck) + tail);
    lemma_sum_with_field(head, 0, tail);
    lemma_sum_with_field(head, ck, tail);
    lemma_checksum_cancels(word_sum(blank));
}

/// What a segment that starts at `t` says of itself.
pub open spec fn carries(b: Seq<u8>, t: int, f: TcpFields, data: Seq<u8>) -> bool {
    &&& wire::from_be16(b.subrange(t, t + 2)) == f.source
    &&& wire::from_be16(b.subrange(t + 2, t + 4)) == f.destination
    &&& wire::from_be32(b.subrange(t + 4, t + 8)) == f.seq
    &&& wire::from_be32(b.subrange(t + 8, t + 12)) == f.ack
    &&& b[t + 13] == f.flags
    &&& wire::from_be16(b.subrange(t + 14, t + 16)) == f.window
    &&& options_in(b, t) == f.options()
    &&& payload_in(b, t) == data
}

proof fn lemma_segment_pieces(
    front: Seq<u8>,
    p0: Seq<u8>,
    p2: Seq<u8>,
    p4: Seq<u8>,
    p8: Seq<u8>,
    p12: Seq<u8>,
    p14: Seq<u8>,
    p16: Seq<u8>,
    p18: Seq<u8>,
    opts: Seq<u8>,
    data: Seq<u8>,
)
    requires
        p0.len() == 2 && p2.len() == 2 && p4.len() == 4 && p8.len() == 4 && p12.len() == 2,
        p14.len() == 2 && p16.len() == 2 && p18.len() == 2,
    ensures
        ({
            let b = front + (p0 + p2 + p4 + p8 + p12 + p14 + p16 + p18 + opts + data);
            let t = front.len() as int;
            &&& b.subrange(t, t + 2) == p0
            &&& b.subrange(t + 2, t + 4) == p2
            &&& b.subrange(t + 4, t + 8) == p4
            &&& b.subrange(t + 8, t + 12) == p8
            &&& b[t + 12] == p12[0]
            &&& b[t + 13] == p12[1]
            &&& b.subrange(t + 14, t + 16) == p14
            &&& b.subrange(t + 20, t + 20 + opts.len()) == opts
            &&& b.skip(t + 20 + opts.len() as int) == data
            &&& b.len() == t + 20 + opts.len() + data.len()
        }),
{
    let b = front + (p0 + p2 + p4 + p8 + p12 + p14 + p16 + p18 + opts + data);
    let t = front.len() as int;
    assert(b.subrange(t, t + 2) =~= p0);
    assert(b.subrange(t + 2, t + 4) =~= p2);
    assert(b.subrange(t + 4, t + 8) =~= p4);
    assert(b.subrange(t + 8, t + 12) =~= p8);
    assert(b.subrange(t + 14, t + 16) =~= p14);
    assert(b.subrange(t + 20, t + 20 + opts.len()) =~= opts);
    assert(b.skip(t + 20 + opts.len() as int) =~= data);
}

#[verifier::spinoff_prover]
proof fn lemma_segment_carries(front: Seq<u8>, f: TcpFields, ck: int, data: Seq<u8>)
    ensures
        carries(front + tcp_segment(f, ck, data), front.len() as int, f, data),
{
    let b = front + tcp_segment(f, ck, data);
    let t = front.len() as int;
    let k = f.options().len() as int;
    lemma_segment_len(f, ck, data);
    wire::be16_reads_back(f.source as int);
    wire::be16_reads_back(f.destination as int);
    wire::be32_reads_back(f.seq as int);
    wire::be32_reads_back(f.ack as int);
    wire::be16_reads_back(f.window as int);
    lemma_segment_pieces(
        front,
        wire::be16(f.source as int),
        wire::be16(f.destination as int),
        wire::be32(f.seq as int),
        wire::be32(f.ack as int),
        seq![((20 + f.options().len()) / 4 * 16) as u8, f.flags],
        wire::be16(f.window as int),
        wire::be16(ck),
        wire::be16(0),
        f.options(),
        data,
    );
    assert(options_len(b, t) == k);
    assert(payload_in(b, t) =~= data);
}

proof fn lemma_eth_fields(dst_mac: MacAddr, src_mac: MacAddr, ethertype: int)
    ensures
        eth_header(dst_mac, src_mac, ethertype).len() == 14,
        eth_header(dst_mac, src_mac, ethertype).subrange(0, 6) == dst_mac.octets(),
        eth_header(dst_mac, src_mac, ethertype).subrange(6, 12) == src_mac.octets(),
        eth_header(dst_mac, src_mac, ethertype).subrange(12, 14) == wire::be16(ethertype),
{
    let eth = eth_header(dst_mac, src_mac, ethertype);
    assert(eth.subrange(0, 6) =~= dst_mac.octets());
    assert(eth.subrange(6, 12) =~= src_mac.octets());
    assert(eth.subrange(12, 14) =~= wire::be16(ethertype));
}

proof fn lemma_v4_pieces(eth: Seq<u8>, first: Seq<u8>, a: Seq<u8>, b: Seq<u8>, seg: Seq<u8>)
    requires
        eth.len() == 14,
        first.len() == 12,
        a.len() == 4 && b.len() == 4,
    ensures
        ({
            let all = eth + (first + a + b) + seg;
            &&& all.subrange(0, 6) == eth.subrange(0, 6)
            &&& all.subrange(6, 12) == eth.subrange(6, 12)
            &&& all.subrange(12, 14) == eth.subrange(12, 14)
            &&& all[14] == first[0]
            &&& all[23] == first[9]
            &&& all.subrange(26, 30) == a
            &&& all.subrange(30, 34) == b
            &&& all.len() == 34 + seg.len()
        }),
{
    let all = eth + (first + a + b) + seg;
    assert(all.subrange(0, 6) =~= eth.subrange(0, 6));
    assert(all.subrange(6, 12) =~= eth.subrange(6, 12));
    assert(all.subrange(12, 14) =~= eth.subrange(12, 14));
    assert(all.subrange(26, 30) =~= a);
    assert(all.subrange(30, 34) =~= b);
}

#[verifier::spinoff_prover]
proof fn lemma_front_v4(
    dst_mac: MacAddr,
    src_mac: MacAddr,
    src: Ipv4Addr,
    dst: Ipv4Addr,
    total_len: int,
    id: u16,
    ck: int,
    seg: Seq<u8>,
)
    requires
        seg.len() >= 20,
    ensures
        ({
            let front = eth_header(dst_mac, src_mac, 0x0800) + ipv4_header(
                src,
                dst,
                total_len,
                id,
                ck,
            );
            let b = front + seg;
            &&& front.len() == 34
            &&& tcp_start(b) == Some(34int)
            &&& b.subrange(6, 12) == src_mac.octets()
            &&& b.subrange(0, 6) == dst_mac.octets()
            &&& wire::from_be16(b.subrange(12, 14)) == 0x0800
            &&& wire::from_be32(b.subrange(26, 30)) == src.bits
            &&& wire::from_be32(b.subrange(30, 34)) == dst.bits
        }),
{
    let eth = eth_header(dst_mac, src_mac, 0x0800);
    let first = seq![0x45u8, 0x00] + wire::be16(total_len) + wire::be16(id as int) + seq![
        0x40u8, 0x00, 64, 6,
    ] + wire::be16(ck);
    lemma_eth_fields(dst_mac, src_mac, 0x0800);
    lemma_v4_pieces(eth, first, src.octets(), dst.octets(), seg);
    wire::be16_reads_back(0x0800);
    wire::be32_reads_back(src.bits as int);
    wire::be32_reads_back(dst.bits as int);
}

proof fn lemma_v6_pieces(
    eth: Seq<u8>,
    first: Seq<u8>,
    a: Seq<u8>,
    b: Seq<u8>,
    c: Seq<u8>,
    d: Seq<u8>,
    seg: Seq<u8>,
)
    requires
        eth.len() == 14,
        first.len() == 8,
        a.len() == 8 && b.len() == 8 && c.len() == 8 && d.len() == 8,
    ensures
        ({
            let all = eth + (first + (a + b) + (c + d)) + seg;
            &&& all.subrange(0, 6) == eth.subrange(0, 6)
            &&& all.subrange(6, 12) == eth.subrange(6, 12)
            &&& all.subrange(12, 14) == eth.subrange(12, 14)
            &&& all[20] == first[6]
            &&& all.subrange(22, 30) == a
            &&& all.subrange(30, 38) == b
            &&& all.subrange(38, 46) == c
            &&& all.subrange(46, 54) == d
            &&& all.len() == 54 + seg.len()
        }),
{
    let all = eth + (first + (a + b) + (c + d)) + seg;
    assert(all.subrange(0, 6) =~= eth.subrange(0, 6));
    assert(all.subrange(6, 12) =~= eth.subrange(6, 12));
    assert(all.subrange(12, 14) =~= eth.subrange(12, 14));
    assert(all.subrange(22, 30) =~= a);
    assert(all.subrange(30, 38) =~= b);
    assert(all.subrange(38, 46) =~= c);
    assert(all.subrange(46, 54) =~= d);
}

#[verifier::spinoff_prover]
proof fn lemma_front_v6(
    dst_mac: MacAddr,
    src_mac: MacAddr,
    src: Ipv6Addr,
    dst: Ipv6Addr,
    payload_len: int,
    seg: Seq<u8>,
)
    requires
        seg.len() >= 20,
    ensures
        ({
            let front = eth_header(dst_mac, src_mac, 0x86dd) + ipv6_header(src, dst, payload_len);
            let b = front + seg;
            &&& front.len() == 54
            &&& tcp_start(b) == Some(54int)
            &&& b.subrange(6, 12) == src_mac.octets()
            &&& b.subrange(0, 6) == dst_mac.octets()
            &&& wire::from_be16(b.subrange(12, 14)) == 0x86dd
            &&& wire::from_be64(b.subrange(22, 30)) == src.high
            &&& wire::from_be64(b.subrange(30, 38)) == src.low
            &&& wire::from_be64(b.subrange(38, 46)) == dst.high
            &&& wire::from_be64(b.subrange(46, 54)) == dst.low
        }),
{
    let eth = eth_header(dst_mac, src_mac, 0x86dd);
    let first = seq![0x60u8, 0x00, 0x00, 0x00] + wire::be16(payload_len) + seq![6u8, 64];
    lemma_eth_fields(dst_mac, src_mac, 0x86dd);
    lemma_v6_pieces(
        eth,
        first,
        wire::be64(src.high as int),
        wire::be64(src.low as int),
        wire::be64(dst.high as int),
        wire::be64(dst.low as int),
        seg,
    );
    wire::be16_reads_back(0x86dd);
    wire::be64_reads_back(src.high as int);
    wire::be64_reads_back(src.low as int);
    wire::be64_reads_back(dst.high as int);
    wire::be64_reads_back(dst.low as int);
}

/// A built frame parses, and the parser finds in it the addresses, the fields, the
/// options and the data it was built from.
pub proof fn built_frame_parses_back(
    src_mac: MacAddr,
    dst_mac: MacAddr,
    local: IpAddr,
    remote: IpAddr,
    f: TcpFields,
    ip_id: u16,
    data: Seq<u8>,
)
    requires
        frame_fits(local, remote, f, data.len() as int),
    ensures
        ({
            let b = frame(src_mac, dst_mac, local, remote, f, ip_id, data);
            &&& tcp_start(b) is Some
            &&& carries(b, tcp_start(b)->0, f, data)
            &&& b.subrange(6, 12) == src_mac.octets()
            &&& b.subrange(0, 6) == dst_mac.octets()
            &&& forall|ip: IPPacket| #[trigger]
                addresses_in(ip, b) ==> ip.source() == local && ip.destination() == remote
        }),
{
    reveal(frame);
    let b = frame(src_mac, dst_mac, local, remote, f, ip_id, data);
    let n = segment_len(f, data.len() as int);
    match (local, remote) {
        (IpAddr::V4(src), IpAddr::V4(dst)) => {
            let ip_ck = internet_checksum(ipv4_header(src, dst, 20 + n, ip_id, 0));
            let front = eth_header(dst_mac, src_mac, 0x0800) + ipv4_header(
                src,
                dst,
                20 + n,
                ip_id,
                ip_ck,
            );
            let ck = internet_checksum(pseudo_v4(src, dst, n) + tcp_segment(f, 0, data));
            let seg = tcp_segment(f, ck, data);
            lemma_segment_len(f, ck, data);
            lemma_front_v4(dst_mac, src_mac, src, dst, 20 + n, ip_id, ip_ck, seg);
            lemma_segment_carries(front, f, ck, data);
        },
        (IpAddr::V6(src), IpAddr::V6(dst)) => {
            let front = eth_header(dst_mac, src_mac, 0x86dd) + ipv6_header(src, dst, n);
            let ck = internet_checksum(pseudo_v6(src, dst, n) + tcp_segment(f, 0, data));
            let seg = tcp_segment(f, ck, data);
            lemma_segment_len(f, ck, data);
            lemma_front_v6(dst_mac, src_mac, src, dst, n, seg);
            lemma_segment_carries(front, f, ck, data);
        },
        _ => {},
    }
}

/// A receiver reads the sender's timestamp out of the options that the sender wrote.
pub proof fn timestamp_is_found(syn: bool, tsval: u32, tsecr: u32)
    ensures
        tsval_in(tcp_options(syn, Some((tsval, tsecr)))) == Some(tsval),
{
    reveal(tsval_in);
    let opts = tcp_options(syn, Some((tsval, tsecr)));
    let tail = seq![0x01u8, 0x01, 0x08, 0x0a] + wire::be32(tsval as int) + wire::be32(tsecr as int);
    wire::wire_integers_round_trip(tsval as int);
    assert(timestamps_in(tail) == Some(wire::be32(tsval as int) + wire::be32(tsecr as int))) by {
        let t1 = tail.skip(1);
        let t2 = tail.skip(2);
        assert(t1.skip(1) =~= t2);
        assert(t2.subrange(2, 10) =~= wire::be32(tsval as int) + wire::be32(tsecr as int));
        assert(timestamps_in(t2) == Some(t2.subrange(2, 10)));
        assert(timestamps_in(t1) == timestamps_in(t2));
    }
    let data = wire::be32(tsval as int) + wire::be32(tsecr as int);
    assert(data.subrange(0, 4) =~= wire::be32(tsval as int));
    if syn {
        let o4 = opts.skip(4);
        let o5 = opts.skip(5);
        let o6 = opts.skip(6);
        let o8 = opts.skip(8);
        let o9 = opts.skip(9);
        let o12 = opts.skip(12);
        assert(o4.skip(1) =~= o5);
        assert(o5.skip(1) =~= o6);
        assert(o6.skip(2) =~= o8);
        assert(o8.skip(1) =~= o9);
        assert(o9.skip(3) =~= o12);
        assert(o12 =~= tail);
        assert(timestamps_in(o9) == timestamps_in(o12));
        assert(timestamps_in(o8) == timestamps_in(o9));
        assert(timestamps_in(o6) == timestamps_in(o8));
        assert(timestamps_in(o5) == timestamps_in(o6));
        assert(timestamps_in(o4) == timestamps_in(o5));
        assert(timestamps_in(opts) == timestamps_in(o4));
    } else {
        assert(opts =~= tail);
    }
}

} // verus!

//! Fixed-width integers on the wire and a few operations on byte buffers.

use vstd::prelude::*;
use vstd::slice::*;

verus! {

/// The lowest byte of `n`.
pub open spec fn low_byte(n: int) -> u8 {
    (n % 256) as u8
}

/// `n` modulo 2^16, most significant byte first.
pub open spec fn be16(n: int) -> Seq<u8> {
    seq![low_byte(n / 0x100), low_byte(n)]
}

/// `n` modulo 2^24, most significant byte first.
pub open spec fn be24(n: int) -> Seq<u8> {
    seq![low_byte(n / 0x10000), low_byte(n / 0x100), low_byte(n)]
}

/// `n` modulo 2^32, most significant byte first.
pub open spec fn be32(n: int) -> Seq<u8> {
    seq![
        low_byte(n / 0x1000000),
        low_byte(n / 0x10000),
        low_byte(n / 0x100),
        low_byte(n),
    ]
}

/// `n` modulo 2^64, most significant byte first.
pub open spec fn be64(n: int) -> Seq<u8> {
    be32(n / 0x100000000) + be32(n)
}

/// `n` modulo 2^16, least significant byte first.
pub open spec fn le16(n: int) -> Seq<u8> {
    seq![low_byte(n), low_byte(n / 0x100)]
}

/// `n` modulo 2^32, least significant byte first.
pub open spec fn le32(n: int) -> Seq<u8> {
    seq![
        low_byte(n),
        low_byte(n / 0x100),
        low_byte(n / 0x10000),
        low_byte(n / 0x1000000),
    ]
}

/// The number that four bytes spell, least significant first.
pub open spec fn from_le32(s: Seq<u8>) -> int {
    s[3] * 0x1000000 + s[2] * 0x10000 + s[1] * 0x100 + s[0]
}

/// The number that two bytes spell, most significant first.
pub open spec fn from_be16(s: Seq<u8>) -> int {
    s[0] * 0x100 + s[1]
}

/// The number that four bytes spell, most significant first.
pub open spec fn from_be32(s: Seq<u8>) -> int {
    s[0] * 0x1000000 + s[1] * 0x10000 + s[2] * 0x100 + s[3]
}

/// The number that eight bytes spell, most significant first.
pub open spec fn from_be64(s: Seq<u8>) -> int {
    from_be32(s.subrange(0, 4)) * 0x100000000 + from_be32(s.subrange(4, 8))
}

/// The number that two bytes spell, least significant first.
pub open spec fn from_le16(s: Seq<u8>) -> int {
    s[1] * 0x100 + s[0]
}

/// The pieces, joined.
pub open spec fn joined(pieces: Seq<Seq<u8>>) -> Seq<u8>
    decreases pieces.len(),
{
    if pieces.len() == 0 {
        Seq::empty()
    } else {
        pieces[0] + joined(pieces.drop_first())
    }
}

/// Reading what was written gives the number back.
pub proof fn wire_integers_round_trip(n: int)
    ensures
        0 <= n < 0x10000 ==> from_be16(be16(n)) == n && from_le16(le16(n)) == n,
        0 <= n < 0x100000000 ==> from_be32(be32(n)) == n,
        0 <= n < 0x10000000000000000 ==> from_be64(be64(n)) == n,
{
    if 0 <= n < 0x100000000 {
        lemma_be32_spells(n);
    }
    if 0 <= n < 0x10000000000000000 {
        let hi = n / 0x100000000;
        let lo = n % 0x100000000;
        lemma_be32_spells(hi);
        lemma_be32_spells(lo);
        fields_drop_high_bits(n);
        assert(be64(n).subrange(0, 4) =~= be32(hi));
        assert(be64(n).subrange(4, 8) =~= be32(n));
    }
}

/// Two bytes, most significant first, read back.
pub proof fn be16_reads_back(n: int)
    requires
        0 <= n < 0x10000,
    ensures
        from_be16(be16(n)) == n,
{
}

/// Four bytes, most significant first, read back.
pub proof fn be32_reads_back(n: int)
    requires
        0 <= n < 0x100000000,
    ensures
        from_be32(be32(n)) == n,
{
    lemma_be32_spells(n);
}

/// A four-byte field holds a number modulo 2^32.
pub proof fn le32_drops_high_bits(n: int)
    requires
        0 <= n,
    ensures
        le32(n % 0x100000000) == le32(n),
{
    let m = n % 0x100000000;
    fields_drop_high_bits(n);
    assert(be32(m)[0] == be32(n)[0] && be32(m)[1] == be32(n)[1]);
    assert(be32(m)[2] == be32(n)[2] && be32(m)[3] == be32(n)[3]);
    assert(le32(m) =~= le32(n));
}

/// Four bytes, least significant first, read back.
pub proof fn le32_reads_back(n: int)
    requires
        0 <= n < 0x100000000,
    ensures
        from_le32(le32(n)) == n,
{
    lemma_be32_spells(n);
}

/// Eight bytes, most significant first, read back.
pub proof fn be64_reads_back(n: int)
    requires
        0 <= n < 0x10000000000000000,
    ensures
        from_be64(be64(n)) == n,
        be64(n).len() == 8,
{
    wire_integers_round_trip(n);
}

proof fn lemma_be32_spells(n: int)
    requires
        0 <= n < 0x100000000,
    ensures
        from_be32(be32(n)) == n,
{
    assert((n / 0x1000000 % 256) * 0x1000000 + (n / 0x10000 % 256) * 0x10000 + (n / 0x100 % 256)
        * 0x100 + n % 256 == n) by (nonlinear_arith)
        requires
            0 <= n < 0x100000000,
    ;
}

/// The byte of `n` at `unit` does not depend on what lies above it.
proof fn lemma_byte_survives(n: int, unit: int, above: int)
    requires
        0 <= n,
        0 < unit,
        0 < above,
    ensures
        n % (unit * 256 * above) / unit % 256 == n / unit % 256,
{
    let width = unit * 256 * above;
    assert(width > 0) by (nonlinear_arith)
        requires
            width == unit * 256 * above,
            0 < unit,
            0 < above,
    ;
    let q = n / width;
    let r = n % width;
    vstd::arithmetic::div_mod::lemma_fundamental_div_mod(n, width);
    let j = q * above * 256;
    assert(width * q == j * unit) by (nonlinear_arith)
        requires
            width == unit * 256 * above,
            j == q * above * 256,
    ;
    vstd::arithmetic::div_mod::lemma_hoist_over_denominator(r, j, unit as nat);
    vstd::arithmetic::div_mod::lemma_mod_multiples_vanish(q * above, r / unit, 256);
}

/// Bits above a field's width do not reach it.
pub proof fn fields_drop_high_bits(n: int)
    requires
        0 <= n,
    ensures
        be16(n % 0x10000) == be16(n),
        be24(n % 0x1000000) == be24(n),
        be32(n % 0x100000000) == be32(n),
{
    lemma_byte_survives(n, 1, 0x100);
    lemma_byte_survives(n, 1, 0x10000);
    lemma_byte_survives(n, 1, 0x1000000);
    lemma_byte_survives(n, 0x100, 1);
    lemma_byte_survives(n, 0x100, 0x100);
    lemma_byte_survives(n, 0x100, 0x10000);
    lemma_byte_survives(n, 0x10000, 1);
    lemma_byte_survives(n, 0x10000, 0x100);
    lemma_byte_survives(n, 0x1000000, 1);
}

/// Appends `data` to `buf`.
pub fn append(buf: &mut Vec<u8>, data: &[u8])
    ensures
        final(buf)@ == old(buf)@ + data@,
{
    buf.extend_from_slice(data);
    assert(buf@ =~= old(buf)@ + data@);
}

/// Appends `count` zero bytes to `buf`.
pub fn append_zeros(buf: &mut Vec<u8>, count: usize)
    ensures
        final(buf)@ == old(buf)@ + Seq::new(count as nat, |i: int| 0u8),
{
    let zeros: Vec<u8> = vec![0u8; count];
    buf.extend_from_slice(&zeros);
    assert(buf@ =~= old(buf)@ + Seq::new(count as nat, |i: int| 0u8));
}

/// Appends `v` in two bytes, most significant first.
pub fn append_be16(buf: &mut Vec<u8>, v: u16)
    ensures
        final(buf)@ == old(buf)@ + be16(v as int),
{
    buf.push((v / 0x100) as u8);
    buf.push((v % 0x100) as u8);
    assert(buf@ =~= old(buf)@ + be16(v as int));
}

/// Appends `v` in three bytes, most significant first; higher bits are dropped.
pub fn append_be24(buf: &mut Vec<u8>, v: u32)
    ensures
        final(buf)@ == old(buf)@ + be24(v as int),
{
    buf.push((v / 0x10000 % 0x100) as u8);
    buf.push((v / 0x100 % 0x100) as u8);
    buf.push((v % 0x100) as u8);
    assert(buf@ =~= old(buf)@ + be24(v as int));
}

/// Appends `v` in four bytes, most significant first.
pub fn append_be32(buf: &mut Vec<u8>, v: u32)
    ensures
        final(buf)@ == old(buf)@ + be32(v as int),
{
    buf.push((v / 0x1000000) as u8);
    buf.push((v / 0x10000 % 0x100) as u8);
    buf.push((v / 0x100 % 0x100) as u8);
    buf.push((v % 0x100) as u8);
    assert(buf@ =~= old(buf)@ + be32(v as int));
}

/// Appends `v` in eight bytes, most significant first.
pub fn append_be64(buf: &mut Vec<u8>, v: u64)
    ensures
        final(buf)@ == old(buf)@ + be64(v as int),
{
    append_be32(buf, (v / 0x100000000) as u32);
    append_be32(buf, (v % 0x100000000) as u32);
    proof {
        fields_drop_high_bits(v as int);
        fields_drop_high_bits(v as int / 0x100000000);
    }
    assert(buf@ =~= old(buf)@ + be64(v as int));
}

/// Appends `v` in two bytes, least significant first.
pub fn append_le16(buf: &mut Vec<u8>, v: u16)
    ensures
        final(buf)@ == old(buf)@ + le16(v as int),
{
    buf.push((v % 0x100) as u8);
    buf.push((v / 0x100) as u8);
    assert(buf@ =~= old(buf)@ + le16(v as int));
}

/// Reads two bytes at `at`, most significant first.
pub fn read_be16(buf: &[u8], at: usize) -> (r: u16)
    requires
        at + 2 <= buf@.len(),
    ensures
        r == from_be16(buf@.subrange(at as int, at + 2)),
{
    let n: usize = buf.len();
    buf[at] as u16 * 0x100 + buf[at + 1] as u16
}

/// Reads four bytes at `at`, most significant first.
pub fn read_be32(buf: &[u8], at: usize) -> (r: u32)
    requires
        at + 4 <= buf@.len(),
    ensures
        r == from_be32(buf@.subrange(at as int, at + 4)),
{
    let n: usize = buf.len();
    buf[at] as u32 * 0x1000000 + buf[at + 1] as u32 * 0x10000 + buf[at + 2] as u32 * 0x100 + buf[at
        + 3] as u32
}

/// Reads four bytes at `at`, least significant first.
pub fn read_le32(buf: &[u8], at: usize) -> (r: u32)
    requires
        at + 4 <= buf@.len(),
    ensures
        r == from_le32(buf@.subrange(at as int, at + 4)),
{
    let n: usize = buf.len();
    buf[at + 3] as u32 * 0x1000000 + buf[at + 2] as u32 * 0x10000 + buf[at + 1] as u32 * 0x100
        + buf[at] as u32
}

/// Reads eight bytes at `at`, most significant first.
pub fn read_be64(buf: &[u8], at: usize) -> (r: u64)
    requires
        at + 8 <= buf@.len(),
    ensures
        r == from_be64(buf@.subrange(at as int, at + 8)),
{
    let n: usize = buf.len();
    let hi: u32 = read_be32(buf, at);
    let lo: u32 = read_be32(buf, at + 4);
    let ghost s = buf@.subrange(at as int, at + 8);
    assert(s.subrange(0, 4) =~= buf@.subrange(at as int, at + 4));
    assert(s.subrange(4, 8) =~= buf@.subrange(at + 4, at + 8));
    hi as u64 * 0x100000000 + lo as u64
}

/// Reads two bytes at `at`, least significant first.
pub fn read_le16(buf: &[u8], at: usize) -> (r: u16)
    requires
        at + 2 <= buf@.len(),
    ensures
        r == from_le16(buf@.subrange(at as int, at + 2)),
{
    let n: usize = buf.len();
    buf[at + 1] as u16 * 0x100 + buf[at] as u16
}

/// Copies the bytes from `from` up to `to`.
pub fn copy_range(buf: &[u8], from: usize, to: usize) -> (r: Vec<u8>)
    requires
        from <= to <= buf@.len(),
    ensures
        r@ == buf@.subrange(from as int, to as int),
{
    slice_to_vec(slice_subrange(buf, from, to))
}

/// Removes the first `count` bytes.
pub fn drop_front(buf: &mut Vec<u8>, count: usize)
    requires
        count <= old(buf)@.len(),
    ensures
        final(buf)@ == old(buf)@.subrange(count as int, old(buf)@.len() as int),
{
    let rest = copy_range(buf.as_slice(), count, buf.len());
    *buf = rest;
}

} // verus!

//! Numbers in byte sequences, as the laws read them.

use crate::wire;
use vstd::prelude::*;

verus! {

/// The number in the two bytes at `at`, most significant first.
pub open spec fn u16_at(b: Seq<u8>, at: int) -> int {
    b[at] * 0x100 + b[at + 1]
}

/// The number in the four bytes at `at`, most significant first.
pub open spec fn u32_at(b: Seq<u8>, at: int) -> int {
    b[at] * 0x1000000 + b[at + 1] * 0x10000 + b[at + 2] * 0x100 + b[at + 3]
}

/// The number in the eight bytes at `at`, most significant first.
pub open spec fn u64_at(b: Seq<u8>, at: int) -> int {
    u32_at(b, at) * 0x100000000 + u32_at(b, at + 4)
}

/// The sum of the 16-bit words from `at` on; a last odd byte is the high byte of a word.
pub open spec fn words_from(b: Seq<u8>, at: int) -> int
    decreases b.len() - at,
{
    if at >= b.len() {
        0
    } else if at + 1 == b.len() {
        b[at] * 0x100
    } else {
        u16_at(b, at) + words_from(b, at + 2)
    }
}

pub(crate) proof fn lemma_be16(n: int)
    requires
        0 <= n < 0x10000,
    ensures
        wire::be16(n).len() == 2,
        u16_at(wire::be16(n), 0) == n,
{
    wire::be16_reads_back(n);
}

pub(crate) proof fn lemma_be32(n: int)
    requires
        0 <= n < 0x100000000,
    ensures
        wire::be32(n).len() == 4,
        u32_at(wire::be32(n), 0) == n,
{
    wire::be32_reads_back(n);
}

pub(crate) proof fn lemma_be64(n: int)
    requires
        0 <= n < 0x10000000000000000,
    ensures
        wire::be64(n).len() == 8,
        u64_at(wire::be64(n), 0) == n,
{
    wire::be64_reads_back(n);
    let s = wire::be64(n);
    assert(s.subrange(0, 4)[0] == s[0] && s.subrange(0, 4)[1] == s[1]);
    assert(s.subrange(0, 4)[2] == s[2] && s.subrange(0, 4)[3] == s[3]);
    assert(s.subrange(4, 8)[0] == s[4] && s.subrange(4, 8)[1] == s[5]);
    assert(s.subrange(4, 8)[2] == s[6] && s.subrange(4, 8)[3] == s[7]);
}

/// A part that stands at `at` holds the same numbers there.
pub(crate) proof fn lemma_u16_in(b: Seq<u8>, at: int, part: Seq<u8>)
    requires
        0 <= at,
        part.len() == 2,
        at + 2 <= b.len(),
        b.subrange(at, at + 2) == part,
    ensures
        u16_at(b, at) == u16_at(part, 0),
{
    assert(part[0] == b[at] && part[1] == b[at + 1]);
}

pub(crate) proof fn lemma_u32_in(b: Seq<u8>, at: int, part: Seq<u8>)
    requires
        0 <= at,
        part.len() == 4,
        at + 4 <= b.len(),
        b.subrange(at, at + 4) == part,
    ensures
        u32_at(b, at) == u32_at(part, 0),
{
    assert(part[0] == b[at] && part[1] == b[at + 1]);
    assert(part[2] == b[at + 2] && part[3] == b[at + 3]);
}

pub(crate) proof fn lemma_u64_in(b: Seq<u8>, at: int, part: Seq<u8>)
    requires
        0 <= at,
        part.len() == 8,
        at + 8 <= b.len(),
        b.subrange(at, at + 8) == part,
    ensures
        u64_at(b, at) == u64_at(part, 0),
{
    assert(part[0] == b[at] && part[1] == b[at + 1]);
    assert(part[2] == b[at + 2] && part[3] == b[at + 3]);
    assert(part[4] == b[at + 4] && part[5] == b[at + 5]);
    assert(part[6] == b[at + 6] && part[7] == b[at + 7]);
}

/// What `wire` reads at a place is what stands there.
pub(crate) proof fn lemma_reads(b: Seq<u8>, at: int)
    requires
        0 <= at,
    ensures
        at + 2 <= b.len() ==> wire::from_be16(b.subrange(at, at + 2)) == u16_at(b, at),
        at + 4 <= b.len() ==> wire::from_be32(b.subrange(at, at + 4)) == u32_at(b, at),
        at + 8 <= b.len() ==> wire::from_be64(b.subrange(at, at + 8)) == u64_at(b, at),
{
    if at + 2 <= b.len() {
        let s = b.subrange(at, at + 2);
        assert(s[0] == b[at] && s[1] == b[at + 1]);
    }
    if at + 4 <= b.len() {
        let s = b.subrange(at, at + 4);
        assert(s[0] == b[at] && s[1] == b[at + 1] && s[2] == b[at + 2] && s[3] == b[at + 3]);
    }
    if at + 8 <= b.len() {
        let s = b.subrange(at, at + 8);
        let h = s.subrange(0, 4);
        let l = s.subrange(4, 8);
        assert(h[0] == b[at] && h[1] == b[at + 1] && h[2] == b[at + 2] && h[3] == b[at + 3]);
        assert(l[0] == b[at + 4] && l[1] == b[at + 5] && l[2] == b[at + 6] && l[3] == b[at + 7]);
    }
}

/// The numbers that the library writes and reads are in network order.
pub proof fn numbers_are_in_network_order(n: int)
    ensures
        0 <= n < 0x10000 ==> u16_at(wire::be16(n), 0) == n && wire::be16(n).len() == 2,
        0 <= n < 0x100000000 ==> u32_at(wire::be32(n), 0) == n && wire::be32(n).len() == 4,
        0 <= n < 0x10000000000000000 ==> u64_at(wire::be64(n), 0) == n && wire::be64(n).len() == 8,
        0 <= n < 0x1000000 ==> {
            let s = wire::be24(n);
            s.len() == 3 && s[0] * 0x10000 + s[1] * 0x100 + s[2] == n
        },
        0 <= n < 0x10000 ==> {
            let s = wire::le16(n);
            s.len() == 2 && s[0] + s[1] * 0x100 == n
        },
        0 <= n < 0x100000000 ==> {
            let s = wire::le32(n);
            s.len() == 4 && s[0] + s[1] * 0x100 + s[2] * 0x10000 + s[3] * 0x1000000 == n
        },
{
    if 0 <= n < 0x10000 {
        lemma_be16(n);
    }
    if 0 <= n < 0x100000000 {
        lemma_be32(n);
        wire::le32_reads_back(n);
    }
    if 0 <= n < 0x10000000000000000 {
        lemma_be64(n);
    }
}

pub(crate) proof fn lemma_words_skip(b: Seq<u8>, at: int)
    requires
        0 <= at <= b.len(),
    ensures
        words_from(b, at) == words_from(b.skip(at), 0),
{
    lemma_words_shift(b, at, 0);
}

proof fn lemma_words_shift(b: Seq<u8>, at: int, k: int)
    requires
        0 <= at <= b.len(),
        0 <= k,
    ensures
        words_from(b, at + k) == words_from(b.skip(at), k),
    decreases b.len() - at - k,
{
    let s = b.skip(at);
    if at + k < b.len() {
        assert(s[k] == b[at + k]);
        if at + k + 1 < b.len() {
            assert(s[k + 1] == b[at + k + 1]);
            lemma_words_shift(b, at, k + 2);
        }
    }
}

// --- Calls ---

/// Numbers are appended behind what is there, most significant byte first.
pub proof fn numbers_are_appended(
    a: &mut Vec<u8>,
    b: &mut Vec<u8>,
    c: &mut Vec<u8>,
    d: &mut Vec<u8>,
    v16: u16,
    v24: u32,
    v32: u32,
    v64: u64,
)
    requires
        call_ensures(wire::append_be16, (a, v16), ()),
        call_ensures(wire::append_be24, (b, v24), ()),
        call_ensures(wire::append_be32, (c, v32), ()),
        call_ensures(wire::append_be64, (d, v64), ()),
        v24 < 0x1000000,
    ensures
        final(a)@.len() == old(a)@.len() + 2,
        final(a)@.subrange(0, old(a)@.len() as int) == old(a)@,
        u16_at(final(a)@, old(a)@.len() as int) == v16,
        final(b)@.len() == old(b)@.len() + 3,
        final(b)@.subrange(0, old(b)@.len() as int) == old(b)@,
        ({
            let n = old(b)@.len() as int;
            final(b)@[n] * 0x10000 + final(b)@[n + 1] * 0x100 + final(b)@[n + 2] == v24
        }),
        final(c)@.len() == old(c)@.len() + 4,
        final(c)@.subrange(0, old(c)@.len() as int) == old(c)@,
        u32_at(final(c)@, old(c)@.len() as int) == v32,
        final(d)@.len() == old(d)@.len() + 8,
        final(d)@.subrange(0, old(d)@.len() as int) == old(d)@,
        u64_at(final(d)@, old(d)@.len() as int) == v64,
{
    lemma_be16(v16 as int);
    numbers_are_in_network_order(v24 as int);
    lemma_be32(v32 as int);
    lemma_be64(v64 as int);
    let (i, j, k, l) = (
        old(a)@.len() as int,
        old(b)@.len() as int,
        old(c)@.len() as int,
        old(d)@.len() as int,
    );
    assert(final(a)@.subrange(i, i + 2) =~= wire::be16(v16 as int));
    lemma_u16_in(final(a)@, i, wire::be16(v16 as int));
    assert(final(b)@.subrange(j, j + 3) =~= wire::be24(v24 as int));
    assert(final(c)@.subrange(k, k + 4) =~= wire::be32(v32 as int));
    lemma_u32_in(final(c)@, k, wire::be32(v32 as int));
    assert(final(d)@.subrange(l, l + 8) =~= wire::be64(v64 as int));
    lemma_u64_in(final(d)@, l, wire::be64(v64 as int));
    assert(final(a)@.subrange(0, i) =~= old(a)@);
    assert(final(b)@.subrange(0, j) =~= old(b)@);
    assert(final(c)@.subrange(0, k) =~= old(c)@);
    assert(final(d)@.subrange(0, l) =~= old(d)@);
    let t = wire::be24(v24 as int);
    assert(final(b)@[j] == t[0] && final(b)@[j + 1] == t[1] && final(b)@[j + 2] == t[2]);
}

/// Numbers are read where they stand, in either order of bytes.
pub proof fn numbers_are_read_where_they_stand(
    buf: &[u8],
    at: usize,
    b16: u16,
    b32: u32,
    b64: u64,
    l16: u16,
    l32: u32,
)
    requires
        call_ensures(wire::read_be16, (buf, at), b16),
        call_ensures(wire::read_be32, (buf, at), b32),
        call_ensures(wire::read_be64, (buf, at), b64),
        call_ensures(wire::read_le16, (buf, at), l16),
        call_ensures(wire::read_le32, (buf, at), l32),
        at + 8 <= buf@.len(),
    ensures
        b16 == u16_at(buf@, at as int),
        b32 == u32_at(buf@, at as int),
        b64 == u64_at(buf@, at as int),
        l16 == buf@[at as int] + buf@[at + 1] * 0x100,
        l32 == buf@[at as int] + buf@[at + 1] * 0x100 + buf@[at + 2] * 0x10000 + buf@[at + 3]
            * 0x1000000,
{
    lemma_reads(buf@, at as int);
    let s = buf@.subrange(at as int, at + 2);
    let t = buf@.subrange(at as int, at + 4);
    assert(s[0] == buf@[at as int] && s[1] == buf@[at + 1]);
    assert(t[0] == buf@[at as int] && t[1] == buf@[at + 1] && t[2] == buf@[at + 2] && t[3]
        == buf@[at + 3]);
}

/// Bytes are appended, copied and dropped as they are.
pub proof fn bytes_are_moved_as_they_are(
    a: &mut Vec<u8>,
    z: &mut Vec<u8>,
    d: &mut Vec<u8>,
    data: &[u8],
    count: usize,
    from: usize,
    to: usize,
    part: Vec<u8>,
)
    requires
        call_ensures(wire::append, (a, data), ()),
        call_ensures(wire::append_zeros, (z, count), ()),
        call_ensures(wire::drop_front, (d, count), ()),
        call_ensures(wire::copy_range, (data, from, to), part),
        count <= old(d)@.len(),
        from <= to <= data@.len(),
    ensures
        final(a)@ == old(a)@ + data@,
        final(z)@.len() == old(z)@.len() + count,
        final(z)@.subrange(0, old(z)@.len() as int) == old(z)@,
        forall|i: int| old(z)@.len() <= i < final(z)@.len() ==> #[trigger] final(z)@[i] == 0,
        final(d)@ == old(d)@.subrange(count as int, old(d)@.len() as int),
        part@ == data@.subrange(from as int, to as int),
{
    assert(final(z)@.subrange(0, old(z)@.len() as int) =~= old(z)@);
}

/// Two bytes are appended, least significant first.
pub proof fn small_number_is_appended(buf: &mut Vec<u8>, v: u16)
    requires
        call_ensures(wire::append_le16, (buf, v), ()),
    ensures
        final(buf)@.len() == old(buf)@.len() + 2,
        final(buf)@.take(old(buf)@.len() as int) == old(buf)@,
        final(buf)@[old(buf)@.len() as int] + 256 * final(buf)@[old(buf)@.len() as int + 1] == v,
{
    assert(final(buf)@.take(old(buf)@.len() as int) =~= old(buf)@);
}

} // verus!

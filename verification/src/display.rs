//! Numbers and addresses as text.

use crate::net::{IpAddr, Ipv4Addr, Ipv6Addr};
use crate::text::{chars_of, same};
use vstd::prelude::*;
use vstd::string::*;

verus! {

/// The digit that stands for `d`.
pub open spec fn digit(d: int) -> char {
    if d == 0 {
        '0'
    } else if d == 1 {
        '1'
    } else if d == 2 {
        '2'
    } else if d == 3 {
        '3'
    } else if d == 4 {
        '4'
    } else if d == 5 {
        '5'
    } else if d == 6 {
        '6'
    } else if d == 7 {
        '7'
    } else if d == 8 {
        '8'
    } else if d == 9 {
        '9'
    } else if d == 10 {
        'a'
    } else if d == 11 {
        'b'
    } else if d == 12 {
        'c'
    } else if d == 13 {
        'd'
    } else if d == 14 {
        'e'
    } else {
        'f'
    }
}

/// `n` in decimal, without leading zeros.
pub open spec fn decimal(n: int) -> Seq<char>
    decreases n,
{
    if n < 10 {
        seq![digit(n)]
    } else {
        decimal(n / 10).push(digit(n % 10))
    }
}

/// `n` in lower-case hexadecimal, without leading zeros.
pub open spec fn hex(n: int) -> Seq<char>
    decreases n,
{
    if n < 16 {
        seq![digit(n)]
    } else {
        hex(n / 16).push(digit(n % 16))
    }
}

fn append_digit(out: &mut String, d: u64)
    requires
        d < 16,
    ensures
        final(out)@ == old(out)@.push(digit(d as int)),
{
    proof {
        reveal_strlit("0");
        reveal_strlit("1");
        reveal_strlit("2");
        reveal_strlit("3");
        reveal_strlit("4");
        reveal_strlit("5");
        reveal_strlit("6");
        reveal_strlit("7");
        reveal_strlit("8");
        reveal_strlit("9");
        reveal_strlit("a");
        reveal_strlit("b");
        reveal_strlit("c");
        reveal_strlit("d");
        reveal_strlit("e");
        reveal_strlit("f");
    }
    let s: &str = match d {
        0 => "0",
        1 => "1",
        2 => "2",
        3 => "3",
        4 => "4",
        5 => "5",
        6 => "6",
        7 => "7",
        8 => "8",
        9 => "9",
        10 => "a",
        11 => "b",
        12 => "c",
        13 => "d",
        14 => "e",
        _ => "f",
    };
    assert(s@ =~= seq![digit(d as int)]);
    out.append(s);
    assert(out@ =~= old(out)@.push(digit(d as int)));
}

/// Appends `n` in decimal.
pub fn append_decimal(out: &mut String, n: u64)
    ensures
        final(out)@ == old(out)@ + decimal(n as int),
    decreases n,
{
    if n < 10 {
        append_digit(out, n);
    } else {
        append_decimal(out, n / 10);
        append_digit(out, n % 10);
    }
    assert(out@ =~= old(out)@ + decimal(n as int));
}

/// Appends `n` in hexadecimal.
pub fn append_hex(out: &mut String, n: u64)
    ensures
        final(out)@ == old(out)@ + hex(n as int),
    decreases n,
{
    if n < 16 {
        append_digit(out, n);
    } else {
        append_hex(out, n / 16);
        append_digit(out, n % 16);
    }
    assert(out@ =~= old(out)@ + hex(n as int));
}

/// `n` in decimal.
pub fn decimal_text(n: u64) -> (r: String)
    ensures
        r@ == decimal(n as int),
{
    let mut out = String::new();
    append_decimal(&mut out, n);
    assert(out@ =~= decimal(n as int));
    out
}

// --- IPv4 ---

/// Four numbers with dots between them.
pub open spec fn dotted(a: int, b: int, c: int, d: int) -> Seq<char> {
    decimal(a) + "."@ + decimal(b) + "."@ + decimal(c) + "."@ + decimal(d)
}

/// The address in dotted form.
pub open spec fn ipv4_text(a: Ipv4Addr) -> Seq<char> {
    let n = a.bits as int;
    dotted(n / 0x1000000, n / 0x10000 % 0x100, n / 0x100 % 0x100, n % 0x100)
}

/// Appends the address in dotted form.
pub fn append_ipv4(out: &mut String, a: Ipv4Addr)
    ensures
        final(out)@ == old(out)@ + ipv4_text(a),
{
    let n: u32 = a.bits;
    append_decimal(out, (n / 0x1000000) as u64);
    out.append(".");
    append_decimal(out, (n / 0x10000 % 0x100) as u64);
    out.append(".");
    append_decimal(out, (n / 0x100 % 0x100) as u64);
    out.append(".");
    append_decimal(out, (n % 0x100) as u64);
    assert(out@ =~= old(out)@ + ipv4_text(a));
}

// --- IPv6 ---

/// The eight groups of an address.
pub open spec fn groups(a: Ipv6Addr) -> Seq<int> {
    let h = a.high as int;
    let l = a.low as int;
    seq![
        h / 0x1_0000_0000_0000,
        h / 0x1_0000_0000 % 0x10000,
        h / 0x10000 % 0x10000,
        h % 0x10000,
        l / 0x1_0000_0000_0000,
        l / 0x1_0000_0000 % 0x10000,
        l / 0x10000 % 0x10000,
        l % 0x10000,
    ]
}

/// How many zeros stand in `s` from `i` on.
pub open spec fn zeros_at(s: Seq<int>, i: int) -> int
    decreases s.len() - i,
{
    if 0 <= i < s.len() && s[i] == 0 {
        1 + zeros_at(s, i + 1)
    } else {
        0
    }
}

/// Where the longest run of zeros from `i` on begins; the first of several.
pub open spec fn longest_zeros(s: Seq<int>, i: int) -> int
    decreases s.len() - i,
{
    if i + 1 >= s.len() {
        i
    } else {
        let later = longest_zeros(s, i + 1);
        if zeros_at(s, later) > zeros_at(s, i) {
            later
        } else {
            i
        }
    }
}

/// The numbers in hexadecimal, with colons between them.
pub open spec fn colon_hex(s: Seq<int>) -> Seq<char>
    decreases s.len(),
{
    if s.len() == 0 {
        Seq::empty()
    } else if s.len() == 1 {
        hex(s[0])
    } else {
        colon_hex(s.drop_last()) + ":"@ + hex(s.last())
    }
}

/// The address is an IPv4 address mapped into IPv6.
pub open spec fn is_mapped(a: Ipv6Addr) -> bool {
    a.high == 0 && a.low as int / 0x1_0000_0000 == 0xffff
}

/// The address in its shortest form: the longest run of zero groups, if it has at least
/// two, is left out, and a mapped IPv4 address is shown in dotted form.
pub open spec fn ipv6_text(a: Ipv6Addr) -> Seq<char> {
    let s = groups(a);
    let start = longest_zeros(s, 0);
    let len = zeros_at(s, start);
    if is_mapped(a) {
        "::ffff:"@ + ipv4_text(Ipv4Addr { bits: (a.low as int % 0x1_0000_0000) as u32 })
    } else if len > 1 {
        colon_hex(s.take(start)) + "::"@ + colon_hex(s.skip(start + len))
    } else {
        colon_hex(s)
    }
}

/// The numbers as mathematical integers.
pub open spec fn as_ints(v: Seq<u16>) -> Seq<int> {
    v.map_values(|x: u16| x as int)
}

fn count_zeros(v: &Vec<u16>, from: usize) -> (r: usize)
    requires
        from <= v@.len(),
    ensures
        r == zeros_at(as_ints(v@), from as int),
        from + r <= v@.len(),
    decreases v@.len() - from,
{
    if from < v.len() && v[from] == 0 {
        1 + count_zeros(v, from + 1)
    } else {
        0
    }
}

fn find_zeros(v: &Vec<u16>, from: usize) -> (r: usize)
    requires
        from < v@.len(),
    ensures
        r == longest_zeros(as_ints(v@), from as int),
        from <= r < v@.len(),
    decreases v@.len() - from,
{
    if v.len() - from <= 1 {
        return from;
    }
    let later: usize = find_zeros(v, from + 1);
    if count_zeros(v, later) > count_zeros(v, from) {
        later
    } else {
        from
    }
}

fn append_groups(out: &mut String, v: &Vec<u16>, from: usize, to: usize)
    requires
        from <= to <= v@.len(),
    ensures
        final(out)@ == old(out)@ + colon_hex(as_ints(v@).subrange(from as int, to as int)),
    decreases to - from,
{
    let ghost part = as_ints(v@).subrange(from as int, to as int);
    if from == to {
        assert(part.len() == 0);
        assert(out@ =~= old(out)@ + colon_hex(part));
        return;
    }
    let last: u16 = v[to - 1];
    assert(part.last() == last as int);
    if to - from > 1 {
        assert(part.drop_last() =~= as_ints(v@).subrange(from as int, to - 1));
        append_groups(out, v, from, to - 1);
        out.append(":");
    }
    append_hex(out, last as u64);
    assert(out@ =~= old(out)@ + colon_hex(part));
}

fn groups_of(a: Ipv6Addr) -> (r: Vec<u16>)
    ensures
        r@.len() == 8,
        as_ints(r@) == groups(a),
{
    let h: u64 = a.high;
    let l: u64 = a.low;
    let mut v: Vec<u16> = Vec::new();
    v.push((h / 0x1_0000_0000_0000) as u16);
    v.push((h / 0x1_0000_0000 % 0x10000) as u16);
    v.push((h / 0x10000 % 0x10000) as u16);
    v.push((h % 0x10000) as u16);
    v.push((l / 0x1_0000_0000_0000) as u16);
    v.push((l / 0x1_0000_0000 % 0x10000) as u16);
    v.push((l / 0x10000 % 0x10000) as u16);
    v.push((l % 0x10000) as u16);
    assert(as_ints(v@) =~= groups(a));
    v
}

/// Appends the address in its shortest form.
pub fn append_ipv6(out: &mut String, a: Ipv6Addr)
    ensures
        final(out)@ == old(out)@ + ipv6_text(a),
{
    if a.high == 0 && a.low / 0x1_0000_0000 == 0xffff {
        out.append("::ffff:");
        append_ipv4(out, Ipv4Addr { bits: (a.low % 0x1_0000_0000) as u32 });
        assert(out@ =~= old(out)@ + ipv6_text(a));
        return;
    }
    let v = groups_of(a);
    let start: usize = find_zeros(&v, 0);
    let len: usize = count_zeros(&v, start);
    if len > 1 {
        assert(as_ints(v@).subrange(0, start as int) =~= groups(a).take(start as int));
        assert(as_ints(v@).subrange(start + len, 8) =~= groups(a).skip(start + len));
        append_groups(out, &v, 0, start);
        out.append("::");
        append_groups(out, &v, start + len, 8);
    } else {
        assert(as_ints(v@).subrange(0, 8) =~= groups(a));
        append_groups(out, &v, 0, 8);
    }
    assert(out@ =~= old(out)@ + ipv6_text(a));
}

// --- Either ---

/// The address as text, without brackets.
pub open spec fn ip_text(ip: IpAddr) -> Seq<char> {
    match ip {
        IpAddr::V4(a) => ipv4_text(a),
        IpAddr::V6(a) => ipv6_text(a),
    }
}

/// Appends the address, without brackets.
pub fn append_ip(out: &mut String, ip: IpAddr)
    ensures
        final(out)@ == old(out)@ + ip_text(ip),
{
    match ip {
        IpAddr::V4(a) => append_ipv4(out, a),
        IpAddr::V6(a) => append_ipv6(out, a),
    }
}

// --- Reading IPv4 addresses ---

/// `c` is a decimal digit.
pub open spec fn is_digit(c: char) -> bool {
    '0' <= c && c <= '9'
}

/// What a decimal digit stands for.
pub open spec fn digit_value(c: char) -> int {
    c as int - '0' as int
}

/// The number that digits spell.
pub open spec fn value(s: Seq<char>) -> int
    decreases s.len(),
{
    if s.len() == 0 {
        0
    } else {
        value(s.drop_last()) * 10 + digit_value(s.last())
    }
}

/// Where the run of digits that begins at `i` ends.
pub open spec fn digits_end(s: Seq<char>, i: int) -> int
    decreases s.len() - i,
{
    if 0 <= i < s.len() && is_digit(s[i]) {
        digits_end(s, i + 1)
    } else {
        i
    }
}

proof fn lemma_decimal(n: int)
    requires
        0 <= n,
    ensures
        decimal(n).len() > 0,
        value(decimal(n)) == n,
        forall|i: int| 0 <= i < decimal(n).len() ==> is_digit(#[trigger] decimal(n)[i]),
        n < 1000 ==> decimal(n).len() <= 3,
    decreases n,
{
    let s = decimal(n);
    if n < 10 {
        assert(s.drop_last().len() == 0);
        assert(value(s.drop_last()) == 0);
    } else {
        lemma_decimal(n / 10);
        assert(s.drop_last() =~= decimal(n / 10));
        assert(digit_value(digit(n % 10)) == n % 10);
        if n < 1000 {
            assert(n / 10 < 100);
            if n / 10 >= 10 {
                reveal_with_fuel(decimal, 3);
                assert(n / 10 / 10 < 10);
                assert(decimal(n / 10 / 10).len() == 1);
            }
        }
    }
}

proof fn lemma_digits_end(s: Seq<char>, i: int, end: int)
    requires
        0 <= i <= end <= s.len(),
        forall|k: int| i <= k < end ==> is_digit(#[trigger] s[k]),
        end < s.len() ==> !is_digit(s[end]),
    ensures
        digits_end(s, i) == end,
    decreases end - i,
{
    if i < end {
        lemma_digits_end(s, i + 1, end);
    }
}

/// The number that the digits from `i` on spell, and where they end. Nothing where there
/// are none, more than three, or a number beyond 255.
fn read_octet(chars: &Vec<char>, i: usize) -> (r: Option<(u32, usize)>)
    requires
        i <= chars@.len(),
    ensures
        ({
            let end = digits_end(chars@, i as int);
            let n = value(chars@.subrange(i as int, end));
            match r {
                Some((octet, next)) => i < next && next == end && end <= i + 3 && octet == n && n
                    <= 255,
                None => end == i || end > i + 3 || n > 255,
            }
        }),
        r matches Some((_, next)) ==> next <= chars@.len(),
{
    let mut n: u32 = 0;
    let mut j: usize = i;
    assert(chars@.subrange(i as int, i as int).len() == 0);
    while j < chars.len() && j - i < 3 && '0' <= chars[j] && chars[j] <= '9'
        invariant
            i <= j <= chars@.len(),
            j <= i + 3,
            n == value(chars@.subrange(i as int, j as int)),
            j - i == 0 ==> n == 0,
            j - i == 1 ==> n < 10,
            j - i == 2 ==> n < 100,
            j - i == 3 ==> n < 1000,
            digits_end(chars@, i as int) == digits_end(chars@, j as int),
        decreases chars@.len() - j,
    {
        let c: char = chars[j];
        let d: u32 = c as u32 - '0' as u32;
        let ghost part = chars@.subrange(i as int, j + 1);
        assert(part.drop_last() =~= chars@.subrange(i as int, j as int));
        assert(part.last() == c);
        n = n * 10 + d;
        j += 1;
    }
    proof {
        lemma_digits_end_after(chars@, j as int);
    }
    if j == i || n > 255 || (j < chars.len() && '0' <= chars[j] && chars[j] <= '9') {
        proof {
            let end = digits_end(chars@, i as int);
            if j < chars@.len() && is_digit(chars@[j as int]) {
                assert(end == digits_end(chars@, j + 1));
                lemma_digits_end_after(chars@, j + 1);
            }
        }
        return None;
    }
    Some((n, j))
}

proof fn lemma_digits_end_after(s: Seq<char>, i: int)
    ensures
        digits_end(s, i) >= i,
    decreases s.len() - i,
{
    if 0 <= i < s.len() && is_digit(s[i]) {
        lemma_digits_end_after(s, i + 1);
    }
}

/// Reads four numbers with dots between them, and nothing else.
fn read_dotted(chars: &Vec<char>) -> (r: Option<Ipv4Addr>)
    ensures
        forall|a: Ipv4Addr| #[trigger] reads_as(chars@, a) ==> r == Some(a),
{
    let n: usize = chars.len();
    let (a, i) = match read_octet(chars, 0) {
        Some(x) => x,
        None => return None,
    };
    if !(i < n && chars[i] == '.') {
        return None;
    }
    let (b, j) = match read_octet(chars, i + 1) {
        Some(x) => x,
        None => return None,
    };
    if !(j < n && chars[j] == '.') {
        return None;
    }
    let (c, k) = match read_octet(chars, j + 1) {
        Some(x) => x,
        None => return None,
    };
    if !(k < n && chars[k] == '.') {
        return None;
    }
    let (d, l) = match read_octet(chars, k + 1) {
        Some(x) => x,
        None => return None,
    };
    if l != n {
        return None;
    }
    let r = Ipv4Addr { bits: a * 0x1000000 + b * 0x10000 + c * 0x100 + d };
    assert forall|x: Ipv4Addr| #[trigger] reads_as(chars@, x) implies x == r by {
        lemma_octets(x.bits as int);
    }
    Some(r)
}

/// The octets of `a`, read one after the other.
pub open spec fn reads_as(s: Seq<char>, a: Ipv4Addr) -> bool {
    let n = a.bits as int;
    let i = digits_end(s, 0);
    let j = digits_end(s, i + 1);
    let k = digits_end(s, j + 1);
    let l = digits_end(s, k + 1);
    &&& 0 < i <= 3 && i < s.len() && s[i] == '.'
    &&& i + 1 < j <= i + 4 && j < s.len() && s[j] == '.'
    &&& j + 1 < k <= j + 4 && k < s.len() && s[k] == '.'
    &&& k + 1 < l <= k + 4 && l == s.len()
    &&& value(s.subrange(0, i)) == n / 0x1000000
    &&& value(s.subrange(i + 1, j)) == n / 0x10000 % 0x100
    &&& value(s.subrange(j + 1, k)) == n / 0x100 % 0x100
    &&& value(s.subrange(k + 1, l)) == n % 0x100
}

/// A number of four bytes is made of them.
proof fn lemma_octets(n: int)
    requires
        0 <= n,
    ensures
        n == n / 0x1000000 * 0x1000000 + n / 0x10000 % 0x100 * 0x10000 + n / 0x100 % 0x100 * 0x100
            + n % 0x100,
{
    assert(n / 0x10000 == n / 0x100 / 0x100);
    assert(n / 0x1000000 == n / 0x10000 / 0x100);
}

proof fn lemma_dotted_reads(s: Seq<char>, a: Ipv4Addr)
    requires
        ipv4_text(a) == s,
    ensures
        reads_as(s, a),
{
    reveal_strlit(".");
    let n = a.bits as int;
    let p = decimal(n / 0x1000000);
    let q = decimal(n / 0x10000 % 0x100);
    let r = decimal(n / 0x100 % 0x100);
    let t = decimal(n % 0x100);
    lemma_decimal(n / 0x1000000);
    lemma_decimal(n / 0x10000 % 0x100);
    lemma_decimal(n / 0x100 % 0x100);
    lemma_decimal(n % 0x100);
    let i = p.len() as int;
    let j = i + 1 + q.len();
    let k = j + 1 + r.len();
    let l = k + 1 + t.len();
    assert(s.len() == l);
    assert(s[i] == '.' && s[j] == '.' && s[k] == '.');
    assert(s.subrange(0, i) =~= p);
    assert(s.subrange(i + 1, j) =~= q);
    assert(s.subrange(j + 1, k) =~= r);
    assert(s.subrange(k + 1, l) =~= t);
    assert forall|x: int| 0 <= x < i implies is_digit(#[trigger] s[x]) by {
        assert(p[x] == s[x]);
    }
    assert forall|x: int| i + 1 <= x < j implies is_digit(#[trigger] s[x]) by {
        assert(q[x - i - 1] == s[x]);
    }
    assert forall|x: int| j + 1 <= x < k implies is_digit(#[trigger] s[x]) by {
        assert(r[x - j - 1] == s[x]);
    }
    assert forall|x: int| k + 1 <= x < l implies is_digit(#[trigger] s[x]) by {
        assert(t[x - k - 1] == s[x]);
    }
    lemma_digits_end(s, 0, i);
    lemma_digits_end(s, i + 1, j);
    lemma_digits_end(s, j + 1, k);
    lemma_digits_end(s, k + 1, l);
}

/// The IPv4 address that a text spells in dotted form, if it spells one: without leading
/// zeros and without anything around it.
pub fn parse_ipv4(s: &str) -> (r: Option<Ipv4Addr>)
    ensures
        match r {
            Some(a) => ipv4_text(a) == s@,
            None => forall|a: Ipv4Addr| #![trigger ipv4_text(a)] ipv4_text(a) != s@,
        },
{
    let chars = chars_of(s);
    proof {
        assert forall|a: Ipv4Addr| #[trigger] ipv4_text(a) == s@ implies reads_as(s@, a) by {
            lemma_dotted_reads(s@, a);
        }
    }
    match read_dotted(&chars) {
        Some(a) => {
            let mut again = String::new();
            append_ipv4(&mut again, a);
            assert(again@ =~= ipv4_text(a));
            if same(again.as_str(), s) {
                Some(a)
            } else {
                None
            }
        },
        None => None,
    }
}

/// Two addresses never look the same.
pub proof fn ipv4_text_is_unique(a: Ipv4Addr, b: Ipv4Addr)
    requires
        ipv4_text(a) == ipv4_text(b),
    ensures
        a == b,
{
    lemma_dotted_reads(ipv4_text(a), a);
    lemma_dotted_reads(ipv4_text(a), b);
    lemma_octets(a.bits as int);
    lemma_octets(b.bits as int);
}

} // verus!

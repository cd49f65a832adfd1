//! Numbers and addresses as text, and the lines of a text.

use crate::display;
use crate::net::{IpAddr, Ipv4Addr, Ipv6Addr};
use crate::text;
use vstd::prelude::*;

verus! {

// --- Numbers ---

/// What a digit stands for: '0' to '9', then 'a' to 'f'.
pub open spec fn worth(c: char) -> int {
    if '0' <= c <= '9' {
        c as int - 48
    } else if 'a' <= c <= 'f' {
        c as int - 97 + 10
    } else {
        99
    }
}

/// The number that digits spell to a base, the most significant first.
pub open spec fn spelled(s: Seq<char>, base: int) -> int
    decreases s.len(),
{
    if s.len() == 0 {
        0
    } else {
        spelled(s.drop_last(), base) * base + worth(s.last())
    }
}

/// A number is spelled by its decimal digits, of which the first is no zero unless it is the
/// only one.
pub proof fn decimal_spells_the_number(n: int)
    requires
        0 <= n,
    ensures
        display::decimal(n).len() >= 1,
        spelled(display::decimal(n), 10) == n,
        forall|i: int|
            0 <= i < display::decimal(n).len() ==> 0 <= worth(#[trigger] display::decimal(n)[i])
                < 10,
        n > 0 ==> display::decimal(n)[0] != '0',
        n == 0 ==> display::decimal(n) == seq!['0'],
    decreases n,
{
    let s = display::decimal(n);
    if n < 10 {
        assert(s.drop_last().len() == 0);
        assert(spelled(s.drop_last(), 10) == 0);
    } else {
        decimal_spells_the_number(n / 10);
        assert(s.drop_last() =~= display::decimal(n / 10));
    }
}

/// The same to base 16, with letters in lower case.
pub proof fn hexadecimal_spells_the_number(n: int)
    requires
        0 <= n,
    ensures
        display::hex(n).len() >= 1,
        spelled(display::hex(n), 16) == n,
        forall|i: int|
            0 <= i < display::hex(n).len() ==> 0 <= worth(#[trigger] display::hex(n)[i]) < 16,
        n > 0 ==> display::hex(n)[0] != '0',
        n == 0 ==> display::hex(n) == seq!['0'],
    decreases n,
{
    let s = display::hex(n);
    if n < 16 {
        assert(s.drop_last().len() == 0);
        assert(spelled(s.drop_last(), 16) == 0);
    } else {
        hexadecimal_spells_the_number(n / 16);
        assert(s.drop_last() =~= display::hex(n / 16));
    }
}

/// What is appended to a text: the digits of the number, behind what stood there.
pub proof fn number_is_appended(s: &mut String, h: &mut String, n: u64, whole: String)
    requires
        call_ensures(display::append_decimal, (s, n), ()),
        call_ensures(display::append_hex, (h, n), ()),
        call_ensures(display::decimal_text, (n,), whole),
    ensures
        final(s)@.subrange(0, old(s)@.len() as int) == old(s)@,
        spelled(final(s)@.subrange(old(s)@.len() as int, final(s)@.len() as int), 10) == n,
        final(h)@.subrange(0, old(h)@.len() as int) == old(h)@,
        spelled(final(h)@.subrange(old(h)@.len() as int, final(h)@.len() as int), 16) == n,
        spelled(whole@, 10) == n,
        n > 0 ==> whole@[0] != '0',
{
    decimal_spells_the_number(n as int);
    hexadecimal_spells_the_number(n as int);
    assert(final(s)@.subrange(0, old(s)@.len() as int) =~= old(s)@);
    assert(final(s)@.subrange(old(s)@.len() as int, final(s)@.len() as int)
        =~= display::decimal(n as int));
    assert(final(h)@.subrange(0, old(h)@.len() as int) =~= old(h)@);
    assert(final(h)@.subrange(old(h)@.len() as int, final(h)@.len() as int) =~= display::hex(
        n as int,
    ));
}

// --- Addresses ---

/// An IPv4 address is its four bytes, the highest first, with dots between them.
#[verifier::spinoff_prover]
#[verifier::rlimit(40)]
pub proof fn ipv4_address_is_dotted(a: u8, b: u8, c: u8, d: u8)
    ensures
        ({
            let ip = Ipv4Addr { bits: (a * 0x1000000 + b * 0x10000 + c * 0x100 + d) as u32 };
            display::ipv4_text(ip) == display::decimal(a as int) + seq!['.'] + display::decimal(
                b as int,
            ) + seq!['.'] + display::decimal(c as int) + seq!['.'] + display::decimal(d as int)
        }),
{
    reveal_strlit(".");
    assert("."@ =~= seq!['.']);
    let n = a * 0x1000000 + b * 0x10000 + c * 0x100 + d;
    assert(n / 0x1000000 == a);
    assert(n / 0x10000 % 0x100 == b);
    assert(n / 0x100 % 0x100 == c);
    assert(n % 0x100 == d);
}

/// A text is read as the address that it shows, and as none where it shows none.
pub proof fn shown_address_is_read(s: &str, r: Option<Ipv4Addr>, a: Ipv4Addr)
    requires
        call_ensures(display::parse_ipv4, (s,), r),
    ensures
        s@ == display::ipv4_text(a) ==> r == Some(a),
        r is Some ==> s@ == display::ipv4_text(r->0),
{
    if r is Some && s@ == display::ipv4_text(a) {
        display::ipv4_text_is_unique(a, r->0);
    }
}

/// Numbers in hexadecimal with colons between them.
pub open spec fn with_colons(s: Seq<int>) -> Seq<char>
    decreases s.len(),
{
    if s.len() == 0 {
        Seq::empty()
    } else if s.len() == 1 {
        display::hex(s[0])
    } else {
        display::hex(s[0]) + seq![':'] + with_colons(s.drop_first())
    }
}

proof fn lemma_with_colons(s: Seq<int>)
    ensures
        display::colon_hex(s) == with_colons(s),
    decreases s.len(),
{
    reveal_strlit(":");
    assert(":"@ =~= seq![':']);
    if s.len() == 2 {
        assert(s.drop_last()[0] == s[0]);
        assert(s.drop_first()[0] == s[1]);
        assert(s.drop_last().len() == 1);
        reveal_with_fuel(with_colons, 2);
        reveal_with_fuel(display::colon_hex, 2);
        assert(with_colons(s) == display::hex(s[0]) + seq![':'] + display::hex(s[1]));
        lemma_with_colons(s.drop_last());
    } else if s.len() > 2 {
        lemma_with_colons(s.drop_last());
        lemma_with_colons(s.drop_first());
        lemma_with_colons(s.drop_first().drop_last());
        let m = s.drop_first().drop_last();
        assert(s.drop_last().drop_first() =~= m);
        assert(s.drop_last()[0] == s[0]);
        let h = display::hex(s[0]) + seq![':'];
        let t = seq![':'] + display::hex(s.last());
        assert(display::colon_hex(s) =~= display::colon_hex(s.drop_last()) + t);
        assert(with_colons(s.drop_last()) == h + with_colons(m));
        assert(s.drop_first().last() == s.last());
        assert(display::colon_hex(s.drop_first()) =~= display::colon_hex(m) + t);
        assert(h + with_colons(m) + t =~= h + (with_colons(m) + t));
    }
}

/// The longest run of zeros, of several the first: `len` of them from `at` on, with no run
/// before that is as long and none that is longer.
pub open spec fn is_longest_run(g: Seq<int>, at: int, len: int) -> bool {
    &&& 0 <= at && 0 < len && at + len <= g.len()
    &&& forall|i: int| at <= i < at + len ==> #[trigger] g[i] == 0
    &&& forall|i: int, j: int|
        0 <= i < at && i + len <= j <= g.len() ==> #[trigger] has_nonzero(g, i, j)
    &&& forall|i: int, j: int|
        at <= i && i + len < j <= g.len() ==> #[trigger] has_nonzero(g, i, j)
}

/// Something between two places is not zero.
pub open spec fn has_nonzero(g: Seq<int>, from: int, to: int) -> bool {
    exists|k: int| from <= k < to && #[trigger] g[k] != 0
}

proof fn lemma_run(g: Seq<int>, i: int)
    requires
        0 <= i <= g.len(),
    ensures
        ({
            let n = display::zeros_at(g, i);
            &&& 0 <= n && i + n <= g.len()
            &&& forall|k: int| i <= k < i + n ==> #[trigger] g[k] == 0
            &&& i + n < g.len() ==> g[i + n] != 0
        }),
    decreases g.len() - i,
{
    if i < g.len() && g[i] == 0 {
        lemma_run(g, i + 1);
    }
}

proof fn lemma_longest(g: Seq<int>, i: int)
    requires
        0 <= i < g.len(),
    ensures
        i <= display::longest_zeros(g, i) < g.len(),
        forall|k: int|
            i <= k < g.len() ==> #[trigger] display::zeros_at(g, k) <= display::zeros_at(
                g,
                display::longest_zeros(g, i),
            ),
        forall|k: int|
            i <= k < display::longest_zeros(g, i) ==> #[trigger] display::zeros_at(g, k)
                < display::zeros_at(g, display::longest_zeros(g, i)),
    decreases g.len() - i,
{
    if i + 1 < g.len() {
        lemma_longest(g, i + 1);
    }
}

proof fn lemma_longest_run(g: Seq<int>, at: int, len: int)
    requires
        is_longest_run(g, at, len),
    ensures
        display::longest_zeros(g, 0) == at,
        display::zeros_at(g, at) == len,
{
    lemma_run(g, at);
    lemma_longest(g, 0);
    let n = display::zeros_at(g, at);
    let s = display::longest_zeros(g, 0);
    let m = display::zeros_at(g, s);
    lemma_run(g, s);
    if n > len {
        assert(has_nonzero(g, at, at + n));
    }
    if n < len {
        assert(g[at + n] != 0);
        assert(g[at + n] == 0);
    }
    assert(n == len);
    assert(m >= n);
    if s < at {
        assert(has_nonzero(g, s, s + m));
    } else if s > at {
        assert(display::zeros_at(g, at) < m);
        assert(has_nonzero(g, s, s + m));
    }
}

proof fn lemma_half(n: int, a: int, b: int, c: int, d: int)
    requires
        n == a * 0x1_0000_0000_0000 + b * 0x1_0000_0000 + c * 0x10000 + d,
        0 <= a < 0x10000,
        0 <= b < 0x10000,
        0 <= c < 0x10000,
        0 <= d < 0x10000,
    ensures
        n / 0x1_0000_0000_0000 == a,
        n / 0x1_0000_0000 % 0x10000 == b,
        n / 0x10000 % 0x10000 == c,
        n % 0x10000 == d,
{
    assert(n / 0x1_0000_0000_0000 == a);
    assert(n / 0x1_0000_0000 == a * 0x10000 + b);
    assert(n / 0x10000 == a * 0x1_0000_0000 + b * 0x10000 + c);
}

/// An IPv6 address is its eight groups in hexadecimal, with colons between them. The longest
/// run of zero groups, of two or more and the first of several, is written as two colons.
pub proof fn ipv6_address_is_shortened(a: Ipv6Addr, g: Seq<int>, at: int, len: int)
    requires
        g.len() == 8,
        forall|i: int| 0 <= i < 8 ==> 0 <= #[trigger] g[i] < 0x10000,
        a.high == g[0] * 0x1_0000_0000_0000 + g[1] * 0x1_0000_0000 + g[2] * 0x10000 + g[3],
        a.low == g[4] * 0x1_0000_0000_0000 + g[5] * 0x1_0000_0000 + g[6] * 0x10000 + g[7],
        !(a.high == 0 && 0xffff_0000_0000 <= a.low <= 0xffff_ffff_ffff),
    ensures
        is_longest_run(g, at, len) && len >= 2 ==> display::ipv6_text(a) == with_colons(
            g.subrange(0, at),
        ) + seq![':', ':'] + with_colons(g.subrange(at + len, 8)),
        (forall|i: int| 0 <= i < 7 ==> !(#[trigger] g[i] == 0 && g[i + 1] == 0))
            ==> display::ipv6_text(a) == with_colons(g),
{
    assert(g[0] < 0x10000 && g[1] < 0x10000 && g[2] < 0x10000 && g[3] < 0x10000);
    assert(g[4] < 0x10000 && g[5] < 0x10000 && g[6] < 0x10000 && g[7] < 0x10000);
    assert(display::groups(a) == g) by {
        lemma_half(a.high as int, g[0], g[1], g[2], g[3]);
        lemma_half(a.low as int, g[4], g[5], g[6], g[7]);
        assert(display::groups(a) =~= g);
    }
    assert(!display::is_mapped(a));
    reveal_strlit("::");
    assert("::"@ =~= seq![':', ':']);
    let start = display::longest_zeros(g, 0);
    lemma_longest(g, 0);
    lemma_run(g, start);
    if is_longest_run(g, at, len) && len >= 2 {
        lemma_longest_run(g, at, len);
        lemma_with_colons(g.take(at));
        lemma_with_colons(g.skip(at + len));
        assert(g.take(at) =~= g.subrange(0, at));
        assert(g.skip(at + len) =~= g.subrange(at + len, 8));
    }
    if forall|i: int| 0 <= i < 7 ==> !(#[trigger] g[i] == 0 && g[i + 1] == 0) {
        if display::zeros_at(g, start) > 1 {
            assert(g[start] == 0 && g[start + 1] == 0);
        }
        lemma_with_colons(g);
    }
}

/// An IPv4 address that is mapped into IPv6 shows its bytes.
pub proof fn mapped_address_shows_its_bytes(v4: Ipv4Addr)
    ensures
        display::ipv6_text(Ipv6Addr { high: 0, low: (0xffff_0000_0000 + v4.bits) as u64 }) == seq![
            ':',
            ':',
            'f',
            'f',
            'f',
            'f',
            ':',
        ] + display::ipv4_text(v4),
{
    reveal_strlit("::ffff:");
    assert("::ffff:"@ =~= seq![':', ':', 'f', 'f', 'f', 'f', ':']);
    let low = 0xffff_0000_0000 + v4.bits;
    assert(low / 0x1_0000_0000 == 0xffff);
    assert(low % 0x1_0000_0000 == v4.bits);
}

/// An address is appended as the text of its family.
pub proof fn address_is_appended(s: &mut String, ip: IpAddr)
    requires
        call_ensures(display::append_ip, (s, ip), ()),
    ensures
        ip matches IpAddr::V4(a) ==> final(s)@ == old(s)@ + display::ipv4_text(a),
        ip matches IpAddr::V6(a) ==> final(s)@ == old(s)@ + display::ipv6_text(a),
{
}

// --- Lines ---

/// A line feed ends a line, and so does a carriage return before it; what follows the last
/// line feed is a line unless it is empty.
pub proof fn lines_end_at_line_feeds(line: Seq<char>, rest: Seq<char>)
    requires
        forall|i: int| 0 <= i < line.len() ==> #[trigger] line[i] != '\n',
    ensures
        text::lines_of(Seq::empty()).len() == 0,
        line.len() > 0 ==> text::lines_of(line) == seq![line],
        line.len() == 0 || line.last() != '\r' ==> {
            &&& text::lines_of(line + seq!['\n'] + rest) == seq![line] + text::lines_of(rest)
            &&& text::lines_of(line + seq!['\r', '\n'] + rest) == seq![line] + text::lines_of(rest)
        },
{
    lemma_line_end(line, Seq::empty(), false);
    if line.len() == 0 || line.last() != '\r' {
        let a = line + seq!['\n'] + rest;
        lemma_line_end(line, seq!['\n'] + rest, true);
        assert(a =~= line + (seq!['\n'] + rest));
        assert(a.take(line.len() as int) =~= line);
        assert(a.skip(line.len() as int + 1) =~= rest);
        let cr = line.push('\r');
        let b = line + seq!['\r', '\n'] + rest;
        assert forall|i: int| 0 <= i < cr.len() implies #[trigger] cr[i] != '\n' by {
            if i < line.len() {
                assert(cr[i] == line[i]);
            }
        }
        lemma_line_end(cr, seq!['\n'] + rest, true);
        assert(b =~= cr + (seq!['\n'] + rest));
        assert(b.take(cr.len() as int) =~= cr);
        assert(b.skip(cr.len() as int + 1) =~= rest);
        assert(cr.drop_last() =~= line);
    }
    assert(line + Seq::<char>::empty() =~= line);
}

proof fn lemma_line_end(line: Seq<char>, rest: Seq<char>, ended: bool)
    requires
        forall|i: int| 0 <= i < line.len() ==> #[trigger] line[i] != '\n',
        ended ==> rest.len() > 0 && rest[0] == '\n',
        !ended ==> rest.len() == 0,
    ensures
        text::line_feed(line + rest) == line.len(),
    decreases line.len(),
{
    let s = line + rest;
    if line.len() > 0 {
        assert(s[0] == line[0]);
        assert(s.drop_first() =~= line.drop_first() + rest);
        assert forall|i: int| 0 <= i < line.drop_first().len() implies #[trigger] line.drop_first()[i]
            != '\n' by {
            assert(line.drop_first()[i] == line[i + 1]);
        }
        lemma_line_end(line.drop_first(), rest, ended);
    } else {
        assert(s =~= rest);
    }
}

// --- Text ---

/// A prefix is taken off where the text begins with it, and only there.
pub proof fn prefix_is_taken_off(s: &str, prefix: &str, rest: Seq<char>, r: Option<String>)
    requires
        call_ensures(text::strip_prefix, (s, prefix), r),
    ensures
        s@ == prefix@ + rest ==> (r matches Some(t) && t@ == rest),
        r matches Some(t) ==> s@ == prefix@ + t@,
{
    let n = prefix@.len() as int;
    if s@ == prefix@ + rest {
        assert(s@.take(n) =~= prefix@);
        assert(s@.subrange(0, n) =~= prefix@);
        assert(s@.subrange(n, s@.len() as int) =~= rest);
    }
    if let Some(t) = r {
        assert(s@ =~= prefix@ + t@);
    }
}

/// Texts are compared, trimmed, joined and cut into lines as wholes.
pub proof fn texts_are_taken_as_wholes(
    a: &str,
    b: &str,
    c: &str,
    equal: bool,
    trimmed: String,
    joined: String,
    lines: Vec<String>,
    list: &mut Vec<String>,
    more: String,
    i: int,
)
    requires
        call_ensures(text::same, (a, b), equal),
        call_ensures(text::trim, (a,), trimmed),
        call_ensures(text::joined_text, (a, b, c), joined),
        call_ensures(text::lines, (a,), lines),
        call_ensures(text::push_text, (list, more), ()),
    ensures
        equal == (a@ == b@),
        trimmed@ == text::trimmed(a@),
        joined@ == a@ + b@ + c@,
        lines@.len() == text::lines_of(a@).len(),
        0 <= i < lines@.len() ==> lines@[i]@ == text::lines_of(a@)[i],
        final(list)@.len() == old(list)@.len() + 1,
        0 <= i < old(list)@.len() ==> final(list)@[i]@ == old(list)@[i]@,
        final(list)@[old(list)@.len() as int]@ == more@,
{
    let t = text::texts(lines@);
    assert(t.len() == lines@.len());
    if 0 <= i < lines@.len() {
        assert(t[i] == lines@[i]@);
    }
    let u = text::texts(final(list)@);
    let v = text::texts(old(list)@);
    assert(u.len() == final(list)@.len() && v.len() == old(list)@.len());
    if 0 <= i < old(list)@.len() {
        assert(u[i] == final(list)@[i]@ && v[i] == old(list)@[i]@);
    }
    assert(u[v.len() as int] == more@);
    assert(u[v.len() as int] == final(list)@[old(list)@.len() as int]@);
}

/// Addresses are appended in their own form.
pub proof fn addresses_are_appended(s: &mut String, t: &mut String, a: Ipv4Addr, b: Ipv6Addr)
    requires
        call_ensures(display::append_ipv4, (s, a), ()),
        call_ensures(display::append_ipv6, (t, b), ()),
    ensures
        final(s)@ == old(s)@ + display::ipv4_text(a),
        final(t)@ == old(t)@ + display::ipv6_text(b),
{
}

/// A part of a text is trimmed where it stands, and compared but for the case.
pub proof fn part_of_a_text_is_trimmed(
    chars: Vec<char>,
    from: usize,
    to: usize,
    word: &str,
    b: (usize, usize),
    is_word: bool,
    all: Vec<char>,
)
    requires
        from <= to <= chars@.len(),
        call_ensures(text::trim_bounds, (&chars, from, to), b),
        call_ensures(text::range_is_word, (&chars, from, to, word), is_word),
        call_ensures(text::chars_of, (word,), all),
    ensures
        from <= b.0 <= b.1 <= to,
        chars@.subrange(b.0 as int, b.1 as int) == text::trimmed(
            chars@.subrange(from as int, to as int),
        ),
        is_word == text::same_ignoring_case(chars@.subrange(from as int, to as int), word@),
        all@ == word@,
{
}

} // verus!

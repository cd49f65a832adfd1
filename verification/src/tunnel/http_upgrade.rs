//! What the two sides of a WebSocket upgrade agree on.

use crate::text;
use crate::tunnel::disguise_protocol;
use crate::tunnel::fakehttp::handshake;
use vstd::prelude::*;
use vstd::string::*;

verus! {

/// No line of `c` names a key.
pub open spec fn names_no_key(c: Seq<char>) -> bool {
    disguise_protocol::ws_key_in(c, 0) is None
}

/// `s` holds no line end.
pub open spec fn one_line(s: Seq<char>) -> bool {
    forall|i: int| 0 <= i < s.len() - 1 ==> !(#[trigger] s[i] == '\r' && s[i + 1] == '\n')
}

proof fn lemma_line_end_bounds(t: Seq<char>, from: int)
    requires
        0 <= from <= t.len(),
    ensures
        from <= disguise_protocol::line_end(t, from) <= t.len(),
        disguise_protocol::line_end(t, from) < t.len() ==> disguise_protocol::line_end(t, from) + 2
            <= t.len(),
    decreases t.len() - from,
{
    if from + 1 < t.len() && !(t[from] == '\r' && t[from + 1] == '\n') {
        lemma_line_end_bounds(t, from + 1);
    }
}

/// A line of `c` ends at the same place in a text that goes on with a line end; the last
/// line of `c` ends there.
proof fn lemma_line_end_in_context(c: Seq<char>, rest: Seq<char>, from: int)
    requires
        0 <= from <= c.len(),
    ensures
        disguise_protocol::line_end(c + disguise_protocol::crlf() + rest, from)
            == disguise_protocol::line_end(c, from),
    decreases c.len() - from,
{
    reveal_strlit("\r\n");
    let t = c + disguise_protocol::crlf() + rest;
    if from < c.len() {
        assert(t[from] == c[from]);
        if from + 1 < c.len() {
            assert(t[from + 1] == c[from + 1]);
            if !(c[from] == '\r' && c[from + 1] == '\n') {
                lemma_line_end_in_context(c, rest, from + 1);
            }
        } else {
            assert(t[from + 1] == '\r');
            lemma_line_end_in_context(c, rest, from + 1);
            assert(disguise_protocol::line_end(c, from) == c.len());
        }
    } else {
        assert(t[from] == '\r' && t[from + 1] == '\n');
    }
}

proof fn lemma_colon_in_context(c: Seq<char>, t: Seq<char>, from: int, to: int)
    requires
        0 <= from,
        to <= c.len() <= t.len(),
        forall|i: int| 0 <= i < c.len() ==> t[i] == c[i],
    ensures
        disguise_protocol::colon_before(t, from, to) == disguise_protocol::colon_before(
            c,
            from,
            to,
        ),
    decreases to - from,
{
    if from < to && c[from] != ':' {
        lemma_colon_in_context(c, t, from + 1, to);
    }
}

proof fn lemma_colon_bounds(c: Seq<char>, from: int, to: int)
    requires
        from <= to,
    ensures
        from <= disguise_protocol::colon_before(c, from, to) <= to,
    decreases to - from,
{
    if from < to && c[from] != ':' {
        lemma_colon_bounds(c, from + 1, to);
    }
}

/// The search for a key in `c`, a line end and `rest` finds what it finds in `c`, and
/// otherwise what it finds in `rest`.
proof fn lemma_search_in_parts(c: Seq<char>, rest: Seq<char>, from: int)
    requires
        0 <= from <= c.len(),
    ensures
        ({
            let t = c + disguise_protocol::crlf() + rest;
            disguise_protocol::ws_key_in(t, from) == match disguise_protocol::ws_key_in(c, from) {
                Some(key) => Some(key),
                None => disguise_protocol::ws_key_in(t, c.len() as int + 2),
            }
        }),
    decreases c.len() - from,
{
    reveal_strlit("\r\n");
    let t = c + disguise_protocol::crlf() + rest;
    let end = disguise_protocol::line_end(c, from);
    lemma_line_end_bounds(c, from);
    lemma_line_end_in_context(c, rest, from);
    assert forall|i: int| 0 <= i < c.len() implies t[i] == c[i] by {}
    lemma_colon_in_context(c, t, from, end);
    lemma_colon_bounds(c, from, end);
    let colon = disguise_protocol::colon_before(c, from, end);
    assert(t.subrange(from, colon) =~= c.subrange(from, colon));
    if colon < end {
        assert(t.subrange(colon + 1, end) =~= c.subrange(colon + 1, end));
    }
    if !(colon < end && text::same_ignoring_case(
        c.subrange(from, colon),
        "Sec-WebSocket-Key"@,
    )) {
        assert(end < t.len());
        if end < c.len() {
            lemma_search_in_parts(c, rest, end + 2);
        } else {
            assert(disguise_protocol::ws_key_in(c, from) is None);
        }
    }
}

/// The search from the start of a part is the search in that part.
proof fn lemma_search_from(a: Seq<char>, b: Seq<char>, from: int)
    requires
        0 <= from <= b.len(),
    ensures
        disguise_protocol::ws_key_in(a + b, a.len() as int + from) == disguise_protocol::ws_key_in(
            b,
            from,
        ),
    decreases b.len() - from,
{
    let t = a + b;
    let n = a.len();
    lemma_line_end_shift(a, b, from);
    lemma_line_end_bounds(b, from);
    let end = disguise_protocol::line_end(b, from);
    lemma_colon_shift(a, b, from, end);
    lemma_colon_bounds(b, from, end);
    let colon = disguise_protocol::colon_before(b, from, end);
    assert(t.subrange(n + from, n + colon) =~= b.subrange(from, colon));
    if colon < end {
        assert(t.subrange(n + colon + 1, n + end) =~= b.subrange(colon + 1, end));
    }
    if end < b.len() {
        lemma_search_from(a, b, end + 2);
    }
}

proof fn lemma_line_end_shift(a: Seq<char>, b: Seq<char>, from: int)
    requires
        0 <= from <= b.len(),
    ensures
        disguise_protocol::line_end(a + b, a.len() + from) == a.len()
            + disguise_protocol::line_end(b, from),
    decreases b.len() - from,
{
    if from + 1 < b.len() {
        assert((a + b)[a.len() + from] == b[from]);
        assert((a + b)[a.len() + from + 1] == b[from + 1]);
        if !(b[from] == '\r' && b[from + 1] == '\n') {
            lemma_line_end_shift(a, b, from + 1);
        }
    }
}

proof fn lemma_colon_shift(a: Seq<char>, b: Seq<char>, from: int, to: int)
    requires
        0 <= from <= to <= b.len(),
    ensures
        disguise_protocol::colon_before(a + b, a.len() + from, a.len() + to) == a.len()
            + disguise_protocol::colon_before(b, from, to),
    decreases to - from,
{
    if from < to {
        assert((a + b)[a.len() + from] == b[from]);
        if b[from] != ':' {
            lemma_colon_shift(a, b, from + 1, to);
        }
    }
}

/// A part that names no key is passed over.
proof fn lemma_pass(c: Seq<char>, rest: Seq<char>)
    requires
        names_no_key(c),
    ensures
        disguise_protocol::ws_key_in(c + disguise_protocol::crlf() + rest, 0)
            == disguise_protocol::ws_key_in(rest, 0),
{
    reveal_strlit("\r\n");
    lemma_search_in_parts(c, rest, 0);
    lemma_search_from(c + disguise_protocol::crlf(), rest, 0);
}

proof fn lemma_line_end_of_one_line(c: Seq<char>, from: int)
    requires
        one_line(c),
        0 <= from <= c.len(),
    ensures
        disguise_protocol::line_end(c, from) == c.len(),
    decreases c.len() - from,
{
    if from + 1 < c.len() {
        lemma_line_end_of_one_line(c, from + 1);
    }
}

/// A line that differs from the name of the key's header in one place names no key.
proof fn lemma_other_header(c: Seq<char>, at: int)
    requires
        one_line(c),
        0 <= at < c.len(),
        at < "Sec-WebSocket-Key"@.len(),
        text::folded(c[at]) != text::folded("Sec-WebSocket-Key"@[at]),
    ensures
        names_no_key(c),
{
    lemma_line_end_of_one_line(c, 0);
    let colon = disguise_protocol::colon_before(c, 0, c.len() as int);
    lemma_colon_bounds(c, 0, c.len() as int);
    let name = c.subrange(0, colon);
    if text::same_ignoring_case(name, "Sec-WebSocket-Key"@) {
        assert(name[at] == c[at]);
    }
}

proof fn lemma_fixed_headers()
    ensures
        names_no_key("GET / HTTP/1.1"@),
        names_no_key("Connection: Upgrade"@),
        names_no_key("Pragma: no-cache"@),
        names_no_key("Cache-Control: no-cache"@),
        names_no_key("Upgrade: websocket"@),
        names_no_key("Accept-Encoding: gzip, deflate"@),
{
    reveal_strlit("Sec-WebSocket-Key");
    reveal_strlit("GET / HTTP/1.1");
    reveal_strlit("Connection: Upgrade");
    reveal_strlit("Pragma: no-cache");
    reveal_strlit("Cache-Control: no-cache");
    reveal_strlit("Upgrade: websocket");
    reveal_strlit("Accept-Encoding: gzip, deflate");
    lemma_other_header("GET / HTTP/1.1"@, 0);
    lemma_other_header("Connection: Upgrade"@, 0);
    lemma_other_header("Pragma: no-cache"@, 0);
    lemma_other_header("Cache-Control: no-cache"@, 0);
    lemma_other_header("Upgrade: websocket"@, 0);
    lemma_other_header("Accept-Encoding: gzip, deflate"@, 0);
}

proof fn lemma_longer_headers()
    ensures
        names_no_key("Sec-WebSocket-Version: 13"@),
        names_no_key("Accept-Language: en-US,en;q=0.9,zh-CN;q=0.8,zh;q=0.7"@),
        names_no_key(disguise_protocol::user_agent()),
{
    reveal_strlit("Sec-WebSocket-Key");
    reveal_strlit("Sec-WebSocket-Version: 13");
    lemma_other_header("Sec-WebSocket-Version: 13"@, 14);
    reveal_strlit("Accept-Language: en-US,en;q=0.9,zh-CN;q=0.8,zh;q=0.7");
    lemma_other_header("Accept-Language: en-US,en;q=0.9,zh-CN;q=0.8,zh;q=0.7"@, 0);
    let a = "User-Agent: Mozilla/5.0 (Windows NT 10.0; Win64; x64) "@;
    let b = "AppleWebKit/537.36 (KHTML, like Gecko) "@;
    let c = "Chrome/137.0.0.0 Safari/537.36"@;
    reveal_strlit("User-Agent: Mozilla/5.0 (Windows NT 10.0; Win64; x64) ");
    reveal_strlit("AppleWebKit/537.36 (KHTML, like Gecko) ");
    reveal_strlit("Chrome/137.0.0.0 Safari/537.36");
    assert(one_line(a));
    assert(one_line(b));
    assert(one_line(c));
    let all = disguise_protocol::user_agent();
    assert forall|i: int| 0 <= i < all.len() implies #[trigger] all[i] != '\r' by {
        if i < a.len() {
            assert(all[i] == a[i]);
        } else if i < a.len() + b.len() {
            assert(all[i] == b[i - a.len()]);
        } else {
            assert(all[i] == c[i - a.len() - b.len()]);
        }
    }
    lemma_other_header(all, 0);
}

proof fn lemma_line_end_behind(a: Seq<char>, b: Seq<char>, from: int)
    requires
        one_line(a),
        a.len() > 0 ==> a.last() != '\r',
        0 <= from <= a.len(),
    ensures
        disguise_protocol::line_end(a + b, from) == a.len() + disguise_protocol::line_end(b, 0),
    decreases a.len() - from,
{
    if from == a.len() {
        lemma_line_end_shift(a, b, 0);
    } else {
        assert((a + b)[from] == a[from]);
        if from + 1 < a.len() {
            assert((a + b)[from + 1] == a[from + 1]);
        }
        lemma_line_end_behind(a, b, from + 1);
        if from + 1 >= (a + b).len() {
            assert(b.len() == 0);
        }
    }
}

proof fn lemma_colon_at(c: Seq<char>, from: int, at: int, to: int)
    requires
        0 <= from <= at < to <= c.len(),
        forall|i: int| from <= i < at ==> #[trigger] c[i] != ':',
        c[at] == ':',
    ensures
        disguise_protocol::colon_before(c, from, to) == at,
    decreases at - from,
{
    if from < at {
        lemma_colon_at(c, from + 1, at, to);
    }
}

/// A key that a header can carry: one line without white space around it.
pub open spec fn carriable(key: Seq<char>) -> bool {
    &&& disguise_protocol::line_end(key, 0) == key.len()
    &&& text::trimmed(key) == key
}

proof fn lemma_key_line(key: Seq<char>)
    requires
        carriable(key),
    ensures
        disguise_protocol::ws_key_in("Sec-WebSocket-Key: "@ + key, 0) == Some(key),
{
    let name = "Sec-WebSocket-Key"@;
    let head = "Sec-WebSocket-Key: "@;
    let c = head + key;
    reveal_strlit("Sec-WebSocket-Key");
    reveal_strlit("Sec-WebSocket-Key: ");
    assert(one_line(head));
    lemma_line_end_behind(head, key, 0);
    assert(disguise_protocol::line_end(c, 0) == c.len());
    assert forall|i: int| 0 <= i < 17 implies #[trigger] c[i] != ':' by {
        assert(c[i] == head[i]);
    }
    assert(c[17] == ':');
    lemma_colon_at(c, 0, 17, c.len() as int);
    assert(c.subrange(0, 17) =~= name);
    let value = c.subrange(18, c.len() as int);
    assert(value =~= seq![' '] + key);
    assert(value.drop_first() =~= key);
    assert(text::trim_start(value) == text::trim_start(key));
}

proof fn lemma_regroup(p: Seq<char>, c: Seq<char>, t: Seq<char>)
    ensures
        p + (c + disguise_protocol::crlf() + t) == p + c + disguise_protocol::crlf() + t,
{
    assert(p + (c + disguise_protocol::crlf() + t) =~= p + c + disguise_protocol::crlf() + t);
}

/// A host that smuggles no key of its own into the request.
pub open spec fn plain_host(host: Seq<char>) -> bool {
    names_no_key("Host: "@ + host) && names_no_key("Origin: http://"@ + host)
}

proof fn lemma_key_in_request(host: Seq<char>, key: Seq<char>)
    requires
        plain_host(host),
        carriable(key),
    ensures
        disguise_protocol::ws_key_in(disguise_protocol::http_request_text(host, key), 0) == Some(
            key,
        ),
{
    let e = disguise_protocol::crlf();
    let c0 = "GET / HTTP/1.1"@;
    let c1 = "Host: "@ + host;
    let c2 = "Connection: Upgrade"@;
    let c3 = "Pragma: no-cache"@;
    let c4 = "Cache-Control: no-cache"@;
    let c5 = disguise_protocol::user_agent();
    let c6 = "Upgrade: websocket"@;
    let c7 = "Origin: http://"@ + host;
    let c8 = "Sec-WebSocket-Version: 13"@;
    let c9 = "Accept-Encoding: gzip, deflate"@;
    let c10 = "Accept-Language: en-US,en;q=0.9,zh-CN;q=0.8,zh;q=0.7"@;
    let c11 = "Sec-WebSocket-Key: "@ + key;
    let c12 = "Sec-WebSocket-Extensions: permessage-deflate; client_max_window_bits"@;
    let t12 = c12 + e + e;
    let t11 = c11 + e + t12;
    let t10 = c10 + e + t11;
    let t9 = c9 + e + t10;
    let t8 = c8 + e + t9;
    let t7 = c7 + e + t8;
    let t6 = c6 + e + t7;
    let t5 = c5 + e + t6;
    let t4 = c4 + e + t5;
    let t3 = c3 + e + t4;
    let t2 = c2 + e + t3;
    let t1 = c1 + e + t2;
    let t0 = c0 + e + t1;
    let p1 = c0 + e;
    let p2 = p1 + c1 + e;
    let p3 = p2 + c2 + e;
    let p4 = p3 + c3 + e;
    let p5 = p4 + c4 + e;
    let p6 = p5 + c5 + e;
    let p7 = p6 + c6 + e;
    let p8 = p7 + c7 + e;
    let p9 = p8 + c8 + e;
    let p10 = p9 + c9 + e;
    let p11 = p10 + c10 + e;
    let p12 = p11 + c11 + e;
    lemma_regroup(p1, c1, t2);
    lemma_regroup(p2, c2, t3);
    lemma_regroup(p3, c3, t4);
    lemma_regroup(p4, c4, t5);
    lemma_regroup(p5, c5, t6);
    lemma_regroup(p6, c6, t7);
    lemma_regroup(p7, c7, t8);
    lemma_regroup(p8, c8, t9);
    lemma_regroup(p9, c9, t10);
    lemma_regroup(p10, c10, t11);
    lemma_regroup(p11, c11, t12);
    lemma_regroup(p12, c12, e);
    assert(disguise_protocol::http_request_text(host, key) == p12 + c12 + e + e);
    assert(t0 == disguise_protocol::http_request_text(host, key));
    lemma_fixed_headers();
    lemma_longer_headers();
    lemma_pass(c0, t1);
    lemma_pass(c1, t2);
    lemma_pass(c2, t3);
    lemma_pass(c3, t4);
    lemma_pass(c4, t5);
    lemma_pass(c5, t6);
    lemma_pass(c6, t7);
    lemma_pass(c7, t8);
    lemma_pass(c8, t9);
    lemma_pass(c9, t10);
    lemma_pass(c10, t11);
    lemma_key_line(key);
    lemma_search_in_parts(c11, t12, 0);
}

/// The server reads the key out of a request that the client put into it, and answers with
/// the value that the client's key calls for.
pub proof fn request_key_reads_back(host: Seq<char>, key: Seq<char>)
    requires
        plain_host(host),
        carriable(key),
    ensures
        ({
            let request = vstd::utf8::encode_utf8(disguise_protocol::http_request_text(host, key));
            &&& disguise_protocol::ws_key_of(request) == Some(key)
            &&& handshake::accept_value(request) == disguise_protocol::ws_accept_text(
                vstd::utf8::encode_utf8(key),
            )
        }),
{
    let t = disguise_protocol::http_request_text(host, key);
    vstd::utf8::encode_utf8_valid_utf8(t);
    vstd::utf8::encode_utf8_decode_utf8(t);
    lemma_key_in_request(host, key);
}

proof fn lemma_one_line_behind(a: Seq<char>, b: Seq<char>)
    requires
        forall|i: int| 0 <= i < a.len() ==> #[trigger] a[i] != '\r',
        one_line(b),
    ensures
        one_line(a + b),
{
    let n = a.len() as int;
    assert forall|i: int| 0 <= i < (a + b).len() - 1 implies !(#[trigger] (a + b)[i] == '\r' && (a
        + b)[i + 1] == '\n') by {
        if i >= n {
            assert((a + b)[i] == b[i - n]);
            assert((a + b)[i + 1] == b[i + 1 - n]);
        } else {
            assert((a + b)[i] == a[i]);
        }
    }
}

/// A host without line ends smuggles nothing.
pub proof fn ordinary_host_is_plain(host: Seq<char>)
    requires
        one_line(host),
    ensures
        plain_host(host),
{
    reveal_strlit("Sec-WebSocket-Key");
    reveal_strlit("Host: ");
    reveal_strlit("Origin: http://");
    let a = "Host: "@;
    let b = "Origin: http://"@;
    lemma_one_line_behind(a, host);
    lemma_one_line_behind(b, host);
    lemma_other_header(a + host, 0);
    lemma_other_header(b + host, 0);
}

/// A text in Base64's alphabet can be a key.
pub proof fn base64_is_carriable(key: Seq<char>)
    requires
        forall|i: int|
            0 <= i < key.len() ==> disguise_protocol::is_base64_char(#[trigger] key[i]),
    ensures
        carriable(key),
{
    assert forall|i: int| 0 <= i < key.len() implies #[trigger] key[i] != '\r' by {
        assert(disguise_protocol::is_base64_char(key[i]));
    }
    lemma_line_end_of_one_line(key, 0);
    if key.len() > 0 {
        assert(disguise_protocol::is_base64_char(key[0]));
        assert(disguise_protocol::is_base64_char(key.last()));
        assert(text::trim_start(key) == key);
        assert(text::trim_end(key) == key);
    }
}

proof fn lemma_encode_concat(a: Seq<char>, b: Seq<char>)
    ensures
        vstd::utf8::encode_utf8(a + b) == vstd::utf8::encode_utf8(a) + vstd::utf8::encode_utf8(b),
    decreases a.len(),
{
    if a.len() == 0 {
        assert(a + b =~= b);
        assert(vstd::utf8::encode_utf8(a) + vstd::utf8::encode_utf8(b)
            =~= vstd::utf8::encode_utf8(b));
    } else {
        lemma_encode_concat(a.drop_first(), b);
        assert((a + b).drop_first() =~= a.drop_first() + b);
        assert(vstd::utf8::encode_utf8(a + b) =~= vstd::utf8::encode_utf8(a)
            + vstd::utf8::encode_utf8(b));
    }
}

proof fn lemma_blank_line_bytes(blank: Seq<char>)
    requires
        blank == seq!['\r', '\n', '\r', '\n'],
    ensures
        vstd::utf8::encode_utf8(blank) == seq![13u8, 10, 13, 10],
{
    reveal_with_fuel(vstd::utf8::encode_utf8, 5);
    let a = blank.drop_first();
    let b = a.drop_first();
    let c = b.drop_first();
    assert(a[0] == '\n' && b[0] == '\r' && c[0] == '\n');
    assert(c.drop_first().len() == 0);
    assert(13u32 & 0x7f == 13) by (bit_vector);
    assert(10u32 & 0x7f == 10) by (bit_vector);
    assert(vstd::utf8::encode_scalar('\r' as u32) =~= seq![13u8]);
    assert(vstd::utf8::encode_scalar('\n' as u32) =~= seq![10u8]);
    assert(vstd::utf8::encode_utf8(blank) =~= seq![13u8, 10, 13, 10]);
}

proof fn lemma_ends_complete(head: Seq<char>, blank: Seq<char>)
    requires
        blank == seq!['\r', '\n', '\r', '\n'],
    ensures
        handshake::head_complete(vstd::utf8::encode_utf8(head + blank)),
{
    lemma_encode_concat(head, blank);
    lemma_blank_line_bytes(blank);
    let bytes = vstd::utf8::encode_utf8(head + blank);
    let n = vstd::utf8::encode_utf8(head).len() as int;
    assert(handshake::blank_line_at(bytes, n));
}

/// Each side recognises the end of what the other sends.
pub proof fn heads_are_complete(
    host: Seq<char>,
    key: Seq<char>,
    accept: Seq<char>,
    date: Seq<char>,
)
    ensures
        handshake::head_complete(
            vstd::utf8::encode_utf8(disguise_protocol::http_request_text(host, key)),
        ),
        handshake::head_complete(
            vstd::utf8::encode_utf8(disguise_protocol::http_response_text(accept, date)),
        ),
{
    reveal_strlit("\r\n");
    reveal_strlit("\r\n\r\n");
    let e = disguise_protocol::crlf();
    let blank = e + e;
    assert(blank =~= seq!['\r', '\n', '\r', '\n']);
    let request = disguise_protocol::http_request_text(host, key);
    let n = request.len() as int;
    let head = request.take(n - 4);
    assert(request[n - 4] == '\r' && request[n - 3] == '\n');
    assert(request[n - 2] == '\r' && request[n - 1] == '\n');
    assert(request =~= head + blank);
    lemma_ends_complete(head, blank);
    let response = disguise_protocol::http_response_text(accept, date);
    let m = response.len() as int;
    let front = response.take(m - 4);
    assert(response =~= front + blank);
    lemma_ends_complete(front, blank);
}

/// The client accepts the answer that a server gives to its key.
pub proof fn answer_to_the_key_is_accepted(key: Seq<char>, date: Seq<char>)
    ensures
        ({
            let bytes = vstd::utf8::encode_utf8(key);
            handshake::accepts(
                vstd::utf8::encode_utf8(
                    disguise_protocol::http_response_text(
                        disguise_protocol::ws_accept_text(bytes),
                        date,
                    ),
                ),
                bytes,
            )
        }),
{
    let bytes = vstd::utf8::encode_utf8(key);
    let accept = disguise_protocol::ws_accept_text(bytes);
    let response = disguise_protocol::http_response_text(accept, date);
    let front =
        "HTTP/1.1 101 Switching Protocols\r\nUpgrade: websocket\r\nConnection: Upgrade\r\nSec-WebSocket-Accept: "@;
    let back = "\r\nServer: nginx/1.24.0\r\nDate: "@ + date + "\r\n\r\n"@;
    assert(response =~= front + (accept + back));
    lemma_encode_concat(front, accept + back);
    lemma_encode_concat(accept, back);
    let all = vstd::utf8::encode_utf8(response);
    let part = vstd::utf8::encode_utf8(accept);
    let at = vstd::utf8::encode_utf8(front).len() as int;
    assert(all.subrange(at, at + part.len()) =~= part);
    assert(handshake::stands_at(all, part, at));
}

/// A key is searched line by line: what the first lines hold comes first, and otherwise what
/// the lines behind them hold.
pub proof fn lines_are_searched_in_order(first: Seq<char>, rest: Seq<char>)
    ensures
        disguise_protocol::ws_key_in(first + "\r\n"@ + rest, 0) == match disguise_protocol::ws_key_in(
            first,
            0,
        ) {
            Some(key) => Some(key),
            None => disguise_protocol::ws_key_in(rest, 0),
        },
{
    reveal_strlit("\r\n");
    lemma_search_in_parts(first, rest, 0);
    lemma_search_from(first + disguise_protocol::crlf(), rest, 0);
}

/// A line gives a key exactly if what stands before its first colon is the name of the key's
/// header, in any case: then the key is what stands behind it, without white space around it.
pub proof fn header_line_gives_its_value(name: Seq<char>, value: Seq<char>, bare: Seq<char>)
    requires
        forall|i: int| 0 <= i < name.len() ==> #[trigger] name[i] != ':',
        one_line(name + ":"@ + value),
        one_line(bare),
        forall|i: int| 0 <= i < bare.len() ==> #[trigger] bare[i] != ':',
    ensures
        disguise_protocol::ws_key_in(name + ":"@ + value, 0) == if text::same_ignoring_case(
            name,
            "Sec-WebSocket-Key"@,
        ) {
            Some(text::trimmed(value))
        } else {
            None
        },
        disguise_protocol::ws_key_in(bare, 0) is None,
{
    reveal_strlit(":");
    let c = name + ":"@ + value;
    let n = name.len() as int;
    lemma_line_end_of_one_line(c, 0);
    assert forall|i: int| 0 <= i < n implies #[trigger] c[i] != ':' by {
        assert(c[i] == name[i]);
    }
    assert(c[n] == ':');
    lemma_colon_at(c, 0, n, c.len() as int);
    assert(c.subrange(0, n) =~= name);
    assert(c.subrange(n + 1, c.len() as int) =~= value);
    lemma_line_end_of_one_line(bare, 0);
    lemma_no_colon(bare, 0);
}

proof fn lemma_no_colon(c: Seq<char>, from: int)
    requires
        0 <= from <= c.len(),
        forall|i: int| 0 <= i < c.len() ==> #[trigger] c[i] != ':',
    ensures
        disguise_protocol::colon_before(c, from, c.len() as int) == c.len(),
    decreases c.len() - from,
{
    if from < c.len() {
        lemma_no_colon(c, from + 1);
    }
}

} // verus!

//! The handshake that opens a camouflaged stream.

use crate::locator::UrlParts;
use crate::text;
use crate::tunnel::disguise_protocol;
use crate::tunnel::fakehttp::handshake;
use crate::tunnel::fakehttp::handshake::{
    FakeHttpPayload, HandshakeError, HeadProgress, PayloadModel, Protocol, RequestHead,
};
use crate::tunnel::protocol::adapters::fakehttp::FakeHttpAdapter;
use vstd::prelude::*;
use vstd::string::*;

verus! {

/// An entry of the configuration names its protocol and its host; others name nothing.
pub proof fn entry_names_protocol_and_host(host: Seq<char>, entry: Seq<char>)
    ensures
        handshake::payload_of("http://"@ + host) == Some(PayloadModel::Http(host)),
        handshake::payload_of("https://"@ + host) == Some(PayloadModel::Https(host)),
        handshake::payload_of(entry) matches Some(PayloadModel::Http(h)) ==> entry == "http://"@ + h,
        handshake::payload_of(entry) matches Some(PayloadModel::Https(h)) ==> entry == "https://"@
            + h,
{
    reveal_strlit("http://");
    reveal_strlit("https://");
    let a = "http://"@ + host;
    let b = "https://"@ + host;
    assert(a.subrange(0, 7) =~= "http://"@);
    assert(a.skip(7) =~= host);
    assert(b.subrange(0, 8) =~= "https://"@);
    assert(b.skip(8) =~= host);
    assert(b[4] == 's' && "http://"@[4] == ':');
    assert(b.subrange(0, 7)[4] == 's');
    if text::has_prefix(entry, "http://"@) {
        assert(entry =~= "http://"@ + entry.skip(7));
    } else if text::has_prefix(entry, "https://"@) {
        assert(entry =~= "https://"@ + entry.skip(8));
    }
}

/// The entries that name something are kept in order, and the others left out.
pub proof fn entries_keep_their_order(entries: Seq<String>, entry: String)
    ensures
        handshake::payloads_of(Seq::<String>::empty()).len() == 0,
        handshake::payload_of(entry@) matches Some(p) ==> handshake::payloads_of(
            entries.push(entry),
        ) == handshake::payloads_of(entries).push(p),
        handshake::payload_of(entry@) is None ==> handshake::payloads_of(entries.push(entry))
            == handshake::payloads_of(entries),
{
    assert(entries.push(entry).drop_last() =~= entries);
}

/// A head is complete exactly if an empty line stands in it somewhere: CR LF CR LF. One that
/// grew beyond the limit without it is refused.
pub proof fn empty_line_completes_a_head(before: Seq<u8>, after: Seq<u8>, b: Seq<u8>, limit: int)
    ensures
        handshake::progress_of(before + seq![13u8, 10, 13, 10] + after, limit)
            == HeadProgress::Complete,
        (forall|i: int|
            0 <= i <= b.len() - 4 ==> !(#[trigger] b[i] == 13 && b[i + 1] == 10 && b[i + 2] == 13
                && b[i + 3] == 10)) ==> handshake::progress_of(b, limit) == if b.len() > limit {
            HeadProgress::TooLarge
        } else {
            HeadProgress::More
        },
{
    let all = before + seq![13u8, 10, 13, 10] + after;
    assert(handshake::blank_line_at(all, before.len() as int));
    if forall|i: int|
        0 <= i <= b.len() - 4 ==> !(#[trigger] b[i] == 13 && b[i + 1] == 10 && b[i + 2] == 13 && b[i
            + 3] == 10) {
        assert(!handshake::head_complete(b)) by {
            assert forall|i: int| !handshake::blank_line_at(b, i) by {
                if 0 <= i <= b.len() - 4 {
                    assert(!(b[i] == 13 && b[i + 1] == 10 && b[i + 2] == 13 && b[i + 3] == 10));
                }
            }
        }
    }
}

/// An answer is accepted exactly if the value that the key calls for stands in it somewhere.
pub proof fn value_may_stand_anywhere(before: Seq<u8>, after: Seq<u8>, response: Seq<u8>, key: Seq<u8>)
    ensures
        ({
            let value = vstd::utf8::encode_utf8(disguise_protocol::ws_accept_text(key));
            &&& handshake::accepts(before + value + after, key)
            &&& handshake::accepts(response, key) ==> exists|i: int|
                0 <= i <= response.len() - value.len() && #[trigger] response.subrange(
                    i,
                    i + value.len(),
                ) == value
        }),
{
    let value = vstd::utf8::encode_utf8(disguise_protocol::ws_accept_text(key));
    let all = before + value + after;
    let n = before.len() as int;
    assert(all.subrange(n, n + value.len()) =~= value);
    assert(handshake::stands_at(all, value, n));
    if handshake::accepts(response, key) {
        let i = choose|i: int| #[trigger] handshake::stands_at(response, value, i);
        assert(response.subrange(i, i + value.len()) == value);
    }
}

/// A request that carries a key is answered by the value of that key, any other by nothing.
pub proof fn key_decides_the_answer(request: Seq<u8>)
    ensures
        disguise_protocol::ws_key_of(request) matches Some(key) ==> handshake::accept_value(request)
            == disguise_protocol::ws_accept_text(vstd::utf8::encode_utf8(key)),
        disguise_protocol::ws_key_of(request) is None ==> handshake::accept_value(request).len()
            == 0,
        !vstd::utf8::valid_utf8(request) ==> disguise_protocol::ws_key_of(request) is None,
{
}

/// HTTP begins with the letters of a method.
pub proof fn http_begins_with_a_method(b: Seq<u8>)
    requires
        b.len() == 4,
    ensures
        handshake::opens_http(b) == (b.subrange(0, 3) == seq![71u8, 69, 84] || b == seq![
            80u8,
            79,
            83,
            84,
        ]),
{
    let get = b.subrange(0, 3);
    assert(get[0] == b[0] && get[1] == b[1] && get[2] == b[2]);
    if handshake::opens_http(b) {
        if b[0] == 71 {
            assert(get =~= seq![71u8, 69, 84]);
        } else {
            assert(b =~= seq![80u8, 79, 83, 84]);
        }
    }
    if get == seq![71u8, 69, 84] {
        assert(seq![71u8, 69, 84][0] == 71 && seq![71u8, 69, 84][1] == 69);
        assert(seq![71u8, 69, 84][2] == 84);
    }
}

/// The session id of a ClientHello follows 38 bytes and its own length, and is there if the
/// record holds all of it.
pub proof fn session_id_is_read_by_its_length(body: Seq<u8>)
    ensures
        body.len() <= 39 ==> handshake::session_id_in_body(body) is None,
        body.len() > 39 ==> handshake::session_id_in_body(body) == if 39 + body[38] <= body.len() {
            Some(body.subrange(39, 39 + body[38]))
        } else {
            None
        },
{
}

/// Each side drops as many records as the other sends before the stream: the client the
/// server's hello and flight, the server the client's finish.
pub proof fn flights_are_dropped_whole()
    ensures
        handshake::CLIENT_DRAINS == 4,
        handshake::SERVER_DRAINS == 2,
        handshake::MAX_RESPONSE_HEAD == 4096,
        handshake::MAX_REQUEST_HEAD == 8192,
{
}

/// A server's flight is a hello that repeats the session id, a change of ciphers, and two
/// opaque records of 200 to 399 and 100 to 199 bytes.
pub proof fn server_flight_repeats_the_session(flight: Seq<u8>, session_id: Option<Seq<u8>>)
    requires
        handshake::is_server_flight(flight, session_id),
    ensures
        exists|random: Seq<u8>, sid: Seq<u8>, pubkey: Seq<u8>, first: Seq<u8>, second: Seq<u8>|
            random.len() == 32 && pubkey.len() == 32 && (session_id matches Some(s) ==> sid == s)
                && (session_id is None ==> sid.len() == 32) && 200 <= first.len() <= 399 && 100
                <= second.len() <= 199 && flight == #[trigger] disguise_protocol::server_hello(
                random,
                sid,
                pubkey,
            ) + (seq![0x14u8, 3, 3, 0, 1, 1] + #[trigger] disguise_protocol::tls_record(
                23,
                3,
                3,
                first,
            ) + #[trigger] disguise_protocol::tls_record(23, 3, 3, second)),
{
    let (random, sid, pubkey, first, second) = choose|
        random: Seq<u8>,
        sid: Seq<u8>,
        pubkey: Seq<u8>,
        first: Seq<u8>,
        second: Seq<u8>,
    |
        #![trigger disguise_protocol::server_hello(random, sid, pubkey), disguise_protocol::server_encrypted_flight(first, second)]
        {
            &&& random.len() == 32 && pubkey.len() == 32
            &&& match session_id {
                Some(s) => sid == s,
                None => sid.len() == 32,
            }
            &&& 200 <= first.len() < 400 && 100 <= second.len() < 200
            &&& flight == disguise_protocol::server_hello(random, sid, pubkey)
                + disguise_protocol::server_encrypted_flight(first, second)
        };
    assert(disguise_protocol::change_cipher_spec() =~= seq![0x14u8, 3, 3, 0, 1, 1]);
    assert(flight == disguise_protocol::server_hello(random, sid, pubkey) + (seq![
        0x14u8,
        3,
        3,
        0,
        1,
        1,
    ] + disguise_protocol::tls_record(23, 3, 3, first) + disguise_protocol::tls_record(
        23,
        3,
        3,
        second,
    )));
}

// --- Text ---

/// Trimming takes the white space off both ends and nothing else.
pub proof fn trimming_takes_white_space_off(s: Seq<char>)
    ensures
        exists|a: int, b: int|
            0 <= a <= b <= s.len() && #[trigger] s.subrange(a, b) == text::trimmed(s) && (forall|
                i: int,
            |
                0 <= i < a || b <= i < s.len() ==> text::is_white(#[trigger] s[i])) && (a < b
                ==> !text::is_white(s[a]) && !text::is_white(s[b - 1])),
{
    lemma_trim_start(s);
    let t = text::trim_start(s);
    lemma_trim_end(t);
    let a = s.len() - t.len();
    let b = a + text::trim_end(t).len();
    assert(s.subrange(a, b) =~= text::trimmed(s));
    assert forall|i: int| 0 <= i < a || b <= i < s.len() implies text::is_white(#[trigger] s[i]) by {
        if i >= b {
            assert(s[i] == t[i - a]);
        }
    }
    if a < b {
        assert(s[a] == t[0]);
        assert(s[b - 1] == t[b - 1 - a]);
    }
}

proof fn lemma_trim_start(s: Seq<char>)
    ensures
        ({
            let t = text::trim_start(s);
            let a = s.len() - t.len();
            &&& 0 <= a <= s.len()
            &&& t == s.subrange(a, s.len() as int)
            &&& forall|i: int| 0 <= i < a ==> text::is_white(#[trigger] s[i])
            &&& t.len() > 0 ==> !text::is_white(t[0])
        }),
    decreases s.len(),
{
    if s.len() > 0 && text::is_white(s[0]) {
        let d = s.drop_first();
        lemma_trim_start(d);
        let t = text::trim_start(s);
        let a = s.len() - t.len();
        assert(t =~= s.subrange(a, s.len() as int));
        assert forall|i: int| 0 <= i < a implies text::is_white(#[trigger] s[i]) by {
            if i > 0 {
                assert(d[i - 1] == s[i]);
            }
        }
    } else {
        assert(s =~= s.subrange(0, s.len() as int));
    }
}

proof fn lemma_trim_end(s: Seq<char>)
    ensures
        ({
            let t = text::trim_end(s);
            &&& t.len() <= s.len()
            &&& t == s.subrange(0, t.len() as int)
            &&& forall|i: int| t.len() <= i < s.len() ==> text::is_white(#[trigger] s[i])
            &&& t.len() > 0 ==> !text::is_white(t[t.len() - 1])
        }),
    decreases s.len(),
{
    if s.len() > 0 && text::is_white(s.last()) {
        let d = s.drop_last();
        lemma_trim_end(d);
        let t = text::trim_end(s);
        assert(t =~= s.subrange(0, t.len() as int));
        assert forall|i: int| t.len() <= i < s.len() implies text::is_white(#[trigger] s[i]) by {
            if i < s.len() - 1 {
                assert(d[i] == s[i]);
            }
        }
    } else {
        assert(s =~= s.subrange(0, s.len() as int));
    }
}

/// White space among the ASCII characters: tab to carriage return, and the space.
pub proof fn ascii_white_space(c: char)
    requires
        (c as int) < 128,
    ensures
        text::is_white(c) == (9 <= c as int <= 13 || c as int == 32),
{
}

/// White space beyond ASCII: the next line, the spaces without and with a break, and the
/// separators of lines and paragraphs.
pub proof fn unicode_white_space(c: char)
    requires
        c as int >= 128,
    ensures
        text::is_white(c) == (c == '\u{85}' || c == '\u{a0}' || c == '\u{1680}' || c == '\u{2000}' || c
            == '\u{2001}' || c == '\u{2002}' || c == '\u{2003}' || c == '\u{2004}' || c == '\u{2005}'
            || c == '\u{2006}' || c == '\u{2007}' || c == '\u{2008}' || c == '\u{2009}' || c
            == '\u{200a}' || c == '\u{2028}' || c == '\u{2029}' || c == '\u{202f}' || c == '\u{205f}'
            || c == '\u{3000}'),
{
}

/// Words are the same but for the case of ASCII letters.
pub proof fn case_does_not_matter(a: Seq<char>, b: Seq<char>)
    ensures
        text::same_ignoring_case(a, a),
        text::same_ignoring_case(a, b) == text::same_ignoring_case(b, a),
        text::same_ignoring_case(a, b) ==> a.len() == b.len() && forall|i: int|
            0 <= i < a.len() ==> (#[trigger] a[i] == b[i] || (a[i] as int + 32 == b[i] as int && 'A'
                <= a[i] <= 'Z') || (b[i] as int + 32 == a[i] as int && 'A' <= b[i] <= 'Z')),
{
    if text::same_ignoring_case(a, b) {
        assert forall|i: int| 0 <= i < b.len() implies text::folded(#[trigger] b[i])
            == text::folded(a[i]) by {
            assert(text::folded(a[i]) == text::folded(b[i]));
        }
        assert forall|i: int| 0 <= i < a.len() implies (#[trigger] a[i] == b[i] || (a[i] as int + 32
            == b[i] as int && 'A' <= a[i] <= 'Z') || (b[i] as int + 32 == a[i] as int && 'A' <= b[i]
            <= 'Z')) by {
            assert(text::folded(a[i]) == text::folded(b[i]));
        }
    }
    if text::same_ignoring_case(b, a) {
        assert forall|i: int| 0 <= i < a.len() implies text::folded(#[trigger] a[i])
            == text::folded(b[i]) by {
            assert(text::folded(b[i]) == text::folded(a[i]));
        }
    }
}

// --- Calls ---

/// Payloads are used in turn: each use takes the next, and after the last the first again.
pub proof fn payloads_are_used_in_turn(
    payloads: &[FakeHttpPayload],
    counter: usize,
    r: Result<usize, HandshakeError>,
    next: Result<usize, HandshakeError>,
)
    requires
        call_ensures(handshake::choose_payload, (payloads, counter), r),
        counter < usize::MAX,
        call_ensures(handshake::choose_payload, (payloads, (counter + 1) as usize), next),
    ensures
        payloads@.len() == 0 ==> r == Err::<usize, HandshakeError>(HandshakeError::NoPayload),
        payloads@.len() > 0 ==> {
            &&& r matches Ok(i) && i < payloads@.len() && (counter < payloads@.len() ==> i
                == counter)
            &&& next matches Ok(j) && (r->Ok_0 + 1 < payloads@.len() ==> j == r->Ok_0 + 1) && (
            r->Ok_0 + 1 == payloads@.len() ==> j == 0)
        },
{
    let n = payloads@.len() as int;
    if n > 0 {
        assert(payloads@.len() == payloads.len());
        let c = counter as int;
        vstd::arithmetic::div_mod::lemma_mod_bound(c, n);
        vstd::arithmetic::div_mod::lemma_fundamental_div_mod(c, n);
        let q = c / n;
        let m = c % n;
        assert(q * n == n * q) by (nonlinear_arith);
        if m + 1 < n {
            vstd::arithmetic::div_mod::lemma_fundamental_div_mod_converse(c + 1, n, q, m + 1);
        } else {
            assert((q + 1) * n == n * q + n) by (nonlinear_arith);
            vstd::arithmetic::div_mod::lemma_fundamental_div_mod_converse(c + 1, n, q + 1, 0);
        }
        if c < n {
            vstd::arithmetic::div_mod::lemma_small_mod(c as nat, n as nat);
        }
    }
}

/// A client collects the answer until its head is complete; the end of the stream before
/// that, and more than 4096 bytes without it, are errors.
pub proof fn client_collects_the_answer(
    buf: &mut Vec<u8>,
    data: &[u8],
    r: Result<bool, HandshakeError>,
)
    requires
        call_ensures(handshake::client_on_response, (buf, data), r),
    ensures
        data@.len() == 0 ==> r == Err::<bool, HandshakeError>(HandshakeError::ServerClosed)
            && final(buf)@ == old(buf)@,
        data@.len() > 0 ==> {
            let all = old(buf)@ + data@;
            let complete = exists|i: int|
                0 <= i <= all.len() - 4 && #[trigger] all[i] == 13 && all[i + 1] == 10 && all[i + 2]
                    == 13 && all[i + 3] == 10;
            &&& final(buf)@ == all
            &&& complete ==> r == Ok::<bool, HandshakeError>(true)
            &&& !complete && all.len() <= 4096 ==> r == Ok::<bool, HandshakeError>(false)
            &&& !complete && all.len() > 4096 ==> r == Err::<bool, HandshakeError>(
                HandshakeError::ResponseTooLarge,
            )
        },
{
    if data@.len() > 0 {
        lemma_progress(old(buf)@ + data@, 4096);
    }
}

/// A server collects the request likewise, up to 8192 bytes.
pub proof fn server_collects_the_request(
    h: &mut RequestHead,
    data: &[u8],
    r: Result<bool, HandshakeError>,
)
    requires
        call_ensures(RequestHead::on_read, (h, data), r),
    ensures
        data@.len() == 0 ==> r == Err::<bool, HandshakeError>(HandshakeError::IncompleteRequest)
            && *final(h) == *old(h),
        data@.len() > 0 ==> {
            let all = old(h)@ + data@;
            let complete = exists|i: int|
                0 <= i <= all.len() - 4 && #[trigger] all[i] == 13 && all[i + 1] == 10 && all[i + 2]
                    == 13 && all[i + 3] == 10;
            &&& final(h)@ == all
            &&& complete ==> r == Ok::<bool, HandshakeError>(true)
            &&& !complete && all.len() <= 8192 ==> r == Ok::<bool, HandshakeError>(false)
            &&& !complete && all.len() > 8192 ==> r == Err::<bool, HandshakeError>(
                HandshakeError::RequestTooLarge,
            )
        },
{
    if data@.len() > 0 {
        lemma_progress(old(h)@ + data@, 8192);
    }
}

proof fn lemma_progress(all: Seq<u8>, limit: int)
    ensures
        ({
            let complete = exists|i: int|
                0 <= i <= all.len() - 4 && #[trigger] all[i] == 13 && all[i + 1] == 10 && all[i + 2]
                    == 13 && all[i + 3] == 10;
            let p = handshake::progress_of(all, limit);
            &&& complete ==> p is Complete
            &&& !complete ==> p == if all.len() > limit {
                HeadProgress::TooLarge
            } else {
                HeadProgress::More
            }
        }),
{
    if exists|i: int|
        0 <= i <= all.len() - 4 && #[trigger] all[i] == 13 && all[i + 1] == 10 && all[i + 2] == 13
            && all[i + 3] == 10 {
        let i = choose|i: int|
            0 <= i <= all.len() - 4 && #[trigger] all[i] == 13 && all[i + 1] == 10 && all[i + 2]
                == 13 && all[i + 3] == 10;
        let (a, c) = (all.take(i), all.skip(i + 4));
        assert(all =~= a + seq![13u8, 10, 13, 10] + c);
        empty_line_completes_a_head(a, c, all, limit);
    } else {
        empty_line_completes_a_head(all, all, all, limit);
    }
}

/// The protocol is told by the first four bytes: a method, or the head of a TLS handshake.
pub proof fn protocol_is_told_by_its_first_bytes(b: [u8; 4], r: Result<Protocol, HandshakeError>)
    requires
        call_ensures(handshake::detect_protocol, (&b,), r),
    ensures
        ({
            let http = b@.subrange(0, 3) == seq![71u8, 69, 84] || b@ == seq![80u8, 79, 83, 84];
            let tls = b@[0] == 22 && b@[1] == 3;
            &&& http ==> r == Ok::<Protocol, HandshakeError>(Protocol::Http)
            &&& !http && tls ==> r == Ok::<Protocol, HandshakeError>(Protocol::Tls)
            &&& !http && !tls ==> r == Err::<Protocol, HandshakeError>(
                HandshakeError::UnrecognizedProtocol,
            )
        }),
{
    http_begins_with_a_method(b@);
}

/// A record of the handshake may be 16384 bytes long, and no longer; the errors tell the hello
/// from the records behind it.
pub proof fn records_are_bounded(
    h: [u8; 5],
    hello: Result<usize, HandshakeError>,
    skipped: Result<usize, HandshakeError>,
)
    requires
        call_ensures(handshake::handshake_record_len, (&h,), hello),
        call_ensures(handshake::skipped_record_len, (&h,), skipped),
    ensures
        ({
            let n = h@[3] * 256 + h@[4];
            &&& n <= 16384 ==> hello == Ok::<usize, HandshakeError>(n as usize) && skipped == hello
            &&& n > 16384 ==> hello == Err::<usize, HandshakeError>(HandshakeError::RecordTooLarge)
                && skipped == Err::<usize, HandshakeError>(HandshakeError::SkippedRecordTooLarge)
        }),
{
    crate::laws::bytes::lemma_reads(h@, 3);
}

/// What a client sends first: a request with a key, which it remembers, or a hello.
pub proof fn client_sends_its_payload(p: FakeHttpPayload, r: (Vec<u8>, Option<String>))
    requires
        call_ensures(FakeHttpPayload::client_bytes, (&p,), r),
    ensures
        p matches FakeHttpPayload::Http { host } ==> (r.1 matches Some(key) && r.0@
            == vstd::utf8::encode_utf8(disguise_protocol::http_request_text(host@, key@))),
        p matches FakeHttpPayload::Https { host } ==> r.1 is None && exists|
            seed: disguise_protocol::ClientHelloSeed,
        |
            r.0@ == #[trigger] disguise_protocol::client_hello(
                vstd::utf8::encode_utf8(host@),
                seed,
            ),
{
}

/// A client pretends HTTPS at port 443 and HTTP elsewhere, for the host of the URL. Only its
/// own scheme is supported: eight seconds to connect, and one upgrade at a time.
pub proof fn adapter_serves_its_scheme(
    url: UrlParts,
    p: FakeHttpPayload,
    a: FakeHttpAdapter,
    scheme: &str,
    supported: bool,
    timeout: Option<u64>,
    pending: Option<usize>,
)
    requires
        call_ensures(FakeHttpAdapter::payload_for_url, (&url,), p),
        call_ensures(FakeHttpAdapter::is_scheme_supported, (&a, scheme), supported),
        call_ensures(FakeHttpAdapter::connect_timeout, (&a, scheme), timeout),
        call_ensures(FakeHttpAdapter::max_pending_tcp_upgrades, (&a, scheme), pending),
    ensures
        p is Https == (url.port == Some(443u16)),
        url.host matches Some(h) ==> (p matches FakeHttpPayload::Https { host } ==> host@ == h@) && (
        p matches FakeHttpPayload::Http { host } ==> host@ == h@),
        url.host is None ==> (p matches FakeHttpPayload::Https { host } ==> host@.len() == 0) && (
        p matches FakeHttpPayload::Http { host } ==> host@.len() == 0),
        supported == (scheme@ == seq!['f', 'a', 'k', 'e', 'h', 't', 't', 'p']),
        timeout == if supported {
            Some(8u64)
        } else {
            None
        },
        pending == if supported {
            Some(1usize)
        } else {
            None
        },
{
    reveal_strlit("fakehttp");
    reveal_strlit("");
    assert("fakehttp"@ =~= seq!['f', 'a', 'k', 'e', 'h', 't', 't', 'p']);
}

/// The entries of the configuration give their payloads, in order.
pub proof fn entries_are_parsed(hosts: Vec<String>, r: Vec<FakeHttpPayload>, i: int)
    requires
        call_ensures(handshake::parse_payloads, (hosts,), r),
    ensures
        r@.len() == handshake::payloads_of(hosts@).len(),
        0 <= i < r@.len() ==> r@[i]@ == handshake::payloads_of(hosts@)[i],
{
    let v = r@.map_values(|p: FakeHttpPayload| p@);
    assert(v.len() == r@.len());
    if 0 <= i < r@.len() {
        assert(v[i] == r@[i]@);
    }
}

/// An answer is accepted by the value of the key; a request is answered by the value of its
/// key, and a hello by a flight that repeats its session id.
pub proof fn answers_fit_their_requests(
    response: &[u8],
    key: &str,
    accepted: bool,
    request: &[u8],
    value: String,
    body: &[u8],
    sid: Option<&[u8]>,
    flight: Vec<u8>,
)
    requires
        call_ensures(handshake::response_accepts, (response, key), accepted),
        call_ensures(handshake::accept_for, (request,), value),
        call_ensures(handshake::session_id_of_body, (body,), sid),
        call_ensures(handshake::server_tls_answer, (body,), flight),
    ensures
        accepted == handshake::accepts(response@, key.spec_bytes()),
        value@ == handshake::accept_value(request@),
        sid is Some == (body@.len() > 39 && body@.len() >= 39 + body@[38]),
        sid matches Some(s) ==> s@ == body@.subrange(39, 39 + body@[38]),
        handshake::is_server_flight(
            flight@,
            if body@.len() > 39 && body@.len() >= 39 + body@[38] {
                Some(body@.subrange(39, 39 + body@[38]))
            } else {
                None
            },
        ),
{
    session_id_is_read_by_its_length(body@);
}

/// A blank line is looked for from a given place on; a head with one is complete.
pub proof fn blank_line_is_looked_for(
    buf: &[u8],
    from: usize,
    limit: usize,
    i: int,
    found: bool,
    progress: HeadProgress,
)
    requires
        from <= buf@.len(),
        call_ensures(handshake::has_blank_line, (buf, from), found),
        call_ensures(handshake::head_progress, (buf, limit), progress),
    ensures
        from <= i <= buf@.len() - 4 && buf@[i] == 13 && buf@[i + 1] == 10 && buf@[i + 2] == 13
            && buf@[i + 3] == 10 ==> found && progress == HeadProgress::Complete,
        found ==> progress == HeadProgress::Complete && exists|k: int|
            from <= k <= buf@.len() - 4 && #[trigger] buf@[k] == 13 && buf@[k + 1] == 10 && buf@[k
                + 2] == 13 && buf@[k + 3] == 10,
        from == 0 && !found ==> (progress == HeadProgress::TooLarge) == (buf@.len() > limit) && (
        progress == HeadProgress::More) == (buf@.len() <= limit),
{
    if from <= i <= buf@.len() - 4 && buf@[i] == 13 && buf@[i + 1] == 10 && buf@[i + 2] == 13
        && buf@[i + 3] == 10 {
        assert(handshake::blank_line_at(buf@, i));
        assert(handshake::blank_line_from(buf@, from as int));
    }
    if found {
        assert(handshake::blank_line_from(buf@, from as int));
        let k = choose|k: int| from <= k && handshake::blank_line_at(buf@, k);
        assert(handshake::blank_line_at(buf@, k));
        assert(buf@[k] == 13);
    } else if from == 0 {
        assert forall|k: int| !handshake::blank_line_at(buf@, k) by {
            if handshake::blank_line_at(buf@, k) {
                assert(handshake::blank_line_from(buf@, 0));
            }
        }
    }
}

/// A request is answered by the value of its key, and a hello by a flight of its session.
pub proof fn request_is_answered(
    head: RequestHead,
    answer: Vec<u8>,
    session_id: Option<&[u8]>,
    flight: Vec<u8>,
)
    requires
        call_ensures(RequestHead::answer, (&head,), answer),
        call_ensures(handshake::server_flight, (session_id,), flight),
    ensures
        exists|date: Seq<char>|
            disguise_protocol::is_http_date(date) && answer@ == vstd::utf8::encode_utf8(
                #[trigger] disguise_protocol::http_response_text(
                    handshake::accept_value(head@),
                    date,
                ),
            ),
        session_id matches Some(s) ==> handshake::is_server_flight(flight@, Some(s@)),
        session_id is None ==> handshake::is_server_flight(flight@, None),
{
}

/// What is reported where the transport is not TCP.
pub proof fn transport_must_be_tcp(r: &'static str)
    requires
        call_ensures(crate::tunnel::protocol::adapters::fakehttp::needs_tcp, (), r),
    ensures
        r@ == "FakeHTTP protocol requires a TCP transport"@,
{
}

} // verus!

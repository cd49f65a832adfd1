//! Disguised segments: how a payload is wrapped, how its handshake runs, and how packets are
//! cut out of a stream.

use crate::laws::bytes;
use crate::laws::bytes::u16_at;
use crate::laws::disguise;
use crate::laws::handshake;
use crate::laws::packet::le32_at;
use crate::tunnel::disguise_protocol;
use crate::tunnel::fake_tcp::disguise::{
    ClientHandshake, DisguiseError, DisguiseMode, DisguiseStep, ServerHandshake,
};
use crate::tunnel::fake_tcp::stream::{FakeTcpStream, StreamStep};
use crate::tunnel::fake_tcp::{disguise as segments, stream, tls_disguise};
use crate::tunnel::fakehttp::handshake::HeadProgress;
use crate::wire;
use vstd::prelude::*;
use vstd::string::*;

verus! {

// --- Wrapping ---

/// The number in the two bytes at `at`, least significant first.
pub open spec fn le16_at(b: Seq<u8>, at: int) -> int {
    b[at] + b[at + 1] * 0x100
}

/// The data stands behind its own length.
pub open spec fn data_stands_in(inner: Seq<u8>, data: Seq<u8>) -> bool {
    &&& inner.len() == 2 + data.len()
    &&& le16_at(inner, 0) == data.len()
    &&& inner.subrange(2, inner.len() as int) == data
}

proof fn lemma_prefixed(data: Seq<u8>)
    requires
        data.len() < 0x10000,
    ensures
        data_stands_in(segments::prefixed(data), data),
{
    let inner = segments::prefixed(data);
    wire::wire_integers_round_trip(data.len() as int);
    assert(inner.subrange(0, 2) =~= wire::le16(data.len() as int));
    assert(inner.subrange(2, inner.len() as int) =~= data);
    assert(inner[0] == wire::le16(data.len() as int)[0]);
    assert(inner[1] == wire::le16(data.len() as int)[1]);
}

/// A payload without a disguise travels as it is.
pub proof fn plain_payload_is_sent_as_it_is(payload: &[u8], is_client: bool, r: Vec<u8>)
    requires
        call_ensures(segments::wrap_payload, (&DisguiseMode::Off, payload, is_client), r),
    ensures
        r@ == payload@,
{
}

/// Disguised as TLS a payload travels in one application data record, behind its length.
#[verifier::spinoff_prover]
pub proof fn payload_travels_in_a_record(
    mode: DisguiseMode,
    payload: &[u8],
    is_client: bool,
    r: Vec<u8>,
)
    requires
        call_ensures(segments::wrap_payload, (&mode, payload, is_client), r),
        mode is Tls,
        payload@.len() + 2 < 0x10000,
    ensures
        r@.len() == payload@.len() + 7,
        r@[0] == 0x17 && r@[1] == 3 && r@[2] == 3,
        u16_at(r@, 3) == payload@.len() + 2,
        data_stands_in(r@.subrange(5, r@.len() as int), payload@),
{
    lemma_prefixed(payload@);
    disguise::record_counts_its_body(0x17, 3, 3, segments::prefixed(payload@));
}

/// Disguised as HTTP a payload travels in one WebSocket frame, behind its length; a client's
/// frame is masked, a server's is not.
#[verifier::spinoff_prover]
pub proof fn payload_travels_in_a_frame(
    mode: DisguiseMode,
    payload: &[u8],
    is_client: bool,
    r: Vec<u8>,
)
    requires
        call_ensures(segments::wrap_payload, (&mode, payload, is_client), r),
        mode is Http,
        payload@.len() < 0x10000,
    ensures
        r@[0] == 0x82,
        (r@[1] >= 128) == is_client,
        exists|inner: Seq<u8>, mask: Option<Seq<u8>>|
            data_stands_in(inner, payload@) && mask is Some == is_client && (mask matches Some(key)
                ==> key.len() == 4) && r@ == #[trigger] disguise_protocol::ws_frame(inner, mask),
{
    let inner = segments::prefixed(payload@);
    lemma_prefixed(payload@);
    if is_client {
        let key = choose|key: Seq<u8>|
            key.len() == 4 && r@ == #[trigger] disguise_protocol::ws_frame(inner, Some(key));
        disguise::frame_counts_and_masks_its_payload(inner, Some(key));
        assert(r@ == disguise_protocol::ws_frame(inner, Some(key)));
    } else {
        disguise::frame_counts_and_masks_its_payload(inner, None);
        assert(r@ == disguise_protocol::ws_frame(inner, None));
    }
}

/// What is wrapped is unwrapped by the other side, also where the mask is chosen by the
/// caller.
pub proof fn wrapped_payload_is_unwrapped(
    mode: DisguiseMode,
    payload: &[u8],
    is_client: bool,
    segment: &[u8],
    wrapped: Vec<u8>,
    r: Option<Vec<u8>>,
)
    requires
        call_ensures(segments::wrap_payload, (&mode, payload, is_client), wrapped),
        call_ensures(segments::unwrap_payload, (&mode, segment), r),
        segment@ == wrapped@,
        payload@.len() + 2 < 0x10000 || mode is Off,
    ensures
        r matches Some(data) && data@ == payload@,
{
    segments::disguise_round_trip(mode, payload@, is_client, wrapped@, Seq::empty());
    assert(wrapped@ + Seq::<u8>::empty() =~= wrapped@);
}

/// What stands behind a length is taken exactly if all of it is there.
pub proof fn data_is_taken_by_its_length(inner: &[u8], r: Option<Vec<u8>>)
    requires
        call_ensures(segments::extract_data_from_inner, (inner,), r),
    ensures
        r is Some == (inner@.len() >= 2 && inner@.len() >= 2 + le16_at(inner@, 0)),
        r matches Some(data) ==> data@ == inner@.subrange(2, 2 + le16_at(inner@, 0)),
{
    if inner@.len() >= 2 {
        assert(inner@.subrange(0, 2)[0] == inner@[0]);
        assert(inner@.subrange(0, 2)[1] == inner@[1]);
    }
}

/// The room that a disguise takes: five bytes of a record's header, or eight of a client's
/// frame and four of a server's, and two for the length.
pub proof fn room_of_a_disguise(mode: DisguiseMode, is_client: bool, r: usize)
    requires
        call_ensures(DisguiseMode::max_overhead, (&mode, is_client), r),
    ensures
        mode is Off ==> r == 0,
        mode is Tls ==> r == 5 + 2,
        mode is Http && is_client ==> r == 8 + 2,
        mode is Http && !is_client ==> r == 4 + 2,
{
}

/// The first entry decides how segments are disguised; what follows the scheme is the host.
pub proof fn first_entry_decides(hosts: &[String], host: Seq<char>, r: DisguiseMode)
    requires
        call_ensures(segments::parse_disguise_mode, (hosts,), r),
        hosts@.len() > 0,
    ensures
        hosts@[0]@ == seq!['h', 't', 't', 'p', 's', ':', '/', '/'] + host ==> (
        r matches DisguiseMode::Tls { host: h } && h@ == host),
        hosts@[0]@ == seq!['h', 't', 't', 'p', ':', '/', '/'] + host ==> (
        r matches DisguiseMode::Http { host: h } && h@ == host),
{
    reveal_strlit("https://");
    reveal_strlit("http://");
    let e = hosts@[0]@;
    let s = seq!['h', 't', 't', 'p', 's', ':', '/', '/'];
    let p = seq!['h', 't', 't', 'p', ':', '/', '/'];
    assert("https://"@ =~= s);
    assert("http://"@ =~= p);
    if e == s + host {
        assert(e.take(8) =~= s);
        assert(e.skip(8) =~= host);
    }
    if e == p + host {
        assert(e.take(7) =~= p);
        assert(e.skip(7) =~= host);
        assert(e[4] == ':');
    }
}

/// Without entries nothing is disguised, and neither with a first entry of another scheme.
pub proof fn other_entries_disguise_nothing(hosts: &[String], r: DisguiseMode)
    requires
        call_ensures(segments::parse_disguise_mode, (hosts,), r),
        hosts@.len() == 0 || hosts@[0]@.len() < 7 || hosts@[0]@[0] != 'h',
    ensures
        r is Off,
{
    reveal_strlit("https://");
    reveal_strlit("http://");
    assert("https://"@.len() == 8 && "http://"@.len() == 7);
    assert("https://"@[0] == 'h' && "http://"@[0] == 'h');
    if hosts@.len() > 0 && hosts@[0]@.len() >= 7 {
        let e = hosts@[0]@;
        assert(e.take(7)[0] == e[0]);
        if e.len() >= 8 {
            assert(e.take(8)[0] == e[0]);
        }
    }
}

// --- Flights ---

/// A flight is cut into as few segments as its length in steps of 1400 asks for: all but the
/// last are full, and joined they are the flight.
pub proof fn flight_is_cut_into_full_segments(data: &[u8], r: Vec<Vec<u8>>)
    requires
        call_ensures(segments::flight_chunks, (data,), r),
    ensures
        r@.len() == (data@.len() + 1399) / 1400,
        forall|i: int| 0 <= i < r@.len() - 1 ==> (#[trigger] r@[i])@.len() == 1400,
        forall|i: int|
            0 <= i < r@.len() ==> (#[trigger] r@[i])@ == data@.subrange(
                i * 1400,
                if (i + 1) * 1400 < data@.len() {
                    (i + 1) * 1400
                } else {
                    data@.len() as int
                },
            ),
{
    lemma_chunks(data@);
    let c = r@.map_values(|c: Vec<u8>| c@);
    assert forall|i: int| 0 <= i < r@.len() implies (#[trigger] r@[i])@ == data@.subrange(
        i * 1400,
        if (i + 1) * 1400 < data@.len() {
            (i + 1) * 1400
        } else {
            data@.len() as int
        },
    ) by {
        assert(c[i] == r@[i]@);
    }
    assert(c.len() == r@.len());
}

proof fn lemma_chunks(data: Seq<u8>)
    ensures
        ({
            let c = segments::chunks_of(data);
            &&& c.len() == (data.len() + 1399) / 1400
            &&& forall|i: int|
                0 <= i < c.len() ==> #[trigger] c[i] == data.subrange(
                    i * 1400,
                    if (i + 1) * 1400 < data.len() {
                        (i + 1) * 1400
                    } else {
                        data.len() as int
                    },
                )
        }),
    decreases data.len(),
{
    let c = segments::chunks_of(data);
    if data.len() > 1400 {
        let rest = data.skip(1400);
        lemma_chunks(rest);
        let d = segments::chunks_of(rest);
        assert forall|i: int| 0 <= i < c.len() implies #[trigger] c[i] == data.subrange(
            i * 1400,
            if (i + 1) * 1400 < data.len() {
                (i + 1) * 1400
            } else {
                data.len() as int
            },
        ) by {
            if i == 0 {
                assert(data.take(1400) =~= data.subrange(0, 1400));
            } else {
                assert(c[i] == d[i - 1]);
                assert(rest.subrange(
                    (i - 1) * 1400,
                    if i * 1400 < rest.len() {
                        i * 1400
                    } else {
                        rest.len() as int
                    },
                ) =~= data.subrange(
                    i * 1400,
                    if (i + 1) * 1400 < data.len() {
                        (i + 1) * 1400
                    } else {
                        data.len() as int
                    },
                ));
            }
        }
    } else if data.len() > 0 {
        assert(data.subrange(0, data.len() as int) =~= data);
    }
}

// --- Handshakes ---

/// Records are counted and dropped one by one: a whole one in front counts, and a part of
/// one does not.
pub proof fn records_are_dropped_whole(kind: u8, body: Seq<u8>, rest: Seq<u8>, part: Seq<u8>, wanted: nat)
    requires
        body.len() < 0x10000,
        wanted > 0,
        part.len() < 5 || part.len() < 5 + u16_at(part, 3),
    ensures
        ({
            let record = seq![kind, 3u8, 3u8] + wire::be16(body.len() as int) + body;
            &&& segments::complete_records(record + rest, wanted) == 1
                + segments::complete_records(rest, (wanted - 1) as nat)
            &&& segments::after_records(record + rest, wanted) == segments::after_records(
                rest,
                (wanted - 1) as nat,
            )
            &&& segments::complete_records(part, wanted) == 0
            &&& segments::after_records(part, wanted) == part
            &&& segments::complete_records(rest, 0) == 0
            &&& segments::after_records(rest, 0) == rest
        }),
{
    let record = seq![kind, 3u8, 3u8] + wire::be16(body.len() as int) + body;
    let all = record + rest;
    bytes::lemma_be16(body.len() as int);
    assert(all.subrange(3, 5) =~= wire::be16(body.len() as int));
    bytes::lemma_u16_in(all, 3, wire::be16(body.len() as int));
    disguise::record_is_read_by_its_length(all);
    disguise::record_is_read_by_its_length(part);
    assert(all.skip(5 + body.len() as int) =~= rest);
}

/// A client begins with its hello or its request, and a server by waiting for it; without a
/// disguise there is no handshake.
pub proof fn handshake_begins_with_the_client(
    mode: DisguiseMode,
    client: (Option<ClientHandshake>, DisguiseStep),
    server: Option<ServerHandshake>,
)
    requires
        call_ensures(ClientHandshake::start, (&mode,), client),
        call_ensures(ServerHandshake::start, (&mode,), server),
    ensures
        client.0 is Some == !(mode is Off),
        server is Some == !(mode is Off),
        mode is Off ==> client.1 is Done,
        !(mode is Off) ==> client.1 is SendThenReceive,
        mode matches DisguiseMode::Tls { host } ==> (client.1 matches DisguiseStep::SendThenReceive(
            hello,
        ) && exists|seed: disguise_protocol::ClientHelloSeed|
            hello@ == #[trigger] disguise_protocol::client_hello(
                vstd::utf8::encode_utf8(host@),
                seed,
            )),
        mode matches DisguiseMode::Http { host } ==> (
        client.1 matches DisguiseStep::SendThenReceive(request) && exists|key: Seq<u8>|
            key.len() == 16 && request@ == vstd::utf8::encode_utf8(
                disguise_protocol::http_request_text(
                    host@,
                    #[trigger] disguise_protocol::base64_text(key),
                ),
            )),
        client.0 matches Some(h) ==> h.is_tls() == (mode is Tls) && h.received().len() == 0
            && h.awaited() == 4,
        server matches Some(h) ==> h.received().len() == 0 && (h.waits_for() is Hello == (
        mode is Tls)) && (h.waits_for() is Request == (mode is Http)),
{
}

/// A client over TLS is done once four records came in all, however they were cut into
/// segments, and then sends its finish; before that it waits. Bytes that complete no record
/// are kept.
pub proof fn client_waits_for_four_records(h: &mut ClientHandshake, data: &[u8], r: DisguiseStep)
    requires
        call_ensures(ClientHandshake::on_receive, (h, data), r),
        old(h).is_tls(),
        0 < old(h).awaited(),
    ensures
        ({
            let all = old(h).received() + data@;
            let n = segments::complete_records(all, old(h).awaited());
            &&& n <= old(h).awaited()
            &&& n < old(h).awaited() ==> r is Receive && final(h).awaited() == old(h).awaited() - n
            &&& n == old(h).awaited() ==> (r matches DisguiseStep::SendThenDone(flight) && exists|
                finished: Seq<u8>,
            |
                36 <= finished.len() <= 55 && flight@ == seq![0x14u8, 3, 3, 0, 1, 1]
                    + #[trigger] disguise_protocol::tls_record(23, 3, 3, finished))
            &&& final(h).received() == segments::after_records(all, n)
        }),
{
    let all = old(h).received() + data@;
    lemma_counted(all, old(h).awaited());
    let n = segments::complete_records(all, old(h).awaited());
    if n == old(h).awaited() {
        let flight = r->SendThenDone_0;
        let finished = choose|finished: Seq<u8>|
            36 <= finished.len() < 56 && flight@
                == #[trigger] disguise_protocol::client_finished_flight(finished);
        disguise::flights_are_records(finished, finished);
        assert(flight@ == seq![0x14u8, 3, 3, 0, 1, 1] + disguise_protocol::tls_record(
            23,
            3,
            3,
            finished,
        ));
    }
}

proof fn lemma_counted(b: Seq<u8>, wanted: nat)
    ensures
        segments::complete_records(b, wanted) <= wanted,
    decreases wanted,
{
    if wanted > 0 {
        if let Some((n, _)) = disguise_protocol::tls_first_record(b) {
            lemma_counted(b.skip(n), (wanted - 1) as nat);
        }
    }
}

/// A client over HTTP is done with the empty line of the answer's head, waits before it, and
/// fails once more than 4096 bytes came without it.
pub proof fn client_waits_for_the_head(h: &mut ClientHandshake, data: &[u8], r: DisguiseStep)
    requires
        call_ensures(ClientHandshake::on_receive, (h, data), r),
        !old(h).is_tls(),
    ensures
        ({
            let all = old(h).received() + data@;
            let complete = exists|i: int|
                0 <= i <= all.len() - 4 && #[trigger] all[i] == 13 && all[i + 1] == 10 && all[i + 2]
                    == 13 && all[i + 3] == 10;
            &&& final(h).received() == all
            &&& complete ==> r is Done
            &&& !complete && all.len() <= 4096 ==> r is Receive
            &&& !complete && all.len() > 4096 ==> r == DisguiseStep::Fail(
                DisguiseError::ResponseTooLarge,
            )
        }),
{
    let all = old(h).received() + data@;
    lemma_head(all, 4096);
}

proof fn lemma_head(all: Seq<u8>, limit: int)
    ensures
        ({
            let complete = exists|i: int|
                0 <= i <= all.len() - 4 && #[trigger] all[i] == 13 && all[i + 1] == 10 && all[i + 2]
                    == 13 && all[i + 3] == 10;
            let p = crate::tunnel::fakehttp::handshake::progress_of(all, limit);
            &&& complete ==> p is Complete
            &&& !complete ==> p == if all.len() > limit {
                HeadProgress::TooLarge
            } else {
                HeadProgress::More
            }
        }),
{
    if exists|i: int|
        0 <= i <= all.len() - 4 && #[trigger] all[i] == 13 && all[i + 1] == 10 && all[i + 2] == 13
            && all[i + 3] == 10 {
        let i = choose|i: int|
            0 <= i <= all.len() - 4 && #[trigger] all[i] == 13 && all[i + 1] == 10 && all[i + 2]
                == 13 && all[i + 3] == 10;
        let (a, c) = (all.take(i), all.skip(i + 4));
        assert(all =~= a + seq![13u8, 10, 13, 10] + c);
        handshake::empty_line_completes_a_head(a, c, all, limit);
    } else {
        handshake::empty_line_completes_a_head(all, all, all, limit);
    }
}

/// A server answers a whole hello with its flight, which repeats the hello's session id, and
/// then waits for two records; what came with the hello is dropped.
pub proof fn server_answers_the_hello(h: &mut ServerHandshake, data: &[u8], r: DisguiseStep)
    requires
        call_ensures(ServerHandshake::on_receive, (h, data), r),
        old(h).waits_for() is Hello,
    ensures
        ({
            let all = old(h).received() + data@;
            let whole = all.len() >= 5 && all.len() >= 5 + u16_at(all, 3);
            &&& !whole ==> r is Receive && final(h).received() == all && final(h).waits_for() is Hello
            &&& whole ==> (r matches DisguiseStep::SendThenReceive(flight)
                && crate::tunnel::fakehttp::handshake::is_server_flight(
                flight@,
                if all.len() > 43 && all.len() >= 44 + all[43] {
                    Some(all.subrange(44, 44 + all[43]))
                } else {
                    None
                },
            )) && final(h).received().len() == 0 && (final(h).waits_for() matches
                segments::ServerWaits::Records(n) && n == 2)
        }),
{
    disguise::record_is_read_by_its_length(old(h).received() + data@);
}

/// A server is done once the records came that it still waits for.
pub proof fn server_waits_for_its_records(h: &mut ServerHandshake, data: &[u8], n: nat, r: DisguiseStep)
    requires
        call_ensures(ServerHandshake::on_receive, (h, data), r),
        old(h).waits_for() == segments::ServerWaits::Records(n),
    ensures
        ({
            let all = old(h).received() + data@;
            let k = segments::complete_records(all, n);
            &&& k <= n
            &&& r is Done == (k == n)
            &&& k < n ==> r is Receive && final(h).waits_for() == segments::ServerWaits::Records(
                (n - k) as nat,
            )
            &&& final(h).received() == segments::after_records(all, k)
        }),
{
    lemma_counted(old(h).received() + data@, n);
}

/// A server over HTTP answers with the empty line of the request's head, and fails once more
/// than 8192 bytes came without it.
pub proof fn server_waits_for_the_head(h: &mut ServerHandshake, data: &[u8], r: DisguiseStep)
    requires
        call_ensures(ServerHandshake::on_receive, (h, data), r),
        old(h).waits_for() is Request,
    ensures
        ({
            let all = old(h).received() + data@;
            let complete = exists|i: int|
                0 <= i <= all.len() - 4 && #[trigger] all[i] == 13 && all[i + 1] == 10 && all[i + 2]
                    == 13 && all[i + 3] == 10;
            &&& final(h).received() == all && final(h).waits_for() is Request
            &&& complete ==> (r matches DisguiseStep::SendThenDone(answer) && exists|
                date: Seq<char>,
            |
                disguise_protocol::is_http_date(date) && answer@ == vstd::utf8::encode_utf8(
                    #[trigger] disguise_protocol::http_response_text(
                        crate::tunnel::fakehttp::handshake::accept_value(all),
                        date,
                    ),
                ))
            &&& !complete && all.len() <= 8192 ==> r is Receive
            &&& !complete && all.len() > 8192 ==> r == DisguiseStep::Fail(
                DisguiseError::RequestTooLarge,
            )
        }),
{
    lemma_head(old(h).received() + data@, 8192);
}

/// A failure says what was imitated and whether time ran out.
pub proof fn failure_says_what_was_imitated(
    client: ClientHandshake,
    server: ServerHandshake,
    timeout: bool,
    c: DisguiseError,
    s: DisguiseError,
)
    requires
        call_ensures(ClientHandshake::on_failure, (&client, timeout), c),
        call_ensures(ServerHandshake::on_failure, (&server, timeout), s),
    ensures
        client.is_tls() && timeout ==> c == DisguiseError::TlsTimeout,
        client.is_tls() && !timeout ==> c == DisguiseError::ClosedDuringTls,
        !client.is_tls() && timeout ==> c == DisguiseError::HttpTimeout,
        !client.is_tls() && !timeout ==> c == DisguiseError::ClosedDuringHttp,
        !(server.waits_for() is Request) && timeout ==> s == DisguiseError::TlsTimeout,
        !(server.waits_for() is Request) && !timeout ==> s == DisguiseError::ClosedDuringTls,
        server.waits_for() is Request && timeout ==> s == DisguiseError::HttpTimeout,
        server.waits_for() is Request && !timeout ==> s == DisguiseError::ClosedDuringHttp,
{
}

// --- Single records ---

/// A single record carries up to 16384 bytes of its payload, and its header is recognized
/// with their number.
#[verifier::spinoff_prover]
pub proof fn record_is_wrapped_and_recognized(
    payload: &[u8],
    buf: &[u8],
    wrapped: Vec<u8>,
    r: Option<(usize, usize)>,
)
    requires
        call_ensures(tls_disguise::wrap_tls_record, (payload,), wrapped),
        call_ensures(tls_disguise::strip_tls_record_header, (buf,), r),
    ensures
        ({
            let n = if payload@.len() <= 16384 {
                payload@.len() as int
            } else {
                16384
            };
            &&& wrapped@.len() == 5 + n
            &&& wrapped@.subrange(5, 5 + n) == payload@.subrange(0, n)
            &&& wrapped@[0] == 0x17 && wrapped@[1] == 3 && wrapped@[2] == 3
            &&& u16_at(wrapped@, 3) == n
        }),
        r is Some == (buf@.len() >= 5 && buf@[0] == 0x17 && buf@[1] == 3),
        r matches Some((header, len)) ==> header == 5 && len == u16_at(buf@, 3),
{
    let n = if payload@.len() <= 16384 {
        payload@.len() as int
    } else {
        16384
    };
    let m = if payload@.len() < 16384 {
        payload@.len() as int
    } else {
        16384
    };
    assert(n == m);
    disguise::record_counts_its_body(0x17, 3, 3, payload@.take(n));
    assert(payload@.take(n) =~= payload@.subrange(0, n));
    if buf@.len() >= 5 {
        bytes::lemma_reads(buf@, 3);
    }
}

/// A hello is told by its first byte; the error says whose hello it is.
pub proof fn hello_is_told_by_its_first_byte(
    received: &[u8],
    from_server: bool,
    r: Result<(), DisguiseError>,
)
    requires
        call_ensures(tls_disguise::check_hello, (received, from_server), r),
    ensures
        r is Ok == (received@.len() > 0 && received@[0] == 22),
        r is Err && from_server ==> r->Err_0 == DisguiseError::InvalidServerHello,
        r is Err && !from_server ==> r->Err_0 == DisguiseError::InvalidClientHello,
{
}

/// A server answers a hello segment with its own hello, with the same session id, and a
/// change of ciphers; and refuses everything else.
pub proof fn hello_segment_is_answered(received: &[u8], r: Result<Vec<u8>, DisguiseError>)
    requires
        call_ensures(tls_disguise::server_answer, (received,), r),
    ensures
        r is Ok == (received@.len() > 0 && received@[0] == 22),
        r is Err ==> r->Err_0 == DisguiseError::InvalidClientHello,
        r matches Ok(flight) ==> exists|random: Seq<u8>, sid: Seq<u8>, pubkey: Seq<u8>|
            random.len() == 32 && pubkey.len() == 32 && (received@.len() > 44 && received@.len()
                >= 44 + received@[43] ==> sid == received@.subrange(44, 44 + received@[43])) && (!(
            received@.len() > 44 && received@.len() >= 44 + received@[43]) ==> sid.len() == 32)
                && flight@ == #[trigger] disguise_protocol::server_hello(random, sid, pubkey)
                + seq![0x14u8, 3, 3, 0, 1, 1],
{
    disguise::flights_are_records(Seq::empty(), Seq::empty());
}

// --- Packets in a stream ---

/// A stream hands out what stands in front by its own length, drops what is no whole packet
/// and waits, and ends at a length below that of the two headers.
#[verifier::spinoff_prover]
pub proof fn packet_is_cut_out_by_its_length(s: &mut FakeTcpStream, r: StreamStep)
    requires
        call_ensures(FakeTcpStream::poll_next, (s,), r),
    ensures
        ({
            let b = old(s).unread();
            let len = le32_at(b, 0);
            let known = !old(s).is_over() && b.len() >= 4;
            &&& old(s).is_over() ==> r is End && *final(s) == *old(s)
            &&& known && len < 20 ==> r is End && final(s).is_over()
            &&& known && 20 <= len <= b.len() ==> (r matches StreamStep::Packet(p) && p@
                == b.subrange(0, len)) && final(s).unread() == b.subrange(len, b.len() as int)
                && !final(s).is_over() && !final(s).receiving()
            &&& !old(s).is_over() && (b.len() < 4 || (len >= 20 && len > b.len())) ==> r is Receive
                && final(s).unread().len() == 0 && final(s).receiving()
        }),
{
    let b = old(s).unread();
    if b.len() >= 4 {
        let f = b.take(4);
        assert(f[0] == b[0] && f[1] == b[1] && f[2] == b[2] && f[3] == b[3]);
        let len = wire::from_le32(f);
        if 20 <= len <= b.len() {
            assert(b.take(len) =~= b.subrange(0, len));
            assert(b.skip(len) =~= b.subrange(len, b.len() as int));
        }
    }
}

/// What the socket received is cut next; its end is the stream's end.
pub proof fn received_bytes_are_cut_next(s: &mut FakeTcpStream, payload: Option<Vec<u8>>)
    requires
        call_ensures(FakeTcpStream::on_receive, (s, payload), ()),
        old(s).receiving(),
    ensures
        payload matches Some(data) ==> final(s).unread() == data@ && !final(s).is_over(),
        payload is None ==> final(s).is_over(),
        !final(s).receiving(),
{
}

/// A packet is sent with its length in its first four bytes, and is otherwise unchanged.
pub proof fn packet_states_its_length(packet: Seq<u8>)
    requires
        4 <= packet.len() < 0x1_0000_0000,
    ensures
        stream::framed(packet).len() == packet.len(),
        le32_at(stream::framed(packet), 0) == packet.len(),
        stream::framed(packet).subrange(4, packet.len() as int) == packet.subrange(
            4,
            packet.len() as int,
        ),
{
    wire::le32_reads_back(packet.len() as int);
    let f = stream::framed(packet);
    let l = wire::le32(packet.len() as int);
    assert(f[0] == l[0] && f[1] == l[1] && f[2] == l[2] && f[3] == l[3]);
    assert(f.subrange(4, packet.len() as int) =~= packet.subrange(4, packet.len() as int));
}

/// With a chosen mask a payload is wrapped just as without.
pub proof fn payload_is_wrapped_with_a_mask(
    mode: DisguiseMode,
    payload: &[u8],
    mask: Option<[u8; 4]>,
    segment: &[u8],
    wrapped: Vec<u8>,
    r: Option<Vec<u8>>,
)
    requires
        call_ensures(segments::wrap_payload_with, (&mode, payload, mask), wrapped),
        call_ensures(segments::unwrap_payload, (&mode, segment), r),
        segment@ == wrapped@,
        payload@.len() + 2 < 0x10000 || mode is Off,
    ensures
        r matches Some(data) && data@ == payload@,
        mode is Off ==> wrapped@ == payload@,
        mode is Tls ==> wrapped@[0] == 0x17 && wrapped@.len() == payload@.len() + 7,
        mode is Http ==> wrapped@[0] == 0x82 && (wrapped@[1] >= 128) == mask is Some,
{
    let inner = segments::prefixed(payload@);
    match mode {
        DisguiseMode::Off => {},
        DisguiseMode::Tls { .. } => {
            segments::disguise_round_trip(mode, payload@, true, wrapped@, Seq::empty());
            disguise::record_counts_its_body(0x17, 3, 3, inner);
        },
        DisguiseMode::Http { .. } => {
            let m = match mask {
                Some(key) => Some(key@),
                None => None,
            };
            disguise::frame_counts_and_masks_its_payload(inner, m);
            segments::disguise_round_trip(
                mode,
                payload@,
                mask is Some,
                wrapped@,
                Seq::empty(),
            );
        },
    }
    assert(wrapped@ + Seq::<u8>::empty() =~= wrapped@);
}

/// Records are drained up to the wanted number, and a hello's session id is read by its
/// length.
pub proof fn records_are_drained(
    buf: &mut Vec<u8>,
    wanted: usize,
    n: usize,
    record: &[u8],
    sid: Option<&[u8]>,
)
    requires
        call_ensures(segments::drain_records, (buf, wanted), n),
        call_ensures(segments::extract_session_id_from_record, (record,), sid),
    ensures
        n <= wanted,
        n == segments::complete_records(old(buf)@, wanted as nat),
        final(buf)@ == segments::after_records(old(buf)@, n as nat),
        sid is Some == (record@.len() > 43 && record@.len() >= 44 + record@[43]),
        sid matches Some(s) ==> s@ == record@.subrange(44, 44 + record@[43]),
{
}

/// The tunnel goes by one name, and its change of ciphers is one record.
pub proof fn change_of_ciphers_is_a_record(driver: &str, name: String, change: Vec<u8>)
    requires
        call_ensures(stream::get_faketcp_tunnel_type_str, (driver,), name),
        call_ensures(tls_disguise::build_change_cipher_spec, (), change),
    ensures
        name@ == "faketcp"@,
        change@ == seq![0x14u8, 3, 3, 0, 1, 1],
{
}

/// A client begins with a hello.
#[verifier::spinoff_prover]
pub proof fn client_begins_with_a_hello(host: &str, hello: Vec<u8>)
    requires
        call_ensures(tls_disguise::client_first_flight, (host,), hello),
        host.spec_bytes().len() < 0x8000,
    ensures
        hello@[0] == 22 && hello@[5] == 1 && u16_at(hello@, 3) == hello@.len() - 5,
        host.spec_bytes().len() < 233 ==> hello@.len() == 521,
{
    let seed = choose|seed: disguise_protocol::ClientHelloSeed|
        hello@ == #[trigger] disguise_protocol::client_hello(host.spec_bytes(), seed);
    disguise::hello_is_filled_up_to_512(host.spec_bytes(), seed);
}

} // verus!

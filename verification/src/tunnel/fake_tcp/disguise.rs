//! Camouflage of single segments as TLS records or WebSocket frames.

use crate::text;
use crate::text::strip_prefix;
use crate::tunnel::disguise_protocol;
use crate::tunnel::disguise_protocol::{
    build_fake_client_finished, build_http_request, build_http_response, build_tls_client_hello,
    decode_tls_record, decode_ws_frame, encode_tls_record, encode_ws_frame, encode_ws_frame_with,
    ws_frame_overhead, TLS_RECORD_HEADER_SIZE,
};
use crate::tunnel::fakehttp::handshake;
use crate::tunnel::fakehttp::handshake::{accept_for, head_progress, server_flight, HeadProgress};
use crate::wire;
use crate::wire::{append, append_le16, copy_range, drop_front, read_le16};
use vstd::prelude::*;
use vstd::slice::*;
use vstd::string::*;

verus! {

/// How the segments of a connection are disguised.
#[derive(Clone, Debug)]
pub enum DisguiseMode {
    Off,
    Tls { host: String },
    Http { host: String },
}

/// Size of the little-endian length in front of the data inside a frame.
pub const DATA_LEN_PREFIX_SIZE: usize = 2;

impl DisguiseMode {
    /// The most bytes that the disguise adds to a segment.
    pub open spec fn overhead(self, is_client: bool) -> int {
        match self {
            DisguiseMode::Off => 0,
            DisguiseMode::Tls { .. } => 7,
            DisguiseMode::Http { .. } => disguise_protocol::ws_overhead(1400, is_client) + 2,
        }
    }

    /// The most bytes that the disguise adds to a segment.
    pub fn max_overhead(&self, is_client: bool) -> (r: usize)
        ensures
            r == self.overhead(is_client),
    {
        match self {
            DisguiseMode::Off => 0,
            DisguiseMode::Tls { .. } => TLS_RECORD_HEADER_SIZE + DATA_LEN_PREFIX_SIZE,
            DisguiseMode::Http { .. } => ws_frame_overhead(1400, is_client) + DATA_LEN_PREFIX_SIZE,
        }
    }
}

/// Reads the mode off the first configured entry: `https://host` or `http://host`.
/// Without entries, or with another first entry, the disguise is off.
pub fn parse_disguise_mode(hosts: &[String]) -> (r: DisguiseMode)
    ensures
        ({
            let entry = hosts@[0]@;
            if hosts@.len() > 0 && text::has_prefix(entry, "https://"@) {
                r matches DisguiseMode::Tls { host } && host@ == entry.skip("https://"@.len() as int)
            } else if hosts@.len() > 0 && text::has_prefix(entry, "http://"@) {
                r matches DisguiseMode::Http { host } && host@ == entry.skip("http://"@.len() as int)
            } else {
                r is Off
            }
        }),
{
    if hosts.is_empty() {
        return DisguiseMode::Off;
    }
    let entry = hosts[0].as_str();
    match strip_prefix(entry, "https://") {
        Some(host) => {
            assert(host@ =~= entry@.skip("https://"@.len() as int));
            DisguiseMode::Tls { host }
        },
        None => match strip_prefix(entry, "http://") {
            Some(host) => {
                assert(host@ =~= entry@.skip("http://"@.len() as int));
                DisguiseMode::Http { host }
            },
            None => DisguiseMode::Off,
        },
    }
}

/// The data with its length in front.
pub open spec fn prefixed(payload: Seq<u8>) -> Seq<u8> {
    wire::le16(payload.len() as int) + payload
}

fn prefix(payload: &[u8]) -> (r: Vec<u8>)
    ensures
        r@ == prefixed(payload@),
{
    let mut inner: Vec<u8> = Vec::new();
    let len: u16 = (payload.len() % 0x10000) as u16;
    proof {
        wire::fields_drop_high_bits(payload@.len() as int);
        assert(wire::le16(len as int) =~= seq![
            wire::be16(len as int)[1],
            wire::be16(len as int)[0],
        ]);
        assert(wire::le16(payload@.len() as int) =~= seq![
            wire::be16(payload@.len() as int)[1],
            wire::be16(payload@.len() as int)[0],
        ]);
    }
    append_le16(&mut inner, len);
    append(&mut inner, payload);
    assert(inner@ =~= prefixed(payload@));
    inner
}

/// A segment that carries `payload` in the given disguise.
pub open spec fn is_wrapped(mode: DisguiseMode, payload: Seq<u8>, is_client: bool, out: Seq<u8>) -> bool {
    match mode {
        DisguiseMode::Off => out == payload,
        DisguiseMode::Tls { .. } => out == disguise_protocol::tls_record(
            0x17,
            3,
            3,
            prefixed(payload),
        ),
        DisguiseMode::Http { .. } => if is_client {
            exists|key: Seq<u8>|
                key.len() == 4 && out == #[trigger] disguise_protocol::ws_frame(
                    prefixed(payload),
                    Some(key),
                )
        } else {
            out == disguise_protocol::ws_frame(prefixed(payload), None)
        },
    }
}

/// Wrap payload with disguise framing.
///
/// A 2-byte little-endian length prefix inside the frame tells the receiver
/// how many data bytes to extract.
pub fn wrap_payload(mode: &DisguiseMode, payload: &[u8], is_client: bool) -> (r: Vec<u8>)
    ensures
        is_wrapped(*mode, payload@, is_client, r@),
{
    match mode {
        DisguiseMode::Off => slice_to_vec(payload),
        DisguiseMode::Tls { .. } => {
            let inner = prefix(payload);
            encode_tls_record(&inner)
        },
        DisguiseMode::Http { .. } => {
            let inner = prefix(payload);
            encode_ws_frame(&inner, is_client)
        },
    }
}

/// As `wrap_payload`, with the mask of a WebSocket frame chosen by the caller.
pub fn wrap_payload_with(mode: &DisguiseMode, payload: &[u8], mask_key: Option<[u8; 4]>) -> (r: Vec<
    u8,
>)
    ensures
        r@ == match *mode {
            DisguiseMode::Off => payload@,
            DisguiseMode::Tls { .. } => disguise_protocol::tls_record(0x17, 3, 3, prefixed(payload@)),
            DisguiseMode::Http { .. } => disguise_protocol::ws_frame(
                prefixed(payload@),
                match mask_key {
                    Some(key) => Some(key@),
                    None => None,
                },
            ),
        },
{
    match mode {
        DisguiseMode::Off => slice_to_vec(payload),
        DisguiseMode::Tls { .. } => {
            let inner = prefix(payload);
            encode_tls_record(&inner)
        },
        DisguiseMode::Http { .. } => {
            let inner = prefix(payload);
            encode_ws_frame_with(&inner, mask_key)
        },
    }
}

/// The data behind a length prefix, if all of it is there.
pub open spec fn data_of(inner: Seq<u8>) -> Option<Seq<u8>> {
    if inner.len() < 2 || inner.len() < 2 + wire::from_le16(inner.subrange(0, 2)) {
        None
    } else {
        Some(inner.subrange(2, 2 + wire::from_le16(inner.subrange(0, 2))))
    }
}

/// Takes the data behind a length prefix.
pub fn extract_data_from_inner(inner: &[u8]) -> (r: Option<Vec<u8>>)
    ensures
        match r {
            Some(data) => data_of(inner@) == Some(data@),
            None => data_of(inner@) is None,
        },
{
    if inner.len() < 2 {
        return None;
    }
    let data_len: usize = read_le16(inner, 0) as usize;
    if inner.len() < 2 + data_len {
        return None;
    }
    Some(copy_range(inner, 2, 2 + data_len))
}

/// The data that a disguised segment carries.
pub open spec fn unwrapped(mode: DisguiseMode, data: Seq<u8>) -> Option<Seq<u8>> {
    match mode {
        DisguiseMode::Off => Some(data),
        DisguiseMode::Tls { .. } => match disguise_protocol::tls_first_record(data) {
            Some((_, inner)) => data_of(inner),
            None => None,
        },
        DisguiseMode::Http { .. } => match disguise_protocol::ws_first_frame(data) {
            Some((_, inner)) => data_of(inner),
            None => None,
        },
    }
}

/// Unwrap payload from disguise framing, stripping the built-in padding.
/// Returns the actual data, or None on parse error.
pub fn unwrap_payload(mode: &DisguiseMode, data: &[u8]) -> (r: Option<Vec<u8>>)
    ensures
        match r {
            Some(out) => unwrapped(*mode, data@) == Some(out@),
            None => unwrapped(*mode, data@) is None,
        },
{
    match mode {
        DisguiseMode::Off => Some(slice_to_vec(data)),
        DisguiseMode::Tls { .. } => match decode_tls_record(data) {
            Some((_, inner)) => extract_data_from_inner(inner),
            None => None,
        },
        DisguiseMode::Http { .. } => match decode_ws_frame(data) {
            Some((_, inner)) => extract_data_from_inner(&inner),
            None => None,
        },
    }
}

proof fn lemma_prefix_reads_back(payload: Seq<u8>, rest: Seq<u8>)
    requires
        payload.len() < 0x10000,
    ensures
        data_of(prefixed(payload) + rest) == Some(payload),
{
    let inner = prefixed(payload) + rest;
    let n = payload.len() as int;
    wire::wire_integers_round_trip(n);
    assert(inner.subrange(0, 2) =~= wire::le16(n));
    assert(inner.subrange(2, 2 + n) =~= payload);
}

/// Unwrapping gives back what was wrapped, on either side and whatever bytes trail the
/// frame. The length fields hold up to 65535 bytes of data, two fewer inside a TLS record.
pub proof fn disguise_round_trip(
    mode: DisguiseMode,
    payload: Seq<u8>,
    is_client: bool,
    out: Seq<u8>,
    rest: Seq<u8>,
)
    requires
        payload.len() < 0x10000 - 2 || (mode is Http && payload.len() < 0x10000) || mode is Off,
        mode is Off ==> rest.len() == 0,
        is_wrapped(mode, payload, is_client, out),
    ensures
        unwrapped(mode, out + rest) == Some(payload),
{
    let inner = prefixed(payload);
    assert(inner + Seq::<u8>::empty() =~= inner);
    match mode {
        DisguiseMode::Off => {
            assert(out + rest =~= payload);
        },
        DisguiseMode::Tls { .. } => {
            disguise_protocol::tls_record_round_trip(inner, rest);
            lemma_prefix_reads_back(payload, Seq::empty());
        },
        DisguiseMode::Http { .. } => {
            lemma_prefix_reads_back(payload, Seq::empty());
            if is_client {
                let key = choose|key: Seq<u8>|
                    key.len() == 4 && out == #[trigger] disguise_protocol::ws_frame(
                        inner,
                        Some(key),
                    );
                disguise_protocol::ws_frame_round_trip(inner, Some(key), rest);
            } else {
                disguise_protocol::ws_frame_round_trip(inner, None, rest);
            }
        },
    }
}

/// A disguised segment is never longer than its data and the announced overhead.
pub proof fn overhead_is_bounded(mode: DisguiseMode, payload: Seq<u8>, is_client: bool, out: Seq<u8>)
    requires
        payload.len() + 2 <= 65535,
        is_wrapped(mode, payload, is_client, out),
    ensures
        payload.len() <= out.len() <= payload.len() + mode.overhead(is_client),
{
    let inner = prefixed(payload);
    if mode is Http && is_client {
        let key = choose|key: Seq<u8>|
            key.len() == 4 && out == #[trigger] disguise_protocol::ws_frame(inner, Some(key));
        assert(out.len() == disguise_protocol::ws_header(inner.len() as int, Some(key)).len()
            + inner.len());
    }
}

// --- Handshake ---

/// Why a disguise handshake failed.
#[derive(Debug, Clone, Copy, PartialEq, Eq, Structural)]
pub enum DisguiseError {
    ClosedDuringHttp,
    HttpTimeout,
    ResponseTooLarge,
    RequestTooLarge,
    ClosedDuringTls,
    TlsTimeout,
    InvalidServerHello,
    InvalidClientHello,
}

impl DisguiseError {
    /// The message for an operator.
    pub fn message(&self) -> (r: &'static str)
        ensures
            r@ == match *self {
                DisguiseError::ClosedDuringHttp =>
                    "faketcp disguise: connection closed during HTTP handshake"@,
                DisguiseError::HttpTimeout => "faketcp disguise: HTTP handshake timeout"@,
                DisguiseError::ResponseTooLarge => "faketcp disguise: HTTP response too large"@,
                DisguiseError::RequestTooLarge => "faketcp disguise: HTTP request too large"@,
                DisguiseError::ClosedDuringTls =>
                    "faketcp disguise: connection closed during TLS handshake"@,
                DisguiseError::TlsTimeout => "faketcp disguise: TLS handshake timeout"@,
                DisguiseError::InvalidServerHello => "TLS disguise: invalid ServerHello response"@,
                DisguiseError::InvalidClientHello => "TLS disguise: invalid ClientHello"@,
            },
    {
        match *self {
            DisguiseError::ClosedDuringHttp =>
                "faketcp disguise: connection closed during HTTP handshake",
            DisguiseError::HttpTimeout => "faketcp disguise: HTTP handshake timeout",
            DisguiseError::ResponseTooLarge => "faketcp disguise: HTTP response too large",
            DisguiseError::RequestTooLarge => "faketcp disguise: HTTP request too large",
            DisguiseError::ClosedDuringTls =>
                "faketcp disguise: connection closed during TLS handshake",
            DisguiseError::TlsTimeout => "faketcp disguise: TLS handshake timeout",
            DisguiseError::InvalidServerHello => "TLS disguise: invalid ServerHello response",
            DisguiseError::InvalidClientHello => "TLS disguise: invalid ClientHello",
        }
    }
}

/// The largest piece of a handshake flight that one segment carries.
pub const MAX_CHUNK_SIZE: usize = 1400;

/// The pieces of `data`: 1400 bytes each, but for the last, which is not empty.
pub open spec fn chunks_of(data: Seq<u8>) -> Seq<Seq<u8>>
    decreases data.len(),
{
    if data.len() == 0 {
        Seq::empty()
    } else if data.len() <= 1400 {
        seq![data]
    } else {
        seq![data.take(1400)] + chunks_of(data.skip(1400))
    }
}

/// Cuts a handshake flight into the segments that carry it.
pub fn flight_chunks(data: &[u8]) -> (r: Vec<Vec<u8>>)
    ensures
        r@.map_values(|c: Vec<u8>| c@) == chunks_of(data@),
{
    let mut out: Vec<Vec<u8>> = Vec::new();
    let n: usize = data.len();
    let mut at: usize = 0;
    assert(out@.map_values(|c: Vec<u8>| c@) + chunks_of(data@.skip(0)) =~= chunks_of(data@)) by {
        assert(data@.skip(0) =~= data@);
    }
    while at < n
        invariant
            n == data@.len(),
            at <= n,
            out@.map_values(|c: Vec<u8>| c@) + chunks_of(data@.skip(at as int)) == chunks_of(data@),
        decreases n - at,
    {
        let end: usize = if n - at <= MAX_CHUNK_SIZE { n } else { at + MAX_CHUNK_SIZE };
        let chunk = copy_range(data, at, end);
        let ghost before = out@.map_values(|c: Vec<u8>| c@);
        let ghost rest = data@.skip(at as int);
        out.push(chunk);
        proof {
            assert(out@.map_values(|c: Vec<u8>| c@) =~= before.push(chunk@));
            if rest.len() <= 1400 {
                assert(chunk@ =~= rest);
                assert(data@.skip(end as int) =~= Seq::empty());
            } else {
                assert(chunk@ =~= rest.take(1400));
                assert(data@.skip(end as int) =~= rest.skip(1400));
            }
            assert(before.push(chunk@) + chunks_of(data@.skip(end as int)) =~= before + chunks_of(
                rest,
            ));
        }
        at = end;
    }
    assert(data@.skip(n as int) =~= Seq::empty());
    assert(out@.map_values(|c: Vec<u8>| c@) + Seq::<Seq<u8>>::empty() =~= out@.map_values(
        |c: Vec<u8>| c@,
    ));
    out
}

/// The segments of a flight, joined, are the flight.
pub proof fn chunks_join(data: Seq<u8>)
    ensures
        wire::joined(chunks_of(data)) == data,
    decreases data.len(),
{
    if data.len() > 1400 {
        chunks_join(data.skip(1400));
        let c = chunks_of(data);
        assert(c.drop_first() =~= chunks_of(data.skip(1400)));
        assert(data.take(1400) + data.skip(1400) =~= data);
    } else if data.len() > 0 {
        let c = chunks_of(data);
        assert(c.drop_first() =~= Seq::empty());
        assert(wire::joined(c.drop_first()) =~= Seq::empty());
        assert(data + Seq::<u8>::empty() =~= data);
    } else {
        assert(wire::joined(chunks_of(data)) =~= data);
    }
}

/// How many complete records `buf` starts with, up to `wanted`.
pub open spec fn complete_records(buf: Seq<u8>, wanted: nat) -> nat
    decreases wanted,
{
    if wanted == 0 {
        0
    } else {
        match disguise_protocol::tls_first_record(buf) {
            Some((n, _)) => 1 + complete_records(buf.skip(n), (wanted - 1) as nat),
            None => 0,
        }
    }
}

/// What follows the first `count` records of `buf`.
pub open spec fn after_records(buf: Seq<u8>, count: nat) -> Seq<u8>
    decreases count,
{
    if count == 0 {
        buf
    } else {
        match disguise_protocol::tls_first_record(buf) {
            Some((n, _)) => after_records(buf.skip(n), (count - 1) as nat),
            None => buf,
        }
    }
}

/// Removes the complete records at the front of `buf`, up to `wanted`, and counts them.
pub fn drain_records(buf: &mut Vec<u8>, wanted: usize) -> (r: usize)
    ensures
        r == complete_records(old(buf)@, wanted as nat),
        final(buf)@ == after_records(old(buf)@, r as nat),
        r <= wanted,
{
    let mut drained: usize = 0;
    while drained < wanted
        invariant_except_break
            drained <= wanted,
            complete_records(old(buf)@, wanted as nat) == drained + complete_records(
                buf@,
                (wanted - drained) as nat,
            ),
            forall|k: nat|
                #![trigger after_records(buf@, k)]
                after_records(old(buf)@, drained as nat + k) == after_records(buf@, k),
            buf@ == after_records(old(buf)@, drained as nat),
        ensures
            drained == complete_records(old(buf)@, wanted as nat),
            buf@ == after_records(old(buf)@, drained as nat),
            drained <= wanted,
        decreases wanted - drained,
    {
        let ghost before = buf@;
        let size: usize = match decode_tls_record(buf.as_slice()) {
            Some((n, _)) => n,
            None => {
                break ;
            },
        };
        drop_front(buf, size);
        proof {
            assert(buf@ =~= before.skip(size as int));
            assert forall|k: nat|
                #![trigger after_records(buf@, k)]
                after_records(old(buf)@, (drained + 1) as nat + k) == after_records(buf@, k) by {
                assert(after_records(before, k + 1) == after_records(buf@, k));
                assert((drained + 1) as nat + k == drained as nat + (k + 1));
            }
            assert(after_records(buf@, 0) == buf@);
            assert(after_records(old(buf)@, (drained + 1) as nat + 0) == after_records(buf@, 0));
        }
        drained += 1;
    }
    drained
}

proof fn lemma_one_record(kind: u8, major: u8, minor: u8, body: Seq<u8>, rest: Seq<u8>, wanted: nat)
    requires
        body.len() < 0x10000,
        wanted > 0,
    ensures
        ({
            let buf = disguise_protocol::tls_record(kind, major, minor, body) + rest;
            &&& complete_records(buf, wanted) == 1 + complete_records(rest, (wanted - 1) as nat)
            &&& forall|k: nat| #[trigger]
                after_records(rest, k) == after_records(buf, k + 1)
        }),
{
    let record = disguise_protocol::tls_record(kind, major, minor, body);
    let buf = record + rest;
    wire::wire_integers_round_trip(body.len() as int);
    assert(buf.subrange(3, 5) =~= wire::be16(body.len() as int));
    assert(buf.skip(5 + body.len() as int) =~= rest);
    assert forall|k: nat| #[trigger] after_records(rest, k) == after_records(buf, k + 1) by {}
}

/// The server's flight is the four records that the client waits for, and nothing more.
pub proof fn server_flight_is_four_records(flight: Seq<u8>, session_id: Option<Seq<u8>>)
    requires
        handshake::is_server_flight(flight, session_id),
        session_id is Some ==> session_id->0.len() <= 255,
    ensures
        complete_records(flight, 4) == 4,
        after_records(flight, 4).len() == 0,
{
    let (random, sid, pubkey, first, second) = choose|
        random: Seq<u8>,
        sid: Seq<u8>,
        pubkey: Seq<u8>,
        first: Seq<u8>,
        second: Seq<u8>,
    |
        #![trigger disguise_protocol::server_hello(random, sid, pubkey), disguise_protocol::server_encrypted_flight(first, second)]
        {
            &&& random.len() == 32 && pubkey.len() == 32
            &&& match session_id {
                Some(s) => sid == s,
                None => sid.len() == 32,
            }
            &&& 200 <= first.len() < 400 && 100 <= second.len() < 200
            &&& flight == disguise_protocol::server_hello(random, sid, pubkey)
                + disguise_protocol::server_encrypted_flight(first, second)
        };
    let hello_body = disguise_protocol::handshake_message(
        0x02,
        disguise_protocol::server_hello_body(random, sid, pubkey),
    );
    assert(hello_body.len() < 0x10000);
    let ccs = seq![1u8];
    let none = Seq::<u8>::empty();
    let r4 = disguise_protocol::tls_record(0x17, 3, 3, second);
    let r3 = disguise_protocol::tls_record(0x17, 3, 3, first) + r4;
    let r2 = disguise_protocol::tls_record(0x14, 3, 3, ccs) + r3;
    assert(r4 + none =~= r4);
    assert(disguise_protocol::server_encrypted_flight(first, second) =~= r2);
    lemma_one_record(0x16, 3, 3, hello_body, r2, 4);
    lemma_one_record(0x14, 3, 3, ccs, r3, 3);
    lemma_one_record(0x17, 3, 3, first, r4, 2);
    lemma_one_record(0x17, 3, 3, second, none, 1);
    assert(after_records(none, 0) == none);
    assert(after_records(r4, 1) == after_records(none, 0));
    assert(after_records(r3, 2) == after_records(r4, 1));
    assert(after_records(r2, 3) == after_records(r3, 2));
    assert(after_records(flight, 4) == after_records(r2, 3));
}

/// The client's last flight is the two records that the server waits for, and nothing more.
pub proof fn client_finish_is_two_records(finished: Seq<u8>)
    requires
        finished.len() < 56,
    ensures
        complete_records(disguise_protocol::client_finished_flight(finished), 2) == 2,
        after_records(disguise_protocol::client_finished_flight(finished), 2).len() == 0,
{
    let none = Seq::<u8>::empty();
    let r2 = disguise_protocol::tls_record(0x17, 3, 3, finished);
    assert(r2 + none =~= r2);
    lemma_one_record(0x14, 3, 3, seq![1u8], r2, 2);
    lemma_one_record(0x17, 3, 3, finished, none, 1);
    assert(after_records(none, 0) == none);
    assert(after_records(r2, 1) == after_records(none, 0));
    assert(after_records(disguise_protocol::client_finished_flight(finished), 2) == after_records(
        r2,
        1,
    ));
}

/// What an endpoint does next in its handshake.
#[derive(Debug, Clone, PartialEq, Eq)]
pub enum DisguiseStep {
    /// Wait for more bytes.
    Receive,
    /// Send these bytes, in pieces; then wait for more.
    SendThenReceive(Vec<u8>),
    /// Send these bytes, in pieces; the handshake is then complete.
    SendThenDone(Vec<u8>),
    /// The handshake is complete.
    Done,
    Fail(DisguiseError),
}

/// A client's handshake: it sent its first flight and waits for the answer.
pub struct ClientHandshake {
    tls: bool,
    buf: Vec<u8>,
    drained: usize,
}

/// The client sent this first.
pub open spec fn is_client_first_flight(mode: DisguiseMode, flight: Seq<u8>) -> bool {
    match mode {
        DisguiseMode::Off => false,
        DisguiseMode::Tls { host } => exists|seed: disguise_protocol::ClientHelloSeed|
            flight == #[trigger] disguise_protocol::client_hello(
                vstd::utf8::encode_utf8(host@),
                seed,
            ),
        DisguiseMode::Http { host } => exists|key: Seq<u8>|
            key.len() == 16 && flight == vstd::utf8::encode_utf8(
                disguise_protocol::http_request_text(
                    host@,
                    #[trigger] disguise_protocol::base64_text(key),
                ),
            ),
    }
}

impl ClientHandshake {
    /// The handshake imitates TLS.
    pub closed spec fn is_tls(self) -> bool {
        self.tls
    }

    /// Bytes received and not used up.
    pub closed spec fn received(self) -> Seq<u8> {
        self.buf@
    }

    /// TLS records that are still to come.
    pub closed spec fn awaited(self) -> nat {
        (4 - self.drained) as nat
    }

    pub closed spec fn well_formed(self) -> bool {
        self.drained < 4
    }

    /// Begins the handshake; with the disguise off there is none.
    pub fn start(mode: &DisguiseMode) -> (r: (Option<Self>, DisguiseStep))
        ensures
            mode is Off ==> r.0 is None && r.1 is Done,
            !(mode is Off) ==> {
                &&& r.0 matches Some(h) && h.well_formed() && h.is_tls() == (mode is Tls)
                    && h.received().len() == 0 && h.awaited() == 4
                &&& r.1 matches DisguiseStep::SendThenReceive(flight) && is_client_first_flight(
                    *mode,
                    flight@,
                )
            },
    {
        match mode {
            DisguiseMode::Off => (None, DisguiseStep::Done),
            DisguiseMode::Tls { host } => {
                let hello = build_tls_client_hello(host);
                (
                    Some(ClientHandshake { tls: true, buf: Vec::new(), drained: 0 }),
                    DisguiseStep::SendThenReceive(hello),
                )
            },
            DisguiseMode::Http { host } => {
                let (request, _) = build_http_request(host);
                (
                    Some(ClientHandshake { tls: false, buf: Vec::new(), drained: 0 }),
                    DisguiseStep::SendThenReceive(request),
                )
            },
        }
    }

    /// A segment brought `data`. Over TLS the client finishes once four records came;
    /// over HTTP once the head of the answer is complete.
    pub fn on_receive(&mut self, data: &[u8]) -> (r: DisguiseStep)
        requires
            old(self).well_formed(),
        ensures
            final(self).is_tls() == old(self).is_tls(),
            old(self).is_tls() ==> {
                let all = old(self).received() + data@;
                let k = complete_records(all, old(self).awaited());
                &&& final(self).received() == after_records(all, k)
                &&& k < old(self).awaited() ==> r is Receive && final(self).well_formed()
                    && final(self).awaited() == old(self).awaited() - k
                &&& k == old(self).awaited() ==> (r matches DisguiseStep::SendThenDone(flight)
                    && exists|finished: Seq<u8>|
                    36 <= finished.len() < 56 && flight@
                        == #[trigger] disguise_protocol::client_finished_flight(finished))
            },
            !old(self).is_tls() ==> {
                &&& final(self).received() == old(self).received() + data@
                &&& final(self).well_formed()
                &&& match handshake::progress_of(final(self).received(), 4096) {
                    HeadProgress::Complete => r is Done,
                    HeadProgress::More => r is Receive,
                    HeadProgress::TooLarge => r == DisguiseStep::Fail(
                        DisguiseError::ResponseTooLarge,
                    ),
                }
            },
    {
        append(&mut self.buf, data);
        if self.tls {
            let wanted: usize = 4 - self.drained;
            let k: usize = drain_records(&mut self.buf, wanted);
            self.drained += k;
            if self.drained < 4 {
                DisguiseStep::Receive
            } else {
                DisguiseStep::SendThenDone(build_fake_client_finished())
            }
        } else {
            match head_progress(self.buf.as_slice(), 4096) {
                HeadProgress::Complete => DisguiseStep::Done,
                HeadProgress::More => DisguiseStep::Receive,
                HeadProgress::TooLarge => DisguiseStep::Fail(DisguiseError::ResponseTooLarge),
            }
        }
    }

    /// The connection closed, or the time for the handshake ran out.
    pub fn on_failure(&self, timeout: bool) -> (r: DisguiseError)
        ensures
            r == handshake_failure(self.is_tls(), timeout),
    {
        failure(self.tls, timeout)
    }
}

/// The error for a connection that closed or took too long.
pub open spec fn handshake_failure(tls: bool, timeout: bool) -> DisguiseError {
    match (tls, timeout) {
        (true, true) => DisguiseError::TlsTimeout,
        (true, false) => DisguiseError::ClosedDuringTls,
        (false, true) => DisguiseError::HttpTimeout,
        (false, false) => DisguiseError::ClosedDuringHttp,
    }
}

fn failure(tls: bool, timeout: bool) -> (r: DisguiseError)
    ensures
        r == handshake_failure(tls, timeout),
{
    if tls {
        if timeout {
            DisguiseError::TlsTimeout
        } else {
            DisguiseError::ClosedDuringTls
        }
    } else {
        if timeout {
            DisguiseError::HttpTimeout
        } else {
            DisguiseError::ClosedDuringHttp
        }
    }
}

/// The session id in a ClientHello record, if the record holds it whole. It follows the
/// record header, the handshake header, the version and the random bytes.
pub open spec fn session_id_in_record(record: Seq<u8>) -> Option<Seq<u8>> {
    if record.len() > 43 && record.len() >= 44 + record[43] {
        Some(record.subrange(44, 44 + record[43]))
    } else {
        None
    }
}

/// Finds the session id in a ClientHello record.
pub fn extract_session_id_from_record(record_data: &[u8]) -> (r: Option<&[u8]>)
    ensures
        match r {
            Some(sid) => session_id_in_record(record_data@) == Some(sid@),
            None => session_id_in_record(record_data@) is None,
        },
{
    if record_data.len() <= 43 {
        return None;
    }
    let sid_len: usize = record_data[43] as usize;
    if record_data.len() < 44 + sid_len {
        return None;
    }
    Some(slice_subrange(record_data, 44, 44 + sid_len))
}

/// The server's steps: wait for a request, and over TLS for the client's last records.
#[derive(Clone, Copy, PartialEq, Eq, Structural)]
enum ServerPhase {
    Hello,
    Finish,
    Http,
}

/// A server's handshake: it waits for the client.
pub struct ServerHandshake {
    phase: ServerPhase,
    buf: Vec<u8>,
    drained: usize,
}

/// What a server is waiting for.
pub enum ServerWaits {
    /// A ClientHello record.
    Hello,
    /// So many more records of the client.
    Records(nat),
    /// An HTTP request.
    Request,
}

impl ServerHandshake {
    /// What the server is waiting for.
    pub closed spec fn waits_for(self) -> ServerWaits {
        match self.phase {
            ServerPhase::Hello => ServerWaits::Hello,
            ServerPhase::Finish => ServerWaits::Records((2 - self.drained) as nat),
            ServerPhase::Http => ServerWaits::Request,
        }
    }

    /// Bytes received and not used up.
    pub closed spec fn received(self) -> Seq<u8> {
        self.buf@
    }

    pub closed spec fn well_formed(self) -> bool {
        self.drained < 2
    }

    /// Begins the handshake; with the disguise off there is none.
    pub fn start(mode: &DisguiseMode) -> (r: Option<Self>)
        ensures
            mode is Off ==> r is None,
            !(mode is Off) ==> (r matches Some(h) && h.well_formed() && h.received().len() == 0
                && h.waits_for() == (if mode is Tls {
                ServerWaits::Hello
            } else {
                ServerWaits::Request
            })),
    {
        match mode {
            DisguiseMode::Off => None,
            DisguiseMode::Tls { .. } => Some(
                ServerHandshake { phase: ServerPhase::Hello, buf: Vec::new(), drained: 0 },
            ),
            DisguiseMode::Http { .. } => Some(
                ServerHandshake { phase: ServerPhase::Http, buf: Vec::new(), drained: 0 },
            ),
        }
    }

    /// A segment brought `data`. A complete ClientHello is answered with the server's
    /// flight, and what came with it is dropped; the handshake ends once two more records
    /// came. A complete HTTP request is answered, and the handshake ends.
    pub fn on_receive(&mut self, data: &[u8]) -> (r: DisguiseStep)
        requires
            old(self).well_formed(),
        ensures
            ({
                let all = old(self).received() + data@;
                match old(self).waits_for() {
                    ServerWaits::Hello => {
                        &&& final(self).well_formed()
                        &&& disguise_protocol::tls_first_record(all) is None ==> r is Receive
                            && final(self).received() == all && final(self).waits_for()
                            == ServerWaits::Hello
                        &&& disguise_protocol::tls_first_record(all) is Some ==> (
                        r matches DisguiseStep::SendThenReceive(flight)
                            && handshake::is_server_flight(flight@, session_id_in_record(all))
                            && final(self).received().len() == 0 && final(self).waits_for()
                            == ServerWaits::Records(2))
                    },
                    ServerWaits::Records(n) => {
                        let k = complete_records(all, n);
                        &&& final(self).received() == after_records(all, k)
                        &&& k < n ==> r is Receive && final(self).well_formed()
                            && final(self).waits_for() == ServerWaits::Records((n - k) as nat)
                        &&& k == n ==> r is Done
                    },
                    ServerWaits::Request => {
                        &&& final(self).received() == all
                        &&& final(self).well_formed()
                        &&& final(self).waits_for() == ServerWaits::Request
                        &&& match handshake::progress_of(all, 8192) {
                            HeadProgress::Complete => (r matches DisguiseStep::SendThenDone(answer)
                                && exists|date: Seq<char>|
                                disguise_protocol::is_http_date(date) && answer@
                                    == vstd::utf8::encode_utf8(
                                    #[trigger] disguise_protocol::http_response_text(
                                        handshake::accept_value(all),
                                        date,
                                    ),
                                )),
                            HeadProgress::More => r is Receive,
                            HeadProgress::TooLarge => r == DisguiseStep::Fail(
                                DisguiseError::RequestTooLarge,
                            ),
                        }
                    },
                }
            }),
    {
        append(&mut self.buf, data);
        match self.phase {
            ServerPhase::Hello => {
                if decode_tls_record(self.buf.as_slice()).is_none() {
                    return DisguiseStep::Receive;
                }
                let flight = server_flight(extract_session_id_from_record(self.buf.as_slice()));
                self.buf = Vec::new();
                self.drained = 0;
                self.phase = ServerPhase::Finish;
                DisguiseStep::SendThenReceive(flight)
            },
            ServerPhase::Finish => {
                let wanted: usize = 2 - self.drained;
                let k: usize = drain_records(&mut self.buf, wanted);
                self.drained += k;
                if self.drained < 2 {
                    DisguiseStep::Receive
                } else {
                    DisguiseStep::Done
                }
            },
            ServerPhase::Http => {
                match head_progress(self.buf.as_slice(), 8192) {
                    HeadProgress::Complete => {
                        let accept = accept_for(self.buf.as_slice());
                        let accept_text: &str = accept.as_str();
                        let answer = build_http_response(accept_text);
                        DisguiseStep::SendThenDone(answer)
                    },
                    HeadProgress::More => DisguiseStep::Receive,
                    HeadProgress::TooLarge => DisguiseStep::Fail(DisguiseError::RequestTooLarge),
                }
            },
        }
    }

    /// The connection closed, or the time for the handshake ran out.
    pub fn on_failure(&self, timeout: bool) -> (r: DisguiseError)
        ensures
            r == handshake_failure(!(self.waits_for() is Request), timeout),
    {
        failure(self.phase != ServerPhase::Http, timeout)
    }
}

} // verus!

//! The decisions of the handshake that opens a camouflaged stream.

use crate::text;
use crate::text::strip_prefix;
use crate::tunnel::disguise_protocol;
use crate::tunnel::disguise_protocol::{
    build_fake_server_encrypted_handshake, build_http_request, build_http_response,
    build_tls_client_hello, build_tls_server_hello, compute_ws_accept, extract_ws_key,
    TLS_MAX_PLAINTEXT,
};
use crate::wire;
use crate::wire::{append, copy_range, read_be16};
use vstd::prelude::*;
use vstd::slice::*;
use vstd::string::*;

verus! {

/// Why a handshake failed.
#[derive(Debug, Clone, Copy, PartialEq, Eq, Structural)]
pub enum HandshakeError {
    /// The server closed the connection before its answer was complete.
    ServerClosed,
    /// The answer has no end in sight.
    ResponseTooLarge,
    /// The client closed the connection before its request was complete.
    IncompleteRequest,
    /// The request has no end in sight.
    RequestTooLarge,
    /// A TLS record is longer than TLS allows.
    RecordTooLarge,
    /// The same, of a record that is only skipped.
    SkippedRecordTooLarge,
    /// The first bytes belong to neither HTTP nor TLS.
    UnrecognizedProtocol,
    /// No payload is configured.
    NoPayload,
}

impl HandshakeError {
    /// The message for an operator.
    pub fn message(&self) -> (r: &'static str)
        ensures
            r@ == match *self {
                HandshakeError::ServerClosed => "fakehttp handshake: server closed connection"@,
                HandshakeError::ResponseTooLarge => "fakehttp handshake: response too large"@,
                HandshakeError::IncompleteRequest => "fakehttp: incomplete HTTP request"@,
                HandshakeError::RequestTooLarge => "fakehttp: HTTP request too large"@,
                HandshakeError::RecordTooLarge => "fakehttp: TLS record too large"@,
                HandshakeError::SkippedRecordTooLarge =>
                    "fakehttp: TLS record too large during handshake drain"@,
                HandshakeError::UnrecognizedProtocol =>
                    "fakehttp: unrecognized protocol (expected HTTP or TLS)"@,
                HandshakeError::NoPayload => "no valid fakehttp payload configured"@,
            },
    {
        match *self {
            HandshakeError::ServerClosed => "fakehttp handshake: server closed connection",
            HandshakeError::ResponseTooLarge => "fakehttp handshake: response too large",
            HandshakeError::IncompleteRequest => "fakehttp: incomplete HTTP request",
            HandshakeError::RequestTooLarge => "fakehttp: HTTP request too large",
            HandshakeError::RecordTooLarge => "fakehttp: TLS record too large",
            HandshakeError::SkippedRecordTooLarge =>
                "fakehttp: TLS record too large during handshake drain",
            HandshakeError::UnrecognizedProtocol =>
                "fakehttp: unrecognized protocol (expected HTTP or TLS)",
            HandshakeError::NoPayload => "no valid fakehttp payload configured",
        }
    }
}

/// What a connection pretends to be: a WebSocket or an HTTPS connection to a host.
#[derive(Debug, Clone)]
pub enum FakeHttpPayload {
    Http { host: String },
    Https { host: String },
}

impl FakeHttpPayload {
    /// The first bytes that a client sends, and the WebSocket key among them.
    pub fn client_bytes(&self) -> (r: (Vec<u8>, Option<String>))
        ensures
            match *self {
                FakeHttpPayload::Http { host } => {
                    &&& r.1 matches Some(key) && r.0@ == vstd::utf8::encode_utf8(
                        disguise_protocol::http_request_text(host@, key@),
                    )
                    &&& exists|k: Seq<u8>|
                        k.len() == 16 && (r.1->0)@ == #[trigger] disguise_protocol::base64_text(k)
                },
                FakeHttpPayload::Https { host } => {
                    &&& r.1 is None
                    &&& exists|seed: disguise_protocol::ClientHelloSeed|
                        r.0@ == #[trigger] disguise_protocol::client_hello(
                            vstd::utf8::encode_utf8(host@),
                            seed,
                        )
                },
            },
    {
        match self {
            FakeHttpPayload::Http { host } => {
                let (req, key) = build_http_request(host);
                (req, Some(key))
            },
            FakeHttpPayload::Https { host } => (build_tls_client_hello(host), None),
        }
    }
}

/// What an entry of the configuration stands for.
pub enum PayloadModel {
    Http(Seq<char>),
    Https(Seq<char>),
}

impl View for FakeHttpPayload {
    type V = PayloadModel;

    open spec fn view(&self) -> PayloadModel {
        match *self {
            FakeHttpPayload::Http { host } => PayloadModel::Http(host@),
            FakeHttpPayload::Https { host } => PayloadModel::Https(host@),
        }
    }
}

/// The payload that an entry names, if it starts with `http://` or `https://`.
pub open spec fn payload_of(entry: Seq<char>) -> Option<PayloadModel> {
    if text::has_prefix(entry, "http://"@) {
        Some(PayloadModel::Http(entry.skip("http://"@.len() as int)))
    } else if text::has_prefix(entry, "https://"@) {
        Some(PayloadModel::Https(entry.skip("https://"@.len() as int)))
    } else {
        None
    }
}

/// The payloads that the entries name, in order; other entries are skipped.
pub open spec fn payloads_of(entries: Seq<String>) -> Seq<PayloadModel>
    decreases entries.len(),
{
    if entries.len() == 0 {
        Seq::empty()
    } else {
        let before = payloads_of(entries.drop_last());
        match payload_of(entries.last()@) {
            Some(p) => before.push(p),
            None => before,
        }
    }
}

/// Reads the configured entries.
pub fn parse_payloads(hosts: Vec<String>) -> (r: Vec<FakeHttpPayload>)
    ensures
        r@.map_values(|p: FakeHttpPayload| p@) == payloads_of(hosts@),
{
    let mut payloads: Vec<FakeHttpPayload> = Vec::new();
    let mut i: usize = 0;
    assert(payloads@.map_values(|p: FakeHttpPayload| p@) =~= payloads_of(hosts@.take(0)));
    while i < hosts.len()
        invariant
            i <= hosts@.len(),
            payloads@.map_values(|p: FakeHttpPayload| p@) == payloads_of(hosts@.take(i as int)),
        decreases hosts@.len() - i,
    {
        let entry = hosts[i].as_str();
        let ghost before = payloads@;
        proof {
            let t = hosts@.take(i + 1);
            assert(t.drop_last() =~= hosts@.take(i as int));
            assert(t.last()@ == entry@);
        }
        match strip_prefix(entry, "http://") {
            Some(host) => {
                proof {
                    assert(host@ =~= entry@.skip("http://"@.len() as int));
                }
                let p = FakeHttpPayload::Http { host };
                payloads.push(p);
                assert(payloads@.map_values(|p: FakeHttpPayload| p@) =~= before.map_values(
                    |p: FakeHttpPayload| p@,
                ).push(p@));
            },
            None => {
                match strip_prefix(entry, "https://") {
                    Some(host) => {
                        proof {
                            assert(host@ =~= entry@.skip("https://"@.len() as int));
                        }
                        let p = FakeHttpPayload::Https { host };
                        payloads.push(p);
                        assert(payloads@.map_values(|p: FakeHttpPayload| p@) =~= before.map_values(
                            |p: FakeHttpPayload| p@,
                        ).push(p@));
                    },
                    None => {},
                }
            },
        }
        i += 1;
    }
    assert(hosts@.take(hosts@.len() as int) =~= hosts@);
    payloads
}

/// The payload for the connection after `counter` earlier ones: each in turn.
pub fn choose_payload(payloads: &[FakeHttpPayload], counter: usize) -> (r: Result<
    usize,
    HandshakeError,
>)
    ensures
        payloads@.len() == 0 ==> r == Err::<usize, HandshakeError>(HandshakeError::NoPayload),
        payloads@.len() > 0 ==> r == Ok::<usize, HandshakeError>(
            (counter as int % payloads@.len() as int) as usize,
        ),
{
    if payloads.is_empty() {
        return Err(HandshakeError::NoPayload);
    }
    Ok(counter % payloads.len())
}

/// The blank line that ends an HTTP head starts at `i`.
pub open spec fn blank_line_at(buf: Seq<u8>, i: int) -> bool {
    &&& 0 <= i
    &&& i + 4 <= buf.len()
    &&& buf[i] == 13 && buf[i + 1] == 10 && buf[i + 2] == 13 && buf[i + 3] == 10
}

/// `buf` holds a complete HTTP head.
pub open spec fn head_complete(buf: Seq<u8>) -> bool {
    exists|i: int| blank_line_at(buf, i)
}

/// A blank line starts at `from` or later.
pub open spec fn blank_line_from(buf: Seq<u8>, from: int) -> bool {
    exists|i: int| from <= i && blank_line_at(buf, i)
}

/// Whether a blank line starts at `from` or later.
pub fn has_blank_line(buf: &[u8], from: usize) -> (r: bool)
    requires
        from <= buf@.len(),
    ensures
        r == exists|i: int| from <= i && blank_line_at(buf@, i),
        r == blank_line_from(buf@, from as int),
{
    let n: usize = buf.len();
    let mut i: usize = from;
    while n - i >= 4
        invariant
            n == buf@.len(),
            from <= i <= n,
            forall|k: int| from <= k < i ==> !blank_line_at(buf@, k),
        decreases n - i,
    {
        if buf[i] == 13 && buf[i + 1] == 10 && buf[i + 2] == 13 && buf[i + 3] == 10 {
            assert(blank_line_at(buf@, i as int));
            return true;
        }
        i += 1;
    }
    false
}

/// How far an HTTP head has come.
#[derive(Debug, Clone, Copy, PartialEq, Eq, Structural)]
pub enum HeadProgress {
    Complete,
    More,
    TooLarge,
}

/// A head is complete once it holds a blank line; one that grew past `limit` without it
/// is refused.
pub open spec fn progress_of(buf: Seq<u8>, limit: int) -> HeadProgress {
    if head_complete(buf) {
        HeadProgress::Complete
    } else if buf.len() > limit {
        HeadProgress::TooLarge
    } else {
        HeadProgress::More
    }
}

/// Judges a head that was read so far.
pub fn head_progress(buf: &[u8], limit: usize) -> (r: HeadProgress)
    ensures
        r == progress_of(buf@, limit as int),
{
    if has_blank_line(buf, 0) {
        return HeadProgress::Complete;
    }
    assert(!head_complete(buf@));
    if buf.len() > limit {
        HeadProgress::TooLarge
    } else {
        HeadProgress::More
    }
}

/// The largest answer that a client reads.
pub const MAX_RESPONSE_HEAD: usize = 4096;

/// The largest request that a server reads.
pub const MAX_REQUEST_HEAD: usize = 8192;

/// Collects the server's answer. `data` is what one read brought; nothing means that the
/// server closed the connection. Says whether the answer is complete.
pub fn client_on_response(buf: &mut Vec<u8>, data: &[u8]) -> (r: Result<bool, HandshakeError>)
    ensures
        data@.len() == 0 ==> r == Err::<bool, HandshakeError>(HandshakeError::ServerClosed)
            && *final(buf) == *old(buf),
        data@.len() > 0 ==> {
            &&& final(buf)@ == old(buf)@ + data@
            &&& r == match progress_of(final(buf)@, 4096) {
                HeadProgress::Complete => Ok::<bool, HandshakeError>(true),
                HeadProgress::More => Ok(false),
                HeadProgress::TooLarge => Err(HandshakeError::ResponseTooLarge),
            }
        },
{
    if data.len() == 0 {
        return Err(HandshakeError::ServerClosed);
    }
    append(buf, data);
    match head_progress(buf.as_slice(), MAX_RESPONSE_HEAD) {
        HeadProgress::Complete => Ok(true),
        HeadProgress::More => Ok(false),
        HeadProgress::TooLarge => Err(HandshakeError::ResponseTooLarge),
    }
}

/// `part` stands in `all` at `i`.
pub open spec fn stands_at(all: Seq<u8>, part: Seq<u8>, i: int) -> bool {
    0 <= i && i + part.len() <= all.len() && all.subrange(i, i + part.len()) == part
}

fn is_at(all: &[u8], part: &[u8], i: usize) -> (r: bool)
    requires
        i + part@.len() <= all@.len(),
    ensures
        r == stands_at(all@, part@, i as int),
{
    let n: usize = part.len();
    let m: usize = all.len();
    let ghost here = all@.subrange(i as int, i + n);
    let mut k: usize = 0;
    while k < n
        invariant
            n == part@.len(),
            k <= n,
            i + n <= m == all@.len(),
            here == all@.subrange(i as int, i + n),
            forall|j: int| 0 <= j < k ==> here[j] == part@[j],
        decreases n - k,
    {
        if all[i + k] != part[k] {
            assert(here[k as int] != part@[k as int]);
            return false;
        }
        k += 1;
    }
    assert(here =~= part@);
    true
}

/// An answer that holds the value which the client's key calls for.
pub open spec fn accepts(response: Seq<u8>, key: Seq<u8>) -> bool {
    exists|i: int| #[trigger]
        stands_at(response, vstd::utf8::encode_utf8(disguise_protocol::ws_accept_text(key)), i)
}

/// Whether a server's answer holds the value which the client's key calls for.
pub fn response_accepts(response: &[u8], key: &str) -> (r: bool)
    ensures
        r == accepts(response@, key.spec_bytes()),
{
    let accept = compute_ws_accept(key);
    let wanted = accept.as_str().as_bytes();
    let n: usize = wanted.len();
    if n > response.len() {
        return false;
    }
    let last: usize = response.len() - n;
    let mut i: usize = 0;
    while i < last
        invariant
            wanted@ == vstd::utf8::encode_utf8(
                disguise_protocol::ws_accept_text(key.spec_bytes()),
            ),
            n == wanted@.len(),
            last == response@.len() - n,
            i <= last,
            forall|k: int| 0 <= k < i ==> !#[trigger] stands_at(response@, wanted@, k),
        decreases last - i,
    {
        if is_at(response, wanted, i) {
            return true;
        }
        i += 1;
    }
    is_at(response, wanted, last)
}

/// The request that a server has read so far.
pub struct RequestHead {
    buf: Vec<u8>,
    search_from: usize,
}

impl RequestHead {
    /// The bytes read so far.
    pub closed spec fn view(self) -> Seq<u8> {
        self.buf@
    }

    /// No blank line ends in the part that was searched before.
    pub closed spec fn well_formed(self) -> bool {
        &&& self.search_from <= self.buf@.len()
        &&& forall|i: int| i + 4 <= self.search_from ==> !#[trigger] blank_line_at(self.buf@, i)
    }

    /// Starts with the bytes by which the protocol was recognized. Says whether the
    /// request is complete already.
    pub fn new(first_bytes: &[u8]) -> (r: (Self, bool))
        ensures
            r.0.well_formed(),
            r.0@ == first_bytes@,
            r.1 == head_complete(first_bytes@),
    {
        let buf = slice_to_vec(first_bytes);
        let done: bool = has_blank_line(buf.as_slice(), 0);
        (RequestHead { buf, search_from: 0 }, done)
    }

    /// One read brought `data`; nothing means that the client closed the connection. Says
    /// whether the request is complete.
    pub fn on_read(&mut self, data: &[u8]) -> (r: Result<bool, HandshakeError>)
        requires
            old(self).well_formed(),
            !head_complete(old(self)@),
        ensures
            data@.len() == 0 ==> r == Err::<bool, HandshakeError>(HandshakeError::IncompleteRequest)
                && *final(self) == *old(self),
            data@.len() > 0 ==> {
                &&& final(self).well_formed()
                &&& final(self)@ == old(self)@ + data@
                &&& r == match progress_of(final(self)@, 8192) {
                    HeadProgress::Complete => Ok::<bool, HandshakeError>(true),
                    HeadProgress::More => Ok(false),
                    HeadProgress::TooLarge => Err(HandshakeError::RequestTooLarge),
                }
            },
    {
        if data.len() == 0 {
            return Err(HandshakeError::IncompleteRequest);
        }
        let ghost before = self.buf@;
        append(&mut self.buf, data);
        let start: usize = if self.search_from < 3 {
            0
        } else {
            self.search_from - 3
        };
        proof {
            assert forall|i: int| i < start implies !#[trigger] blank_line_at(self.buf@, i) by {
                if blank_line_at(self.buf@, i) {
                    assert(blank_line_at(before, i));
                }
            }
            assert forall|i: int| i + 4 <= self.search_from implies !#[trigger] blank_line_at(
                self.buf@,
                i,
            ) by {
                if blank_line_at(self.buf@, i) {
                    assert(blank_line_at(before, i));
                }
            }
        }
        if has_blank_line(self.buf.as_slice(), start) {
            return Ok(true);
        }
        assert(!head_complete(self.buf@)) by {
            assert forall|i: int| !blank_line_at(self.buf@, i) by {
                if i >= start {
                    assert(!(start <= i && blank_line_at(self.buf@, i)));
                }
            }
        }
        self.search_from = self.buf.len();
        if self.buf.len() > MAX_REQUEST_HEAD {
            return Err(HandshakeError::RequestTooLarge);
        }
        Ok(false)
    }

    /// The answer to the request.
    pub fn answer(&self) -> (r: Vec<u8>)
        ensures
            exists|date: Seq<char>|
                disguise_protocol::is_http_date(date) && r@ == vstd::utf8::encode_utf8(
                    #[trigger] disguise_protocol::http_response_text(accept_value(self@), date),
                ),
    {
        let accept = accept_for(self.buf.as_slice());
        let accept_text: &str = accept.as_str();
        let r = build_http_response(accept_text);
        proof {
            let date = choose|date: Seq<char>|
                disguise_protocol::is_http_date(date) && r@ == vstd::utf8::encode_utf8(
                    #[trigger] disguise_protocol::http_response_text(accept_text@, date),
                );
            assert(accept_text@ == accept_value(self@));
            assert(r@ == vstd::utf8::encode_utf8(
                disguise_protocol::http_response_text(accept_value(self@), date),
            ));
        }
        r
    }
}

/// The value of Sec-WebSocket-Accept for a request: empty where it holds no key.
pub open spec fn accept_value(request: Seq<u8>) -> Seq<char> {
    match disguise_protocol::ws_key_of(request) {
        Some(key) => disguise_protocol::ws_accept_text(vstd::utf8::encode_utf8(key)),
        None => Seq::empty(),
    }
}

/// Computes the value of Sec-WebSocket-Accept for a request.
pub fn accept_for(request: &[u8]) -> (r: String)
    ensures
        r@ == accept_value(request@),
{
    match extract_ws_key(request) {
        Some(key) => compute_ws_accept(key),
        None => String::new(),
    }
}

/// The protocol that a client speaks.
#[derive(Debug, Clone, Copy, PartialEq, Eq, Structural)]
pub enum Protocol {
    Http,
    Tls,
}

/// The first four bytes spell `GET` or `POST`.
pub open spec fn opens_http(b: Seq<u8>) -> bool {
    (b[0] == 71 && b[1] == 69 && b[2] == 84) || (b[0] == 80 && b[1] == 79 && b[2] == 83 && b[3]
        == 84)
}

/// Tells the protocol by its first four bytes: `GET` or `POST`, or a TLS handshake record.
pub fn detect_protocol(first_bytes: &[u8; 4]) -> (r: Result<Protocol, HandshakeError>)
    ensures
        r == if opens_http(first_bytes@) {
            Ok::<Protocol, HandshakeError>(Protocol::Http)
        } else if first_bytes@[0] == 0x16 && first_bytes@[1] == 0x03 {
            Ok(Protocol::Tls)
        } else {
            Err(HandshakeError::UnrecognizedProtocol)
        },
{
    let b = first_bytes;
    if (b[0] == 71 && b[1] == 69 && b[2] == 84) || (b[0] == 80 && b[1] == 79 && b[2] == 83 && b[3]
        == 84) {
        Ok(Protocol::Http)
    } else if b[0] == 0x16 && b[1] == 0x03 {
        Ok(Protocol::Tls)
    } else {
        Err(HandshakeError::UnrecognizedProtocol)
    }
}

/// How long the record behind a header is; longer than 16 KiB is refused.
pub fn handshake_record_len(header: &[u8; 5]) -> (r: Result<usize, HandshakeError>)
    ensures
        ({
            let len = disguise_protocol::tls_body_len(header@);
            r == if len > 16384 {
                Err::<usize, HandshakeError>(HandshakeError::RecordTooLarge)
            } else {
                Ok(len as usize)
            }
        }),
{
    let record_len: usize = read_be16(header, 3) as usize;
    if record_len > TLS_MAX_PLAINTEXT {
        return Err(HandshakeError::RecordTooLarge);
    }
    Ok(record_len)
}

/// The same for a record that is only skipped.
pub fn skipped_record_len(header: &[u8; 5]) -> (r: Result<usize, HandshakeError>)
    ensures
        ({
            let len = disguise_protocol::tls_body_len(header@);
            r == if len > 16384 {
                Err::<usize, HandshakeError>(HandshakeError::SkippedRecordTooLarge)
            } else {
                Ok(len as usize)
            }
        }),
{
    let record_len: usize = read_be16(header, 3) as usize;
    if record_len > TLS_MAX_PLAINTEXT {
        return Err(HandshakeError::SkippedRecordTooLarge);
    }
    Ok(record_len)
}

/// The session id in the body of a ClientHello record, if the body holds it whole. It
/// follows the handshake header, the version and the random bytes.
pub open spec fn session_id_in_body(body: Seq<u8>) -> Option<Seq<u8>> {
    if body.len() > 39 && body.len() >= 39 + body[38] {
        Some(body.subrange(39, 39 + body[38]))
    } else {
        None
    }
}

/// Finds the session id in the body of a ClientHello record.
pub fn session_id_of_body(body: &[u8]) -> (r: Option<&[u8]>)
    ensures
        match r {
            Some(sid) => session_id_in_body(body@) == Some(sid@),
            None => session_id_in_body(body@) is None,
        },
{
    if body.len() > 39 {
        let sid_len: usize = body[38] as usize;
        if body.len() >= 39 + sid_len {
            return Some(slice_subrange(body, 39, 39 + sid_len));
        }
    }
    None
}

/// A server finds in a ClientHello the session id that the client put there.
pub proof fn session_id_survives(host: Seq<u8>, seed: disguise_protocol::ClientHelloSeed)
    ensures
        ({
            let record = disguise_protocol::client_hello(host, seed);
            session_id_in_body(record.skip(5)) == Some(seed.session_id@)
        }),
{
    reveal(disguise_protocol::client_hello_head);
    let head = disguise_protocol::client_hello_head(seed);
    let body = disguise_protocol::client_hello_body(host, seed);
    let message = disguise_protocol::handshake_message(0x01, body);
    let record = disguise_protocol::client_hello(host, seed);
    assert(record.skip(5) =~= message);
    assert(head[34] == 32u8);
    assert(head.subrange(35, 67) =~= seed.session_id@);
    assert(body[34] == head[34]);
    assert(message[38] == body[34]);
    assert(message.subrange(39, 71) =~= head.subrange(35, 67));
}

/// The server's flight: a ServerHello and the fake encrypted records behind it.
pub open spec fn is_server_flight(flight: Seq<u8>, session_id: Option<Seq<u8>>) -> bool {
    exists|random: Seq<u8>, sid: Seq<u8>, pubkey: Seq<u8>, first: Seq<u8>, second: Seq<u8>|
        #![trigger disguise_protocol::server_hello(random, sid, pubkey), disguise_protocol::server_encrypted_flight(first, second)]
        {
            &&& random.len() == 32 && pubkey.len() == 32
            &&& match session_id {
                Some(s) => sid == s,
                None => sid.len() == 32,
            }
            &&& 200 <= first.len() < 400 && 100 <= second.len() < 200
            &&& flight == disguise_protocol::server_hello(random, sid, pubkey)
                + disguise_protocol::server_encrypted_flight(first, second)
        }
}

/// Builds the server's flight for a client that sent `session_id`.
pub fn server_flight(session_id: Option<&[u8]>) -> (r: Vec<u8>)
    ensures
        is_server_flight(
            r@,
            match session_id {
                Some(s) => Some(s@),
                None => None,
            },
        ),
{
    let mut combined = build_tls_server_hello(session_id);
    let fake = build_fake_server_encrypted_handshake();
    append(&mut combined, &fake);
    combined
}

/// The server's answer to the body of a ClientHello record.
pub fn server_tls_answer(record_body: &[u8]) -> (r: Vec<u8>)
    ensures
        is_server_flight(r@, session_id_in_body(record_body@)),
{
    server_flight(session_id_of_body(record_body))
}

/// Records that a client drains before it finishes: ServerHello, ChangeCipherSpec and two
/// encrypted ones.
pub const CLIENT_DRAINS: usize = 4;

/// Records that a server drains after its flight: ChangeCipherSpec and Finished.
pub const SERVER_DRAINS: usize = 2;

} // verus!

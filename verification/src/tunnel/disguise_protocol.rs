//! Byte formats of the TLS and WebSocket traffic that the tunnels imitate.

use crate::entropy::{random_bytes, random_key4, random_u16, random_u8};
use crate::wire;
use crate::wire::{append, append_be16, append_be24, append_be64, copy_range, read_be16, read_be64};
use crate::text;
use crate::text::{chars_of, range_is_word, text_of, trim_bounds};
use base64::Engine;
use sha1::Digest;
use vstd::prelude::*;
use vstd::slice::*;
use vstd::string::*;

verus! {

/// Bytes in front of the body of a TLS record.
pub const TLS_RECORD_HEADER_SIZE: usize = 5;

/// The largest body of a TLS record.
pub const TLS_MAX_PLAINTEXT: usize = 16384;

/// A TLS vector with a one-byte length.
pub open spec fn vec8(body: Seq<u8>) -> Seq<u8> {
    seq![(body.len() as int % 256) as u8] + body
}

/// A TLS vector with a two-byte length.
pub open spec fn vec16(body: Seq<u8>) -> Seq<u8> {
    wire::be16(body.len() as int) + body
}

/// A TLS extension: its type, then its data as a two-byte vector.
pub open spec fn extension(kind: int, data: Seq<u8>) -> Seq<u8> {
    wire::be16(kind) + vec16(data)
}

/// A TLS record: content type, version, and the body as a two-byte vector.
pub open spec fn tls_record(kind: u8, major: u8, minor: u8, body: Seq<u8>) -> Seq<u8> {
    seq![kind, major, minor] + vec16(body)
}

/// A TLS handshake message: its type and its body with a three-byte length.
pub open spec fn handshake_message(hs_type: u8, body: Seq<u8>) -> Seq<u8> {
    seq![hs_type] + wire::be24(body.len() as int) + body
}

/// Wraps a handshake body in a handshake message and a record of type 0x16. Lengths that
/// do not fit their fields are truncated to them.
pub fn wrap_tls_handshake(hs_type: u8, body: &[u8], record_version: [u8; 2]) -> (r: Vec<u8>)
    ensures
        r@ == tls_record(
            0x16,
            record_version@[0],
            record_version@[1],
            handshake_message(hs_type, body@),
        ),
{
    let mut message: Vec<u8> = Vec::new();
    message.push(hs_type);
    proof {
        wire::fields_drop_high_bits(body@.len() as int);
    }
    append_be24(&mut message, (body.len() % 0x1000000) as u32);
    append(&mut message, body);
    assert(message@ =~= handshake_message(hs_type, body@));
    let mut buf: Vec<u8> = Vec::new();
    buf.push(0x16);
    buf.push(record_version[0]);
    buf.push(record_version[1]);
    assert(buf@ =~= seq![0x16u8, record_version@[0], record_version@[1]]);
    append_vec16(&mut buf, &message);
    buf
}

/// One TLS application data record with `payload` as its body.
pub fn encode_tls_record(payload: &[u8]) -> (r: Vec<u8>)
    ensures
        r@ == tls_record(0x17, 3, 3, payload@),
{
    let len: usize = payload.len();
    let mut buf: Vec<u8> = Vec::new();
    buf.push(0x17);
    buf.push(0x03);
    buf.push(0x03);
    append_be16(&mut buf, (len % 0x10000) as u16);
    append(&mut buf, payload);
    proof {
        wire::fields_drop_high_bits(len as int);
    }
    assert(buf@ =~= tls_record(0x17, 3, 3, payload@));
    buf
}

/// The body length that a TLS record header announces.
pub open spec fn tls_body_len(buf: Seq<u8>) -> int {
    wire::from_be16(buf.subrange(3, 5))
}

/// The first record of `buf`: how many bytes it takes and its body, if it is complete.
pub open spec fn tls_first_record(buf: Seq<u8>) -> Option<(int, Seq<u8>)> {
    if buf.len() < 5 || buf.len() < 5 + tls_body_len(buf) {
        None
    } else {
        Some((5 + tls_body_len(buf), buf.subrange(5, 5 + tls_body_len(buf))))
    }
}

/// Decode a TLS Application Data record from the beginning of `buf`.
/// Returns `(consumed_bytes, payload_slice)` or `None` if incomplete.
pub fn decode_tls_record(buf: &[u8]) -> (r: Option<(usize, &[u8])>)
    ensures
        match r {
            Some((consumed, payload)) => tls_first_record(buf@) == Some((consumed as int, payload@)),
            None => tls_first_record(buf@) is None,
        },
{
    if buf.len() < TLS_RECORD_HEADER_SIZE {
        return None;
    }
    let record_len: usize = read_be16(buf, 3) as usize;
    let total: usize = TLS_RECORD_HEADER_SIZE + record_len;
    if buf.len() < total {
        return None;
    }
    Some((total, slice_subrange(buf, TLS_RECORD_HEADER_SIZE, total)))
}

/// A record decodes to the payload it was made from, whatever follows it. (A payload of
/// 64 KiB or more does not fit a record's length field.)
pub proof fn tls_record_round_trip(payload: Seq<u8>, rest: Seq<u8>)
    requires
        payload.len() < 0x10000,
    ensures
        tls_first_record(tls_record(0x17, 3, 3, payload) + rest) == Some(
            ((5 + payload.len()) as int, payload),
        ),
{
    let whole = tls_record(0x17, 3, 3, payload) + rest;
    assert(whole.subrange(3, 5) =~= wire::be16(payload.len() as int));
    assert(whole.subrange(5, 5 + payload.len() as int) =~= payload);
}

/// Appends `body` as a TLS vector with a one-byte length.
fn append_vec8(buf: &mut Vec<u8>, body: &[u8])
    ensures
        final(buf)@ == old(buf)@ + vec8(body@),
{
    buf.push((body.len() % 256) as u8);
    append(buf, body);
    assert(buf@ =~= old(buf)@ + vec8(body@));
}

/// Appends `body` as a TLS vector with a two-byte length.
fn append_vec16(buf: &mut Vec<u8>, body: &[u8])
    ensures
        final(buf)@ == old(buf)@ + vec16(body@),
{
    proof {
        wire::fields_drop_high_bits(body@.len() as int);
    }
    append_be16(buf, (body.len() % 0x10000) as u16);
    append(buf, body);
    assert(buf@ =~= old(buf)@ + vec16(body@));
}

/// Appends a TLS extension.
fn append_extension(buf: &mut Vec<u8>, kind: u16, data: &[u8])
    ensures
        final(buf)@ == old(buf)@ + extension(kind as int, data@),
{
    append_be16(buf, kind);
    append_vec16(buf, data);
    assert(buf@ =~= old(buf)@ + extension(kind as int, data@));
}

/// The bytes of a ClientHello that are drawn at random.
pub struct ClientHelloSeed {
    /// Picks the first GREASE value; the second is the one after it.
    pub grease: u8,
    /// Key share of the GREASE group.
    pub grease_key: u8,
    /// Key share of x25519.
    pub pubkey: [u8; 32],
    pub random: [u8; 32],
    pub session_id: [u8; 32],
}

/// The `i`-th of the sixteen GREASE values 0x0a0a, 0x1a1a, ..., 0xfafa.
pub open spec fn grease_value(i: int) -> int {
    0x0a0a + 0x1010 * (i % 16)
}

fn grease_value_of(i: u8) -> (r: u16)
    ensures
        r == grease_value(i as int),
{
    0x0a0a + 0x1010 * (i % 16) as u16
}

/// The protocol name `h2`.
pub open spec fn alpn_h2() -> Seq<u8> {
    seq![0x68u8, 0x32]
}

/// The protocol name `http/1.1`.
pub open spec fn alpn_http11() -> Seq<u8> {
    seq![0x68u8, 0x74, 0x74, 0x70, 0x2f, 0x31, 0x2e, 0x31]
}

/// server_name, extended_master_secret, renegotiation_info, supported_groups,
/// ec_point_formats, session_ticket, status_request, behind a GREASE extension.
#[verifier::opaque]
pub open spec fn client_extensions_first(host: Seq<u8>, g: int) -> Seq<u8> {
    extension(g, seq![])
        + extension(0x0000, vec16(seq![0u8] + vec16(host)))
        + extension(0x0017, seq![])
        + extension(0xff01, vec8(seq![]))
        + extension(0x000a, vec16(wire::be16(g) + seq![0x00u8, 0x1d, 0x00, 0x17, 0x00, 0x18, 0x00, 0x19]))
        + extension(0x000b, vec8(seq![0u8]))
        + extension(0x0023, seq![])
        + extension(0x0005, seq![0x01u8, 0x00, 0x00, 0x00, 0x00])
}

/// signature_algorithms, signed_certificate_timestamp, ALPN, compress_certificate and
/// application_settings.
#[verifier::opaque]
pub open spec fn client_extensions_middle() -> Seq<u8> {
    extension(
        0x000d,
        vec16(
            seq![
                0x04u8, 0x03, 0x08, 0x04, 0x04, 0x01, 0x05, 0x03,
                0x08, 0x05, 0x05, 0x01, 0x08, 0x06, 0x06, 0x01,
            ],
        ),
    )
        + extension(0x0012, seq![])
        + extension(0x0010, vec16(vec8(alpn_h2()) + vec8(alpn_http11())))
        + extension(0x001b, vec8(seq![0x00u8, 0x02]))
        + extension(0x4469, vec16(vec8(alpn_h2())))
}

/// supported_versions, key_share, psk_key_exchange_modes, and a second GREASE extension.
#[verifier::opaque]
pub open spec fn client_extensions_last(g: int, g2: int, grease_key: u8, pubkey: Seq<u8>) -> Seq<u8> {
    extension(0x002b, vec8(wire::be16(g) + seq![0x03u8, 0x04, 0x03, 0x03]))
        + extension(
        0x0033,
        vec16(wire::be16(g2) + vec16(seq![grease_key]) + wire::be16(0x001d) + vec16(pubkey)),
    )
        + extension(0x002d, vec8(seq![1u8]))
        + extension(g2, seq![0u8])
}

/// Every extension of the ClientHello but the padding.
#[verifier::opaque]
pub open spec fn client_extensions(host: Seq<u8>, seed: ClientHelloSeed) -> Seq<u8> {
    let g = grease_value(seed.grease as int);
    let g2 = grease_value(seed.grease + 1);
    client_extensions_first(host, g) + client_extensions_middle() + client_extensions_last(
        g,
        g2,
        seed.grease_key,
        seed.pubkey@,
    )
}

/// The padding extension that brings a hello body of `unpadded` bytes to 512. Where fewer
/// than four bytes are missing, the extension's header alone fills the gap.
pub open spec fn hello_padding(unpadded: int) -> Seq<u8> {
    if unpadded < 512 {
        extension(
            0x0015,
            Seq::new(
                if unpadded < 508 {
                    (508 - unpadded) as nat
                } else {
                    0
                },
                |i: int| 0u8,
            ),
        )
    } else {
        seq![]
    }
}

/// What precedes the extensions: version, random, session id, cipher suites, compression.
#[verifier::opaque]
pub open spec fn client_hello_head(seed: ClientHelloSeed) -> Seq<u8> {
    seq![0x03u8, 0x03] + seed.random@ + vec8(seed.session_id@) + vec16(
        wire::be16(grease_value(seed.grease as int)) + seq![
            0x13u8, 0x01, 0x13, 0x02, 0x13, 0x03, 0xc0, 0x2b, 0xc0, 0x2f, 0xc0, 0x2c, 0xc0, 0x30,
        ],
    ) + vec8(seq![0u8])
}

/// The body of the ClientHello for a host name.
pub open spec fn client_hello_body(host: Seq<u8>, seed: ClientHelloSeed) -> Seq<u8> {
    let head = client_hello_head(seed);
    let exts = client_extensions(host, seed);
    head + vec16(exts + hello_padding((head.len() + 2 + exts.len()) as int))
}

/// The whole ClientHello record.
pub open spec fn client_hello(host: Seq<u8>, seed: ClientHelloSeed) -> Seq<u8> {
    tls_record(0x16, 3, 1, handshake_message(0x01, client_hello_body(host, seed)))
}

proof fn lemma_client_hello_lengths(host: Seq<u8>, seed: ClientHelloSeed)
    ensures
        client_hello_head(seed).len() == 87,
        client_extensions(host, seed).len() == 186 + host.len(),
{
    reveal(client_extensions);
    reveal(client_hello_head);
    reveal(client_extensions_first);
    reveal(client_extensions_middle);
    reveal(client_extensions_last);
    let g = grease_value(seed.grease as int);
    let g2 = grease_value(seed.grease + 1);
    assert(client_extensions_first(host, g).len() == 57 + host.len());
    assert(client_extensions_middle().len() == 60);
    assert(client_extensions_last(g, g2, seed.grease_key, seed.pubkey@).len() == 69);
}

/// A ClientHello has a body of at least 512 bytes whatever the host name, and of exactly
/// 512 for a host name of up to 233 bytes.
pub proof fn client_hello_is_padded(host: Seq<u8>, seed: ClientHelloSeed)
    ensures
        client_hello_body(host, seed).len() >= 512,
        client_hello(host, seed).len() == client_hello_body(host, seed).len() + 9,
        host.len() <= 233 ==> client_hello_body(host, seed).len() == 512,
{
    lemma_client_hello_lengths(host, seed);
}

fn append_client_extensions_first(buf: &mut Vec<u8>, host: &[u8], g: u16)
    ensures
        final(buf)@ == old(buf)@ + client_extensions_first(host@, g as int),
{
    let mut sni_name: Vec<u8> = Vec::new();
    sni_name.push(0x00);
    append_vec16(&mut sni_name, host);
    let mut sni: Vec<u8> = Vec::new();
    append_vec16(&mut sni, &sni_name);
    let mut groups_list: Vec<u8> = Vec::new();
    append_be16(&mut groups_list, g);
    // x25519, secp256r1, secp384r1, secp521r1
    append(&mut groups_list, &[0x00, 0x1d, 0x00, 0x17, 0x00, 0x18, 0x00, 0x19]);
    let mut groups: Vec<u8> = Vec::new();
    append_vec16(&mut groups, &groups_list);
    append_extension(buf, g, &[]);
    append_extension(buf, 0x0000, &sni);
    append_extension(buf, 0x0017, &[]);
    append_extension(buf, 0xff01, &[0x00]);
    append_extension(buf, 0x000a, &groups);
    append_extension(buf, 0x000b, &[0x01, 0x00]);
    append_extension(buf, 0x0023, &[]);
    append_extension(buf, 0x0005, &[0x01, 0x00, 0x00, 0x00, 0x00]);
    proof {
        assert(sni@ =~= vec16(seq![0u8] + vec16(host@)));
        assert(groups@ =~= vec16(
            wire::be16(g as int) + seq![0x00u8, 0x1d, 0x00, 0x17, 0x00, 0x18, 0x00, 0x19],
        ));
        assert([0u8]@ =~= vec8(seq![]));
        assert([0x01u8, 0x00]@ =~= vec8(seq![0u8]));
        reveal(client_extensions_first);
    }
    assert(buf@ =~= old(buf)@ + client_extensions_first(host@, g as int));
}

fn append_client_extensions_middle(buf: &mut Vec<u8>)
    ensures
        final(buf)@ == old(buf)@ + client_extensions_middle(),
{
    let mut algorithms: Vec<u8> = Vec::new();
    append_vec16(
        &mut algorithms,
        &[
            0x04, 0x03,  // ecdsa_secp256r1_sha256
            0x08, 0x04,  // rsa_pss_rsae_sha256
            0x04, 0x01,  // rsa_pkcs1_sha256
            0x05, 0x03,  // ecdsa_secp384r1_sha384
            0x08, 0x05,  // rsa_pss_rsae_sha384
            0x05, 0x01,  // rsa_pkcs1_sha384
            0x08, 0x06,  // rsa_pss_rsae_sha512
            0x06, 0x01,  // rsa_pkcs1_sha512
        ],
    );
    let mut alpn_list: Vec<u8> = Vec::new();
    append_vec8(&mut alpn_list, &[0x68, 0x32]);
    append_vec8(&mut alpn_list, &[0x68, 0x74, 0x74, 0x70, 0x2f, 0x31, 0x2e, 0x31]);
    let mut alpn: Vec<u8> = Vec::new();
    append_vec16(&mut alpn, &alpn_list);
    append_extension(buf, 0x000d, &algorithms);
    append_extension(buf, 0x0012, &[]);
    append_extension(buf, 0x0010, &alpn);
    append_extension(buf, 0x001b, &[0x02, 0x00, 0x02]);
    append_extension(buf, 0x4469, &[0x00, 0x03, 0x02, 0x68, 0x32]);
    proof {
        assert(algorithms@ =~= vec16(
            seq![
                0x04u8, 0x03, 0x08, 0x04, 0x04, 0x01, 0x05, 0x03,
                0x08, 0x05, 0x05, 0x01, 0x08, 0x06, 0x06, 0x01,
            ],
        ));
        assert([0x68u8, 0x32]@ =~= alpn_h2());
        assert([0x68u8, 0x74, 0x74, 0x70, 0x2f, 0x31, 0x2e, 0x31]@ =~= alpn_http11());
        assert(alpn@ =~= vec16(vec8(alpn_h2()) + vec8(alpn_http11())));
        assert([0x02u8, 0x00, 0x02]@ =~= vec8(seq![0x00u8, 0x02]));
        assert([0x00u8, 0x03, 0x02, 0x68, 0x32]@ =~= vec16(vec8(alpn_h2())));
        reveal(client_extensions_middle);
    }
    assert(buf@ =~= old(buf)@ + client_extensions_middle());
}

fn append_client_extensions_last(buf: &mut Vec<u8>, g: u16, g2: u16, grease_key: u8, pubkey: &[u8])
    ensures
        final(buf)@ == old(buf)@ + client_extensions_last(g as int, g2 as int, grease_key, pubkey@),
{
    let mut versions_list: Vec<u8> = Vec::new();
    append_be16(&mut versions_list, g);
    append(&mut versions_list, &[0x03, 0x04, 0x03, 0x03]);  // TLS 1.3, TLS 1.2
    let mut versions: Vec<u8> = Vec::new();
    append_vec8(&mut versions, &versions_list);
    let mut shares_list: Vec<u8> = Vec::new();
    append_be16(&mut shares_list, g2);
    append_vec16(&mut shares_list, &[grease_key]);
    append_be16(&mut shares_list, 0x001d);
    append_vec16(&mut shares_list, pubkey);
    let mut shares: Vec<u8> = Vec::new();
    append_vec16(&mut shares, &shares_list);
    append_extension(buf, 0x002b, &versions);
    append_extension(buf, 0x0033, &shares);
    append_extension(buf, 0x002d, &[0x01, 0x01]);
    append_extension(buf, g2, &[0x00]);
    proof {
        assert(versions@ =~= vec8(wire::be16(g as int) + seq![0x03u8, 0x04, 0x03, 0x03]));
        assert([grease_key]@ =~= seq![grease_key]);
        assert(shares@ =~= vec16(
            wire::be16(g2 as int) + vec16(seq![grease_key]) + wire::be16(0x001d) + vec16(pubkey@),
        ));
        assert([0x01u8, 0x01]@ =~= vec8(seq![1u8]));
        reveal(client_extensions_last);
    }
    assert(buf@ =~= old(buf)@ + client_extensions_last(g as int, g2 as int, grease_key, pubkey@));
}

fn client_hello_head_of(seed: &ClientHelloSeed) -> (r: Vec<u8>)
    ensures
        r@ == client_hello_head(*seed),
{
    let mut suites: Vec<u8> = Vec::new();
    append_be16(&mut suites, grease_value_of(seed.grease));
    append(
        &mut suites,
        &[
            0x13, 0x01,  // TLS_AES_128_GCM_SHA256
            0x13, 0x02,  // TLS_AES_256_GCM_SHA384
            0x13, 0x03,  // TLS_CHACHA20_POLY1305_SHA256
            0xc0, 0x2b,  // TLS_ECDHE_ECDSA_WITH_AES_128_GCM_SHA256
            0xc0, 0x2f,  // TLS_ECDHE_RSA_WITH_AES_128_GCM_SHA256
            0xc0, 0x2c,  // TLS_ECDHE_ECDSA_WITH_AES_256_GCM_SHA384
            0xc0, 0x30,  // TLS_ECDHE_RSA_WITH_AES_256_GCM_SHA384
        ],
    );
    let mut body: Vec<u8> = Vec::new();
    append(&mut body, &[0x03, 0x03]);  // legacy version TLS 1.2
    append(&mut body, &seed.random);
    append_vec8(&mut body, &seed.session_id);
    append_vec16(&mut body, &suites);
    append_vec8(&mut body, &[0x00]);  // compression: null
    proof {
        assert(suites@ =~= wire::be16(grease_value(seed.grease as int)) + seq![
            0x13u8, 0x01, 0x13, 0x02, 0x13, 0x03, 0xc0, 0x2b, 0xc0, 0x2f, 0xc0, 0x2c, 0xc0, 0x30,
        ]);
        reveal(client_hello_head);
    }
    assert(body@ =~= client_hello_head(*seed));
    body
}

/// The ClientHello record for a host name, from the given random bytes.
pub fn build_tls_client_hello_from(host: &str, seed: &ClientHelloSeed) -> (r: Vec<u8>)
    ensures
        r@ == client_hello(host.spec_bytes(), *seed),
{
    let host_bytes = host.as_bytes();
    let g: u16 = grease_value_of(seed.grease);
    let g2: u16 = grease_value_of((seed.grease % 16 + 1) as u8);
    assert(g2 == grease_value(seed.grease + 1));
    let mut extensions: Vec<u8> = Vec::new();
    append_client_extensions_first(&mut extensions, host_bytes, g);
    append_client_extensions_middle(&mut extensions);
    append_client_extensions_last(&mut extensions, g, g2, seed.grease_key, &seed.pubkey);
    let ghost exts = client_extensions(host_bytes@, *seed);
    proof {
        reveal(client_extensions);
        assert(extensions@ =~= exts);
        lemma_client_hello_lengths(host_bytes@, *seed);
    }
    let mut body: Vec<u8> = client_hello_head_of(seed);
    let ghost head = body@;
    if extensions.len() < 512 {
        let current_total: usize = body.len() + 2 + extensions.len();
        if current_total < 512 {
            let pad_len: usize = if current_total < 508 { 508 - current_total } else { 0 };
            let pad: Vec<u8> = vec![0u8; pad_len];
            append_extension(&mut extensions, 0x0015, &pad);
            assert(pad@ =~= Seq::new(pad_len as nat, |i: int| 0u8));
        }
    }
    assert(extensions@ =~= exts + hello_padding((head.len() + 2 + exts.len()) as int));
    append_vec16(&mut body, &extensions);
    let r = wrap_tls_handshake(0x01, &body, [0x03, 0x01]);
    r
}

fn random_block() -> (r: [u8; 32]) {
    let b = random_bytes(32);
    block_of(&b)
}

/// Thirty-two bytes as an array.
fn block_of(b: &Vec<u8>) -> (r: [u8; 32])
    requires
        b@.len() == 32,
    ensures
        r@ == b@,
{
    let mut out = [0u8; 32];
    let mut i: usize = 0;
    while i < 32
        invariant
            i <= 32,
            b@.len() == 32,
            forall|k: int| 0 <= k < i ==> out@[k] == b@[k],
        decreases 32 - i,
    {
        out[i] = b[i];
        i += 1;
    }
    assert(out@ =~= b@);
    out
}

/// A ClientHello record that names `host`, shaped like a browser's.
pub fn build_tls_client_hello(host: &str) -> (r: Vec<u8>)
    ensures
        exists|seed: ClientHelloSeed| r@ == client_hello(host.spec_bytes(), seed),
{
    let seed = ClientHelloSeed {
        grease: random_u8(),
        grease_key: random_u8(),
        pubkey: random_block(),
        random: random_block(),
        session_id: random_block(),
    };
    build_tls_client_hello_from(host, &seed)
}

/// The body of a ServerHello: the session id it echoes, TLS_AES_128_GCM_SHA256, and the
/// supported_versions and key_share extensions.
pub open spec fn server_hello_body(random: Seq<u8>, session_id: Seq<u8>, pubkey: Seq<u8>) -> Seq<u8> {
    seq![0x03u8, 0x03] + random + vec8(session_id) + seq![0x13u8, 0x01] + seq![0u8] + vec16(
        extension(0x002b, seq![0x03u8, 0x04]) + extension(0x0033, wire::be16(0x001d) + vec16(pubkey)),
    )
}

/// The whole ServerHello record.
pub open spec fn server_hello(random: Seq<u8>, session_id: Seq<u8>, pubkey: Seq<u8>) -> Seq<u8> {
    tls_record(0x16, 3, 3, handshake_message(0x02, server_hello_body(random, session_id, pubkey)))
}

/// The ServerHello record from the given random bytes.
pub fn build_tls_server_hello_from(random: &[u8; 32], session_id: &[u8], pubkey: &[u8; 32]) -> (r:
    Vec<u8>)
    ensures
        r@ == server_hello(random@, session_id@, pubkey@),
{
    let mut share: Vec<u8> = Vec::new();
    append_be16(&mut share, 0x001d);
    append_vec16(&mut share, pubkey);
    let mut extensions: Vec<u8> = Vec::new();
    append_extension(&mut extensions, 0x002b, &[0x03, 0x04]);
    append_extension(&mut extensions, 0x0033, &share);
    let mut body: Vec<u8> = Vec::new();
    append(&mut body, &[0x03, 0x03]);
    append(&mut body, random);
    append_vec8(&mut body, session_id);
    append(&mut body, &[0x13, 0x01]);
    body.push(0x00);
    append_vec16(&mut body, &extensions);
    proof {
        assert(share@ =~= wire::be16(0x001d) + vec16(pubkey@));
        assert([0x03u8, 0x04]@ =~= seq![0x03u8, 0x04]);
        assert(extensions@ =~= extension(0x002b, seq![0x03u8, 0x04]) + extension(
            0x0033,
            wire::be16(0x001d) + vec16(pubkey@),
        ));
    }
    assert(body@ =~= server_hello_body(random@, session_id@, pubkey@));
    wrap_tls_handshake(0x02, &body, [0x03, 0x03])
}

/// A ServerHello record that echoes the client's session id, or makes one up.
pub fn build_tls_server_hello(client_session_id: Option<&[u8]>) -> (r: Vec<u8>)
    ensures
        exists|random: Seq<u8>, sid: Seq<u8>, pubkey: Seq<u8>|
            #![trigger server_hello(random, sid, pubkey)]
            random.len() == 32 && pubkey.len() == 32 && r@ == server_hello(random, sid, pubkey) && (
            match client_session_id {
                Some(s) => sid == s@,
                None => sid.len() == 32,
            }),
{
    let random = random_block();
    let pubkey = random_block();
    match client_session_id {
        Some(sid) => {
            let r = build_tls_server_hello_from(&random, sid, &pubkey);
            assert(r@ == server_hello(random@, sid@, pubkey@));
            r
        },
        None => {
            let sid = random_block();
            let r = build_tls_server_hello_from(&random, &sid, &pubkey);
            assert(r@ == server_hello(random@, sid@, pubkey@));
            r
        },
    }
}

/// A ChangeCipherSpec record.
pub open spec fn change_cipher_spec() -> Seq<u8> {
    tls_record(0x14, 3, 3, seq![1u8])
}

fn append_change_cipher_spec(buf: &mut Vec<u8>)
    ensures
        final(buf)@ == old(buf)@ + change_cipher_spec(),
{
    append(buf, &[0x14, 0x03, 0x03, 0x00, 0x01, 0x01]);
    assert([0x14u8, 0x03, 0x03, 0x00, 0x01, 0x01]@ =~= change_cipher_spec());
}

fn append_tls_record(buf: &mut Vec<u8>, body: &[u8])
    ensures
        final(buf)@ == old(buf)@ + tls_record(0x17, 3, 3, body@),
{
    append(buf, &[0x17, 0x03, 0x03]);
    append_vec16(buf, body);
    assert(buf@ =~= old(buf)@ + tls_record(0x17, 3, 3, body@));
}

/// What a server sends behind its hello: ChangeCipherSpec and two opaque records.
pub open spec fn server_encrypted_flight(first: Seq<u8>, second: Seq<u8>) -> Seq<u8> {
    change_cipher_spec() + tls_record(0x17, 3, 3, first) + tls_record(0x17, 3, 3, second)
}

/// A ChangeCipherSpec record and two records of random bytes, the first 200 to 399 bytes
/// long, the second 100 to 199.
pub fn build_fake_server_encrypted_handshake() -> (r: Vec<u8>)
    ensures
        exists|first: Seq<u8>, second: Seq<u8>|
            200 <= first.len() < 400 && 100 <= second.len() < 200 && r@
                == #[trigger] server_encrypted_flight(first, second),
{
    let first = random_bytes(200 + (random_u16() % 200) as usize);
    let second = random_bytes(100 + (random_u16() % 100) as usize);
    let mut out: Vec<u8> = Vec::new();
    append_change_cipher_spec(&mut out);
    append_tls_record(&mut out, &first);
    append_tls_record(&mut out, &second);
    assert(out@ =~= server_encrypted_flight(first@, second@));
    out
}

/// What a client sends to finish: ChangeCipherSpec and one opaque record.
pub open spec fn client_finished_flight(finished: Seq<u8>) -> Seq<u8> {
    change_cipher_spec() + tls_record(0x17, 3, 3, finished)
}

/// A ChangeCipherSpec record and one record of 36 to 55 random bytes.
pub fn build_fake_client_finished() -> (r: Vec<u8>)
    ensures
        exists|finished: Seq<u8>|
            36 <= finished.len() < 56 && r@ == #[trigger] client_finished_flight(finished),
{
    let finished = random_bytes(36 + (random_u8() % 20) as usize);
    let mut out: Vec<u8> = Vec::new();
    append_change_cipher_spec(&mut out);
    append_tls_record(&mut out, &finished);
    assert(out@ =~= client_finished_flight(finished@));
    out
}

// --- WebSocket ---

/// The length field of a WebSocket frame header, with the mask bit in its first byte.
pub open spec fn ws_length_field(len: int, masked: bool) -> Seq<u8> {
    let bit: int = if masked { 128 } else { 0 };
    if len <= 125 {
        seq![(bit + len) as u8]
    } else if len <= 65535 {
        seq![(bit + 126) as u8] + wire::be16(len)
    } else {
        seq![(bit + 127) as u8] + wire::be64(len)
    }
}

/// The header of a final binary WebSocket frame; a client's frame carries a mask.
pub open spec fn ws_header(len: int, mask: Option<Seq<u8>>) -> Seq<u8> {
    match mask {
        Some(key) => seq![0x82u8] + ws_length_field(len, true) + key,
        None => seq![0x82u8] + ws_length_field(len, false),
    }
}

/// `data` with byte `i` combined with byte `(phase + i) % 4` of the mask.
pub open spec fn ws_masked(data: Seq<u8>, key: Seq<u8>, phase: int) -> Seq<u8> {
    Seq::new(data.len(), |i: int| data[i] ^ key[(phase + i) % 4])
}

/// A whole WebSocket frame.
pub open spec fn ws_frame(payload: Seq<u8>, mask: Option<Seq<u8>>) -> Seq<u8> {
    match mask {
        Some(key) => ws_header(payload.len() as int, mask) + ws_masked(payload, key, 0),
        None => ws_header(payload.len() as int, mask) + payload,
    }
}

/// Masks or unmasks `data`, starting `phase` bytes into the mask.
pub fn ws_apply_mask(data: &[u8], key: &[u8; 4], phase: usize) -> (r: Vec<u8>)
    requires
        phase < 4,
    ensures
        r@ == ws_masked(data@, key@, phase as int),
{
    let mut out: Vec<u8> = Vec::new();
    let mut k: usize = phase;
    let mut i: usize = 0;
    while i < data.len()
        invariant
            i <= data@.len(),
            k == (phase + i) % 4,
            phase < 4,
            out@.len() == i,
            forall|j: int|
                0 <= j < i ==> #[trigger] out@[j] == data@[j] ^ key@[(phase + j) % 4],
        decreases data@.len() - i,
    {
        out.push(data[i] ^ key[k]);
        k = if k == 3 { 0 } else { k + 1 };
        i += 1;
    }
    assert(out@ =~= ws_masked(data@, key@, phase as int));
    out
}

/// Masking twice with one key gives the data back.
pub proof fn ws_mask_is_involution(data: Seq<u8>, key: Seq<u8>, phase: int)
    ensures
        ws_masked(ws_masked(data, key, phase), key, phase) == data,
{
    assert forall|i: int| 0 <= i < data.len() implies #[trigger] ws_masked(
        ws_masked(data, key, phase),
        key,
        phase,
    )[i] == data[i] by {
        let a = data[i];
        let m = key[(phase + i) % 4];
        assert((a ^ m) ^ m == a) by (bit_vector);
    }
    assert(ws_masked(ws_masked(data, key, phase), key, phase) =~= data);
}

/// The header of a frame that carries `payload_len` bytes.
pub fn ws_frame_header(payload_len: usize, mask_key: Option<[u8; 4]>) -> (r: Vec<u8>)
    ensures
        r@ == ws_header(
            payload_len as int,
            match mask_key {
                Some(key) => Some(key@),
                None => None,
            },
        ),
{
    let mut buf: Vec<u8> = Vec::new();
    buf.push(0x82);  // FIN + Binary opcode
    let masked: bool = mask_key.is_some();
    let mask_bit: u8 = if masked { 0x80 } else { 0x00 };
    if payload_len <= 125 {
        buf.push(mask_bit + payload_len as u8);
    } else if payload_len <= 65535 {
        buf.push(mask_bit + 126);
        append_be16(&mut buf, payload_len as u16);
    } else {
        buf.push(mask_bit + 127);
        append_be64(&mut buf, payload_len as u64);
    }
    assert(buf@ =~= seq![0x82u8] + ws_length_field(payload_len as int, masked));
    if let Some(key) = mask_key {
        append(&mut buf, &key);
    }
    buf
}

/// A frame that carries `payload`, masked with the given key if there is one.
pub fn encode_ws_frame_with(payload: &[u8], mask_key: Option<[u8; 4]>) -> (r: Vec<u8>)
    ensures
        r@ == ws_frame(
            payload@,
            match mask_key {
                Some(key) => Some(key@),
                None => None,
            },
        ),
{
    let mut buf = ws_frame_header(payload.len(), mask_key);
    match mask_key {
        Some(key) => {
            let body = ws_apply_mask(payload, &key, 0);
            append(&mut buf, &body);
        },
        None => {
            append(&mut buf, payload);
        },
    }
    buf
}

/// A frame that carries `payload`; a client masks it with a fresh key.
pub fn encode_ws_frame(payload: &[u8], is_client: bool) -> (r: Vec<u8>)
    ensures
        is_client ==> exists|key: Seq<u8>|
            key.len() == 4 && r@ == #[trigger] ws_frame(payload@, Some(key)),
        !is_client ==> r@ == ws_frame(payload@, None),
{
    if is_client {
        let key = random_key4();
        let r = encode_ws_frame_with(payload, Some(key));
        assert(r@ == ws_frame(payload@, Some(key@)));
        r
    } else {
        encode_ws_frame_with(payload, None)
    }
}

/// The frame in `buf` carries a mask.
pub open spec fn ws_has_mask(buf: Seq<u8>) -> bool {
    buf[1] >= 128
}

/// Bytes up to the end of the length field.
pub open spec fn ws_length_end(buf: Seq<u8>) -> int {
    let code = buf[1] % 128;
    if code <= 125 {
        2
    } else if code == 126 {
        4
    } else {
        10
    }
}

/// The payload length that the length field announces.
pub open spec fn ws_payload_len(buf: Seq<u8>) -> int {
    let code = buf[1] % 128;
    if code <= 125 {
        code as int
    } else if code == 126 {
        wire::from_be16(buf.subrange(2, 4))
    } else {
        wire::from_be64(buf.subrange(2, 10))
    }
}

/// Bytes in front of the payload.
pub open spec fn ws_header_len(buf: Seq<u8>) -> int {
    ws_length_end(buf) + if ws_has_mask(buf) { 4int } else { 0 }
}

/// The first frame of `buf`: how many bytes it takes and its unmasked payload, if it is
/// complete.
pub open spec fn ws_first_frame(buf: Seq<u8>) -> Option<(int, Seq<u8>)> {
    if buf.len() < 2 || buf.len() < ws_length_end(buf) || buf.len() < ws_header_len(buf)
        + ws_payload_len(buf) {
        None
    } else {
        let start = ws_header_len(buf);
        let end = start + ws_payload_len(buf);
        let body = buf.subrange(start, end);
        if ws_has_mask(buf) {
            let key = buf.subrange(ws_length_end(buf), start);
            Some((end, ws_masked(body, key, 0)))
        } else {
            Some((end, body))
        }
    }
}

/// Decode a WebSocket binary frame from `buf`.
/// Returns `(consumed_bytes, unmasked_payload)` or `None` if incomplete.
pub fn decode_ws_frame(buf: &[u8]) -> (r: Option<(usize, Vec<u8>)>)
    ensures
        match r {
            Some((consumed, payload)) => ws_first_frame(buf@) == Some((consumed as int, payload@)),
            None => ws_first_frame(buf@) is None,
        },
{
    if buf.len() < 2 {
        return None;
    }
    let has_mask: bool = buf[1] >= 0x80;
    let len_code: u8 = buf[1] % 0x80;
    let mut header_base: usize = 2;
    let mut payload_len: u64 = len_code as u64;
    if len_code == 126 {
        if buf.len() < 4 {
            return None;
        }
        payload_len = read_be16(buf, 2) as u64;
        header_base = 4;
    } else if len_code == 127 {
        if buf.len() < 10 {
            return None;
        }
        payload_len = read_be64(buf, 2);
        header_base = 10;
    }
    let mask_len: usize = if has_mask { 4 } else { 0 };
    let total_header: usize = header_base + mask_len;
    if buf.len() < total_header || ((buf.len() - total_header) as u64) < payload_len {
        return None;
    }
    let end: usize = total_header + payload_len as usize;
    if has_mask {
        let key: [u8; 4] = [
            buf[header_base],
            buf[header_base + 1],
            buf[header_base + 2],
            buf[header_base + 3],
        ];
        assert(key@ =~= buf@.subrange(header_base as int, total_header as int));
        let payload = ws_apply_mask(slice_subrange(buf, total_header, end), &key, 0);
        Some((end, payload))
    } else {
        Some((end, copy_range(buf, total_header, end)))
    }
}

/// A frame decodes to the payload it was made from, whatever follows it.
pub proof fn ws_frame_round_trip(payload: Seq<u8>, mask: Option<Seq<u8>>, rest: Seq<u8>)
    requires
        payload.len() <= u64::MAX,
        mask is Some ==> mask->0.len() == 4,
    ensures
        ws_first_frame(ws_frame(payload, mask) + rest) == Some(
            (ws_frame(payload, mask).len() as int, payload),
        ),
{
    let n = payload.len() as int;
    let frame = ws_frame(payload, mask);
    let buf = frame + rest;
    lemma_ws_header(n, mask, buf.subrange(ws_header(n, mask).len() as int, buf.len() as int));
    assert(ws_header(n, mask) + buf.subrange(ws_header(n, mask).len() as int, buf.len() as int)
        =~= buf);
    let start = ws_header_len(buf);
    if let Some(key) = mask {
        assert(buf.subrange(ws_length_end(buf), start) =~= key);
        assert(buf.subrange(start, start + n) =~= ws_masked(payload, key, 0));
        ws_mask_is_involution(payload, key, 0);
    } else {
        assert(buf.subrange(start, start + n) =~= payload);
    }
}

/// What a header says is what it was made from.
pub proof fn lemma_ws_header(len: int, mask: Option<Seq<u8>>, rest: Seq<u8>)
    requires
        0 <= len <= u64::MAX,
        mask is Some ==> mask->0.len() == 4,
    ensures
        ({
            let buf = ws_header(len, mask) + rest;
            &&& ws_has_mask(buf) == (mask is Some)
            &&& ws_payload_len(buf) == len
            &&& ws_header_len(buf) == ws_header(len, mask).len()
            &&& ws_length_end(buf) == 1 + ws_length_field(len, mask is Some).len()
        }),
{
    let buf = ws_header(len, mask) + rest;
    wire::wire_integers_round_trip(len);
    if 125 < len <= 65535 {
        assert(buf.subrange(2, 4) =~= wire::be16(len));
    } else if len > 65535 {
        assert(buf.subrange(2, 10) =~= wire::be64(len));
    }
}

/// Bytes that a frame adds to a payload: opcode, length field and mask.
pub fn ws_frame_overhead(payload_len: usize, is_client: bool) -> (r: usize)
    ensures
        forall|mask: Option<Seq<u8>>|
            (mask is Some) == is_client && (mask is Some ==> mask->0.len() == 4) ==> r
                == (#[trigger] ws_header(payload_len as int, mask)).len(),
        r == ws_overhead(payload_len as int, is_client),
{
    let len_bytes: usize = if payload_len <= 125 {
        1
    } else if payload_len <= 65535 {
        3
    } else {
        9
    };
    let mask_bytes: usize = if is_client { 4 } else { 0 };
    1 + len_bytes + mask_bytes
}

/// The number of bytes in a frame's header.
pub open spec fn ws_overhead(len: int, is_client: bool) -> int {
    1 + ws_length_field(len, is_client).len() + if is_client { 4int } else { 0 }
}

// --- HTTP upgrade ---

/// Appended to a key before it is hashed.
pub const WS_MAGIC: &'static str = "258EAFA5-E914-47DA-95CA-5AB5DC30CE87";

/// The SHA-1 digest of `data`.
pub uninterp spec fn sha1_digest(data: Seq<u8>) -> Seq<u8>;

/// Trusted: `Sha1::digest` is a function of the bytes it is given, and its digests are
/// 20 bytes long.
#[verifier::external_body]
fn sha1_of(data: &[u8]) -> (r: Vec<u8>)
    ensures
        r@ == sha1_digest(data@),
        r@.len() == 20,
{
    sha1::Sha1::digest(data).to_vec()
}

/// The standard Base64 text, padded, of `data`.
pub uninterp spec fn base64_text(data: Seq<u8>) -> Seq<char>;

/// A character that stands in Base64: of its standard alphabet, or the padding.
pub open spec fn is_base64_char(c: char) -> bool {
    ('A' <= c <= 'Z') || ('a' <= c <= 'z') || ('0' <= c <= '9') || c == '+' || c == '/' || c == '='
}

/// Trusted: `encode` of Base64's standard engine is a function of the bytes it is given.
/// Its texts hold four characters for every three bytes or part of them, out of the
/// standard alphabet and the padding. It panics only where the size of the text overflows.
#[verifier::external_body]
fn base64_of(data: &[u8]) -> (r: String)
    requires
        data@.len() <= 0xffff,
    ensures
        r@ == base64_text(data@),
        r@.len() == (data@.len() + 2) / 3 * 4,
        forall|i: int| 0 <= i < r@.len() ==> is_base64_char(#[trigger] r@[i]),
{
    base64::prelude::BASE64_STANDARD.encode(data)
}

/// The `Sec-WebSocket-Accept` value that answers a key.
pub open spec fn ws_accept_text(key: Seq<u8>) -> Seq<char> {
    base64_text(sha1_digest(key + WS_MAGIC.spec_bytes()))
}

/// The `Sec-WebSocket-Accept` value that answers `key`.
pub fn compute_ws_accept(key: &str) -> (r: String)
    ensures
        r@ == ws_accept_text(key.spec_bytes()),
{
    let mut data: Vec<u8> = Vec::new();
    append(&mut data, key.as_bytes());
    append(&mut data, WS_MAGIC.as_bytes());
    assert(data@ =~= key.spec_bytes() + WS_MAGIC.spec_bytes());
    base64_of(&sha1_of(&data))
}

/// The end of a line.
pub open spec fn crlf() -> Seq<char> {
    "\r\n"@
}

/// The text of the WebSocket upgrade request.
pub open spec fn http_request_text(host: Seq<char>, ws_key: Seq<char>) -> Seq<char> {
    "GET / HTTP/1.1"@ + crlf() + ("Host: "@ + host) + crlf() + "Connection: Upgrade"@ + crlf()
        + "Pragma: no-cache"@ + crlf() + "Cache-Control: no-cache"@ + crlf() + user_agent() + crlf()
        + "Upgrade: websocket"@ + crlf() + ("Origin: http://"@ + host) + crlf()
        + "Sec-WebSocket-Version: 13"@ + crlf() + "Accept-Encoding: gzip, deflate"@ + crlf()
        + "Accept-Language: en-US,en;q=0.9,zh-CN;q=0.8,zh;q=0.7"@ + crlf() + (
    "Sec-WebSocket-Key: "@ + ws_key) + crlf()
        + "Sec-WebSocket-Extensions: permessage-deflate; client_max_window_bits"@ + crlf() + crlf()
}

/// The browser that a client pretends to be.
pub open spec fn user_agent() -> Seq<char> {
    "User-Agent: Mozilla/5.0 (Windows NT 10.0; Win64; x64) "@
        + "AppleWebKit/537.36 (KHTML, like Gecko) "@ + "Chrome/137.0.0.0 Safari/537.36"@
}

fn append_line(out: &mut String, line: &str)
    ensures
        final(out)@ == old(out)@ + line@ + crlf(),
{
    out.append(line);
    out.append("\r\n");
}

/// The upgrade request for a host, with the given key.
pub fn build_http_request_with_key(host: &str, ws_key: &str) -> (r: Vec<u8>)
    ensures
        r@ == vstd::utf8::encode_utf8(http_request_text(host@, ws_key@)),
{
    let mut req = String::new();
    append_line(&mut req, "GET / HTTP/1.1");
    req.append("Host: ");
    append_line(&mut req, host);
    append_line(&mut req, "Connection: Upgrade");
    append_line(&mut req, "Pragma: no-cache");
    append_line(&mut req, "Cache-Control: no-cache");
    req.append("User-Agent: Mozilla/5.0 (Windows NT 10.0; Win64; x64) ");
    req.append("AppleWebKit/537.36 (KHTML, like Gecko) ");
    append_line(&mut req, "Chrome/137.0.0.0 Safari/537.36");
    append_line(&mut req, "Upgrade: websocket");
    req.append("Origin: http://");
    append_line(&mut req, host);
    append_line(&mut req, "Sec-WebSocket-Version: 13");
    append_line(&mut req, "Accept-Encoding: gzip, deflate");
    append_line(&mut req, "Accept-Language: en-US,en;q=0.9,zh-CN;q=0.8,zh;q=0.7");
    req.append("Sec-WebSocket-Key: ");
    append_line(&mut req, ws_key);
    append_line(&mut req, "Sec-WebSocket-Extensions: permessage-deflate; client_max_window_bits");
    req.append("\r\n");
    assert(req@ =~= http_request_text(host@, ws_key@));
    slice_to_vec(req.as_str().as_bytes())
}

/// An upgrade request for a host, and the key that it carries: 16 random bytes in Base64.
pub fn build_http_request(host: &str) -> (r: (Vec<u8>, String))
    ensures
        r.0@ == vstd::utf8::encode_utf8(http_request_text(host@, r.1@)),
        exists|key: Seq<u8>| key.len() == 16 && r.1@ == #[trigger] base64_text(key),
        r.1@.len() == 24,
        forall|i: int| 0 <= i < r.1@.len() ==> is_base64_char(#[trigger] r.1@[i]),
{
    let key = random_bytes(16);
    let ws_key = base64_of(&key);
    (build_http_request_with_key(host, &ws_key), ws_key)
}

/// The text of the answer that accepts the upgrade.
pub open spec fn http_response_text(ws_accept: Seq<char>, date: Seq<char>) -> Seq<char> {
    "HTTP/1.1 101 Switching Protocols\r\nUpgrade: websocket\r\nConnection: Upgrade\r\nSec-WebSocket-Accept: "@
        + ws_accept + "\r\nServer: nginx/1.24.0\r\nDate: "@ + date + "\r\n\r\n"@
}

/// The answer that accepts the upgrade, with the given date.
pub fn build_http_response_at(ws_accept: &str, date: &str) -> (r: Vec<u8>)
    ensures
        r@ == vstd::utf8::encode_utf8(http_response_text(ws_accept@, date@)),
{
    let mut out = String::new();
    out.append(
        "HTTP/1.1 101 Switching Protocols\r\nUpgrade: websocket\r\nConnection: Upgrade\r\nSec-WebSocket-Accept: ",
    );
    out.append(ws_accept);
    out.append("\r\nServer: nginx/1.24.0\r\nDate: ");
    out.append(date);
    out.append("\r\n\r\n");
    assert(out@ =~= http_response_text(ws_accept@, date@));
    slice_to_vec(out.as_str().as_bytes())
}

/// How HTTP writes a date: weekday, day, month, year and time, each as chrono names them.
pub const HTTP_DATE_FORMAT: &'static str = "%a, %d %b %Y %H:%M:%S GMT";

/// A text in the shape of an HTTP date: three letters for the weekday, then the other
/// parts on one line, and the time zone.
pub open spec fn is_http_date(date: Seq<char>) -> bool {
    &&& date.len() >= 29
    &&& date[3] == ','
    &&& date[4] == ' '
    &&& date.skip(date.len() - 4) == seq![' ', 'G', 'M', 'T']
    &&& forall|i: int| 0 <= i < date.len() ==> #[trigger] date[i] != '\r' && date[i] != '\n'
}

/// The current date, written as `format` says.
///
/// Trusted: `chrono::DateTime::format` writes a weekday as three letters, a month as three
/// letters, a year with at least four digits, every other part with two, and whatever else
/// stands in the format as it is; none of it breaks a line. Which date it is depends on the
/// clock. `chrono::Utc::now` panics where the system clock stands before 1970.
#[verifier::external_body]
fn http_date(format: &str) -> (r: String)
    requires
        format@ == HTTP_DATE_FORMAT@,
    ensures
        is_http_date(r@),
{
    chrono::Utc::now().format(format).to_string()
}

/// The answer that accepts the upgrade, dated now.
pub fn build_http_response(ws_accept: &str) -> (r: Vec<u8>)
    ensures
        exists|date: Seq<char>|
            is_http_date(date) && r@ == vstd::utf8::encode_utf8(
                #[trigger] http_response_text(ws_accept@, date),
            ),
{
    let date = http_date(HTTP_DATE_FORMAT);
    build_http_response_at(ws_accept, &date)
}

/// Where the line that starts at `from` ends: at the next CR LF, or at the end.
pub open spec fn line_end(text: Seq<char>, from: int) -> int
    decreases text.len() - from,
{
    if from + 1 >= text.len() {
        text.len() as int
    } else if text[from] == '\r' && text[from + 1] == '\n' {
        from
    } else {
        line_end(text, from + 1)
    }
}

/// Where the first colon at or after `from` stands, or `to` if none comes before it.
pub open spec fn colon_before(text: Seq<char>, from: int, to: int) -> int
    decreases to - from,
{
    if from >= to || text[from] == ':' {
        from
    } else {
        colon_before(text, from + 1, to)
    }
}

/// The trimmed value of the first line, from `from` on, that is named Sec-WebSocket-Key
/// in any case.
pub open spec fn ws_key_in(text: Seq<char>, from: int) -> Option<Seq<char>>
    decreases text.len() + 2 - from,
{
    if from > text.len() {
        None
    } else {
        let end = line_end(text, from);
        let colon = colon_before(text, from, end);
        if colon < end && text::same_ignoring_case(
            text.subrange(from, colon),
            "Sec-WebSocket-Key"@,
        ) {
            Some(text::trimmed(text.subrange(colon + 1, end)))
        } else if from <= end && end < text.len() {
            ws_key_in(text, end + 2)
        } else {
            None
        }
    }
}

/// The value of the Sec-WebSocket-Key header, if the headers are UTF-8 and hold one.
pub open spec fn ws_key_of(headers: Seq<u8>) -> Option<Seq<char>> {
    if vstd::utf8::valid_utf8(headers) {
        ws_key_in(vstd::utf8::decode_utf8(headers), 0)
    } else {
        None
    }
}

fn find_line_end(chars: &Vec<char>, from: usize) -> (r: usize)
    requires
        from <= chars@.len(),
    ensures
        from <= r <= chars@.len(),
        r == line_end(chars@, from as int),
        r < chars@.len() ==> r + 2 <= chars@.len(),
{
    let n: usize = chars.len();
    let mut i: usize = from;
    while n - i >= 2
        invariant
            n == chars@.len(),
            from <= i <= n,
            line_end(chars@, i as int) == line_end(chars@, from as int),
        decreases n - i,
    {
        if chars[i] == '\r' && chars[i + 1] == '\n' {
            return i;
        }
        i += 1;
    }
    n
}

/// The key that an upgrade request carries.
pub fn extract_ws_key(headers: &[u8]) -> (r: Option<&str>)
    ensures
        match r {
            Some(key) => ws_key_of(headers@) == Some(key@),
            None => ws_key_of(headers@) is None,
        },
{
    let text = match text_of(headers) {
        Some(t) => t,
        None => return None,
    };
    proof {
        vstd::utf8::encode_utf8_valid_utf8(text@);
        vstd::utf8::encode_utf8_decode_utf8(text@);
    }
    let chars = chars_of(text);
    let n: usize = chars.len();
    let mut from: usize = 0;
    loop
        invariant
            chars@ == text@,
            n == chars@.len(),
            from <= n,
            ws_key_of(headers@) == ws_key_in(chars@, from as int),
        decreases n - from,
    {
        let end: usize = find_line_end(&chars, from);
        let mut colon: usize = from;
        while colon < end && chars[colon] != ':'
            invariant
                from <= colon <= end <= chars@.len(),
                colon_before(chars@, colon as int, end as int) == colon_before(
                    chars@,
                    from as int,
                    end as int,
                ),
            decreases end - colon,
        {
            colon += 1;
        }
        if colon < end && range_is_word(&chars, from, colon, "Sec-WebSocket-Key") {
            let (a, b) = trim_bounds(&chars, colon + 1, end);
            return Some(text.substring_char(a, b));
        }
        if end < n {
            from = end + 2;
        } else {
            return None;
        }
    }
}

} // verus!

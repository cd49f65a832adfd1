//! The traffic that the tunnels imitate: TLS records and hellos, WebSocket frames, and the
//! request and answer that begin a WebSocket.

use crate::laws::bytes;
use crate::laws::bytes::{u16_at, u64_at};
use crate::tunnel::disguise_protocol;
use crate::tunnel::disguise_protocol::ClientHelloSeed;
use crate::wire;
use vstd::prelude::*;
use vstd::string::*;

verus! {

// --- TLS ---

/// The number in the three bytes at `at`, most significant first.
pub open spec fn u24_at(b: Seq<u8>, at: int) -> int {
    b[at] * 0x10000 + b[at + 1] * 0x100 + b[at + 2]
}

/// A record is its type, its version, the length of its body in two bytes, and the body.
pub proof fn record_counts_its_body(kind: u8, major: u8, minor: u8, body: Seq<u8>)
    requires
        body.len() < 0x10000,
    ensures
        ({
            let b = disguise_protocol::tls_record(kind, major, minor, body);
            &&& b.len() == 5 + body.len()
            &&& b[0] == kind && b[1] == major && b[2] == minor
            &&& u16_at(b, 3) == body.len()
            &&& b.subrange(5, b.len() as int) == body
        }),
{
    let b = disguise_protocol::tls_record(kind, major, minor, body);
    bytes::lemma_be16(body.len() as int);
    assert(b.subrange(3, 5) =~= wire::be16(body.len() as int));
    bytes::lemma_u16_in(b, 3, wire::be16(body.len() as int));
    assert(b.subrange(5, b.len() as int) =~= body);
}

/// The first record of a buffer is as long as the two bytes behind its version say, and is
/// there once all of it is.
pub proof fn record_is_read_by_its_length(b: Seq<u8>)
    ensures
        b.len() < 5 ==> disguise_protocol::tls_first_record(b) is None,
        b.len() >= 5 ==> {
            let n = u16_at(b, 3);
            disguise_protocol::tls_first_record(b) == if b.len() < 5 + n {
                None
            } else {
                Some((5 + n, b.subrange(5, 5 + n)))
            }
        },
{
    if b.len() >= 5 {
        bytes::lemma_reads(b, 3);
    }
}

/// A handshake message is a record of type 22 that holds the message's type, the length of
/// its body in three bytes, and the body.
pub proof fn handshake_is_counted_twice(hs_type: u8, major: u8, minor: u8, body: Seq<u8>)
    requires
        body.len() + 4 < 0x10000,
    ensures
        ({
            let b = disguise_protocol::tls_record(
                0x16,
                major,
                minor,
                disguise_protocol::handshake_message(hs_type, body),
            );
            &&& b.len() == 9 + body.len()
            &&& b[0] == 22 && b[1] == major && b[2] == minor
            &&& u16_at(b, 3) == b.len() - 5
            &&& b[5] == hs_type
            &&& u24_at(b, 6) == b.len() - 9
            &&& b.subrange(9, b.len() as int) == body
        }),
{
    let m = disguise_protocol::handshake_message(hs_type, body);
    let b = disguise_protocol::tls_record(0x16, major, minor, m);
    record_counts_its_body(0x16, major, minor, m);
    assert(m.len() == 4 + body.len());
    assert forall|i: int| 0 <= i < m.len() implies b[5 + i] == m[i] by {
        assert(b.subrange(5, b.len() as int)[i] == b[5 + i]);
    }
    bytes::numbers_are_in_network_order(body.len() as int);
    let n = wire::be24(body.len() as int);
    assert(b[5 + 0int] == m[0] && m[0] == hs_type);
    assert(b[5 + 1int] == m[1] && b[5 + 2int] == m[2] && b[5 + 3int] == m[3]);
    assert(m[1] == n[0] && m[2] == n[1] && m[3] == n[2]);
    assert(b.subrange(9, b.len() as int) =~= body) by {
        assert forall|i: int| 0 <= i < body.len() implies b[9 + i] == body[i] by {
            assert(b[5 + (4 + i)] == m[4 + i]);
        }
    }
}

/// Both bytes of the `i`-th reserved value that browsers send to keep servers tolerant.
pub open spec fn grease(i: int) -> u8 {
    (10 + 16 * (i % 16)) as u8
}

/// The extensions of a ClientHello up to the name of the host.
pub open spec fn hello_extensions_before_host(seed: ClientHelloSeed, host_len: int) -> Seq<u8> {
    let g = grease(seed.grease as int);
    seq![g, g, 0, 0, 0, 0] + wire::be16(host_len + 5) + wire::be16(host_len + 3) + seq![0u8]
        + wire::be16(host_len)
}

/// Those behind the name of the host, up to the keys.
pub open spec fn hello_extensions_before_keys(seed: ClientHelloSeed) -> Seq<u8> {
    let g = grease(seed.grease as int);
    // extended_master_secret, renegotiation_info, supported_groups, ec_point_formats,
    // session_ticket, status_request
    seq![
        0, 0x17, 0, 0,
        0xff, 0x01, 0, 1, 0,
        0, 0x0a, 0, 12, 0, 10, g, g, 0, 0x1d, 0, 0x17, 0, 0x18, 0, 0x19,
        0, 0x0b, 0, 2, 1, 0,
        0, 0x23, 0, 0,
        0, 0x05, 0, 5, 1, 0, 0, 0, 0,
    ]
    // signature_algorithms, signed_certificate_timestamp, protocol names, certificate
    // compression, application_settings
     + seq![
        0, 0x0d, 0, 18, 0, 16, 4, 3, 8, 4, 4, 1, 5, 3, 8, 5, 5, 1, 8, 6, 6, 1,
        0, 0x12, 0, 0,
        0, 0x10, 0, 14, 0, 12, 2, 0x68, 0x32, 8, 0x68, 0x74, 0x74, 0x70, 0x2f, 0x31, 0x2e, 0x31,
        0, 0x1b, 0, 3, 2, 0, 2,
        0x44, 0x69, 0, 5, 0, 3, 2, 0x68, 0x32,
    ]
    // supported_versions
     + seq![0, 0x2b, 0, 7, 6, g, g, 3, 4, 3, 3]
}

/// The key shares, and what follows them.
pub open spec fn hello_extensions_from_keys(seed: ClientHelloSeed) -> Seq<u8> {
    let h = grease(seed.grease + 1);
    seq![0, 0x33, 0, 43, 0, 41, h, h, 0, 1, seed.grease_key, 0, 0x1d, 0, 32] + seed.pubkey@
        + seq![0, 0x2d, 0, 2, 1, 1] + seq![h, h, 0, 1, 0]
}

#[verifier::spinoff_prover]
proof fn lemma_grease(i: int)
    requires
        i >= 0,
    ensures
        wire::be16(disguise_protocol::grease_value(i)) == seq![grease(i), grease(i)],
{
    let k = i % 16;
    let v = 0x0a0a + 0x1010 * k;
    assert(v == (10 + 16 * k) * 257);
    assert(v / 256 % 256 == 10 + 16 * k && v % 256 == 10 + 16 * k);
    assert(wire::be16(v) =~= seq![grease(i), grease(i)]);
}

#[verifier::spinoff_prover]
proof fn lemma_extensions_first(host: Seq<u8>, seed: ClientHelloSeed)
    requires
        host.len() < 0x8000,
    ensures
        ({
            let g = grease(seed.grease as int);
            disguise_protocol::client_extensions_first(
                host,
                disguise_protocol::grease_value(seed.grease as int),
            ) == hello_extensions_before_host(seed, host.len() as int) + host
                + hello_extensions_before_keys(seed).subrange(0, 44)
        }),
{
    reveal(disguise_protocol::client_extensions_first);
    lemma_grease(seed.grease as int);
    let x = disguise_protocol::client_extensions_first(
        host,
        disguise_protocol::grease_value(seed.grease as int),
    );
    let y = hello_extensions_before_host(seed, host.len() as int) + host
        + hello_extensions_before_keys(seed).subrange(0, 44);
    assert(x.len() == y.len());
    assert(x =~= y);
}

#[verifier::spinoff_prover]
proof fn lemma_extensions_middle(seed: ClientHelloSeed)
    ensures
        disguise_protocol::client_extensions_middle() == hello_extensions_before_keys(
            seed,
        ).subrange(44, 104),
{
    reveal(disguise_protocol::client_extensions_middle);
    let x = disguise_protocol::client_extensions_middle();
    let y = hello_extensions_before_keys(seed).subrange(44, 104);
    assert(x.len() == y.len());
    assert(x =~= y);
}

#[verifier::spinoff_prover]
proof fn lemma_extensions_last(seed: ClientHelloSeed)
    ensures
        disguise_protocol::client_extensions_last(
            disguise_protocol::grease_value(seed.grease as int),
            disguise_protocol::grease_value(seed.grease + 1),
            seed.grease_key,
            seed.pubkey@,
        ) == hello_extensions_before_keys(seed).subrange(104, 115) + hello_extensions_from_keys(
            seed,
        ),
{
    reveal(disguise_protocol::client_extensions_last);
    lemma_grease(seed.grease as int);
    lemma_grease(seed.grease + 1);
    let x = disguise_protocol::client_extensions_last(
        disguise_protocol::grease_value(seed.grease as int),
        disguise_protocol::grease_value(seed.grease + 1),
        seed.grease_key,
        seed.pubkey@,
    );
    let y = hello_extensions_before_keys(seed).subrange(104, 115) + hello_extensions_from_keys(
        seed,
    );
    assert(x.len() == y.len());
    assert(x =~= y);
}

/// The extensions of a ClientHello, byte by byte: they name the host, and hold the seed's
/// keys and reserved values at their places.
pub proof fn hello_names_the_host(host: Seq<u8>, seed: ClientHelloSeed)
    requires
        host.len() < 0x8000,
    ensures
        disguise_protocol::client_extensions(host, seed) == hello_extensions_before_host(
            seed,
            host.len() as int,
        ) + host + hello_extensions_before_keys(seed) + hello_extensions_from_keys(seed),
{
    reveal(disguise_protocol::client_extensions);
    lemma_extensions_first(host, seed);
    lemma_extensions_middle(seed);
    lemma_extensions_last(seed);
    let k = hello_extensions_before_keys(seed);
    assert(k.len() == 115);
    assert(k =~= k.subrange(0, 44) + k.subrange(44, 104) + k.subrange(104, 115));
    assert(disguise_protocol::client_extensions(host, seed) =~= hello_extensions_before_host(
        seed,
        host.len() as int,
    ) + host + k + hello_extensions_from_keys(seed));
}

/// What stands before the extensions of a ClientHello: TLS 1.2, the random bytes, the
/// session id, a reserved and seven real cipher suites, and no compression.
#[verifier::spinoff_prover]
pub proof fn hello_offers_its_suites(seed: ClientHelloSeed)
    ensures
        ({
            let g = grease(seed.grease as int);
            disguise_protocol::client_hello_head(seed) == seq![3u8, 3] + seed.random@ + seq![32u8]
                + seed.session_id@ + seq![
                0, 16, g, g, 0x13, 1, 0x13, 2, 0x13, 3, 0xc0, 0x2b, 0xc0, 0x2f, 0xc0, 0x2c, 0xc0,
                0x30, 1, 0,
            ]
        }),
{
    reveal(disguise_protocol::client_hello_head);
    lemma_grease(seed.grease as int);
    let g = grease(seed.grease as int);
    let x = disguise_protocol::client_hello_head(seed);
    let y = seq![3u8, 3] + seed.random@ + seq![32u8] + seed.session_id@ + seq![
        0, 16, g, g, 0x13, 1, 0x13, 2, 0x13, 3, 0xc0, 0x2b, 0xc0, 0x2f, 0xc0, 0x2c, 0xc0, 0x30, 1,
        0,
    ];
    assert(x.len() == y.len());
    assert(x =~= y);
}

/// A ClientHello is a handshake record: its head, the length of the extensions, the
/// extensions, and zeros as padding to a body of 512 bytes where that is not reached.
#[verifier::spinoff_prover]
pub proof fn hello_is_filled_up_to_512(host: Seq<u8>, seed: ClientHelloSeed)
    requires
        host.len() < 0x8000,
    ensures
        ({
            let b = disguise_protocol::client_hello(host, seed);
            let head = disguise_protocol::client_hello_head(seed);
            let exts = disguise_protocol::client_extensions(host, seed);
            let used = 98 + exts.len() as int;
            &&& head.len() == 87
            &&& exts.len() == 186 + host.len()
            &&& b[0] == 22 && b[1] == 3 && b[2] == 1 && b[5] == 1
            &&& u16_at(b, 3) == b.len() - 5
            &&& u24_at(b, 6) == b.len() - 9
            &&& b.subrange(9, 96) == head
            &&& u16_at(b, 96) == b.len() - 98
            &&& b.subrange(98, used) == exts
            &&& host.len() >= 237 ==> b.len() == used
            &&& host.len() < 237 ==> {
                &&& b.len() == if host.len() < 233 {
                    521int
                } else {
                    used + 4
                }
                &&& b[used] == 0 && b[used + 1] == 21
                &&& u16_at(b, used + 2) == b.len() - used - 4
                &&& forall|i: int| used + 4 <= i < b.len() ==> #[trigger] b[i] == 0
            }
        }),
{
    let head = disguise_protocol::client_hello_head(seed);
    let exts = disguise_protocol::client_extensions(host, seed);
    hello_names_the_host(host, seed);
    hello_offers_its_suites(seed);
    let pad = disguise_protocol::hello_padding((head.len() + 2 + exts.len()) as int);
    lemma_hello_frame(head, exts, pad);
    lemma_hello_padding((head.len() + 2 + exts.len()) as int);
    let b = disguise_protocol::client_hello(host, seed);
    let used = 98 + exts.len() as int;
    if host.len() < 237 {
        assert forall|i: int| 0 <= i < pad.len() implies b[used + i] == pad[i] by {
            assert(b.subrange(used, b.len() as int)[i] == b[used + i]);
        }
        assert(b[used + 0] == pad[0] && b[used + 1] == pad[1]);
        assert(b[used + 2] == pad[2] && b[used + 3] == pad[3]);
        assert forall|i: int| used + 4 <= i < b.len() implies #[trigger] b[i] == 0 by {
            assert(b[used + (i - used)] == pad[i - used]);
        }
    }
}

#[verifier::spinoff_prover]
proof fn lemma_hello_padding(unpadded: int)
    requires
        0 <= unpadded,
    ensures
        ({
            let p = disguise_protocol::hello_padding(unpadded);
            &&& unpadded >= 512 ==> p.len() == 0
            &&& unpadded < 512 ==> {
                &&& p.len() == if unpadded < 508 {
                    512 - unpadded
                } else {
                    4
                }
                &&& p[0] == 0 && p[1] == 21
                &&& u16_at(p, 2) == p.len() - 4
                &&& forall|i: int| 4 <= i < p.len() ==> #[trigger] p[i] == 0
            }
        }),
{
    let p = disguise_protocol::hello_padding(unpadded);
    if unpadded < 512 {
        let n = if unpadded < 508 {
            508 - unpadded
        } else {
            0
        };
        bytes::lemma_be16(n);
        assert(p.subrange(2, 4) =~= wire::be16(n));
        bytes::lemma_u16_in(p, 2, wire::be16(n));
    }
}

#[verifier::spinoff_prover]
proof fn lemma_hello_frame(head: Seq<u8>, exts: Seq<u8>, pad: Seq<u8>)
    requires
        head.len() == 87,
        exts.len() < 0x9000,
        pad.len() < 0x1000,
    ensures
        ({
            let body = head + disguise_protocol::vec16(exts + pad);
            let b = disguise_protocol::tls_record(
                0x16,
                3,
                1,
                disguise_protocol::handshake_message(0x01, body),
            );
            &&& b.len() == 98 + exts.len() + pad.len()
            &&& b[0] == 22 && b[1] == 3 && b[2] == 1 && b[5] == 1
            &&& u16_at(b, 3) == b.len() - 5
            &&& u24_at(b, 6) == b.len() - 9
            &&& b.subrange(9, 96) == head
            &&& u16_at(b, 96) == b.len() - 98
            &&& b.subrange(98, 98 + exts.len() as int) == exts
            &&& b.subrange(98 + exts.len() as int, b.len() as int) == pad
        }),
{
    let all = exts + pad;
    let body = head + disguise_protocol::vec16(all);
    handshake_is_counted_twice(0x01, 3, 1, body);
    let b = disguise_protocol::tls_record(
        0x16,
        3,
        1,
        disguise_protocol::handshake_message(0x01, body),
    );
    assert(b.subrange(9, b.len() as int) == body);
    bytes::lemma_be16(all.len() as int);
    assert(body.subrange(87, 89) =~= wire::be16(all.len() as int));
    assert(b.subrange(96, 98) =~= b.subrange(9, b.len() as int).subrange(87, 89));
    bytes::lemma_u16_in(b, 96, wire::be16(all.len() as int));
    assert(b.subrange(9, 96) =~= b.subrange(9, b.len() as int).subrange(0, 87));
    assert(body.subrange(0, 87) =~= head);
    let e = exts.len() as int;
    assert(b.subrange(98, 98 + e) =~= b.subrange(9, b.len() as int).subrange(89, 89 + e));
    assert(body.subrange(89, 89 + e) =~= exts);
    assert(b.subrange(98 + e, b.len() as int) =~= b.subrange(9, b.len() as int).subrange(
        89 + e,
        body.len() as int,
    ));
    assert(body.subrange(89 + e, body.len() as int) =~= pad);
}

/// A ServerHello answers with the session id that it is given, one cipher suite, TLS 1.3
/// and a key.
#[verifier::spinoff_prover]
pub proof fn server_hello_echoes_the_session(random: Seq<u8>, sid: Seq<u8>, pubkey: Seq<u8>)
    requires
        random.len() == 32,
        sid.len() <= 255,
        pubkey.len() == 32,
    ensures
        ({
            let b = disguise_protocol::server_hello(random, sid, pubkey);
            &&& b[0] == 22 && b[1] == 3 && b[2] == 3 && b[5] == 2
            &&& u16_at(b, 3) == b.len() - 5
            &&& u24_at(b, 6) == b.len() - 9
            &&& b.subrange(9, b.len() as int) == seq![3u8, 3] + random + seq![sid.len() as u8] + sid
                + seq![
                0x13, 1, 0, 0, 46, 0, 0x2b, 0, 2, 3, 4, 0, 0x33, 0, 36, 0, 0x1d, 0, 32,
            ] + pubkey
        }),
{
    let body = disguise_protocol::server_hello_body(random, sid, pubkey);
    let y = seq![3u8, 3] + random + seq![sid.len() as u8] + sid + seq![
        0x13, 1, 0, 0, 46, 0, 0x2b, 0, 2, 3, 4, 0, 0x33, 0, 36, 0, 0x1d, 0, 32,
    ] + pubkey;
    assert(body.len() == y.len());
    assert(body =~= y);
    handshake_is_counted_twice(0x02, 3, 3, body);
}

/// Behind the hellos each side sends a change of ciphers and opaque records: the server two,
/// the client one.
pub proof fn flights_are_records(first: Seq<u8>, second: Seq<u8>)
    ensures
        disguise_protocol::change_cipher_spec() == seq![0x14u8, 3, 3, 0, 1, 1],
        disguise_protocol::server_encrypted_flight(first, second) == seq![0x14u8, 3, 3, 0, 1, 1]
            + disguise_protocol::tls_record(23, 3, 3, first) + disguise_protocol::tls_record(
            23,
            3,
            3,
            second,
        ),
        disguise_protocol::client_finished_flight(first) == seq![0x14u8, 3, 3, 0, 1, 1]
            + disguise_protocol::tls_record(23, 3, 3, first),
{
    assert(disguise_protocol::change_cipher_spec() =~= seq![0x14u8, 3, 3, 0, 1, 1]);
}

// --- WebSocket ---

/// A frame is a final binary one. It counts its payload in seven bits, in two bytes or in
/// eight, whichever suffices; with a mask it says so, carries the mask, and the payload is
/// mixed with it.
#[verifier::spinoff_prover]
pub proof fn frame_counts_and_masks_its_payload(payload: Seq<u8>, mask: Option<Seq<u8>>)
    requires
        payload.len() <= u64::MAX,
        mask matches Some(key) ==> key.len() == 4,
    ensures
        ({
            let b = disguise_protocol::ws_frame(payload, mask);
            let n = payload.len() as int;
            let bit = if mask is Some {
                128int
            } else {
                0
            };
            let after = if n < 126 {
                2int
            } else if n < 65536 {
                4
            } else {
                10
            };
            let start = after + if mask is Some {
                4int
            } else {
                0
            };
            &&& b.len() == start + n
            &&& b[0] == 0x82
            &&& n < 126 ==> b[1] == bit + n
            &&& 126 <= n < 65536 ==> b[1] == bit + 126 && u16_at(b, 2) == n
            &&& n >= 65536 ==> b[1] == bit + 127 && u64_at(b, 2) == n
            &&& mask matches Some(key) ==> {
                &&& b.subrange(after, after + 4) == key
                &&& forall|i: int| 0 <= i < n ==> #[trigger] b[start + i] == payload[i] ^ key[i % 4]
            }
            &&& mask is None ==> b.subrange(start, start + n) == payload
        }),
{
    let b = disguise_protocol::ws_frame(payload, mask);
    let n = payload.len() as int;
    if 126 <= n < 65536 {
        bytes::lemma_be16(n);
        assert(b.subrange(2, 4) =~= wire::be16(n));
        bytes::lemma_u16_in(b, 2, wire::be16(n));
    } else if n >= 65536 {
        bytes::lemma_be64(n);
        assert(b.subrange(2, 10) =~= wire::be64(n));
        bytes::lemma_u64_in(b, 2, wire::be64(n));
    }
    let h = disguise_protocol::ws_header(n, mask);
    let start = h.len() as int;
    if let Some(key) = mask {
        assert(b.subrange(start - 4, start) =~= key);
        let body = disguise_protocol::ws_masked(payload, key, 0);
        assert forall|i: int| 0 <= i < n implies #[trigger] b[start + i] == payload[i] ^ key[i
            % 4] by {
            assert(b[start + i] == body[i]);
        }
    } else {
        assert(b.subrange(start, start + n) =~= payload);
    }
}

/// The first frame of a buffer: as long as its second byte and what follows it say, there
/// once all of it is, and freed from its mask. What the first byte says does not matter.
#[verifier::spinoff_prover]
pub proof fn frame_is_read_by_its_length(b: Seq<u8>)
    ensures
        b.len() < 2 ==> disguise_protocol::ws_first_frame(b) is None,
        b.len() >= 2 ==> {
            let code = b[1] as int % 128;
            let masked = b[1] >= 128;
            let after = if code < 126 {
                2int
            } else if code == 126 {
                4
            } else {
                10
            };
            let n = if code < 126 {
                code
            } else if code == 126 {
                u16_at(b, 2)
            } else {
                u64_at(b, 2)
            };
            let start = after + if masked {
                4int
            } else {
                0
            };
            let r = disguise_protocol::ws_first_frame(b);
            &&& b.len() < after || b.len() < start + n ==> r is None
            &&& b.len() >= after && b.len() >= start + n ==> {
                &&& r matches Some((used, data)) && used == start + n && data.len() == n
                &&& !masked ==> (r->0).1 == b.subrange(start, start + n)
                &&& masked ==> forall|i: int|
                    0 <= i < n ==> #[trigger] (r->0).1[i] == b[start + i] ^ b[after + i % 4]
            }
        },
{
    if b.len() >= 2 {
        bytes::lemma_reads(b, 2);
    }
}

/// What a frame adds to its payload.
pub proof fn frame_header_is_short(len: int, is_client: bool)
    requires
        0 <= len <= u64::MAX,
    ensures
        disguise_protocol::ws_overhead(len, is_client) == (if len < 126 {
            2int
        } else if len < 65536 {
            4
        } else {
            10
        }) + if is_client {
            4int
        } else {
            0
        },
{
}

// --- HTTP ---

/// The answer to a key is the digest of the key and a fixed text, in Base64.
pub proof fn key_is_answered_by_its_digest(key: Seq<u8>)
    ensures
        disguise_protocol::ws_accept_text(key) == disguise_protocol::base64_text(
            disguise_protocol::sha1_digest(
                key + "258EAFA5-E914-47DA-95CA-5AB5DC30CE87".spec_bytes(),
            ),
        ),
{
}

/// The request that asks for a WebSocket, line by line.
pub proof fn request_asks_for_a_websocket(host: Seq<char>, key: Seq<char>)
    ensures
        disguise_protocol::http_request_text(host, key) == "GET / HTTP/1.1\r\nHost: "@ + host
            + "\r\nConnection: Upgrade\r\nPragma: no-cache\r\nCache-Control: no-cache\r\n"@
            + "User-Agent: Mozilla/5.0 (Windows NT 10.0; Win64; x64) "@
            + "AppleWebKit/537.36 (KHTML, like Gecko) Chrome/137.0.0.0 Safari/537.36\r\n"@
            + "Upgrade: websocket\r\nOrigin: http://"@ + host
            + "\r\nSec-WebSocket-Version: 13\r\nAccept-Encoding: gzip, deflate\r\n"@
            + "Accept-Language: en-US,en;q=0.9,zh-CN;q=0.8,zh;q=0.7\r\nSec-WebSocket-Key: "@ + key
            + "\r\nSec-WebSocket-Extensions: permessage-deflate; client_max_window_bits\r\n\r\n"@,
{
    reveal_strlit("GET / HTTP/1.1\r\nHost: ");
    reveal_strlit("\r\nConnection: Upgrade\r\nPragma: no-cache\r\nCache-Control: no-cache\r\n");
    reveal_strlit("User-Agent: Mozilla/5.0 (Windows NT 10.0; Win64; x64) ");
    reveal_strlit("AppleWebKit/537.36 (KHTML, like Gecko) Chrome/137.0.0.0 Safari/537.36\r\n");
    reveal_strlit("Upgrade: websocket\r\nOrigin: http://");
    reveal_strlit("\r\nSec-WebSocket-Version: 13\r\nAccept-Encoding: gzip, deflate\r\n");
    reveal_strlit(
        "Accept-Language: en-US,en;q=0.9,zh-CN;q=0.8,zh;q=0.7\r\nSec-WebSocket-Key: ",
    );
    reveal_strlit(
        "\r\nSec-WebSocket-Extensions: permessage-deflate; client_max_window_bits\r\n\r\n",
    );
    reveal_strlit("GET / HTTP/1.1");
    reveal_strlit("\r\n");
    reveal_strlit("Host: ");
    reveal_strlit("Connection: Upgrade");
    reveal_strlit("Pragma: no-cache");
    reveal_strlit("Cache-Control: no-cache");
    reveal_strlit("AppleWebKit/537.36 (KHTML, like Gecko) ");
    reveal_strlit("Chrome/137.0.0.0 Safari/537.36");
    reveal_strlit("Upgrade: websocket");
    reveal_strlit("Origin: http://");
    reveal_strlit("Sec-WebSocket-Version: 13");
    reveal_strlit("Accept-Encoding: gzip, deflate");
    reveal_strlit("Accept-Language: en-US,en;q=0.9,zh-CN;q=0.8,zh;q=0.7");
    reveal_strlit("Sec-WebSocket-Key: ");
    reveal_strlit("Sec-WebSocket-Extensions: permessage-deflate; client_max_window_bits");
    assert(disguise_protocol::http_request_text(host, key) =~= "GET / HTTP/1.1\r\nHost: "@ + host
        + "\r\nConnection: Upgrade\r\nPragma: no-cache\r\nCache-Control: no-cache\r\n"@
        + "User-Agent: Mozilla/5.0 (Windows NT 10.0; Win64; x64) "@
        + "AppleWebKit/537.36 (KHTML, like Gecko) Chrome/137.0.0.0 Safari/537.36\r\n"@
        + "Upgrade: websocket\r\nOrigin: http://"@ + host
        + "\r\nSec-WebSocket-Version: 13\r\nAccept-Encoding: gzip, deflate\r\n"@
        + "Accept-Language: en-US,en;q=0.9,zh-CN;q=0.8,zh;q=0.7\r\nSec-WebSocket-Key: "@ + key
        + "\r\nSec-WebSocket-Extensions: permessage-deflate; client_max_window_bits\r\n\r\n"@);
}

/// The answer that accepts a WebSocket carries the digest and the date.
pub proof fn answer_accepts_the_websocket(accept: Seq<char>, date: Seq<char>)
    ensures
        disguise_protocol::http_response_text(accept, date)
            == "HTTP/1.1 101 Switching Protocols\r\nUpgrade: websocket\r\nConnection: Upgrade\r\nSec-WebSocket-Accept: "@
            + accept + "\r\nServer: nginx/1.24.0\r\nDate: "@ + date + "\r\n\r\n"@,
{
}

// --- Calls ---

/// What is encoded as a record is decoded from it, and the record is used up.
pub proof fn record_is_decoded_as_encoded(
    payload: &[u8],
    buf: &[u8],
    record: Vec<u8>,
    r: Option<(usize, &[u8])>,
)
    requires
        call_ensures(disguise_protocol::encode_tls_record, (payload,), record),
        call_ensures(disguise_protocol::decode_tls_record, (buf,), r),
    ensures
        payload@.len() < 0x10000 ==> {
            &&& record@.len() == 5 + payload@.len()
            &&& record@[0] == 23 && record@[1] == 3 && record@[2] == 3
            &&& u16_at(record@, 3) == payload@.len()
            &&& record@.subrange(5, record@.len() as int) == payload@
        },
        r is Some == (buf@.len() >= 5 && buf@.len() >= 5 + u16_at(buf@, 3)),
        r matches Some((used, data)) ==> used == 5 + u16_at(buf@, 3) && data@ == buf@.subrange(
            5,
            used as int,
        ),
        payload@.len() < 0x10000 && buf@ == record@ ==> (r matches Some((used, data)) && used
            == record@.len() && data@ == payload@),
{
    if payload@.len() < 0x10000 {
        record_counts_its_body(23, 3, 3, payload@);
    }
    record_is_read_by_its_length(buf@);
}

/// A handshake message is counted by itself and by its record.
pub proof fn handshake_is_wrapped(hs_type: u8, body: &[u8], version: [u8; 2], r: Vec<u8>)
    requires
        call_ensures(disguise_protocol::wrap_tls_handshake, (hs_type, body, version), r),
        body@.len() + 4 < 0x10000,
    ensures
        r@.len() == 9 + body@.len(),
        r@[0] == 22 && r@[1] == version@[0] && r@[2] == version@[1],
        u16_at(r@, 3) == body@.len() + 4,
        r@[5] == hs_type,
        u24_at(r@, 6) == body@.len(),
        r@.subrange(9, r@.len() as int) == body@,
{
    handshake_is_counted_twice(hs_type, version@[0], version@[1], body@);
}

/// A client's hello that is built is a handshake record of at least 521 bytes, of exactly so
/// many where the host is not long, and is counted by its record, by its message and by its
/// extensions.
pub proof fn built_hello_is_a_record(host: &str, r: Vec<u8>)
    requires
        call_ensures(disguise_protocol::build_tls_client_hello, (host,), r),
        host.spec_bytes().len() < 0x8000,
    ensures
        r@[0] == 22 && r@[1] == 3 && r@[2] == 1 && r@[5] == 1,
        u16_at(r@, 3) == r@.len() - 5,
        u24_at(r@, 6) == r@.len() - 9,
        u16_at(r@, 96) == r@.len() - 98,
        r@.len() >= 521,
        host.spec_bytes().len() < 233 ==> r@.len() == 521,
{
    let seed = choose|seed: ClientHelloSeed|
        r@ == #[trigger] disguise_protocol::client_hello(host.spec_bytes(), seed);
    hello_is_filled_up_to_512(host.spec_bytes(), seed);
}

/// A server's hello repeats the session id it is given, or has one of 32 bytes.
pub proof fn built_server_hello_repeats_the_session(id: Option<&[u8]>, r: Vec<u8>)
    requires
        call_ensures(disguise_protocol::build_tls_server_hello, (id,), r),
    ensures
        exists|random: Seq<u8>, sid: Seq<u8>, pubkey: Seq<u8>|
            random.len() == 32 && pubkey.len() == 32 && (id matches Some(s) ==> sid == s@) && (
            id is None ==> sid.len() == 32) && r@ == #[trigger] disguise_protocol::server_hello(
                random,
                sid,
                pubkey,
            ),
{
}

/// The flights behind the hellos: a change of ciphers and then opaque records, two of a
/// server and one of a client.
pub proof fn built_flights_are_records(server: Vec<u8>, client: Vec<u8>)
    requires
        call_ensures(disguise_protocol::build_fake_server_encrypted_handshake, (), server),
        call_ensures(disguise_protocol::build_fake_client_finished, (), client),
    ensures
        server@.subrange(0, 6) == seq![0x14u8, 3, 3, 0, 1, 1],
        server@[6] == 23 && 200 <= u16_at(server@, 9) <= 399,
        ({
            let at = 11 + u16_at(server@, 9);
            &&& server@[at] == 23 && 100 <= u16_at(server@, at + 3) <= 199
            &&& server@.len() == at + 5 + u16_at(server@, at + 3)
        }),
        client@.subrange(0, 6) == seq![0x14u8, 3, 3, 0, 1, 1],
        client@[6] == 23 && 36 <= u16_at(client@, 9) <= 55,
        client@.len() == 11 + u16_at(client@, 9),
{
    let (first, second) = choose|first: Seq<u8>, second: Seq<u8>|
        200 <= first.len() < 400 && 100 <= second.len() < 200 && server@
            == #[trigger] disguise_protocol::server_encrypted_flight(first, second);
    let finished = choose|finished: Seq<u8>|
        36 <= finished.len() < 56 && client@ == #[trigger] disguise_protocol::client_finished_flight(
            finished,
        );
    flights_are_records(first, second);
    flights_are_records(finished, finished);
    record_counts_its_body(23, 3, 3, first);
    record_counts_its_body(23, 3, 3, second);
    record_counts_its_body(23, 3, 3, finished);
    let head = seq![0x14u8, 3, 3, 0, 1, 1];
    let a = disguise_protocol::tls_record(23, 3, 3, first);
    let b = disguise_protocol::tls_record(23, 3, 3, second);
    let c = disguise_protocol::tls_record(23, 3, 3, finished);
    assert(server@ == head + a + b);
    assert(client@ == head + c);
    assert(server@.subrange(0, 6) =~= head);
    assert(client@.subrange(0, 6) =~= head);
    assert(server@[6] == a[0] && server@[9] == a[3] && server@[10] == a[4]);
    assert(client@[6] == c[0] && client@[9] == c[3] && client@[10] == c[4]);
    let at = 6 + a.len() as int;
    assert(server@[at] == b[0] && server@[at + 3] == b[3] && server@[at + 4] == b[4]);
}

/// A frame that is encoded is decoded from its bytes, with or without a mask.
pub proof fn frame_is_decoded_as_encoded(
    payload: &[u8],
    mask: Option<[u8; 4]>,
    buf: &[u8],
    frame: Vec<u8>,
    r: Option<(usize, Vec<u8>)>,
)
    requires
        call_ensures(disguise_protocol::encode_ws_frame_with, (payload, mask), frame),
        call_ensures(disguise_protocol::decode_ws_frame, (buf,), r),
        buf@ == frame@,
        payload@.len() <= u64::MAX,
    ensures
        frame@[0] == 0x82,
        (frame@[1] >= 128) == mask is Some,
        r matches Some((used, data)) && used == frame@.len() && data@ == payload@,
{
    let m = match mask {
        Some(key) => Some(key@),
        None => None,
    };
    frame_counts_and_masks_its_payload(payload@, m);
    disguise_protocol::ws_frame_round_trip(payload@, m, Seq::empty());
    assert(frame@ + Seq::<u8>::empty() =~= frame@);
}

/// What a frame adds is two bytes, four or ten, by the length of its payload, and four more
/// for a client's mask.
pub proof fn frame_adds_its_header(len: usize, is_client: bool, r: usize)
    requires
        call_ensures(disguise_protocol::ws_frame_overhead, (len, is_client), r),
    ensures
        r == (if len < 126 {
            2int
        } else if len < 65536 {
            4
        } else {
            10
        }) + if is_client {
            4int
        } else {
            0
        },
{
    frame_header_is_short(len as int, is_client);
}

/// A mask is mixed in byte by byte, and repeats after four.
pub proof fn mask_is_mixed_in(data: &[u8], key: [u8; 4], phase: usize, r: Vec<u8>)
    requires
        call_ensures(disguise_protocol::ws_apply_mask, (data, &key, phase), r),
        phase < 4,
    ensures
        r@.len() == data@.len(),
        forall|i: int| 0 <= i < data@.len() ==> #[trigger] r@[i] == data@[i] ^ key@[(phase + i) % 4],
{
}

/// A frame that is encoded for one side is masked by a client and not by a server.
pub proof fn client_masks_its_frames(payload: &[u8], is_client: bool, r: Vec<u8>)
    requires
        call_ensures(disguise_protocol::encode_ws_frame, (payload, is_client), r),
        payload@.len() <= u64::MAX,
    ensures
        r@[0] == 0x82,
        (r@[1] >= 128) == is_client,
        disguise_protocol::ws_first_frame(r@) == Some((r@.len() as int, payload@)),
{
    if is_client {
        let key = choose|key: Seq<u8>|
            key.len() == 4 && r@ == #[trigger] disguise_protocol::ws_frame(payload@, Some(key));
        frame_counts_and_masks_its_payload(payload@, Some(key));
        disguise_protocol::ws_frame_round_trip(payload@, Some(key), Seq::empty());
    } else {
        frame_counts_and_masks_its_payload(payload@, None);
        disguise_protocol::ws_frame_round_trip(payload@, None, Seq::empty());
    }
    assert(r@ + Seq::<u8>::empty() =~= r@);
}

/// The request carries its host and its key, the answer its value, and the key of a request
/// is read from its headers.
pub proof fn http_heads_carry_their_values(
    host: &str,
    key: &str,
    request: Vec<u8>,
    any: (Vec<u8>, String),
    accept: String,
    date: &str,
    answer: Vec<u8>,
    headers: &[u8],
    found: Option<&str>,
)
    requires
        call_ensures(disguise_protocol::build_http_request_with_key, (host, key), request),
        call_ensures(disguise_protocol::build_http_request, (host,), any),
        call_ensures(disguise_protocol::compute_ws_accept, (key,), accept),
        call_ensures(disguise_protocol::build_http_response_at, (key, date), answer),
        call_ensures(disguise_protocol::extract_ws_key, (headers,), found),
    ensures
        request@ == vstd::utf8::encode_utf8(disguise_protocol::http_request_text(host@, key@)),
        any.0@ == vstd::utf8::encode_utf8(disguise_protocol::http_request_text(host@, any.1@)),
        any.1@.len() == 24,
        accept@ == disguise_protocol::ws_accept_text(key.spec_bytes()),
        answer@ == vstd::utf8::encode_utf8(disguise_protocol::http_response_text(key@, date@)),
        found is Some == disguise_protocol::ws_key_of(headers@) is Some,
        found matches Some(k) ==> disguise_protocol::ws_key_of(headers@) == Some(k@),
{
}

/// From given random bytes the hellos are built to the byte.
pub proof fn hellos_are_built_from_their_seeds(
    host: &str,
    seed: ClientHelloSeed,
    client: Vec<u8>,
    random: [u8; 32],
    sid: &[u8],
    pubkey: [u8; 32],
    server: Vec<u8>,
    len: usize,
    mask: Option<[u8; 4]>,
    header: Vec<u8>,
)
    requires
        call_ensures(disguise_protocol::build_tls_client_hello_from, (host, &seed), client),
        call_ensures(
            disguise_protocol::build_tls_server_hello_from,
            (&random, sid, &pubkey),
            server,
        ),
        call_ensures(disguise_protocol::ws_frame_header, (len, mask), header),
    ensures
        client@ == disguise_protocol::client_hello(host.spec_bytes(), seed),
        server@ == disguise_protocol::server_hello(random@, sid@, pubkey@),
        header@[0] == 0x82,
        (header@[1] >= 128) == mask is Some,
        header@.len() == (if len <= 125 {
            2int
        } else if len <= 65535 {
            4
        } else {
            10
        }) + (if mask is Some {
            4int
        } else {
            0
        }),
        mask matches Some(key) ==> header@.subrange(header@.len() - 4, header@.len() as int)
            == key@,
{
    let m = match mask {
        Some(key) => Some(key@),
        None => None,
    };
    lemma_header(len as int, m);
}

proof fn lemma_header(len: int, mask: Option<Seq<u8>>)
    requires
        0 <= len <= usize::MAX,
        mask matches Some(key) ==> key.len() == 4,
    ensures
        ({
            let h = disguise_protocol::ws_header(len, mask);
            &&& h[0] == 0x82
            &&& (h[1] >= 128) == mask is Some
            &&& h.len() == (if len <= 125 {
                2int
            } else if len <= 65535 {
                4
            } else {
                10
            }) + (if mask is Some {
                4int
            } else {
                0
            })
            &&& mask matches Some(key) ==> h.subrange(h.len() - 4, h.len() as int) == key
        }),
{
    let h = disguise_protocol::ws_header(len, mask);
    if let Some(key) = mask {
        assert(h.subrange(h.len() - 4, h.len() as int) =~= key);
    }
}

/// An answer is dated when it is built.
pub proof fn answer_is_dated(accept: &str, r: Vec<u8>)
    requires
        call_ensures(disguise_protocol::build_http_response, (accept,), r),
    ensures
        exists|date: Seq<char>|
            disguise_protocol::is_http_date(date) && r@ == vstd::utf8::encode_utf8(
                #[trigger] disguise_protocol::http_response_text(accept@, date),
            ),
{
}

} // verus!

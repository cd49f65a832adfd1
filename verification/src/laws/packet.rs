//! Packets between peers: headers, padding and encryption.

use crate::peers::encrypt;
use crate::peers::encrypt::{
    AeadCipher, Cipher, EncryptionAlgorithm, Encryptor, Error, NullCipher, PacketEncryptor,
    PaddedEncryptor, XorCipher,
};
use crate::tunnel::packet_def;
use crate::tunnel::packet_def::{PeerManagerHeader, ZCPacket};
use crate::tunnel::padding;
use crate::wire;
use vstd::prelude::*;
use vstd::string::*;

verus! {

/// The number in the four bytes at `at`, least significant first.
pub open spec fn le32_at(b: Seq<u8>, at: int) -> int {
    b[at] + b[at + 1] * 0x100 + b[at + 2] * 0x10000 + b[at + 3] * 0x1000000
}

proof fn lemma_le32_at(b: Seq<u8>, at: int, n: int)
    requires
        0 <= at,
        at + 4 <= b.len(),
        0 <= n < 0x100000000,
        b.subrange(at, at + 4) == wire::le32(n),
    ensures
        le32_at(b, at) == n,
{
    wire::le32_reads_back(n);
    let s = b.subrange(at, at + 4);
    assert(s[0] == b[at] && s[1] == b[at + 1] && s[2] == b[at + 2] && s[3] == b[at + 3]);
}

// --- Headers ---

/// A header that is filled in says who sends to whom, what, and how much; it is not marked
/// as encrypted, was forwarded once, and stands before the payload.
pub proof fn header_is_filled_in(p: Seq<u8>, from: u32, to: u32, packet_type: u8)
    requires
        40 <= p.len() < 0x1_0000_0000,
    ensures
        ({
            let q = p.take(24) + packet_def::header_bytes(
                from,
                to,
                packet_type,
                0,
                1,
                packet_def::payload_of(p).len() as int,
            ) + packet_def::payload_of(p);
            &&& q.len() == p.len()
            &&& q.subrange(0, 24) == p.subrange(0, 24)
            &&& le32_at(q, 24) == from
            &&& le32_at(q, 28) == to
            &&& q[32] == packet_type && q[33] == 0 && q[34] == 1 && q[35] == 0
            &&& le32_at(q, 36) == p.len() - 40
            &&& q.subrange(40, q.len() as int) == p.subrange(40, p.len() as int)
        }),
{
    let n = packet_def::payload_of(p).len() as int;
    let q = p.take(24) + packet_def::header_bytes(from, to, packet_type, 0, 1, n)
        + packet_def::payload_of(p);
    assert(q.subrange(24, 28) =~= wire::le32(from as int));
    assert(q.subrange(28, 32) =~= wire::le32(to as int));
    assert(q.subrange(36, 40) =~= wire::le32(n));
    lemma_le32_at(q, 24, from as int);
    lemma_le32_at(q, 28, to as int);
    lemma_le32_at(q, 36, n);
    assert(q.subrange(0, 24) =~= p.subrange(0, 24));
    assert(q.subrange(40, q.len() as int) =~= p.subrange(40, p.len() as int));
}

/// A packet is encrypted exactly if the lowest bit of its 34th byte is set; marking it
/// changes that bit and nothing else. Its payload begins behind 40 bytes.
pub proof fn mark_is_one_bit(p: Seq<u8>, encrypted: bool)
    requires
        p.len() >= 40,
    ensures
        packet_def::is_encrypted(p) == (p[33] % 2 == 1),
        packet_def::has_headers(p),
        packet_def::payload_of(p) == p.subrange(40, p.len() as int),
        ({
            let q = packet_def::marked(p, encrypted);
            &&& q.len() == p.len()
            &&& (q[33] % 2 == 1) == encrypted
            &&& q[33] / 2 == p[33] / 2
            &&& forall|i: int| 0 <= i < p.len() && i != 33 ==> #[trigger] q[i] == p[i]
        }),
{
    assert(packet_def::payload_of(p) =~= p.subrange(40, p.len() as int));
}

// --- Padding ---

/// The most padding that a packet gets: no more than is configured, than two bytes can
/// count, and than 1326 bytes leave with the two bytes of the count.
pub open spec fn most_padding(len: int, max: u32) -> int {
    let room = if len < 1324 {
        1324 - len
    } else {
        0
    };
    let wish = if max < 65535 {
        max as int
    } else {
        65535
    };
    if wish < room {
        wish
    } else {
        room
    }
}

/// A random number picks the length of the padding: every length up to the most can come,
/// and no other.
pub proof fn padding_takes_any_allowed_length(len: int, max: u32, pick: u32)
    requires
        0 <= len,
    ensures
        padding::padding_limit(len, max) == most_padding(len, max),
        0 <= padding::padding_len_for(len, max, pick) <= most_padding(len, max),
        pick <= most_padding(len, max) ==> padding::padding_len_for(len, max, pick) == pick,
        padding::padding_len_for(len, max, pick) == pick as int % (most_padding(len, max) + 1),
{
    assert(0 <= pick as int % (most_padding(len, max) + 1) <= most_padding(len, max)) by {
        vstd::arithmetic::div_mod::lemma_mod_bound(pick as int, most_padding(len, max) + 1);
    }
    if pick <= most_padding(len, max) {
        vstd::arithmetic::div_mod::lemma_small_mod(
            pick as nat,
            (most_padding(len, max) + 1) as nat,
        );
    }
}

/// A padded packet is the packet, the padding, and the length of the padding in two bytes,
/// least significant first.
pub proof fn padding_stands_behind_the_packet(p: Seq<u8>, pad: Seq<u8>)
    requires
        pad.len() <= 65535,
    ensures
        ({
            let q = padding::padded(p, pad);
            let n = p.len() as int;
            &&& q.len() == n + pad.len() + 2
            &&& q.subrange(0, n) == p
            &&& q.subrange(n, n + pad.len()) == pad
            &&& q[n + pad.len()] + q[n + pad.len() + 1] * 256 == pad.len()
        }),
{
    let q = padding::padded(p, pad);
    let n = p.len() as int;
    wire::wire_integers_round_trip(pad.len() as int);
    assert(q.subrange(0, n) =~= p);
    assert(q.subrange(n, n + pad.len()) =~= pad);
    assert(q[n + pad.len()] == wire::le16(pad.len() as int)[0]);
    assert(q[n + pad.len() + 1] == wire::le16(pad.len() as int)[1]);
}

/// Padding is taken off by the length in the last two bytes, if the payload holds it and
/// them.
pub proof fn padding_is_taken_off_by_its_length(p: Seq<u8>)
    requires
        p.len() >= 40,
    ensures
        ({
            let n = p.len() as int;
            let pad = p[n - 2] + p[n - 1] * 256;
            padding::padding_start(p) == if n >= 42 && n - 40 >= pad + 2 {
                Some(n - 2 - pad)
            } else {
                None
            }
        }),
{
    let n = p.len() as int;
    let s = p.subrange(n - 2, n);
    assert(s[0] == p[n - 2] && s[1] == p[n - 1]);
}

// --- Ciphers ---

/// XOR changes the payload alone, byte by byte with the repeated key, and marks the packet;
/// a packet that is marked already is left.
pub proof fn xor_mixes_the_key_into_the_payload(
    c: XorCipher,
    p: Seq<u8>,
    nonce: Option<Seq<u8>>,
    q: Seq<u8>,
    r: Result<(), Error>,
)
    requires
        p.len() >= 40,
        c.encrypts(p, nonce, q, r),
    ensures
        r is Ok,
        p[33] % 2 == 1 ==> q == p,
        p[33] % 2 == 0 ==> {
            &&& q.len() == p.len()
            &&& forall|i: int| 40 <= i < p.len() ==> #[trigger] q[i] == p[i] ^ c.key@[(i - 40) % 16]
            &&& forall|i: int| 0 <= i < 40 && i != 33 ==> #[trigger] q[i] == p[i]
            &&& q[33] == p[33] + 1
        },
{
}

/// A cipher with authentication gives a packet that begins as before but for the mark; the
/// ciphertext of the payload, the tag and the nonce follow. It leaves encrypted packets, and
/// refuses nonces that are not 12 bytes long and payloads that are too long.
pub proof fn sealed_packet_ends_in_tag_and_nonce(
    c: AeadCipher,
    p: Seq<u8>,
    nonce: Option<Seq<u8>>,
    q: Seq<u8>,
    r: Result<(), Error>,
)
    requires
        p.len() >= 40,
        c.encrypts(p, nonce, q, r),
    ensures
        p[33] % 2 == 1 ==> q == p && r is Ok,
        p[33] % 2 == 0 && (p.len() - 40 > c.limit() || (nonce matches Some(n) && n.len() != 12))
            ==> q == p && r == Err::<(), Error>(Error::EncryptionFailed),
        p[33] % 2 == 0 && p.len() - 40 <= c.limit() && (nonce matches Some(n) ==> n.len() == 12)
            ==> {
            let n = q.len() as int;
            let used = q.subrange(n - 12, n);
            &&& r is Ok
            &&& n == p.len() + 28
            &&& nonce is Some ==> used == nonce->0
            &&& c.sealed(used, p.subrange(40, p.len() as int)) == (
                q.subrange(40, n - 28),
                q.subrange(n - 28, n - 12),
            )
            &&& forall|i: int| 0 <= i < 40 && i != 33 ==> #[trigger] q[i] == p[i]
            &&& q[33] == p[33] + 1
        },
{
    mark_is_one_bit(p, true);
    if p[33] % 2 == 0 && p.len() - 40 <= c.limit() && (nonce matches Some(n) ==> n.len() == 12) {
        let used = match nonce {
            Some(n) => n,
            None => choose|n: Seq<u8>| n.len() == 12 && #[trigger] c.seals(p, n, q),
        };
        let text = packet_def::payload_of(p);
        let (ciphertext, tag) = c.sealed(used, text);
        let head = packet_def::marked(p.take(40), true);
        assert(q == head + ciphertext + tag + used);
        let n = q.len() as int;
        assert(q.subrange(n - 12, n) =~= used);
        assert(q.subrange(40, n - 28) =~= ciphertext);
        assert(q.subrange(n - 28, n - 12) =~= tag);
    }
}

/// What a cipher reads of a packet: the text of the ciphertext, by the tag and the nonce
/// behind it. Too short a packet, and one whose tag does not belong to it, is left and
/// refused.
pub proof fn sealed_packet_is_opened_by_its_tag(
    c: AeadCipher,
    q: Seq<u8>,
    back: Seq<u8>,
    r: Result<(), Error>,
)
    requires
        q.len() >= 40,
        c.decrypts(q, back, r),
    ensures
        q[33] % 2 == 0 ==> back == q && r is Ok,
        q[33] % 2 == 1 && q.len() < 68 ==> back == q && r == Err::<(), Error>(
            Error::PacketTooShort((q.len() - 40) as usize),
        ),
        q[33] % 2 == 1 && q.len() >= 68 ==> {
            let n = q.len() as int;
            let opened = c.opened(
                q.subrange(n - 12, n),
                q.subrange(40, n - 28),
                q.subrange(n - 28, n - 12),
            );
            &&& opened is None ==> back == q && r == Err::<(), Error>(Error::DecryptionFailed)
            &&& opened matches Some(text) ==> {
                &&& r is Ok
                &&& back.len() == 40 + text.len()
                &&& back.subrange(40, back.len() as int) == text
                &&& forall|i: int| 0 <= i < 40 && i != 33 ==> #[trigger] back[i] == q[i]
                &&& back[33] == q[33] - 1
            }
        },
{
    let n = q.len() as int;
    if q[33] % 2 == 1 && n >= 68 {
        assert(q.subrange(encrypt::tag_start(q) + 16, n) == q.subrange(n - 12, n));
        let opened = c.opened(
            q.subrange(n - 12, n),
            q.subrange(40, n - 28),
            q.subrange(n - 28, n - 12),
        );
        if let Some(text) = opened {
            assert(back.subrange(40, back.len() as int) =~= text);
        }
    }
}

/// Each cipher seals and opens with its own key, up to its own limit.
pub proof fn ciphers_use_their_keys(
    key16: [u8; 16],
    key32: [u8; 32],
    nonce: Seq<u8>,
    text: Seq<u8>,
    tag: Seq<u8>,
)
    ensures
        AeadCipher::Aes128(key16).sealed(nonce, text) == encrypt::aes128_sealed(key16@, nonce, text),
        AeadCipher::Aes256(key32).sealed(nonce, text) == encrypt::aes256_sealed(key32@, nonce, text),
        AeadCipher::ChaCha20(key32).sealed(nonce, text) == encrypt::chacha20_sealed(
            key32@,
            nonce,
            text,
        ),
        AeadCipher::Aes128(key16).opened(nonce, text, tag) == encrypt::aes128_opened(
            key16@,
            nonce,
            text,
            tag,
        ),
        AeadCipher::Aes256(key32).opened(nonce, text, tag) == encrypt::aes256_opened(
            key32@,
            nonce,
            text,
            tag,
        ),
        AeadCipher::ChaCha20(key32).opened(nonce, text, tag) == encrypt::chacha20_opened(
            key32@,
            nonce,
            text,
            tag,
        ),
        AeadCipher::Aes128(key16).limit() == 0x10_0000_0000,
        AeadCipher::Aes256(key32).limit() == 0x10_0000_0000,
        AeadCipher::ChaCha20(key32).limit() == 274_877_906_880,
{
}

/// Without encryption packets stay as they are, and what is encrypted cannot be read.
pub proof fn no_cipher_changes_nothing(
    p: Seq<u8>,
    nonce: Option<Seq<u8>>,
    q: Seq<u8>,
    r: Result<(), Error>,
    back: Seq<u8>,
    s: Result<(), Error>,
)
    requires
        p.len() >= 40,
        NullCipher.encrypts(p, nonce, q, r),
        NullCipher.decrypts(p, back, s),
    ensures
        q == p && r is Ok,
        back == p,
        p[33] % 2 == 0 ==> s is Ok,
        p[33] % 2 == 1 ==> s == Err::<(), Error>(Error::DecryptionFailed),
{
}

/// A padded packet reaches its cipher with at most the allowed padding, and only what was
/// encrypted has padding taken off.
pub proof fn padding_is_inside_the_encryption(
    e: PaddedEncryptor<XorCipher>,
    p: Seq<u8>,
    nonce: Option<Seq<u8>>,
    q: Seq<u8>,
    r: Result<(), Error>,
    back: Seq<u8>,
    s: Result<(), Error>,
)
    requires
        p.len() >= 40,
        p[33] % 2 == 0,
        e.encrypts(p, nonce, q, r),
        e.decrypts(p, back, s),
    ensures
        p.len() + 2 <= q.len() <= p.len() + 2 + most_padding(p.len() as int, e.padding_max),
        q[33] == p[33] + 1,
        back == p && s is Ok,
{
    let pad = choose|pad: Seq<u8>|
        pad.len() <= padding::padding_limit(p.len() as int, e.padding_max) && e.inner.encrypts(
            #[trigger] padding::padded(p, pad),
            nonce,
            q,
            r,
        );
    padding_takes_any_allowed_length(p.len() as int, e.padding_max, 0);
    padding_stands_behind_the_packet(p, pad);
    let x = padding::padded(p, pad);
    assert(x[33] == p[33]) by {
        assert(x.subrange(0, p.len() as int)[33] == x[33]);
    }
    xor_mixes_the_key_into_the_payload(e.inner, x, nonce, q, r);
}

/// Algorithms go by their names; any other name gets AES-GCM with the short key.
pub proof fn algorithms_go_by_their_names(name: Seq<char>, key16: [u8; 16], key32: [u8; 32])
    ensures
        ({
            let c = encrypt::cipher_for(name, key16, key32);
            &&& name == "xor"@ ==> (c matches Cipher::Xor(x) && x.key == key16)
            &&& name == "aes-gcm"@ ==> c == Cipher::Aead(AeadCipher::Aes128(key16))
            &&& name == "aes-gcm-256"@ ==> c == Cipher::Aead(AeadCipher::Aes256(key32))
            &&& name == "chacha20"@ ==> c == Cipher::Aead(AeadCipher::ChaCha20(key32))
            &&& name != "xor"@ && name != "aes-gcm-256"@ && name != "chacha20"@ ==> c
                == Cipher::Aead(AeadCipher::Aes128(key16))
        }),
{
    reveal_strlit("xor");
    reveal_strlit("aes-gcm");
    reveal_strlit("aes-gcm-256");
    reveal_strlit("chacha20");
    assert("xor"@.len() == 3 && "aes-gcm"@.len() == 7);
    assert("aes-gcm-256"@.len() == 11 && "chacha20"@.len() == 8);
}

/// XOR is undone by the same key: what is marked has the key mixed in again and the mark
/// taken off, and what is not marked stays.
pub proof fn xor_is_undone_by_the_key(
    c: XorCipher,
    q: Seq<u8>,
    back: Seq<u8>,
    r: Result<(), Error>,
)
    requires
        q.len() >= 40,
        c.decrypts(q, back, r),
    ensures
        r is Ok,
        q[33] % 2 == 0 ==> back == q,
        q[33] % 2 == 1 ==> {
            &&& back.len() == q.len()
            &&& forall|i: int| 40 <= i < q.len() ==> #[trigger] back[i] == q[i] ^ c.key@[(i - 40) % 16]
            &&& forall|i: int| 0 <= i < 40 && i != 33 ==> #[trigger] back[i] == q[i]
            &&& back[33] == q[33] - 1
        },
{
}

/// A padded packet that is marked is decrypted first, and then loses as much as its last two
/// bytes say.
pub proof fn padding_is_taken_off_what_was_encrypted(
    e: PaddedEncryptor<XorCipher>,
    q: Seq<u8>,
    back: Seq<u8>,
    s: Result<(), Error>,
)
    requires
        q.len() >= 42,
        q[33] % 2 == 1,
        e.decrypts(q, back, s),
    ensures
        ({
            let n = q.len() as int;
            let low = q[n - 2] ^ e.inner.key@[(n - 42) % 16];
            let high = q[n - 1] ^ e.inner.key@[(n - 41) % 16];
            let pad = low + high * 256;
            &&& n - 40 >= pad + 2 ==> s is Ok && back.len() == n - 2 - pad && forall|i: int|
                40 <= i < back.len() ==> #[trigger] back[i] == q[i] ^ e.inner.key@[(i - 40) % 16]
            &&& n - 40 < pad + 2 ==> s == Err::<(), Error>(Error::PacketTooShort((n - 40) as usize))
        }),
{
    let (mid, inner_r) = choose|mid: Seq<u8>, inner_r: Result<(), Error>| #[trigger]
        e.inner.decrypts(q, mid, inner_r) && packet_def::has_headers(mid) && if inner_r is Ok
            && packet_def::is_encrypted(q) {
            encrypt::unpads(mid, back, s)
        } else {
            back == mid && s == inner_r
        };
    xor_is_undone_by_the_key(e.inner, q, mid, inner_r);
    mark_is_one_bit(q, true);
    padding_is_taken_off_by_its_length(mid);
}

// --- Calls ---

/// A packet begins as 40 bytes of zeros before its payload.
pub proof fn packet_begins_with_its_headers(payload: &[u8], r: ZCPacket, len: usize, all: usize)
    requires
        call_ensures(ZCPacket::new_with_payload, (payload,), r),
        call_ensures(ZCPacket::payload_len, (&r,), len),
        call_ensures(ZCPacket::buf_len, (&r,), all),
    ensures
        r@.len() == 40 + payload@.len(),
        r@.subrange(40, r@.len() as int) == payload@,
        forall|i: int| 0 <= i < 40 ==> #[trigger] r@[i] == 0,
        len == payload@.len(),
        all == 40 + payload@.len(),
{
    assert(r@.subrange(40, r@.len() as int) =~= payload@);
    mark_is_one_bit(r@, false);
}

/// The header is filled in, and read back as it was filled in.
pub proof fn filled_header_is_read_back(
    p: &mut ZCPacket,
    from: u32,
    to: u32,
    kind: u8,
    h: Option<PeerManagerHeader>,
)
    requires
        call_ensures(ZCPacket::fill_peer_manager_hdr, (p, from, to, kind), ()),
        call_ensures(ZCPacket::peer_manager_header, (&*final(p),), h),
        40 <= old(p)@.len() < 0x1_0000_0000,
    ensures
        h matches Some(x) && x.from_peer_id == from && x.to_peer_id == to && x.packet_type == kind
            && x.forward_counter == 1 && x.len == old(p)@.len() - 40,
        final(p)@.subrange(40, final(p)@.len() as int) == old(p)@.subrange(
            40,
            old(p)@.len() as int,
        ),
        final(p)@[33] == 0,
        le32_at(final(p)@, 24) == from && le32_at(final(p)@, 28) == to,
{
    header_is_filled_in(old(p)@, from, to, kind);
    let q = final(p)@;
    let a = q.subrange(24, 28);
    let b = q.subrange(28, 32);
    let c = q.subrange(36, 40);
    assert(a[0] == q[24] && a[1] == q[25] && a[2] == q[26] && a[3] == q[27]);
    assert(b[0] == q[28] && b[1] == q[29] && b[2] == q[30] && b[3] == q[31]);
    assert(c[0] == q[36] && c[1] == q[37] && c[2] == q[38] && c[3] == q[39]);
}

/// The mark is set and cleared without touching anything else.
pub proof fn mark_is_set(p: &mut ZCPacket, encrypted: bool)
    requires
        call_ensures(ZCPacket::set_encrypted, (p, encrypted), ()),
        old(p)@.len() >= 40,
    ensures
        final(p)@.len() == old(p)@.len(),
        (final(p)@[33] % 2 == 1) == encrypted,
        final(p)@[33] / 2 == old(p)@[33] / 2,
        forall|i: int| 0 <= i < old(p)@.len() && i != 33 ==> #[trigger] final(p)@[i] == old(p)@[i],
{
    mark_is_one_bit(old(p)@, encrypted);
}

/// Padding that is added can be taken off again and leaves the packet as it was.
pub proof fn added_padding_is_removed(
    p: &mut ZCPacket,
    q: &mut ZCPacket,
    max: u32,
    pick: u32,
    noise: &[u8],
    r: Result<(), Error>,
)
    requires
        call_ensures(padding::add_padding_from, (p, max, pick, noise), ()),
        call_ensures(padding::remove_padding, (q,), r),
        old(q)@ == final(p)@,
        old(p)@.len() >= 40,
        most_padding(old(p)@.len() as int, max) <= noise@.len(),
    ensures
        ({
            let n = old(p)@.len() as int;
            let k = pick as int % (most_padding(n, max) + 1);
            &&& final(p)@.len() == n + k + 2
            &&& final(p)@.subrange(0, n) == old(p)@
            &&& final(p)@.subrange(n, n + k) == noise@.subrange(0, k)
            &&& r is Ok && final(q)@ == old(p)@
        }),
{
    let n = old(p)@.len() as int;
    padding_takes_any_allowed_length(n, max, pick);
    let k = padding::padding_len_for(n, max, pick);
    let pad = noise@.take(k);
    padding_stands_behind_the_packet(old(p)@, pad);
    padding_is_taken_off_by_its_length(final(p)@);
    assert(pad =~= noise@.subrange(0, k));
    assert(final(p)@.take(n) =~= final(p)@.subrange(0, n));
}

/// The configured padding is used as it is, and 128 bytes where none is configured.
pub proof fn default_padding_is_128(value: u32, r: u32)
    requires
        call_ensures(padding::effective_padding_max, (value,), r),
    ensures
        value == 0 ==> r == 128,
        value != 0 ==> r == value,
{
}

/// An encryptor is created by the name of its algorithm, with padding if any is allowed;
/// every cipher keeps its own key.
pub proof fn encryptor_is_created_by_name(
    name: &str,
    key16: [u8; 16],
    key32: [u8; 32],
    max: u32,
    e: PacketEncryptor,
    algorithm: Option<EncryptionAlgorithm>,
)
    requires
        call_ensures(encrypt::create_encryptor, (name, key16, key32, max), e),
        call_ensures(EncryptionAlgorithm::from_name, (name,), algorithm),
    ensures
        ({
            let c = match e {
                PacketEncryptor::Padded(p) => p.inner,
                PacketEncryptor::Plain(c) => c,
            };
            &&& e is Padded == (max > 0)
            &&& e matches PacketEncryptor::Padded(p) ==> p.padding_max == max
            &&& name@ == "xor"@ ==> (c matches Cipher::Xor(x) && x.key == key16)
            &&& name@ == "aes-gcm-256"@ ==> c == Cipher::Aead(AeadCipher::Aes256(key32))
            &&& name@ == "chacha20"@ ==> c == Cipher::Aead(AeadCipher::ChaCha20(key32))
            &&& name@ != "xor"@ && name@ != "aes-gcm-256"@ && name@ != "chacha20"@ ==> c
                == Cipher::Aead(AeadCipher::Aes128(key16))
        }),
        algorithm == Some(EncryptionAlgorithm::Xor) <==> name@ == "xor"@,
        algorithm == Some(EncryptionAlgorithm::AesGcm) <==> name@ == "aes-gcm"@,
        algorithm == Some(EncryptionAlgorithm::Aes256Gcm) <==> name@ == "aes-gcm-256"@,
        algorithm == Some(EncryptionAlgorithm::ChaCha20) <==> name@ == "chacha20"@,
{
    algorithms_go_by_their_names(name@, key16, key32);
    reveal_strlit("xor");
    reveal_strlit("aes-gcm");
    reveal_strlit("aes-gcm-256");
    reveal_strlit("chacha20");
    assert("xor"@.len() == 3 && "aes-gcm"@.len() == 7);
    assert("aes-gcm-256"@.len() == 11 && "chacha20"@.len() == 8);
}

/// Random padding is at most what is allowed, and stands behind the packet.
pub proof fn random_padding_is_bounded(p: &mut ZCPacket, max: u32)
    requires
        call_ensures(padding::add_padding, (p, max), ()),
    ensures
        ({
            let n = old(p)@.len() as int;
            let m = final(p)@.len() as int;
            &&& n + 2 <= m <= n + 2 + most_padding(n, max)
            &&& final(p)@.subrange(0, n) == old(p)@
            &&& final(p)@[m - 2] + final(p)@[m - 1] * 256 == m - n - 2
        }),
{
    let pad = choose|pad: Seq<u8>|
        pad.len() <= padding::padding_limit(old(p)@.len() as int, max) && final(p)@
            == #[trigger] padding::padded(old(p)@, pad);
    padding_takes_any_allowed_length(old(p)@.len() as int, max, 0);
    padding_stands_behind_the_packet(old(p)@, pad);
}

/// Data packets are numbered one, and the payload stands behind the headers.
pub proof fn payload_stands_behind_the_headers(
    invalid: u8,
    data: u8,
    h: PeerManagerHeader,
    encrypted: bool,
    p: ZCPacket,
    payload: &[u8],
)
    requires
        call_ensures(packet_def::PacketType::number, (packet_def::PacketType::Invalid,), invalid),
        call_ensures(packet_def::PacketType::number, (packet_def::PacketType::Data,), data),
        call_ensures(PeerManagerHeader::is_encrypted, (&h,), encrypted),
        call_ensures(ZCPacket::payload, (&p,), payload),
        p@.len() >= 40,
    ensures
        invalid == 0 && data == 1,
        encrypted == (h.flags as int % 2 == 1),
        payload@ == p@.skip(40),
{
}

/// A cipher is made of its key.
pub proof fn cipher_is_made_of_its_key(
    a: [u8; 16],
    b: [u8; 32],
    c: [u8; 32],
    x: AeadCipher,
    y: AeadCipher,
    z: AeadCipher,
)
    requires
        call_ensures(AeadCipher::new_128, (a,), x),
        call_ensures(AeadCipher::new_256, (b,), y),
        call_ensures(AeadCipher::new_chacha20, (c,), z),
    ensures
        x == AeadCipher::Aes128(a) && y == AeadCipher::Aes256(b) && z == AeadCipher::ChaCha20(c),
{
}

} // verus!

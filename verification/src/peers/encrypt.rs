//! Encryption of packets.

use crate::entropy::random_bytes;
use crate::text::same;
use crate::tunnel::packet_def;
use crate::tunnel::packet_def::ZCPacket;
use crate::tunnel::padding;
use crate::tunnel::padding::{add_padding, remove_padding};
use crate::wire::append;
use aes_gcm::aead::{AeadInPlace, KeyInit};
use aes_gcm::{Aes128Gcm, Aes256Gcm, Nonce, Tag};
use vstd::prelude::*;
use vstd::slice::*;
use vstd::string::*;

verus! {

/// Why a packet could not be encrypted or decrypted.
#[derive(Debug, Clone, PartialEq, Eq)]
pub enum Error {
    /// The packet is too short, and this long.
    PacketTooShort(usize),
    DecryptionFailed,
    EncryptionFailed,
    /// The tag does not belong to the packet.
    InvalidTag(Vec<u8>),
}

/// Encrypts and decrypts packets.
pub trait Encryptor {
    /// `after` and `r` can come of encrypting the packet `before`, under a nonce that is
    /// given or not.
    spec fn encrypts(
        &self,
        before: Seq<u8>,
        nonce: Option<Seq<u8>>,
        after: Seq<u8>,
        r: Result<(), Error>,
    ) -> bool;

    /// `after` and `r` can come of decrypting the packet `before`.
    spec fn decrypts(&self, before: Seq<u8>, after: Seq<u8>, r: Result<(), Error>) -> bool;

    /// Decrypts the packet if it is encrypted.
    fn decrypt(&self, zc_packet: &mut ZCPacket) -> (r: Result<(), Error>)
        requires
            old(zc_packet).well_formed(),
        ensures
            final(zc_packet).well_formed(),
            self.decrypts(old(zc_packet)@, final(zc_packet)@, r),
    ;

    /// Encrypts the packet if it is not encrypted.
    fn encrypt(&self, zc_packet: &mut ZCPacket) -> (r: Result<(), Error>)
        requires
            old(zc_packet).well_formed(),
        ensures
            final(zc_packet).well_formed(),
            self.encrypts(old(zc_packet)@, None, final(zc_packet)@, r),
    ;

    /// Encrypts the packet under the nonce, if one is given.
    fn encrypt_with_nonce(&self, zc_packet: &mut ZCPacket, nonce: Option<&[u8]>) -> (r: Result<
        (),
        Error,
    >)
        requires
            old(zc_packet).well_formed(),
        ensures
            final(zc_packet).well_formed(),
            self.encrypts(old(zc_packet)@, nonce_view(nonce), final(zc_packet)@, r),
    ;
}

/// The bytes of a nonce.
pub open spec fn nonce_view(nonce: Option<&[u8]>) -> Option<Seq<u8>> {
    match nonce {
        Some(n) => Some(n@),
        None => None,
    }
}

// --- No encryption ---

/// Leaves packets as they are.
pub struct NullCipher;

impl Encryptor for NullCipher {
    open spec fn encrypts(
        &self,
        before: Seq<u8>,
        nonce: Option<Seq<u8>>,
        after: Seq<u8>,
        r: Result<(), Error>,
    ) -> bool {
        after == before && r is Ok
    }

    /// Nothing encrypted can be read.
    open spec fn decrypts(&self, before: Seq<u8>, after: Seq<u8>, r: Result<(), Error>) -> bool {
        &&& after == before
        &&& if packet_def::is_encrypted(before) {
            r == Err::<(), Error>(Error::DecryptionFailed)
        } else {
            r is Ok
        }
    }

    fn decrypt(&self, zc_packet: &mut ZCPacket) -> (r: Result<(), Error>) {
        if packet_is_encrypted(zc_packet) {
            Err(Error::DecryptionFailed)
        } else {
            Ok(())
        }
    }

    fn encrypt(&self, _zc_packet: &mut ZCPacket) -> (r: Result<(), Error>) {
        Ok(())
    }

    fn encrypt_with_nonce(&self, zc_packet: &mut ZCPacket, _nonce: Option<&[u8]>) -> (r: Result<
        (),
        Error,
    >) {
        let _ = self.encrypt(zc_packet);
        Ok(())
    }
}

fn packet_is_encrypted(pkt: &ZCPacket) -> (r: bool)
    requires
        pkt.well_formed(),
    ensures
        r == packet_def::is_encrypted(pkt@),
{
    match pkt.peer_manager_header() {
        Some(h) => h.is_encrypted(),
        None => false,
    }
}

// --- XOR ---

/// Mixes the key into the payload.
pub struct XorCipher {
    pub key: [u8; 16],
}

/// The bytes `data` under the repeated key.
pub open spec fn xored(data: Seq<u8>, key: Seq<u8>) -> Seq<u8> {
    Seq::new(data.len(), |i: int| data[i] ^ key[i % 16])
}

/// The packet `p` with its payload under the repeated key.
pub open spec fn xored_packet(p: Seq<u8>, key: Seq<u8>) -> Seq<u8> {
    p.take(40) + xored(packet_def::payload_of(p), key)
}

impl XorCipher {
    /// Mixes `key` into payloads.
    pub fn new(key: [u8; 16]) -> (r: Self)
        ensures
            r.key == key,
    {
        XorCipher { key }
    }

    fn apply(&self, zc_packet: &mut ZCPacket)
        requires
            old(zc_packet).well_formed(),
        ensures
            final(zc_packet)@ == xored_packet(old(zc_packet)@, self.key@),
    {
        let ghost before = zc_packet@;
        let n: usize = zc_packet.buf_len();
        let inner = zc_packet.mut_inner();
        let mut i: usize = 40;
        while i < n
            invariant
                40 <= i <= n,
                n == before.len(),
                inner@.len() == n,
                forall|k: int| 0 <= k < 40 || i <= k < n ==> inner@[k] == before[k],
                forall|k: int|
                    40 <= k < i ==> #[trigger] inner@[k] == before[k] ^ self.key@[(k - 40) % 16],
            decreases n - i,
        {
            let k: usize = (i - 40) % 16;
            let b: u8 = inner[i];
            inner[i] = b ^ self.key[k];
            i += 1;
        }
        assert(inner@ =~= xored_packet(before, self.key@));
    }
}

impl Encryptor for XorCipher {
    open spec fn encrypts(
        &self,
        before: Seq<u8>,
        nonce: Option<Seq<u8>>,
        after: Seq<u8>,
        r: Result<(), Error>,
    ) -> bool {
        &&& r is Ok
        &&& after == if packet_def::is_encrypted(before) {
            before
        } else {
            packet_def::marked(xored_packet(before, self.key@), true)
        }
    }

    open spec fn decrypts(&self, before: Seq<u8>, after: Seq<u8>, r: Result<(), Error>) -> bool {
        &&& r is Ok
        &&& after == if packet_def::is_encrypted(before) {
            packet_def::marked(xored_packet(before, self.key@), false)
        } else {
            before
        }
    }

    fn decrypt(&self, zc_packet: &mut ZCPacket) -> (r: Result<(), Error>) {
        if packet_is_encrypted(zc_packet) {
            self.apply(zc_packet);
            zc_packet.set_encrypted(false);
        }
        Ok(())
    }

    fn encrypt(&self, zc_packet: &mut ZCPacket) -> (r: Result<(), Error>) {
        if !packet_is_encrypted(zc_packet) {
            self.apply(zc_packet);
            zc_packet.set_encrypted(true);
        }
        Ok(())
    }

    fn encrypt_with_nonce(&self, zc_packet: &mut ZCPacket, _nonce: Option<&[u8]>) -> (r: Result<
        (),
        Error,
    >) {
        if !packet_is_encrypted(zc_packet) {
            self.apply(zc_packet);
            zc_packet.set_encrypted(true);
        }
        Ok(())
    }
}

// --- Authenticated encryption ---

/// What AES-128-GCM makes of a text, without associated data: the ciphertext and the tag.
pub uninterp spec fn aes128_sealed(key: Seq<u8>, nonce: Seq<u8>, text: Seq<u8>) -> (
    Seq<u8>,
    Seq<u8>,
);

/// What AES-128-GCM reads out of a ciphertext and its tag, if they belong together.
pub uninterp spec fn aes128_opened(
    key: Seq<u8>,
    nonce: Seq<u8>,
    ciphertext: Seq<u8>,
    tag: Seq<u8>,
) -> Option<Seq<u8>>;

/// What AES-256-GCM makes of a text, without associated data: the ciphertext and the tag.
pub uninterp spec fn aes256_sealed(key: Seq<u8>, nonce: Seq<u8>, text: Seq<u8>) -> (
    Seq<u8>,
    Seq<u8>,
);

/// What AES-256-GCM reads out of a ciphertext and its tag, if they belong together.
pub uninterp spec fn aes256_opened(
    key: Seq<u8>,
    nonce: Seq<u8>,
    ciphertext: Seq<u8>,
    tag: Seq<u8>,
) -> Option<Seq<u8>>;

/// What ChaCha20-Poly1305 makes of a text, without associated data: the ciphertext and the
/// tag.
pub uninterp spec fn chacha20_sealed(key: Seq<u8>, nonce: Seq<u8>, text: Seq<u8>) -> (
    Seq<u8>,
    Seq<u8>,
);

/// What ChaCha20-Poly1305 reads out of a ciphertext and its tag, if they belong together.
pub uninterp spec fn chacha20_opened(
    key: Seq<u8>,
    nonce: Seq<u8>,
    ciphertext: Seq<u8>,
    tag: Seq<u8>,
) -> Option<Seq<u8>>;

/// Calls `Aes128Gcm::encrypt_in_place_detached` of the `aes-gcm` crate with no associated
/// data. It refuses texts of more than 2^36 bytes. Otherwise it gives a ciphertext as long
/// as the text and a tag of 16 bytes, which depend on the key, the nonce and the text
/// alone.
#[verifier::external_body]
fn aes128_seal(key: &[u8; 16], nonce: &[u8], text: &[u8]) -> (r: Option<(Vec<u8>, Vec<u8>)>)
    requires
        nonce@.len() == 12,
    ensures
        r is Some == (text@.len() <= 0x10_0000_0000),
        r matches Some((ciphertext, tag)) ==> {
            &&& (ciphertext@, tag@) == aes128_sealed(key@, nonce@, text@)
            &&& ciphertext@.len() == text@.len()
            &&& tag@.len() == 16
        },
{
    let cipher = Aes128Gcm::new(key.into());
    let mut buffer = text.to_vec();
    match cipher.encrypt_in_place_detached(Nonce::from_slice(nonce), &[], &mut buffer) {
        Ok(tag) => Some((buffer, tag.to_vec())),
        Err(_) => None,
    }
}

/// Calls `Aes128Gcm::decrypt_in_place_detached` of the `aes-gcm` crate with no associated
/// data. It recomputes the tag over the ciphertext, and where that is the tag given,
/// applies the keystream that encryption applied: so it gives back every text that was
/// sealed to this ciphertext and tag, and nothing else, of the same length.
#[verifier::external_body]
fn aes128_open(key: &[u8; 16], nonce: &[u8], ciphertext: &[u8], tag: &[u8]) -> (r: Option<Vec<u8>>)
    requires
        nonce@.len() == 12,
        tag@.len() == 16,
    ensures
        r is Some == aes128_opened(key@, nonce@, ciphertext@, tag@) is Some,
        r matches Some(text) ==> {
            &&& text@ == aes128_opened(key@, nonce@, ciphertext@, tag@)->0
            &&& text@.len() == ciphertext@.len()
            &&& text@.len() <= 0x10_0000_0000 ==> aes128_sealed(key@, nonce@, text@) == (
                ciphertext@,
                tag@,
            )
        },
        forall|text: Seq<u8>|
            text.len() <= 0x10_0000_0000 && #[trigger] aes128_sealed(key@, nonce@, text) == (
                ciphertext@,
                tag@,
            ) ==> r is Some && r->0@ == text,
{
    let cipher = Aes128Gcm::new(key.into());
    let mut buffer = ciphertext.to_vec();
    let tag = Tag::from_slice(tag);
    match cipher.decrypt_in_place_detached(Nonce::from_slice(nonce), &[], &mut buffer, tag) {
        Ok(()) => Some(buffer),
        Err(_) => None,
    }
}

/// Calls `Aes256Gcm::encrypt_in_place_detached` of the `aes-gcm` crate with no associated
/// data. It refuses texts of more than 2^36 bytes. Otherwise it gives a ciphertext as long
/// as the text and a tag of 16 bytes, which depend on the key, the nonce and the text
/// alone.
#[verifier::external_body]
fn aes256_seal(key: &[u8; 32], nonce: &[u8], text: &[u8]) -> (r: Option<(Vec<u8>, Vec<u8>)>)
    requires
        nonce@.len() == 12,
    ensures
        r is Some == (text@.len() <= 0x10_0000_0000),
        r matches Some((ciphertext, tag)) ==> {
            &&& (ciphertext@, tag@) == aes256_sealed(key@, nonce@, text@)
            &&& ciphertext@.len() == text@.len()
            &&& tag@.len() == 16
        },
{
    let cipher = Aes256Gcm::new(key.into());
    let mut buffer = text.to_vec();
    match cipher.encrypt_in_place_detached(Nonce::from_slice(nonce), &[], &mut buffer) {
        Ok(tag) => Some((buffer, tag.to_vec())),
        Err(_) => None,
    }
}

/// Calls `Aes256Gcm::decrypt_in_place_detached` of the `aes-gcm` crate with no associated
/// data. It recomputes the tag over the ciphertext, and where that is the tag given,
/// applies the keystream that encryption applied: so it gives back every text that was
/// sealed to this ciphertext and tag, and nothing else, of the same length.
#[verifier::external_body]
fn aes256_open(key: &[u8; 32], nonce: &[u8], ciphertext: &[u8], tag: &[u8]) -> (r: Option<Vec<u8>>)
    requires
        nonce@.len() == 12,
        tag@.len() == 16,
    ensures
        r is Some == aes256_opened(key@, nonce@, ciphertext@, tag@) is Some,
        r matches Some(text) ==> {
            &&& text@ == aes256_opened(key@, nonce@, ciphertext@, tag@)->0
            &&& text@.len() == ciphertext@.len()
            &&& text@.len() <= 0x10_0000_0000 ==> aes256_sealed(key@, nonce@, text@) == (
                ciphertext@,
                tag@,
            )
        },
        forall|text: Seq<u8>|
            text.len() <= 0x10_0000_0000 && #[trigger] aes256_sealed(key@, nonce@, text) == (
                ciphertext@,
                tag@,
            ) ==> r is Some && r->0@ == text,
{
    let cipher = Aes256Gcm::new(key.into());
    let mut buffer = ciphertext.to_vec();
    let tag = Tag::from_slice(tag);
    match cipher.decrypt_in_place_detached(Nonce::from_slice(nonce), &[], &mut buffer, tag) {
        Ok(()) => Some(buffer),
        Err(_) => None,
    }
}

/// Calls `LessSafeKey::seal_in_place_separate_tag` of the `ring` crate for
/// `CHACHA20_POLY1305`, with no associated data. It refuses texts of more than
/// 274877906880 bytes. Otherwise it gives a ciphertext as long as the text and a tag of 16
/// bytes, which depend on the key, the nonce and the text alone.
#[verifier::external_body]
fn chacha20_seal(key: &[u8; 32], nonce: &[u8], text: &[u8]) -> (r: Option<(Vec<u8>, Vec<u8>)>)
    requires
        nonce@.len() == 12,
    ensures
        r is Some == (text@.len() <= 274_877_906_880),
        r matches Some((ciphertext, tag)) ==> {
            &&& (ciphertext@, tag@) == chacha20_sealed(key@, nonce@, text@)
            &&& ciphertext@.len() == text@.len()
            &&& tag@.len() == 16
        },
{
    let unbound = ring::aead::UnboundKey::new(&ring::aead::CHACHA20_POLY1305, key).ok()?;
    let nonce = ring::aead::Nonce::try_assume_unique_for_key(nonce).ok()?;
    let mut buffer = text.to_vec();
    let tag = ring::aead::LessSafeKey::new(unbound)
        .seal_in_place_separate_tag(nonce, ring::aead::Aad::empty(), &mut buffer)
        .ok()?;
    Some((buffer, tag.as_ref().to_vec()))
}

/// Calls `LessSafeKey::open_in_place_separate_tag` of the `ring` crate for
/// `CHACHA20_POLY1305`, with no associated data. It recomputes the tag over the ciphertext,
/// and where that is the tag given, applies the keystream that encryption applied: so it
/// gives back every text that was sealed to this ciphertext and tag, and nothing else, of
/// the same length.
#[verifier::external_body]
fn chacha20_open(key: &[u8; 32], nonce: &[u8], ciphertext: &[u8], tag: &[u8]) -> (r: Option<
    Vec<u8>,
>)
    requires
        nonce@.len() == 12,
        tag@.len() == 16,
    ensures
        r is Some == chacha20_opened(key@, nonce@, ciphertext@, tag@) is Some,
        r matches Some(text) ==> {
            &&& text@ == chacha20_opened(key@, nonce@, ciphertext@, tag@)->0
            &&& text@.len() == ciphertext@.len()
            &&& text@.len() <= 274_877_906_880 ==> chacha20_sealed(key@, nonce@, text@) == (
                ciphertext@,
                tag@,
            )
        },
        forall|text: Seq<u8>|
            text.len() <= 274_877_906_880 && #[trigger] chacha20_sealed(key@, nonce@, text) == (
                ciphertext@,
                tag@,
            ) ==> r is Some && r->0@ == text,
{
    let unbound = ring::aead::UnboundKey::new(&ring::aead::CHACHA20_POLY1305, key).ok()?;
    let nonce = ring::aead::Nonce::try_assume_unique_for_key(nonce).ok()?;
    let tag = ring::aead::Tag::try_from(tag).ok()?;
    let mut buffer = ciphertext.to_vec();
    ring::aead::LessSafeKey::new(unbound)
        .open_in_place_separate_tag(nonce, ring::aead::Aad::empty(), tag, &mut buffer, 0..)
        .ok()?;
    Some(buffer)
}

/// What encryption adds to a packet: a tag of 16 bytes and a nonce of 12.
pub const ENCRYPTION_RESERVED: usize = 28;

/// Encrypts payloads with AES-GCM or ChaCha20-Poly1305.
pub enum AeadCipher {
    Aes128([u8; 16]),
    Aes256([u8; 32]),
    ChaCha20([u8; 32]),
}

impl AeadCipher {
    /// AES-GCM with a key of 128 bits.
    pub fn new_128(key: [u8; 16]) -> (r: Self)
        ensures
            r == AeadCipher::Aes128(key),
    {
        AeadCipher::Aes128(key)
    }

    /// AES-GCM with a key of 256 bits.
    pub fn new_256(key: [u8; 32]) -> (r: Self)
        ensures
            r == AeadCipher::Aes256(key),
    {
        AeadCipher::Aes256(key)
    }

    /// ChaCha20-Poly1305.
    pub fn new_chacha20(key: [u8; 32]) -> (r: Self)
        ensures
            r == AeadCipher::ChaCha20(key),
    {
        AeadCipher::ChaCha20(key)
    }

    /// The length of the longest text that the cipher takes.
    pub open spec fn limit(self) -> int {
        if self is ChaCha20 {
            274_877_906_880
        } else {
            0x10_0000_0000
        }
    }

    /// What the cipher makes of a text.
    pub open spec fn sealed(self, nonce: Seq<u8>, text: Seq<u8>) -> (Seq<u8>, Seq<u8>) {
        match self {
            AeadCipher::Aes128(key) => aes128_sealed(key@, nonce, text),
            AeadCipher::Aes256(key) => aes256_sealed(key@, nonce, text),
            AeadCipher::ChaCha20(key) => chacha20_sealed(key@, nonce, text),
        }
    }

    /// What the cipher reads out of a ciphertext.
    pub open spec fn opened(self, nonce: Seq<u8>, ciphertext: Seq<u8>, tag: Seq<u8>) -> Option<
        Seq<u8>,
    > {
        match self {
            AeadCipher::Aes128(key) => aes128_opened(key@, nonce, ciphertext, tag),
            AeadCipher::Aes256(key) => aes256_opened(key@, nonce, ciphertext, tag),
            AeadCipher::ChaCha20(key) => chacha20_opened(key@, nonce, ciphertext, tag),
        }
    }

    /// The packet `p`, encrypted under `nonce`: the payload gives way to its ciphertext,
    /// the tag and the nonce.
    pub open spec fn sealed_packet(self, p: Seq<u8>, nonce: Seq<u8>) -> Seq<u8> {
        let (ciphertext, tag) = self.sealed(nonce, packet_def::payload_of(p));
        packet_def::marked(p.take(40), true) + ciphertext + tag + nonce
    }

    /// `after` is the packet `before`, encrypted under `nonce`, with a ciphertext as long as
    /// the payload and a tag of 16 bytes.
    pub open spec fn seals(self, before: Seq<u8>, nonce: Seq<u8>, after: Seq<u8>) -> bool {
        let (ciphertext, tag) = self.sealed(nonce, packet_def::payload_of(before));
        &&& after == self.sealed_packet(before, nonce)
        &&& ciphertext.len() == packet_def::payload_of(before).len()
        &&& tag.len() == 16
    }

    fn seal(&self, nonce: &[u8], text: &[u8]) -> (r: Option<(Vec<u8>, Vec<u8>)>)
        requires
            nonce@.len() == 12,
        ensures
            r is Some == (text@.len() <= self.limit()),
            r matches Some((ciphertext, tag)) ==> {
                &&& (ciphertext@, tag@) == self.sealed(nonce@, text@)
                &&& ciphertext@.len() == text@.len()
                &&& tag@.len() == 16
            },
    {
        match self {
            AeadCipher::Aes128(key) => aes128_seal(key, nonce, text),
            AeadCipher::Aes256(key) => aes256_seal(key, nonce, text),
            AeadCipher::ChaCha20(key) => chacha20_seal(key, nonce, text),
        }
    }

    fn open(&self, nonce: &[u8], ciphertext: &[u8], tag: &[u8]) -> (r: Option<Vec<u8>>)
        requires
            nonce@.len() == 12,
            tag@.len() == 16,
        ensures
            r is Some == self.opened(nonce@, ciphertext@, tag@) is Some,
            r matches Some(text) ==> {
                &&& text@ == self.opened(nonce@, ciphertext@, tag@)->0
                &&& text@.len() == ciphertext@.len()
                &&& text@.len() <= self.limit() ==> self.sealed(nonce@, text@) == (
                    ciphertext@,
                    tag@,
                )
            },
            forall|text: Seq<u8>|
                text.len() <= self.limit() && #[trigger] self.sealed(nonce@, text) == (
                    ciphertext@,
                    tag@,
                ) ==> r is Some && r->0@ == text,
    {
        match self {
            AeadCipher::Aes128(key) => aes128_open(key, nonce, ciphertext, tag),
            AeadCipher::Aes256(key) => aes256_open(key, nonce, ciphertext, tag),
            AeadCipher::ChaCha20(key) => chacha20_open(key, nonce, ciphertext, tag),
        }
    }

    /// Encrypts under the given nonce. A packet that is encrypted already stays as it is.
    fn encrypt_under(&self, zc_packet: &mut ZCPacket, nonce: &[u8]) -> (r: Result<(), Error>)
        requires
            old(zc_packet).well_formed(),
        ensures
            final(zc_packet).well_formed(),
            self.encrypts(old(zc_packet)@, Some(nonce@), final(zc_packet)@, r),
    {
        if packet_is_encrypted(zc_packet) {
            return Ok(());
        }
        if nonce.len() != 12 {
            return Err(Error::EncryptionFailed);
        }
        match self.seal(nonce, zc_packet.payload()) {
            Some((ciphertext, tag)) => {
                zc_packet.set_encrypted(true);
                let ghost marked = zc_packet@;
                let inner = zc_packet.mut_inner();
                inner.truncate(40);
                append(inner, ciphertext.as_slice());
                append(inner, tag.as_slice());
                append(inner, nonce);
                assert(inner@ =~= self.sealed_packet(old(zc_packet)@, nonce@));
                Ok(())
            },
            None => Err(Error::EncryptionFailed),
        }
    }
}

/// Where the tag of the encrypted packet `p` begins.
pub open spec fn tag_start(p: Seq<u8>) -> int {
    p.len() - 28
}

impl Encryptor for AeadCipher {
    /// A packet that is encrypted already stays as it is. A nonce of another length than
    /// 12 is refused, and so is a payload beyond the cipher's limit.
    open spec fn encrypts(
        &self,
        before: Seq<u8>,
        nonce: Option<Seq<u8>>,
        after: Seq<u8>,
        r: Result<(), Error>,
    ) -> bool {
        if packet_def::is_encrypted(before) {
            after == before && r is Ok
        } else if packet_def::payload_of(before).len() > self.limit() || (nonce is Some
            && nonce->0.len() != 12) {
            after == before && r == Err::<(), Error>(Error::EncryptionFailed)
        } else {
            &&& r is Ok
            &&& match nonce {
                Some(n) => self.seals(before, n, after),
                None => exists|n: Seq<u8>| n.len() == 12 && #[trigger] self.seals(before, n, after),
            }
            &&& after.len() == before.len() + 28
            &&& packet_def::is_encrypted(after)
        }
    }

    /// A packet that is not encrypted stays as it is, and so does one that cannot be
    /// decrypted.
    open spec fn decrypts(&self, before: Seq<u8>, after: Seq<u8>, r: Result<(), Error>) -> bool {
        let len = before.len() - 40;
        let ciphertext = before.subrange(40, tag_start(before));
        let tag = before.subrange(tag_start(before), tag_start(before) + 16);
        let nonce = before.subrange(tag_start(before) + 16, before.len() as int);
        let text = packet_def::payload_of(after);
        if !packet_def::is_encrypted(before) {
            after == before && r is Ok
        } else if len < 28 {
            after == before && r == Err::<(), Error>(Error::PacketTooShort(len as usize))
        } else if self.opened(nonce, ciphertext, tag) is None {
            &&& after == before
            &&& r == Err::<(), Error>(Error::DecryptionFailed)
            &&& forall|t: Seq<u8>|
                t.len() <= self.limit() ==> #[trigger] self.sealed(nonce, t) != (ciphertext, tag)
        } else {
            &&& r is Ok
            &&& after == packet_def::marked(before.take(40), false) + self.opened(
                nonce,
                ciphertext,
                tag,
            )->0
            &&& len - 28 <= self.limit() ==> self.sealed(nonce, text) == (ciphertext, tag)
            &&& forall|t: Seq<u8>|
                t.len() <= self.limit() && #[trigger] self.sealed(nonce, t) == (ciphertext, tag)
                    ==> t == text
        }
    }

    fn decrypt(&self, zc_packet: &mut ZCPacket) -> (r: Result<(), Error>) {
        if !packet_is_encrypted(zc_packet) {
            return Ok(());
        }
        let payload_len: usize = zc_packet.payload_len();
        if payload_len < ENCRYPTION_RESERVED {
            return Err(Error::PacketTooShort(payload_len));
        }
        let text_len: usize = payload_len - ENCRYPTION_RESERVED;
        let ghost before = zc_packet@;
        let payload = zc_packet.payload();
        let ciphertext = slice_subrange(payload, 0, text_len);
        let tag = slice_subrange(payload, text_len, text_len + 16);
        let nonce = slice_subrange(payload, text_len + 16, payload_len);
        assert(ciphertext@ =~= before.subrange(40, tag_start(before)));
        assert(tag@ =~= before.subrange(tag_start(before), tag_start(before) + 16));
        assert(nonce@ =~= before.subrange(tag_start(before) + 16, before.len() as int));
        match self.open(nonce, ciphertext, tag) {
            Some(text) => {
                zc_packet.set_encrypted(false);
                let inner = zc_packet.mut_inner();
                inner.truncate(40);
                append(inner, text.as_slice());
                assert(inner@ =~= packet_def::marked(before.take(40), false) + text@);
                assert(packet_def::payload_of(inner@) =~= text@);
                Ok(())
            },
            None => Err(Error::DecryptionFailed),
        }
    }

    fn encrypt(&self, zc_packet: &mut ZCPacket) -> (r: Result<(), Error>) {
        let nonce = random_bytes(12);
        self.encrypt_under(zc_packet, nonce.as_slice())
    }

    fn encrypt_with_nonce(&self, zc_packet: &mut ZCPacket, nonce: Option<&[u8]>) -> (r: Result<
        (),
        Error,
    >) {
        match nonce {
            Some(n) => self.encrypt_under(zc_packet, n),
            None => self.encrypt(zc_packet),
        }
    }
}

// --- Padding ---

/// Pads packets before another encryptor encrypts them.
pub struct PaddedEncryptor<E: Encryptor> {
    pub inner: E,
    pub padding_max: u32,
}

/// What becomes of the packet `mid`, which was decrypted from an encrypted one.
pub open spec fn unpads(mid: Seq<u8>, after: Seq<u8>, r: Result<(), Error>) -> bool {
    match padding::padding_start(mid) {
        Some(n) => r is Ok && after == mid.take(n),
        None => r == Err::<(), Error>(Error::PacketTooShort((mid.len() - 40) as usize)) && after
            == mid,
    }
}

impl<E: Encryptor> Encryptor for PaddedEncryptor<E> {
    open spec fn encrypts(
        &self,
        before: Seq<u8>,
        nonce: Option<Seq<u8>>,
        after: Seq<u8>,
        r: Result<(), Error>,
    ) -> bool {
        exists|pad: Seq<u8>|
            pad.len() <= padding::padding_limit(before.len() as int, self.padding_max)
                && self.inner.encrypts(#[trigger] padding::padded(before, pad), nonce, after, r)
    }

    open spec fn decrypts(&self, before: Seq<u8>, after: Seq<u8>, r: Result<(), Error>) -> bool {
        exists|mid: Seq<u8>, inner_r: Result<(), Error>| #[trigger]
            self.inner.decrypts(before, mid, inner_r) && packet_def::has_headers(mid) && if inner_r
                is Ok && packet_def::is_encrypted(before) {
                unpads(mid, after, r)
            } else {
                after == mid && r == inner_r
            }
    }

    fn decrypt(&self, zc_packet: &mut ZCPacket) -> (r: Result<(), Error>) {
        let ghost before = zc_packet@;
        let was_encrypted: bool = packet_is_encrypted(zc_packet);
        let inner_r = self.inner.decrypt(zc_packet);
        let ghost mid = zc_packet@;
        assert(self.inner.decrypts(before, mid, inner_r));
        if inner_r.is_ok() && was_encrypted {
            let r = remove_padding(zc_packet);
            assert(unpads(mid, zc_packet@, r));
            return r;
        }
        inner_r
    }

    fn encrypt(&self, zc_packet: &mut ZCPacket) -> (r: Result<(), Error>) {
        add_padding(zc_packet, self.padding_max);
        self.inner.encrypt(zc_packet)
    }

    fn encrypt_with_nonce(&self, zc_packet: &mut ZCPacket, nonce: Option<&[u8]>) -> (r: Result<
        (),
        Error,
    >) {
        add_padding(zc_packet, self.padding_max);
        self.inner.encrypt_with_nonce(zc_packet, nonce)
    }
}

// --- Choosing an encryptor ---

/// How packets are encrypted.
#[derive(Debug, Clone, Copy, PartialEq, Eq, Structural)]
pub enum EncryptionAlgorithm {
    Xor,
    AesGcm,
    Aes256Gcm,
    ChaCha20,
}

impl EncryptionAlgorithm {
    /// The algorithm with this name.
    pub open spec fn named(name: Seq<char>) -> Option<EncryptionAlgorithm> {
        if name == "xor"@ {
            Some(EncryptionAlgorithm::Xor)
        } else if name == "aes-gcm"@ {
            Some(EncryptionAlgorithm::AesGcm)
        } else if name == "aes-gcm-256"@ {
            Some(EncryptionAlgorithm::Aes256Gcm)
        } else if name == "chacha20"@ {
            Some(EncryptionAlgorithm::ChaCha20)
        } else {
            None
        }
    }

    /// The algorithm with this name.
    pub fn from_name(name: &str) -> (r: Option<EncryptionAlgorithm>)
        ensures
            r == EncryptionAlgorithm::named(name@),
    {
        if same(name, "xor") {
            Some(EncryptionAlgorithm::Xor)
        } else if same(name, "aes-gcm") {
            Some(EncryptionAlgorithm::AesGcm)
        } else if same(name, "aes-gcm-256") {
            Some(EncryptionAlgorithm::Aes256Gcm)
        } else if same(name, "chacha20") {
            Some(EncryptionAlgorithm::ChaCha20)
        } else {
            None
        }
    }
}

/// The ciphers to choose from.
pub enum Cipher {
    Xor(XorCipher),
    Aead(AeadCipher),
}

impl Encryptor for Cipher {
    open spec fn encrypts(
        &self,
        before: Seq<u8>,
        nonce: Option<Seq<u8>>,
        after: Seq<u8>,
        r: Result<(), Error>,
    ) -> bool {
        match self {
            Cipher::Xor(c) => c.encrypts(before, nonce, after, r),
            Cipher::Aead(c) => c.encrypts(before, nonce, after, r),
        }
    }

    open spec fn decrypts(&self, before: Seq<u8>, after: Seq<u8>, r: Result<(), Error>) -> bool {
        match self {
            Cipher::Xor(c) => c.decrypts(before, after, r),
            Cipher::Aead(c) => c.decrypts(before, after, r),
        }
    }

    fn decrypt(&self, zc_packet: &mut ZCPacket) -> (r: Result<(), Error>) {
        match self {
            Cipher::Xor(c) => c.decrypt(zc_packet),
            Cipher::Aead(c) => c.decrypt(zc_packet),
        }
    }

    fn encrypt(&self, zc_packet: &mut ZCPacket) -> (r: Result<(), Error>) {
        match self {
            Cipher::Xor(c) => c.encrypt(zc_packet),
            Cipher::Aead(c) => c.encrypt(zc_packet),
        }
    }

    fn encrypt_with_nonce(&self, zc_packet: &mut ZCPacket, nonce: Option<&[u8]>) -> (r: Result<
        (),
        Error,
    >) {
        match self {
            Cipher::Xor(c) => c.encrypt_with_nonce(zc_packet, nonce),
            Cipher::Aead(c) => c.encrypt_with_nonce(zc_packet, nonce),
        }
    }
}

/// The cipher in use, with padding or without.
pub enum PacketEncryptor {
    Plain(Cipher),
    Padded(PaddedEncryptor<Cipher>),
}

impl Encryptor for PacketEncryptor {
    open spec fn encrypts(
        &self,
        before: Seq<u8>,
        nonce: Option<Seq<u8>>,
        after: Seq<u8>,
        r: Result<(), Error>,
    ) -> bool {
        match self {
            PacketEncryptor::Plain(c) => c.encrypts(before, nonce, after, r),
            PacketEncryptor::Padded(c) => c.encrypts(before, nonce, after, r),
        }
    }

    open spec fn decrypts(&self, before: Seq<u8>, after: Seq<u8>, r: Result<(), Error>) -> bool {
        match self {
            PacketEncryptor::Plain(c) => c.decrypts(before, after, r),
            PacketEncryptor::Padded(c) => c.decrypts(before, after, r),
        }
    }

    fn decrypt(&self, zc_packet: &mut ZCPacket) -> (r: Result<(), Error>) {
        match self {
            PacketEncryptor::Plain(c) => c.decrypt(zc_packet),
            PacketEncryptor::Padded(c) => c.decrypt(zc_packet),
        }
    }

    fn encrypt(&self, zc_packet: &mut ZCPacket) -> (r: Result<(), Error>) {
        match self {
            PacketEncryptor::Plain(c) => c.encrypt(zc_packet),
            PacketEncryptor::Padded(c) => c.encrypt(zc_packet),
        }
    }

    fn encrypt_with_nonce(&self, zc_packet: &mut ZCPacket, nonce: Option<&[u8]>) -> (r: Result<
        (),
        Error,
    >) {
        match self {
            PacketEncryptor::Plain(c) => c.encrypt_with_nonce(zc_packet, nonce),
            PacketEncryptor::Padded(c) => c.encrypt_with_nonce(zc_packet, nonce),
        }
    }
}

/// The cipher for a name; a name that stands for none gets AES-GCM.
pub open spec fn cipher_for(algorithm: Seq<char>, key_128: [u8; 16], key_256: [u8; 32]) -> Cipher {
    match EncryptionAlgorithm::named(algorithm) {
        Some(EncryptionAlgorithm::Xor) => Cipher::Xor(XorCipher { key: key_128 }),
        Some(EncryptionAlgorithm::Aes256Gcm) => Cipher::Aead(AeadCipher::Aes256(key_256)),
        Some(EncryptionAlgorithm::ChaCha20) => Cipher::Aead(AeadCipher::ChaCha20(key_256)),
        _ => Cipher::Aead(AeadCipher::Aes128(key_128)),
    }
}

/// Creates an encryptor by the name of its algorithm, with padding if any is allowed.
pub fn create_encryptor(
    algorithm: &str,
    key_128: [u8; 16],
    key_256: [u8; 32],
    padding_max: u32,
) -> (r: PacketEncryptor)
    ensures
        r == if padding_max > 0 {
            PacketEncryptor::Padded(
                PaddedEncryptor { inner: cipher_for(algorithm@, key_128, key_256), padding_max },
            )
        } else {
            PacketEncryptor::Plain(cipher_for(algorithm@, key_128, key_256))
        },
{
    let chosen: EncryptionAlgorithm = match EncryptionAlgorithm::from_name(algorithm) {
        Some(a) => a,
        None => EncryptionAlgorithm::AesGcm,
    };
    let inner: Cipher = match chosen {
        EncryptionAlgorithm::Xor => Cipher::Xor(XorCipher::new(key_128)),
        EncryptionAlgorithm::AesGcm => Cipher::Aead(AeadCipher::new_128(key_128)),
        EncryptionAlgorithm::Aes256Gcm => Cipher::Aead(AeadCipher::new_256(key_256)),
        EncryptionAlgorithm::ChaCha20 => Cipher::Aead(AeadCipher::new_chacha20(key_256)),
    };
    if padding_max > 0 {
        PacketEncryptor::Padded(PaddedEncryptor { inner, padding_max })
    } else {
        PacketEncryptor::Plain(inner)
    }
}

// --- What is encrypted can be decrypted ---

proof fn lemma_marks(p: Seq<u8>)
    requires
        packet_def::has_headers(p),
        !packet_def::is_encrypted(p),
    ensures
        packet_def::is_encrypted(packet_def::marked(p, true)),
        packet_def::marked(packet_def::marked(p, true), false) == p,
{
    assert(packet_def::marked(packet_def::marked(p, true), false) =~= p);
}

/// XOR undoes itself.
pub proof fn xor_round_trip(
    c: XorCipher,
    p: Seq<u8>,
    nonce: Option<Seq<u8>>,
    q: Seq<u8>,
    r: Result<(), Error>,
    back: Seq<u8>,
    s: Result<(), Error>,
)
    requires
        packet_def::has_headers(p),
        !packet_def::is_encrypted(p),
        c.encrypts(p, nonce, q, r),
        c.decrypts(q, back, s),
    ensures
        packet_def::is_encrypted(q),
        s is Ok,
        back == p,
{
    let key = c.key@;
    let x = xored_packet(p, key);
    assert(x[33] == p[33]);
    lemma_marks(x);
    let data = packet_def::payload_of(p);
    assert(packet_def::payload_of(q) =~= xored(data, key));
    assert forall|i: int| 0 <= i < data.len() implies #[trigger] xored(xored(data, key), key)[i]
        == data[i] by {
        let a = data[i];
        let b = key[i % 16];
        assert((a ^ b) ^ b == a) by (bit_vector);
    }
    assert(xored(xored(data, key), key) =~= data);
    assert(back =~= p);
}

/// What a cipher with authentication encrypted, it decrypts to the same packet.
pub proof fn aead_round_trip(
    c: AeadCipher,
    p: Seq<u8>,
    nonce: Option<Seq<u8>>,
    q: Seq<u8>,
    r: Result<(), Error>,
    back: Seq<u8>,
    s: Result<(), Error>,
)
    requires
        packet_def::has_headers(p),
        !packet_def::is_encrypted(p),
        c.encrypts(p, nonce, q, r),
        r is Ok,
        c.decrypts(q, back, s),
    ensures
        packet_def::is_encrypted(q),
        s is Ok,
        back == p,
{
    let n = match nonce {
        Some(n) => n,
        None => choose|n: Seq<u8>| n.len() == 12 && #[trigger] c.seals(p, n, q),
    };
    let text = packet_def::payload_of(p);
    let (ciphertext, tag) = c.sealed(n, text);
    let head = packet_def::marked(p.take(40), true);
    lemma_marks(p);
    assert(head.len() == 40 && n.len() == 12);
    assert(q == head + ciphertext + tag + n);
    assert(q[33] == head[33]);
    assert(q.subrange(40, tag_start(q)) =~= ciphertext);
    assert(q.subrange(tag_start(q), tag_start(q) + 16) =~= tag);
    assert(q.subrange(tag_start(q) + 16, q.len() as int) =~= n);
    assert(c.sealed(n, text) == (ciphertext, tag));
    assert(packet_def::payload_of(back) == text);
    assert(packet_def::marked(q.take(40), false) =~= p.take(40));
    assert(back =~= p.take(40) + text);
    assert(back =~= p);
}

/// The encryptor gives back every packet that it encrypted.
pub open spec fn gives_back<E: Encryptor>(e: E) -> bool {
    forall|
        p: Seq<u8>,
        nonce: Option<Seq<u8>>,
        q: Seq<u8>,
        r: Result<(), Error>,
        back: Seq<u8>,
        s: Result<(), Error>,
    |
        packet_def::has_headers(p) && !packet_def::is_encrypted(p) && r is Ok
            && #[trigger] e.encrypts(p, nonce, q, r) && #[trigger] e.decrypts(q, back, s)
            ==> packet_def::is_encrypted(q) && s is Ok && back == p
}

/// Padding does not keep an encryptor from giving packets back.
pub proof fn padding_is_transparent<E: Encryptor>(e: PaddedEncryptor<E>)
    requires
        gives_back(e.inner),
    ensures
        gives_back(e),
{
    assert forall|
        p: Seq<u8>,
        nonce: Option<Seq<u8>>,
        q: Seq<u8>,
        r: Result<(), Error>,
        back: Seq<u8>,
        s: Result<(), Error>,
    |
        packet_def::has_headers(p) && !packet_def::is_encrypted(p) && r is Ok
            && #[trigger] e.encrypts(p, nonce, q, r) && #[trigger] e.decrypts(q, back, s) implies
        packet_def::is_encrypted(q) && s is Ok && back == p by {
        let pad = choose|pad: Seq<u8>|
            pad.len() <= padding::padding_limit(p.len() as int, e.padding_max) && e.inner.encrypts(
                #[trigger] padding::padded(p, pad),
                nonce,
                q,
                r,
            );
        let x = padding::padded(p, pad);
        assert(x[33] == p[33]);
        padding::padding_comes_off(p, pad);
    }
}

/// Every encryptor that can be created gives back what it encrypted, with padding or
/// without.
pub proof fn created_encryptor_gives_back(
    algorithm: Seq<char>,
    key_128: [u8; 16],
    key_256: [u8; 32],
    padding_max: u32,
)
    ensures
        gives_back(cipher_for(algorithm, key_128, key_256)),
        gives_back(
            PaddedEncryptor { inner: cipher_for(algorithm, key_128, key_256), padding_max },
        ),
{
    let c = cipher_for(algorithm, key_128, key_256);
    assert forall|
        p: Seq<u8>,
        nonce: Option<Seq<u8>>,
        q: Seq<u8>,
        r: Result<(), Error>,
        back: Seq<u8>,
        s: Result<(), Error>,
    |
        packet_def::has_headers(p) && !packet_def::is_encrypted(p) && r is Ok
            && #[trigger] c.encrypts(p, nonce, q, r) && #[trigger] c.decrypts(q, back, s) implies
        packet_def::is_encrypted(q) && s is Ok && back == p by {
        match c {
            Cipher::Xor(x) => xor_round_trip(x, p, nonce, q, r, back, s),
            Cipher::Aead(a) => aead_round_trip(a, p, nonce, q, r, back, s),
        }
    }
    padding_is_transparent(PaddedEncryptor { inner: c, padding_max });
}

} // verus!

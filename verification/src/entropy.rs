//! Random numbers.

use rand::RngCore;
use vstd::prelude::*;

verus! {

/// `len` random bytes.
///
/// Trusted: `fill_bytes` of `rand::thread_rng()` overwrites every byte of the slice it
/// is given and leaves its length alone. Nothing is claimed of the bytes themselves.
#[verifier::external_body]
pub(crate) fn random_bytes(len: usize) -> (r: Vec<u8>)
    ensures
        r@.len() == len,
{
    let mut out = vec![0u8; len];
    rand::thread_rng().fill_bytes(&mut out);
    out
}

/// A random 32-bit number.
///
/// Trusted: `next_u32` of `rand::thread_rng()` returns. Nothing is claimed of the value.
#[verifier::external_body]
pub(crate) fn random_u32() -> (r: u32) {
    rand::thread_rng().next_u32()
}

/// A random 16-bit number.
pub(crate) fn random_u16() -> (r: u16) {
    (random_u32() % 0x10000) as u16
}

/// A random byte.
pub(crate) fn random_u8() -> (r: u8) {
    (random_u32() % 0x100) as u8
}

/// Four random bytes.
pub(crate) fn random_key4() -> (r: [u8; 4]) {
    let b = random_bytes(4);
    key4_of(&b)
}

/// Four bytes as an array.
pub(crate) fn key4_of(b: &Vec<u8>) -> (r: [u8; 4])
    requires
        b@.len() == 4,
    ensures
        r@ == b@,
{
    let r = [b[0], b[1], b[2], b[3]];
    assert(r@ =~= b@);
    r
}

} // verus!

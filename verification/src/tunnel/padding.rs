//! Padding of random length, so that lengths tell less about what is sent.

use crate::entropy::{random_bytes, random_u32};
use crate::peers::encrypt::Error;
use crate::tunnel::packet_def;
use crate::tunnel::packet_def::ZCPacket;
use crate::wire;
use crate::wire::{append_le16, copy_range, read_le16};
use vstd::prelude::*;

verus! {

/// The length of the padding stands behind it, in so many bytes.
pub const PADDING_LEN_SUFFIX_SIZE: usize = 2;

/// So much padding is added at most, unless configured otherwise.
pub const DEFAULT_PADDING_MAX: u32 = 128;

/// Padding never makes a packet longer than this, so that no frame outgrows a path that
/// carries 1400 bytes: 20 bytes of IP header, 32 of TCP header with timestamps, 10 of
/// disguise and 28 of authentication leave 1310, and a packet from the interface is 16
/// bytes longer than what travels.
pub const PADDING_TOTAL_BUDGET: usize = 1326;

/// The configured limit, or the default.
pub fn effective_padding_max(config_value: u32) -> (r: u32)
    ensures
        r == if config_value == 0 {
            128
        } else {
            config_value
        },
{
    if config_value == 0 {
        DEFAULT_PADDING_MAX
    } else {
        config_value
    }
}

/// How much padding a packet of `len` bytes gets at most.
pub open spec fn padding_limit(len: int, max_padding: u32) -> int {
    let clamped = if max_padding <= 0xffff { max_padding as int } else { 0xffff };
    let available = if len + 2 <= 1326 { 1326 - len - 2 } else { 0 };
    if clamped <= available {
        clamped
    } else {
        available
    }
}

/// The packet `p` with the padding `pad` behind it.
pub open spec fn padded(p: Seq<u8>, pad: Seq<u8>) -> Seq<u8> {
    p + pad + wire::le16(pad.len() as int)
}

/// How much padding `pick` stands for.
pub open spec fn padding_len_for(len: int, max_padding: u32, pick: u32) -> int {
    pick as int % (padding_limit(len, max_padding) + 1)
}

fn exec_padding_limit(len: usize, max_padding: u32) -> (r: u32)
    ensures
        r == padding_limit(len as int, max_padding),
        r <= 1324,
{
    let clamped: u32 = if max_padding <= 0xffff {
        max_padding
    } else {
        0xffff
    };
    let available: usize = if len < PADDING_TOTAL_BUDGET - PADDING_LEN_SUFFIX_SIZE {
        PADDING_TOTAL_BUDGET - PADDING_LEN_SUFFIX_SIZE - len
    } else {
        0
    };
    if clamped as usize <= available {
        clamped
    } else {
        available as u32
    }
}

/// Adds the padding that `pick` stands for, taken from the front of `noise`.
pub fn add_padding_from(pkt: &mut ZCPacket, max_padding: u32, pick: u32, noise: &[u8])
    requires
        padding_len_for(old(pkt)@.len() as int, max_padding, pick) <= noise@.len(),
    ensures
        final(pkt)@ == padded(
            old(pkt)@,
            noise@.take(padding_len_for(old(pkt)@.len() as int, max_padding, pick)),
        ),
{
    let limit: u32 = exec_padding_limit(pkt.buf_len(), max_padding);
    let padding_len: u32 = pick % (limit + 1);
    let mut pad = copy_range(noise, 0, padding_len as usize);
    let ghost taken = pad@;
    assert(taken =~= noise@.take(padding_len as int));
    let inner = pkt.mut_inner();
    inner.append(&mut pad);
    append_le16(inner, padding_len as u16);
}

/// Adds padding of a random length with random contents, at most `max_padding` bytes and
/// no more than the budget leaves, and its length behind it.
pub fn add_padding(pkt: &mut ZCPacket, max_padding: u32)
    ensures
        exists|pad: Seq<u8>|
            pad.len() <= padding_limit(old(pkt)@.len() as int, max_padding) && final(pkt)@
                == #[trigger] padded(old(pkt)@, pad),
{
    let limit: u32 = exec_padding_limit(pkt.buf_len(), max_padding);
    let pick: u32 = random_u32();
    let padding_len: u32 = pick % (limit + 1);
    let noise = random_bytes(padding_len as usize);
    add_padding_from(pkt, max_padding, pick, noise.as_slice());
    assert(pkt@ == padded(old(pkt)@, noise@.take(padding_len as int)));
}

/// The packet `p` ends in padding: where that begins.
pub open spec fn padding_start(p: Seq<u8>) -> Option<int> {
    let payload_len = p.len() - 40;
    if payload_len < 2 {
        None
    } else {
        let pad = wire::from_le16(p.subrange(p.len() - 2, p.len() as int));
        if payload_len < pad + 2 {
            None
        } else {
            Some(p.len() - pad - 2)
        }
    }
}

/// Takes the padding off. A packet whose payload cannot hold it is left as it is.
pub fn remove_padding(pkt: &mut ZCPacket) -> (r: Result<(), Error>)
    requires
        old(pkt).well_formed(),
    ensures
        final(pkt).well_formed(),
        match padding_start(old(pkt)@) {
            Some(n) => r is Ok && final(pkt)@ == old(pkt)@.take(n),
            None => r == Err::<(), Error>(
                Error::PacketTooShort((old(pkt)@.len() - 40) as usize),
            ) && final(pkt)@ == old(pkt)@,
        },
{
    let payload_len: usize = pkt.payload_len();
    if payload_len < PADDING_LEN_SUFFIX_SIZE {
        return Err(Error::PacketTooShort(payload_len));
    }
    let buf_len: usize = pkt.buf_len();
    let inner = pkt.mut_inner();
    let padding_len: usize = read_le16(inner.as_slice(), buf_len - 2) as usize;
    let total_overhead: usize = padding_len + PADDING_LEN_SUFFIX_SIZE;
    if payload_len < total_overhead {
        return Err(Error::PacketTooShort(payload_len));
    }
    inner.truncate(buf_len - total_overhead);
    assert(inner@ =~= old(pkt)@.take(buf_len - total_overhead));
    Ok(())
}

/// Padding that was added comes off again, whatever it holds.
pub proof fn padding_comes_off(p: Seq<u8>, pad: Seq<u8>)
    requires
        packet_def::has_headers(p),
        pad.len() <= 0xffff,
    ensures
        padding_start(padded(p, pad)) == Some(p.len() as int),
        padded(p, pad).take(p.len() as int) == p,
{
    let q = padded(p, pad);
    assert(q.subrange(q.len() - 2, q.len() as int) =~= wire::le16(pad.len() as int));
    wire::wire_integers_round_trip(pad.len() as int);
    assert(q.take(p.len() as int) =~= p);
}

/// A padded packet stays within the budget, and one that was beyond it grows by the length
/// of its padding alone.
pub proof fn padding_respects_the_budget(p: Seq<u8>, pad: Seq<u8>, max_padding: u32)
    requires
        pad.len() <= padding_limit(p.len() as int, max_padding),
    ensures
        p.len() <= 1324 ==> padded(p, pad).len() <= PADDING_TOTAL_BUDGET,
        p.len() > 1324 ==> padded(p, pad).len() == p.len() + 2,
        pad.len() <= max_padding,
{
}

/// A padded packet, authenticated, disguised and wrapped into an IPv4 segment, fits a path
/// that carries 1400 bytes.
pub proof fn padded_frame_fits_the_path(p: Seq<u8>, pad: Seq<u8>, max_padding: u32, disguise: int)
    requires
        p.len() <= 1324,
        pad.len() <= padding_limit(p.len() as int, max_padding),
        0 <= disguise <= 10,
    ensures
        padded(p, pad).len() - 16 + 28 + disguise + 20 + 32 <= 1400,
{
}

} // verus!

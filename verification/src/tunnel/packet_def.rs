//! Packets as they travel between peers: room for a transport's header, the peer
//! manager's header, and a payload.

use crate::wire;
use crate::wire::{append, read_le32};
use vstd::prelude::*;
use vstd::slice::*;

verus! {

/// The length that a stream transport writes before each packet.
pub const TCP_TUNNEL_HEADER_SIZE: usize = 4;

/// Who sends a packet to whom, and what it is.
pub const PEER_MANAGER_HEADER_SIZE: usize = 16;

/// Where the payload of a packet from the network interface begins.
pub const PAYLOAD_OFFSET_FOR_NIC: usize = 40;

/// Where the peer manager's header of such a packet begins.
pub const PEER_MANAGER_HEADER_OFFSET: usize = 24;

/// What a packet is.
#[derive(Debug, Clone, Copy, PartialEq, Eq, Structural)]
pub enum PacketType {
    Invalid,
    Data,
}

impl PacketType {
    /// The number that stands for the type in the header.
    pub fn number(self) -> (r: u8)
        ensures
            r == match self {
                PacketType::Invalid => 0u8,
                PacketType::Data => 1,
            },
    {
        match self {
            PacketType::Invalid => 0,
            PacketType::Data => 1,
        }
    }
}

/// The peer manager's header.
#[derive(Debug, Clone, Copy, PartialEq, Eq, Structural)]
pub struct PeerManagerHeader {
    pub from_peer_id: u32,
    pub to_peer_id: u32,
    pub packet_type: u8,
    pub flags: u8,
    pub forward_counter: u8,
    pub len: u32,
}

/// The lowest flag: the payload is encrypted.
pub open spec fn flag_encrypted(flags: u8) -> bool {
    flags % 2 == 1
}

impl PeerManagerHeader {
    /// Whether the payload is encrypted.
    pub fn is_encrypted(&self) -> (r: bool)
        ensures
            r == flag_encrypted(self.flags),
    {
        self.flags % 2 == 1
    }
}

/// The header's bytes.
pub open spec fn header_bytes(from: u32, to: u32, packet_type: u8, flags: u8, forward_counter: u8, len: int) -> Seq<
    u8,
> {
    wire::le32(from as int) + wire::le32(to as int) + seq![packet_type, flags, forward_counter, 0u8]
        + wire::le32(len)
}

/// A packet from the network interface.
#[derive(Debug, Clone)]
pub struct ZCPacket {
    inner: Vec<u8>,
}

impl View for ZCPacket {
    type V = Seq<u8>;

    closed spec fn view(&self) -> Seq<u8> {
        self.inner@
    }
}

/// The flags in the header of the packet `p`.
pub open spec fn flags_of(p: Seq<u8>) -> u8 {
    p[33]
}

/// The packet `p` is marked as encrypted.
pub open spec fn is_encrypted(p: Seq<u8>) -> bool {
    flag_encrypted(flags_of(p))
}

/// The packet `p`, marked as encrypted or not.
pub open spec fn marked(p: Seq<u8>, encrypted: bool) -> Seq<u8> {
    p.update(33, (flags_of(p) - flags_of(p) % 2 + if encrypted { 1int } else { 0 }) as u8)
}

/// The payload of the packet `p`.
pub open spec fn payload_of(p: Seq<u8>) -> Seq<u8> {
    p.skip(40)
}

/// The packet `p` has room for its headers.
pub open spec fn has_headers(p: Seq<u8>) -> bool {
    p.len() >= 40
}

impl ZCPacket {
    /// The packet has room for its headers.
    pub open spec fn well_formed(&self) -> bool {
        has_headers(self@)
    }

    /// A packet with an empty header.
    pub fn new_with_payload(payload: &[u8]) -> (r: Self)
        ensures
            r.well_formed(),
            r@ == Seq::new(40, |i: int| 0u8) + payload@,
    {
        let mut inner: Vec<u8> = vec![0u8; 40];
        append(&mut inner, payload);
        let r = ZCPacket { inner };
        assert(r@ =~= Seq::new(40, |i: int| 0u8) + payload@);
        r
    }

    /// The length of the packet with its headers.
    pub fn buf_len(&self) -> (r: usize)
        ensures
            r == self@.len(),
    {
        self.inner.len()
    }

    /// The length of the payload.
    pub fn payload_len(&self) -> (r: usize)
        requires
            self.well_formed(),
        ensures
            r == payload_of(self@).len(),
    {
        self.inner.len() - PAYLOAD_OFFSET_FOR_NIC
    }

    /// The payload.
    pub fn payload(&self) -> (r: &[u8])
        requires
            self.well_formed(),
        ensures
            r@ == payload_of(self@),
    {
        let n: usize = self.inner.len();
        let r = slice_subrange(self.inner.as_slice(), PAYLOAD_OFFSET_FOR_NIC, n);
        assert(r@ =~= payload_of(self@));
        r
    }

    /// The bytes of the packet.
    pub fn mut_inner(&mut self) -> (r: &mut Vec<u8>)
        ensures
            r@ == old(self)@,
            final(self)@ == final(r)@,
    {
        &mut self.inner
    }

    /// Writes the header: the flags are cleared, the packet was forwarded once.
    pub fn fill_peer_manager_hdr(&mut self, from: u32, to: u32, packet_type: u8)
        requires
            old(self).well_formed(),
        ensures
            final(self).well_formed(),
            final(self)@ == old(self)@.take(24) + header_bytes(
                from,
                to,
                packet_type,
                0,
                1,
                payload_of(old(self)@).len() as int,
            ) + payload_of(old(self)@),
    {
        let ghost before = self.inner@;
        let payload_len: u64 = (self.inner.len() - PAYLOAD_OFFSET_FOR_NIC) as u64;
        let len: u32 = (payload_len % 0x1_0000_0000) as u32;
        self.put_le32(24, from);
        self.put_le32(28, to);
        self.inner[32] = packet_type;
        self.inner[33] = 0;
        self.inner[34] = 1;
        self.inner[35] = 0;
        self.put_le32(36, len);
        proof {
            wire::le32_drops_high_bits(payload_len as int);
        }
        assert(self.inner@ =~= before.take(24) + header_bytes(
            from,
            to,
            packet_type,
            0,
            1,
            payload_of(before).len() as int,
        ) + payload_of(before));
    }

    fn put_le32(&mut self, at: usize, n: u32)
        requires
            at + 4 <= old(self)@.len(),
        ensures
            final(self)@ == old(self)@.update(at as int, wire::le32(n as int)[0]).update(
                at + 1,
                wire::le32(n as int)[1],
            ).update(at + 2, wire::le32(n as int)[2]).update(at + 3, wire::le32(n as int)[3]),
    {
        let end: usize = self.inner.len();
        assert(at + 4 <= end);
        self.inner[at] = (n % 0x100) as u8;
        self.inner[at + 1] = (n / 0x100 % 0x100) as u8;
        self.inner[at + 2] = (n / 0x10000 % 0x100) as u8;
        self.inner[at + 3] = (n / 0x1000000 % 0x100) as u8;
    }

    /// The header.
    pub fn peer_manager_header(&self) -> (r: Option<PeerManagerHeader>)
        ensures
            r is Some == self.well_formed(),
            r matches Some(h) ==> {
                &&& h.from_peer_id == wire::from_le32(self@.subrange(24, 28))
                &&& h.to_peer_id == wire::from_le32(self@.subrange(28, 32))
                &&& h.packet_type == self@[32]
                &&& h.flags == flags_of(self@)
                &&& h.forward_counter == self@[34]
                &&& h.len == wire::from_le32(self@.subrange(36, 40))
            },
    {
        if self.inner.len() < PAYLOAD_OFFSET_FOR_NIC {
            return None;
        }
        let b = self.inner.as_slice();
        Some(
            PeerManagerHeader {
                from_peer_id: read_le32(b, 24),
                to_peer_id: read_le32(b, 28),
                packet_type: b[32],
                flags: b[33],
                forward_counter: b[34],
                len: read_le32(b, 36),
            },
        )
    }

    /// Marks the packet as encrypted or not.
    pub fn set_encrypted(&mut self, encrypted: bool)
        requires
            old(self).well_formed(),
        ensures
            final(self).well_formed(),
            final(self)@ == marked(old(self)@, encrypted),
    {
        let flags: u8 = self.inner[33];
        let cleared: u8 = flags - flags % 2;
        self.inner[33] = if encrypted {
            cleared + 1
        } else {
            cleared
        };
    }
}

/// What was filled in is read back.
pub proof fn filled_header_reads_back(p: Seq<u8>, from: u32, to: u32, packet_type: u8)
    requires
        has_headers(p),
        payload_of(p).len() < 0x1_0000_0000,
    ensures
        ({
            let q = p.take(24) + header_bytes(
                from,
                to,
                packet_type,
                0,
                1,
                payload_of(p).len() as int,
            ) + payload_of(p);
            &&& wire::from_le32(q.subrange(24, 28)) == from
            &&& wire::from_le32(q.subrange(28, 32)) == to
            &&& q[32] == packet_type
            &&& !is_encrypted(q)
            &&& wire::from_le32(q.subrange(36, 40)) == payload_of(p).len()
            &&& payload_of(q) == payload_of(p)
        }),
{
    let n = payload_of(p).len() as int;
    let q = p.take(24) + header_bytes(from, to, packet_type, 0, 1, n) + payload_of(p);
    assert(q.subrange(24, 28) =~= wire::le32(from as int));
    assert(q.subrange(28, 32) =~= wire::le32(to as int));
    assert(q.subrange(36, 40) =~= wire::le32(n));
    assert(payload_of(q) =~= payload_of(p));
    wire::le32_reads_back(from as int);
    wire::le32_reads_back(to as int);
    wire::le32_reads_back(n);
}

} // verus!

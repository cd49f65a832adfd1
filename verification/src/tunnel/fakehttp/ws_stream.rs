//! A byte stream carried in binary WebSocket frames.
//!
//! As in the TLS stream, the types here decide and the owner of the stream reads and
//! writes.

use crate::tunnel::disguise_protocol;
use crate::tunnel::disguise_protocol::{encode_ws_frame, encode_ws_frame_with, ws_apply_mask};
use crate::tunnel::fakehttp::send_queue::{FlushStep, SendQueue, WriteStep};
use crate::wire;
use crate::wire::{append, read_be16, read_be64};
use vstd::prelude::*;

verus! {

/// Writes a byte stream as WebSocket frames; a client masks its frames.
pub struct WsFrameWriter {
    is_client: bool,
    queue: SendQueue,
}

impl WsFrameWriter {
    /// The bytes that the stream has not taken yet.
    pub closed spec fn unsent(self) -> Seq<u8> {
        self.queue.unsent()
    }

    /// How many bytes of the caller's data the pending frame carries.
    pub closed spec fn credit(self) -> nat {
        self.queue.credit()
    }

    /// The writer is on the client's side.
    pub closed spec fn client(self) -> bool {
        self.is_client
    }

    pub closed spec fn well_formed(self) -> bool {
        self.queue.well_formed()
    }

    /// A writer with nothing pending.
    pub fn new(is_client: bool) -> (r: Self)
        ensures
            r.well_formed(),
            r.client() == is_client,
            r.unsent() == Seq::<u8>::empty(),
            r.credit() == 0,
    {
        WsFrameWriter { is_client, queue: SendQueue::new() }
    }

    /// Whether a frame is pending.
    pub fn has_pending(&self) -> (r: bool)
        requires
            self.well_formed(),
        ensures
            r == (self.unsent().len() > 0),
    {
        self.queue.has_pending()
    }

    /// The bytes to hand to the stream.
    pub fn pending(&self) -> (r: &[u8])
        requires
            self.well_formed(),
        ensures
            r@ == self.unsent(),
    {
        self.queue.pending()
    }

    /// Begins to write `buf`. A frame that is still pending goes first, and `buf` waits.
    /// Otherwise the whole of `buf` becomes one frame.
    pub fn begin_write(&mut self, buf: &[u8]) -> (r: WriteStep)
        requires
            old(self).well_formed(),
        ensures
            final(self).well_formed(),
            final(self).client() == old(self).client(),
            old(self).unsent().len() > 0 ==> r == WriteStep::Send && *final(self) == *old(self),
            old(self).unsent().len() == 0 && buf@.len() == 0 ==> r == WriteStep::Done(0)
                && *final(self) == *old(self),
            old(self).unsent().len() == 0 && buf@.len() > 0 ==> {
                &&& r == WriteStep::Send
                &&& final(self).credit() == buf@.len()
                &&& old(self).client() ==> exists|key: Seq<u8>|
                    key.len() == 4 && final(self).unsent() == #[trigger] disguise_protocol::ws_frame(
                        buf@,
                        Some(key),
                    )
                &&& !old(self).client() ==> final(self).unsent() == disguise_protocol::ws_frame(
                    buf@,
                    None,
                )
            },
    {
        if self.queue.has_pending() {
            return WriteStep::Send;
        }
        if buf.is_empty() {
            return WriteStep::Done(0);
        }
        let frame = encode_ws_frame(buf, self.is_client);
        self.queue.load(frame, buf.len());
        WriteStep::Send
    }

    /// As `begin_write`, with the mask chosen by the caller.
    pub fn begin_write_with(&mut self, buf: &[u8], mask_key: Option<[u8; 4]>) -> (r: WriteStep)
        requires
            old(self).well_formed(),
        ensures
            final(self).well_formed(),
            final(self).client() == old(self).client(),
            old(self).unsent().len() > 0 ==> r == WriteStep::Send && *final(self) == *old(self),
            old(self).unsent().len() == 0 && buf@.len() == 0 ==> r == WriteStep::Done(0)
                && *final(self) == *old(self),
            old(self).unsent().len() == 0 && buf@.len() > 0 ==> {
                &&& r == WriteStep::Send
                &&& final(self).credit() == buf@.len()
                &&& final(self).unsent() == disguise_protocol::ws_frame(
                    buf@,
                    match mask_key {
                        Some(key) => Some(key@),
                        None => None,
                    },
                )
            },
    {
        if self.queue.has_pending() {
            return WriteStep::Send;
        }
        if buf.is_empty() {
            return WriteStep::Done(0);
        }
        let frame = encode_ws_frame_with(buf, mask_key);
        self.queue.load(frame, buf.len());
        WriteStep::Send
    }

    /// The stream took `n` of the pending bytes during a write.
    pub fn wrote(&mut self, n: usize) -> (r: WriteStep)
        requires
            old(self).well_formed(),
            old(self).unsent().len() > 0,
        ensures
            final(self).well_formed(),
            final(self).client() == old(self).client(),
            n == 0 ==> r == WriteStep::WriteZero && *final(self) == *old(self),
            0 < n < old(self).unsent().len() ==> {
                &&& r == WriteStep::Send
                &&& final(self).unsent() == old(self).unsent().skip(n as int)
                &&& final(self).credit() == old(self).credit()
            },
            n > 0 && n >= old(self).unsent().len() ==> {
                &&& r == WriteStep::Done(old(self).credit() as usize)
                &&& final(self).unsent().len() == 0
                &&& final(self).credit() == 0
            },
    {
        self.queue.wrote(n)
    }

    /// The first step of a flush.
    pub fn begin_flush(&mut self) -> (r: FlushStep)
        requires
            old(self).well_formed(),
        ensures
            *final(self) == *old(self),
            r == if old(self).unsent().len() > 0 {
                FlushStep::Send
            } else {
                FlushStep::FlushStream
            },
    {
        self.queue.begin_flush()
    }

    /// The stream took `n` of the pending bytes during a flush.
    pub fn flushed(&mut self, n: usize) -> (r: FlushStep)
        requires
            old(self).well_formed(),
            old(self).unsent().len() > 0,
        ensures
            final(self).well_formed(),
            final(self).client() == old(self).client(),
            n == 0 ==> r == FlushStep::WriteZero && *final(self) == *old(self),
            0 < n < old(self).unsent().len() ==> {
                &&& r == FlushStep::Send
                &&& final(self).unsent() == old(self).unsent().skip(n as int)
                &&& final(self).credit() == old(self).credit()
            },
            n > 0 && n >= old(self).unsent().len() ==> {
                &&& r == FlushStep::FlushStream
                &&& final(self).unsent().len() == 0
                &&& final(self).credit() == 0
            },
    {
        self.queue.flushed(n)
    }
}

/// Where a reader stands in the frame stream.
pub enum WsPosition {
    /// In a header, of which these bytes were read.
    Header(Seq<u8>),
    /// In a payload: bytes still to come, the mask if there is one, and how many bytes
    /// of the payload were read.
    Payload { remaining: int, key: Option<Seq<u8>>, offset: int },
}

/// How long the header is, as far as its first bytes tell.
pub open spec fn header_target(h: Seq<u8>) -> int {
    if h.len() < 2 {
        2
    } else {
        disguise_protocol::ws_header_len(h)
    }
}

/// The frame is a control frame.
pub open spec fn is_control(h: Seq<u8>) -> bool {
    h[0] % 16 >= 8
}

/// The mask in a complete header.
pub open spec fn header_key(h: Seq<u8>) -> Option<Seq<u8>> {
    if disguise_protocol::ws_has_mask(h) {
        let at = disguise_protocol::ws_length_end(h);
        Some(h.subrange(at, at + 4))
    } else {
        None
    }
}

/// `data` without the mask, `offset` bytes into the payload.
pub open spec fn unmask(data: Seq<u8>, key: Option<Seq<u8>>, offset: int) -> Seq<u8> {
    match key {
        Some(k) => disguise_protocol::ws_masked(data, k, offset % 4),
        None => data,
    }
}

/// What follows from a position without reading: a complete header of a data frame opens
/// its payload, and what is empty gives way to the next header. A complete header of a
/// control frame with a payload stays until that payload was drained.
pub open spec fn ws_settled(p: WsPosition) -> WsPosition {
    match p {
        WsPosition::Header(h) => {
            if h.len() < header_target(h) {
                p
            } else if disguise_protocol::ws_payload_len(h) == 0 {
                WsPosition::Header(Seq::empty())
            } else if is_control(h) {
                p
            } else {
                WsPosition::Payload {
                    remaining: disguise_protocol::ws_payload_len(h),
                    key: header_key(h),
                    offset: 0,
                }
            }
        },
        WsPosition::Payload { remaining, .. } => {
            if remaining == 0 {
                WsPosition::Header(Seq::empty())
            } else {
                p
            }
        },
    }
}

/// The part of a frame in which a stream ended.
#[derive(Debug, Clone, Copy, PartialEq, Eq, Structural)]
pub enum WsPart {
    Header,
    Control,
    Payload,
}

/// What a reader does next.
#[derive(Debug, Clone, PartialEq, Eq)]
pub enum WsReadStep {
    /// Give these bytes to the caller; none at all means the end of the stream or a
    /// caller without room.
    Deliver(Vec<u8>),
    /// Read at most so many bytes of a header; report with `on_header`.
    ReadHeader(usize),
    /// Read and drop at most so many bytes of a control frame; report with `on_drained`.
    Drain(usize),
    /// Read at most so many bytes of a payload; report with `on_payload`.
    ReadPayload(usize),
    /// Call `begin_read` again at once.
    Continue,
    /// Nothing to deliver yet: ask again.
    Retry,
    /// The stream ended inside a frame.
    Truncated(WsPart),
}

/// The first two bytes of a header fix its length.
proof fn lemma_target_stable(h: Seq<u8>, more: Seq<u8>)
    requires
        h.len() >= 2,
    ensures
        header_target(h + more) == header_target(h),
{
}

/// Reads a byte stream out of WebSocket frames.
pub struct WsFrameReader {
    in_payload: bool,
    hdr: Vec<u8>,
    remaining_payload: u64,
    mask_key: [u8; 4],
    has_mask: bool,
    mask_offset: u64,
}

impl WsFrameReader {
    /// Where the reader stands in the frame stream.
    pub closed spec fn position(self) -> WsPosition {
        if self.in_payload {
            WsPosition::Payload {
                remaining: self.remaining_payload as int,
                key: if self.has_mask {
                    Some(self.mask_key@)
                } else {
                    None
                },
                offset: self.mask_offset as int,
            }
        } else {
            WsPosition::Header(self.hdr@)
        }
    }

    pub open spec fn well_formed(self) -> bool {
        &&& possible(self.position())
        &&& self.position() matches WsPosition::Payload { remaining, offset, .. } ==> remaining
            + offset <= u64::MAX
    }

    /// A reader in front of the first frame.
    pub fn new() -> (r: Self)
        ensures
            r.well_formed(),
            r.position() == WsPosition::Header(Seq::empty()),
    {
        WsFrameReader {
            in_payload: false,
            hdr: Vec::new(),
            remaining_payload: 0,
            mask_key: [0u8; 4],
            has_mask: false,
            mask_offset: 0,
        }
    }

    /// Stands in front of the next frame.
    fn reset_for_next_frame(&mut self)
        ensures
            final(self).well_formed(),
            final(self).position() == WsPosition::Header(Seq::empty()),
    {
        self.in_payload = false;
        self.hdr = Vec::new();
        self.remaining_payload = 0;
        self.has_mask = false;
        self.mask_offset = 0;
    }

    fn header_len(&self) -> (r: usize)
        ensures
            r == header_target(self.hdr@),
            2 <= r <= 14,
    {
        if self.hdr.len() < 2 {
            return 2;
        }
        let code: u8 = self.hdr[1] % 0x80;
        let ext_len: usize = if code <= 125 {
            0
        } else if code == 126 {
            2
        } else {
            8
        };
        let mask_len: usize = if self.hdr[1] >= 0x80 { 4 } else { 0 };
        2 + ext_len + mask_len
    }

    fn announced_len(&self) -> (r: u64)
        requires
            self.hdr@.len() >= 2,
            self.hdr@.len() >= header_target(self.hdr@),
        ensures
            r == disguise_protocol::ws_payload_len(self.hdr@),
    {
        let code: u8 = self.hdr[1] % 0x80;
        if code <= 125 {
            code as u64
        } else if code == 126 {
            read_be16(self.hdr.as_slice(), 2) as u64
        } else {
            read_be64(self.hdr.as_slice(), 2)
        }
    }

    /// Leaves the header of a data frame for its payload.
    fn open_payload(&mut self, payload_len: u64)
        requires
            !old(self).in_payload,
            old(self).hdr@.len() >= 2,
            old(self).hdr@.len() >= header_target(old(self).hdr@),
        ensures
            final(self).well_formed(),
            final(self).position() == (WsPosition::Payload {
                remaining: payload_len as int,
                key: header_key(old(self).hdr@),
                offset: 0,
            }),
    {
        let code: u8 = self.hdr[1] % 0x80;
        self.has_mask = self.hdr[1] >= 0x80;
        if self.has_mask {
            let start: usize = if code <= 125 {
                2
            } else if code == 126 {
                4
            } else {
                10
            };
            self.mask_key = [
                self.hdr[start],
                self.hdr[start + 1],
                self.hdr[start + 2],
                self.hdr[start + 3],
            ];
            assert(self.mask_key@ =~= self.hdr@.subrange(start as int, start + 4));
        }
        self.remaining_payload = payload_len;
        self.mask_offset = 0;
        self.in_payload = true;
    }

    /// The next step of a read into a buffer with `room` bytes left.
    pub fn begin_read(&mut self, room: usize) -> (r: WsReadStep)
        requires
            old(self).well_formed(),
        ensures
            final(self).well_formed(),
            final(self).position() == ws_settled(old(self).position()),
            match ws_settled(old(self).position()) {
                WsPosition::Header(h) => {
                    if h.len() < header_target(h) {
                        r == WsReadStep::ReadHeader((header_target(h) - h.len()) as usize)
                    } else {
                        r == WsReadStep::Drain(drain_size(disguise_protocol::ws_payload_len(h)) as usize)
                    }
                },
                WsPosition::Payload { remaining, key, .. } => {
                    if room == 0 {
                        r matches WsReadStep::Deliver(out) && out@.len() == 0
                    } else {
                        r == WsReadStep::ReadPayload(payload_size(remaining, room as int, key is Some) as usize)
                    }
                },
            },
    {
        if self.in_payload && self.remaining_payload == 0 {
            self.reset_for_next_frame();
            return WsReadStep::ReadHeader(2);
        }
        if !self.in_payload {
            let target: usize = self.header_len();
            if self.hdr.len() < target {
                return WsReadStep::ReadHeader(target - self.hdr.len());
            }
            let payload_len: u64 = self.announced_len();
            if payload_len == 0 {
                self.reset_for_next_frame();
                return WsReadStep::ReadHeader(2);
            }
            if self.hdr[0] % 0x10 >= 0x08 {
                let to_drain: usize = if payload_len < 125 { payload_len as usize } else { 125 };
                return WsReadStep::Drain(to_drain);
            }
            self.open_payload(payload_len);
        }
        if room == 0 {
            return WsReadStep::Deliver(Vec::new());
        }
        let mut size: usize = room;
        if self.remaining_payload < size as u64 {
            size = self.remaining_payload as usize;
        }
        if self.has_mask && size > 4096 {
            size = 4096;
        }
        WsReadStep::ReadPayload(size)
    }

    /// A read that `ReadHeader` asked for brought `data`.
    pub fn on_header(&mut self, data: &[u8]) -> (r: WsReadStep)
        requires
            old(self).well_formed(),
            old(self).position() matches WsPosition::Header(h) && h.len() + data@.len()
                <= header_target(h) && h.len() < header_target(h),
        ensures
            final(self).well_formed(),
            old(self).position() matches WsPosition::Header(h) && {
                &&& data@.len() == 0 ==> end_step(old(self).position(), r) && *final(self) == *old(
                    self,
                )
                &&& data@.len() > 0 ==> r == WsReadStep::Continue && final(self).position()
                    == WsPosition::Header(h + data@)
            },
    {
        if data.len() == 0 {
            return if self.hdr.len() == 0 {
                WsReadStep::Deliver(Vec::new())
            } else {
                WsReadStep::Truncated(WsPart::Header)
            };
        }
        let ghost h = self.hdr@;
        append(&mut self.hdr, data);
        proof {
            if h.len() >= 2 {
                lemma_target_stable(h, data@);
            }
        }
        WsReadStep::Continue
    }

    /// A read that `Drain` asked for brought `n` bytes, which were dropped. A control
    /// frame that one read does not drain whole is drained again from its full length.
    pub fn on_drained(&mut self, n: usize) -> (r: WsReadStep)
        requires
            old(self).well_formed(),
            old(self).position() matches WsPosition::Header(h) && h.len() == header_target(h)
                && is_control(h) && n <= drain_size(disguise_protocol::ws_payload_len(h)),
        ensures
            final(self).well_formed(),
            old(self).position() matches WsPosition::Header(h) && {
                let len = disguise_protocol::ws_payload_len(h);
                &&& n == 0 ==> end_step(old(self).position(), r)
                &&& 0 < n < len ==> r == WsReadStep::Retry
                &&& n < len || n == 0 ==> *final(self) == *old(self)
                &&& 0 < n && n == len ==> r == WsReadStep::Continue && final(self).position()
                    == WsPosition::Header(Seq::empty())
            },
    {
        if n == 0 {
            return WsReadStep::Truncated(WsPart::Control);
        }
        if (n as u64) < self.announced_len() {
            return WsReadStep::Retry;
        }
        self.reset_for_next_frame();
        WsReadStep::Continue
    }

    /// A read that `ReadPayload` asked for brought `data`.
    pub fn on_payload(&mut self, data: &[u8]) -> (r: WsReadStep)
        requires
            old(self).well_formed(),
            old(self).position() matches WsPosition::Payload { remaining, .. } && data@.len()
                <= remaining,
        ensures
            final(self).well_formed(),
            old(self).position() matches WsPosition::Payload { remaining, key, offset } && {
                &&& data@.len() == 0 ==> end_step(old(self).position(), r) && *final(self) == *old(
                    self,
                )
                &&& data@.len() > 0 ==> {
                    &&& r matches WsReadStep::Deliver(out) && out@ == unmask(data@, key, offset)
                    &&& final(self).position() == (WsPosition::Payload {
                        remaining: remaining - data@.len(),
                        key,
                        offset: offset + data@.len(),
                    })
                }
            },
    {
        let n: usize = data.len();
        if n == 0 {
            return WsReadStep::Truncated(WsPart::Payload);
        }
        let out: Vec<u8> = if self.has_mask {
            ws_apply_mask(data, &self.mask_key, (self.mask_offset % 4) as usize)
        } else {
            vstd::slice::slice_to_vec(data)
        };
        self.remaining_payload -= n as u64;
        self.mask_offset += n as u64;
        WsReadStep::Deliver(out)
    }
}

/// How much of a control frame one read drains.
pub open spec fn drain_size(len: int) -> int {
    if len < 125 {
        len
    } else {
        125
    }
}

/// How much of a payload one read asks for; masked payload passes through a buffer.
pub open spec fn payload_size(remaining: int, room: int, masked: bool) -> int {
    let n = if remaining < room { remaining } else { room };
    if masked && n > 4096 {
        4096
    } else {
        n
    }
}

/// The part of a frame in which the stream ends if it ends at a settled position; `None`
/// between two frames.
pub open spec fn ended_inside(p: WsPosition) -> Option<WsPart> {
    match p {
        WsPosition::Header(h) => if h.len() == 0 {
            None
        } else if h.len() < header_target(h) {
            Some(WsPart::Header)
        } else {
            Some(WsPart::Control)
        },
        WsPosition::Payload { .. } => Some(WsPart::Payload),
    }
}

/// What a read that meets the end of the stream gives: nothing between two frames, and an
/// error inside one.
pub open spec fn end_step(p: WsPosition, r: WsReadStep) -> bool {
    match ended_inside(p) {
        None => r matches WsReadStep::Deliver(out) && out@.len() == 0,
        Some(part) => r == WsReadStep::Truncated(part),
    }
}

/// A position that a reader can be in.
pub open spec fn possible(p: WsPosition) -> bool {
    match p {
        WsPosition::Header(h) => h.len() <= header_target(h),
        WsPosition::Payload { remaining, offset, .. } => remaining >= 0 && offset >= 0,
    }
}

/// How many bytes finish what a reader is at: a header as far as it is known, the payload
/// of a control frame, or that of a data frame.
pub open spec fn missing(p: WsPosition) -> int {
    match p {
        WsPosition::Header(h) => if h.len() < header_target(h) {
            header_target(h) - h.len()
        } else {
            disguise_protocol::ws_payload_len(h)
        },
        WsPosition::Payload { remaining, .. } => remaining,
    }
}

/// A reader drops the payload of a control frame next, which takes one read.
pub open spec fn draining(p: WsPosition) -> bool {
    p matches WsPosition::Header(h) && h.len() >= header_target(h)
}

/// A read at a settled position may bring the chunk. The payload of a control frame comes
/// at once.
pub open spec fn chunk_fits(p: WsPosition, chunk: Seq<u8>) -> bool {
    &&& 0 < chunk.len() <= missing(p)
    &&& draining(p) ==> chunk.len() == missing(p) && chunk.len() <= 125
}

/// The position behind a chunk read at a settled position.
pub open spec fn ws_after(p: WsPosition, chunk: Seq<u8>) -> WsPosition {
    match p {
        WsPosition::Header(h) => if h.len() < header_target(h) {
            WsPosition::Header(h + chunk)
        } else {
            WsPosition::Header(Seq::empty())
        },
        WsPosition::Payload { remaining, key, offset } => WsPosition::Payload {
            remaining: remaining - chunk.len(),
            key,
            offset: offset + chunk.len(),
        },
    }
}

/// What such a chunk delivers.
pub open spec fn ws_delivered(p: WsPosition, chunk: Seq<u8>) -> Seq<u8> {
    match p {
        WsPosition::Header(_) => Seq::empty(),
        WsPosition::Payload { key, offset, .. } => unmask(chunk, key, offset),
    }
}

/// Every chunk, in turn, is one that a reader's request allows.
pub open spec fn all_fit(p: WsPosition, chunks: Seq<Seq<u8>>) -> bool
    decreases chunks.len(),
{
    chunks.len() > 0 ==> {
        let q = ws_settled(p);
        chunk_fits(q, chunks[0]) && all_fit(ws_after(q, chunks[0]), chunks.drop_first())
    }
}

/// What a reader delivers for a stream, and where it then stands.
pub struct WsScan {
    pub out: Seq<u8>,
    pub at: WsPosition,
}

/// What a reader makes of the chunks.
pub open spec fn ws_read_all(p: WsPosition, chunks: Seq<Seq<u8>>) -> WsScan
    decreases chunks.len(),
{
    let q = ws_settled(p);
    if chunks.len() == 0 {
        WsScan { out: Seq::empty(), at: q }
    } else {
        let rest = ws_read_all(ws_after(q, chunks[0]), chunks.drop_first());
        WsScan { out: ws_delivered(q, chunks[0]) + rest.out, at: rest.at }
    }
}

/// What a reader makes of a stream that comes in the longest chunks that it asks for.
spec fn ws_scan(p: WsPosition, s: Seq<u8>) -> WsScan
    decreases s.len(),
{
    let q = ws_settled(p);
    let k = if missing(q) < s.len() { missing(q) } else { s.len() as int };
    if k <= 0 || !chunk_fits(q, s.take(k)) {
        WsScan { out: Seq::empty(), at: q }
    } else {
        let rest = ws_scan(ws_after(q, s.take(k)), s.skip(k));
        WsScan { out: ws_delivered(q, s.take(k)) + rest.out, at: rest.at }
    }
}

proof fn lemma_phase(offset: int, k: int, i: int)
    ensures
        (offset % 4 + (k + i)) % 4 == ((offset + k) % 4 + i) % 4,
{
}

proof fn lemma_unmask_splits(a: Seq<u8>, b: Seq<u8>, key: Option<Seq<u8>>, offset: int)
    ensures
        unmask(a + b, key, offset) == unmask(a, key, offset) + unmask(
            b,
            key,
            offset + a.len(),
        ),
{
    let k = a.len() as int;
    let whole = unmask(a + b, key, offset);
    let parts = unmask(a, key, offset) + unmask(b, key, offset + k);
    assert forall|i: int| 0 <= i < whole.len() implies whole[i] == parts[i] by {
        if i >= k {
            lemma_phase(offset, k, i - k);
        }
    }
    assert(whole =~= parts);
}

proof fn lemma_payload_len(h: Seq<u8>)
    requires
        h.len() >= header_target(h),
    ensures
        disguise_protocol::ws_payload_len(h) >= 0,
{
}

proof fn lemma_settled_possible(p: WsPosition)
    requires
        possible(p),
    ensures
        possible(ws_settled(p)),
        missing(ws_settled(p)) > 0,
        ws_settled(ws_settled(p)) == ws_settled(p),
{
    if let WsPosition::Header(h) = p {
        if h.len() >= header_target(h) {
            lemma_payload_len(h);
        }
    }
}

/// Where the stream is cut does not matter.
proof fn lemma_scan_chunk(p: WsPosition, a: Seq<u8>, b: Seq<u8>)
    requires
        possible(p),
        chunk_fits(ws_settled(p), a),
    ensures
        possible(ws_after(ws_settled(p), a)),
        ({
            let q = ws_settled(p);
            let rest = ws_scan(ws_after(q, a), b);
            ws_scan(p, a + b) == (WsScan { out: ws_delivered(q, a) + rest.out, at: rest.at })
        }),
{
    lemma_settled_possible(p);
    let q = ws_settled(p);
    let s = a + b;
    let n = a.len() as int;
    let k = if missing(q) < s.len() { missing(q) } else { s.len() as int };
    let after = ws_after(q, a);
    if let WsPosition::Header(h) = q {
        if h.len() >= 2 && h.len() < header_target(h) {
            lemma_target_stable(h, a);
        }
    }
    if k == n {
        assert(s.take(k) =~= a);
        assert(s.skip(k) =~= b);
    } else {
        let m = k - n;
        let first = b.take(m);
        assert(s.take(k) =~= a + first);
        assert(s.skip(k) =~= b.skip(m));
        assert(ws_settled(after) == after);
        assert(missing(after) == missing(q) - n);
        assert(chunk_fits(after, first));
        match q {
            WsPosition::Header(h) => {
                assert(h + (a + first) =~= (h + a) + first);
                let rest = ws_scan(ws_after(after, first), b.skip(m));
                assert(Seq::<u8>::empty() + rest.out =~= rest.out);
            },
            WsPosition::Payload { key, offset, .. } => {
                lemma_unmask_splits(a, first, key, offset);
                let rest = ws_scan(ws_after(after, first), b.skip(m));
                assert((unmask(a, key, offset) + unmask(first, key, offset + n)) + rest.out
                    =~= unmask(a, key, offset) + (unmask(first, key, offset + n) + rest.out));
            },
        }
    }
}

proof fn lemma_read_all(p: WsPosition, chunks: Seq<Seq<u8>>)
    requires
        possible(p),
        all_fit(p, chunks),
    ensures
        ws_read_all(p, chunks) == ws_scan(p, wire::joined(chunks)),
    decreases chunks.len(),
{
    if chunks.len() > 0 {
        let rest = chunks.drop_first();
        lemma_scan_chunk(p, chunks[0], wire::joined(rest));
        lemma_read_all(ws_after(ws_settled(p), chunks[0]), rest);
    }
}

/// A payload, the mask of the frame that carries it, and the frame's first byte.
pub struct WsPiece {
    pub first: u8,
    pub payload: Seq<u8>,
    pub mask: Option<Seq<u8>>,
}

impl WsPiece {
    /// The piece is a control frame's, which carries no data.
    pub open spec fn control(self) -> bool {
        self.first % 16 >= 8
    }

    /// The frame that carries the piece.
    pub open spec fn frame(self) -> Seq<u8> {
        disguise_protocol::ws_frame(self.payload, self.mask).update(0, self.first)
    }

    /// Bytes of the frame in front of the payload.
    pub open spec fn header_len(self) -> int {
        disguise_protocol::ws_header(self.payload.len() as int, self.mask).len() as int
    }

    /// What a reader delivers for the first `len` bytes of the frame.
    pub open spec fn delivered(self, len: int) -> Seq<u8> {
        if self.control() || len <= self.header_len() {
            Seq::empty()
        } else {
            self.payload.take(len - self.header_len())
        }
    }

    spec fn head(self) -> Seq<u8> {
        disguise_protocol::ws_header(self.payload.len() as int, self.mask).update(0, self.first)
    }

    spec fn body(self) -> Seq<u8> {
        unmask(self.payload, self.mask, 0)
    }

    proof fn lemma_head(self)
        requires
            sendable(self),
        ensures
            self.frame() == self.head() + self.body(),
            2 <= self.head().len(),
            self.head().len() == header_target(self.head()),
            self.head().len() == header_target(self.head().take(2)),
            forall|k: int|
                2 <= k < self.head().len() ==> header_target(#[trigger] self.head().take(k))
                    == self.head().len(),
            self.head().len() == self.header_len(),
            disguise_protocol::ws_payload_len(self.head()) == self.payload.len(),
            header_key(self.head()) == self.mask,
            is_control(self.head()) == self.control(),
            self.body().len() == self.payload.len(),
    {
        let n = self.payload.len() as int;
        let plain = disguise_protocol::ws_header(n, self.mask);
        let head = self.head();
        disguise_protocol::lemma_ws_header(n, self.mask, Seq::empty());
        assert(plain + Seq::<u8>::empty() =~= plain);
        assert(self.frame() =~= head + self.body());
        if n > 65535 {
            assert(head.subrange(2, 10) =~= plain.subrange(2, 10));
        } else if n > 125 {
            assert(head.subrange(2, 4) =~= plain.subrange(2, 4));
        }
        if let Some(key) = self.mask {
            let at = disguise_protocol::ws_length_end(head);
            assert(head.subrange(at, at + 4) =~= key);
        }
    }
}

/// The frames that carry the pieces, one after the other.
pub open spec fn ws_stream(pieces: Seq<WsPiece>) -> Seq<u8>
    decreases pieces.len(),
{
    if pieces.len() == 0 {
        Seq::empty()
    } else {
        pieces[0].frame() + ws_stream(pieces.drop_first())
    }
}

/// The payloads of the pieces that carry data, joined.
pub open spec fn payloads_joined(pieces: Seq<WsPiece>) -> Seq<u8>
    decreases pieces.len(),
{
    if pieces.len() == 0 {
        Seq::empty()
    } else {
        (if pieces[0].control() {
            Seq::empty()
        } else {
            pieces[0].payload
        }) + payloads_joined(pieces.drop_first())
    }
}

/// A piece that a frame can carry; a control frame carries at most 125 bytes.
pub open spec fn sendable(piece: WsPiece) -> bool {
    &&& piece.payload.len() <= u64::MAX
    &&& piece.mask is Some ==> piece.mask->0.len() == 4
    &&& piece.control() ==> piece.payload.len() <= 125
}

/// In front of a frame.
pub open spec fn ws_start() -> WsPosition {
    WsPosition::Header(Seq::empty())
}

proof fn lemma_unmasked(piece: WsPiece, m: int)
    requires
        0 <= m <= piece.payload.len(),
    ensures
        unmask(piece.body().take(m), piece.mask, 0) == piece.payload.take(m),
{
    if let Some(key) = piece.mask {
        disguise_protocol::ws_mask_is_involution(piece.payload, key, 0);
        let back = disguise_protocol::ws_masked(piece.body(), key, 0);
        assert(back == piece.payload);
        assert(unmask(piece.body().take(m), piece.mask, 0) =~= back.take(m));
    }
}

/// The header of a piece's frame takes a reader to the payload.
proof fn lemma_scan_head(piece: WsPiece, x: Seq<u8>)
    requires
        sendable(piece),
    ensures
        ws_scan(ws_start(), piece.head() + x) == ws_scan(WsPosition::Header(piece.head()), x),
{
    piece.lemma_head();
    let head = piece.head();
    let two = head.take(2);
    let more = head.skip(2);
    assert(head + x =~= two + (more + x));
    lemma_scan_chunk(ws_start(), two, more + x);
    assert(Seq::<u8>::empty() + two =~= two);
    let r = ws_scan(WsPosition::Header(two), more + x);
    assert(Seq::<u8>::empty() + r.out =~= r.out);
    if more.len() > 0 {
        lemma_scan_chunk(WsPosition::Header(two), more, x);
        assert(two + more =~= head);
        let q = ws_scan(WsPosition::Header(head), x);
        assert(Seq::<u8>::empty() + q.out =~= q.out);
    } else {
        assert(two =~= head);
        assert(more + x =~= x);
    }
}

proof fn lemma_scan_frame(piece: WsPiece, x: Seq<u8>)
    requires
        sendable(piece),
    ensures
        ({
            let rest = ws_scan(ws_start(), x);
            ws_scan(ws_start(), piece.frame() + x) == (WsScan {
                out: payloads_joined(seq![piece]) + rest.out,
                at: rest.at,
            })
        }),
{
    piece.lemma_head();
    let head = piece.head();
    let body = piece.body();
    let n = piece.payload.len() as int;
    let at_head = WsPosition::Header(head);
    let rest = ws_scan(ws_start(), x);
    assert(piece.frame() + x =~= head + (body + x));
    lemma_scan_head(piece, body + x);
    reveal_with_fuel(payloads_joined, 2);
    assert(payloads_joined(seq![piece]) =~= if piece.control() {
        Seq::empty()
    } else {
        piece.payload
    });
    if n == 0 {
        assert(body + x =~= x);
        assert(ws_settled(at_head) == ws_start());
        assert(payloads_joined(seq![piece]) + rest.out =~= rest.out);
    } else {
        lemma_scan_chunk(at_head, body, x);
        let after = ws_after(ws_settled(at_head), body);
        assert(ws_settled(after) == ws_start());
        if !piece.control() {
            lemma_unmasked(piece, n);
            assert(body.take(n) =~= body);
            assert(piece.payload.take(n) =~= piece.payload);
        }
    }
}

proof fn lemma_scan_stream(pieces: Seq<WsPiece>, x: Seq<u8>)
    requires
        forall|i: int| 0 <= i < pieces.len() ==> sendable(#[trigger] pieces[i]),
    ensures
        ({
            let rest = ws_scan(ws_start(), x);
            ws_scan(ws_start(), ws_stream(pieces) + x) == (WsScan {
                out: payloads_joined(pieces) + rest.out,
                at: rest.at,
            })
        }),
    decreases pieces.len(),
{
    let end = ws_scan(ws_start(), x);
    if pieces.len() == 0 {
        assert(ws_stream(pieces) + x =~= x);
        assert(payloads_joined(pieces) + end.out =~= end.out);
    } else {
        let rest = pieces.drop_first();
        assert forall|i: int| 0 <= i < rest.len() implies sendable(#[trigger] rest[i]) by {
            assert(rest[i] == pieces[i + 1]);
        }
        let one = seq![pieces[0]];
        assert(ws_stream(pieces) + x =~= pieces[0].frame() + (ws_stream(rest) + x));
        lemma_scan_frame(pieces[0], ws_stream(rest) + x);
        lemma_scan_stream(rest, x);
        reveal_with_fuel(payloads_joined, 2);
        assert(payloads_joined(pieces) =~= payloads_joined(one) + payloads_joined(rest));
        assert(payloads_joined(one) + (payloads_joined(rest) + end.out) =~= payloads_joined(pieces)
            + end.out);
    }
}

proof fn lemma_scan_cut(piece: WsPiece, k: int)
    requires
        sendable(piece),
        0 < k < piece.frame().len(),
    ensures
        ws_scan(ws_start(), piece.frame().take(k)).out == piece.delivered(k),
        ended_inside(ws_scan(ws_start(), piece.frame().take(k)).at) is Some,
{
    piece.lemma_head();
    let head = piece.head();
    let none = Seq::<u8>::empty();
    let part = piece.frame().take(k);
    if k < head.len() {
        let two = if k < 2 { part } else { head.take(2) };
        let more = part.skip(two.len() as int);
        assert(part =~= two + more);
        lemma_scan_chunk(ws_start(), two, more);
        assert(none + two =~= two);
        if more.len() > 0 {
            assert(more =~= more + none);
            lemma_scan_chunk(WsPosition::Header(two), more, none);
            assert(two + more =~= head.take(k));
        } else if k == 2 {
            assert(two =~= head.take(2));
        }
    } else {
        let m = k - head.len();
        let c = piece.body().take(m);
        let at_head = WsPosition::Header(head);
        assert(part =~= head + c);
        lemma_scan_head(piece, c);
        if m > 0 && !piece.control() {
            assert(c =~= c + none);
            lemma_scan_chunk(at_head, c, none);
            lemma_unmasked(piece, m);
            let r = ws_scan(ws_after(ws_settled(at_head), c), none);
            assert(piece.payload.take(m) + r.out =~= piece.payload.take(m));
        }
    }
}

/// However the network cuts a stream of frames into chunks, a reader that starts in front
/// of it delivers the payloads, joined, and ends between two frames. Empty frames and
/// control frames deliver nothing and end nothing.
pub proof fn ws_stream_reads_back(pieces: Seq<WsPiece>, chunks: Seq<Seq<u8>>)
    requires
        forall|i: int| 0 <= i < pieces.len() ==> sendable(#[trigger] pieces[i]),
        wire::joined(chunks) == ws_stream(pieces),
        all_fit(ws_start(), chunks),
    ensures
        ws_read_all(ws_start(), chunks).out == payloads_joined(pieces),
        ended_inside(ws_read_all(ws_start(), chunks).at) is None,
{
    let none = Seq::<u8>::empty();
    lemma_read_all(ws_start(), chunks);
    lemma_scan_stream(pieces, none);
    assert(ws_stream(pieces) + none =~= ws_stream(pieces));
    assert(payloads_joined(pieces) + none =~= payloads_joined(pieces));
}

/// A stream that breaks off `k` bytes into a frame delivers the payloads before it and
/// what came of that frame's data, and ends inside the frame: the read that meets the end
/// fails.
pub proof fn cut_ws_stream_ends_inside(
    pieces: Seq<WsPiece>,
    last: WsPiece,
    k: int,
    chunks: Seq<Seq<u8>>,
)
    requires
        forall|i: int| 0 <= i < pieces.len() ==> sendable(#[trigger] pieces[i]),
        sendable(last),
        0 < k < last.frame().len(),
        wire::joined(chunks) == ws_stream(pieces) + last.frame().take(k),
        all_fit(ws_start(), chunks),
    ensures
        ws_read_all(ws_start(), chunks).out == payloads_joined(pieces) + last.delivered(k),
        ended_inside(ws_read_all(ws_start(), chunks).at) is Some,
{
    lemma_read_all(ws_start(), chunks);
    lemma_scan_stream(pieces, last.frame().take(k));
    lemma_scan_cut(last, k);
}

} // verus!

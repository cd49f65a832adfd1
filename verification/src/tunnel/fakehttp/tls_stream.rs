//! A byte stream carried in TLS application data records.
//!
//! The types here decide; whoever owns the stream performs the reads and writes they ask
//! for and reports back what happened.

use crate::tunnel::disguise_protocol;
use crate::tunnel::disguise_protocol::{encode_tls_record, TLS_MAX_PLAINTEXT, TLS_RECORD_HEADER_SIZE};
use crate::tunnel::fakehttp::send_queue::{FlushStep, SendQueue, WriteStep};
use crate::wire;
use crate::wire::{append, copy_range, read_be16};
use vstd::prelude::*;
use vstd::slice::*;

verus! {

/// Writes a byte stream as TLS records of at most 16 KiB.
pub struct TlsRecordWriter {
    queue: SendQueue,
}

impl TlsRecordWriter {
    /// The bytes that the stream has not taken yet.
    pub closed spec fn unsent(self) -> Seq<u8> {
        self.queue.unsent()
    }

    /// How many bytes of the caller's data the pending record carries.
    pub closed spec fn credit(self) -> nat {
        self.queue.credit()
    }

    pub closed spec fn well_formed(self) -> bool {
        self.queue.well_formed()
    }

    /// A writer with nothing pending.
    pub fn new() -> (r: Self)
        ensures
            r.well_formed(),
            r.unsent() == Seq::<u8>::empty(),
            r.credit() == 0,
    {
        TlsRecordWriter { queue: SendQueue::new() }
    }

    /// The bytes to hand to the stream.
    pub fn pending(&self) -> (r: &[u8])
        requires
            self.well_formed(),
        ensures
            r@ == self.unsent(),
    {
        self.queue.pending()
    }

    /// Begins to write `buf`. A record that is still pending goes first, and `buf` waits.
    pub fn begin_write(&mut self, buf: &[u8]) -> (r: WriteStep)
        requires
            old(self).well_formed(),
        ensures
            final(self).well_formed(),
            old(self).unsent().len() > 0 ==> r == WriteStep::Send && *final(self) == *old(self),
            old(self).unsent().len() == 0 && buf@.len() == 0 ==> r == WriteStep::Done(0)
                && *final(self) == *old(self),
            old(self).unsent().len() == 0 && buf@.len() > 0 ==> {
                let n = if buf@.len() <= 16384 { buf@.len() as int } else { 16384 };
                &&& r == WriteStep::Send
                &&& final(self).unsent() == disguise_protocol::tls_record(0x17, 3, 3, buf@.take(n))
                &&& final(self).credit() == n
            },
    {
        if self.queue.has_pending() {
            return WriteStep::Send;
        }
        if buf.is_empty() {
            return WriteStep::Done(0);
        }
        let chunk_len: usize = if buf.len() <= TLS_MAX_PLAINTEXT {
            buf.len()
        } else {
            TLS_MAX_PLAINTEXT
        };
        let record = encode_tls_record(slice_subrange(buf, 0, chunk_len));
        self.queue.load(record, chunk_len);
        WriteStep::Send
    }

    /// The stream took `n` of the pending bytes during a write.
    pub fn wrote(&mut self, n: usize) -> (r: WriteStep)
        requires
            old(self).well_formed(),
            old(self).unsent().len() > 0,
        ensures
            final(self).well_formed(),
            n == 0 ==> r == WriteStep::WriteZero && *final(self) == *old(self),
            0 < n < old(self).unsent().len() ==> {
                &&& r == WriteStep::Send
                &&& final(self).unsent() == old(self).unsent().skip(n as int)
                &&& final(self).credit() == old(self).credit()
            },
            n > 0 && n >= old(self).unsent().len() ==> {
                &&& r == WriteStep::Done(old(self).credit() as usize)
                &&& final(self).unsent().len() == 0
                &&& final(self).credit() == 0
            },
    {
        self.queue.wrote(n)
    }

    /// The first step of a flush.
    pub fn begin_flush(&mut self) -> (r: FlushStep)
        requires
            old(self).well_formed(),
        ensures
            *final(self) == *old(self),
            r == if old(self).unsent().len() > 0 {
                FlushStep::Send
            } else {
                FlushStep::FlushStream
            },
    {
        self.queue.begin_flush()
    }

    /// The stream took `n` of the pending bytes during a flush.
    pub fn flushed(&mut self, n: usize) -> (r: FlushStep)
        requires
            old(self).well_formed(),
            old(self).unsent().len() > 0,
        ensures
            final(self).well_formed(),
            n == 0 ==> r == FlushStep::WriteZero && *final(self) == *old(self),
            0 < n < old(self).unsent().len() ==> {
                &&& r == FlushStep::Send
                &&& final(self).unsent() == old(self).unsent().skip(n as int)
                &&& final(self).credit() == old(self).credit()
            },
            n > 0 && n >= old(self).unsent().len() ==> {
                &&& r == FlushStep::FlushStream
                &&& final(self).unsent().len() == 0
                &&& final(self).credit() == 0
            },
    {
        self.queue.flushed(n)
    }
}

/// Where a reader stands in the record stream.
pub struct TlsPosition {
    /// Payload bytes of the current record that are still to come.
    pub remaining: int,
    /// The bytes of the next record header that were seen so far.
    pub header: Seq<u8>,
}

/// What a chunk of the stream yields: payload bytes, and the position behind it.
pub struct TlsScan {
    pub out: Seq<u8>,
    pub at: TlsPosition,
}

/// The header opens an application data record.
pub open spec fn is_app_data(header: Seq<u8>) -> bool {
    header[0] == 0x17 && header[1] == 0x03
}

/// Reads `data` from a position `remaining` bytes before the end of a record. Bytes where
/// no application data header stands pass through, up to the end of the chunk.
pub open spec fn tls_scan(remaining: int, data: Seq<u8>) -> TlsScan
    decreases data.len(),
{
    if data.len() == 0 {
        TlsScan { out: Seq::empty(), at: TlsPosition { remaining, header: Seq::empty() } }
    } else if remaining > 0 {
        let take = if remaining < data.len() { remaining } else { data.len() as int };
        let rest = tls_scan(remaining - take, data.skip(take));
        TlsScan { out: data.take(take) + rest.out, at: rest.at }
    } else if data.len() < 5 {
        TlsScan { out: Seq::empty(), at: TlsPosition { remaining: 0, header: data } }
    } else if is_app_data(data) {
        tls_scan(disguise_protocol::tls_body_len(data), data.skip(5))
    } else {
        TlsScan { out: data, at: TlsPosition { remaining: 0, header: Seq::empty() } }
    }
}

/// Reads `data` from a position. A header that the chunk completes and that does not open
/// an application data record passes through.
pub open spec fn tls_feed(at: TlsPosition, data: Seq<u8>) -> TlsScan {
    if at.header.len() == 0 {
        tls_scan(at.remaining, data)
    } else {
        let need = 5 - at.header.len();
        if data.len() < need {
            TlsScan {
                out: Seq::empty(),
                at: TlsPosition { remaining: 0, header: at.header + data },
            }
        } else {
            let header = at.header + data.take(need);
            if is_app_data(header) {
                tls_scan(disguise_protocol::tls_body_len(header), data.skip(need))
            } else {
                let rest = tls_scan(0, data.skip(need));
                TlsScan { out: header + rest.out, at: rest.at }
            }
        }
    }
}

/// What a reader does next.
#[derive(Debug, Clone, PartialEq, Eq)]
pub enum TlsReadStep {
    /// Give these bytes to the caller; none at all means the end of the stream or a
    /// caller without room.
    Deliver(Vec<u8>),
    /// Read at most so many bytes of the current record; report with `on_record`.
    ReadRecord(usize),
    /// Read at most 4096 bytes; report with `on_raw`.
    ReadRaw,
    /// Read at most so many bytes of a record that just began; report with `on_rest`.
    ReadRest(usize),
    /// Nothing to deliver yet: ask again.
    Retry,
    /// The stream ended inside a record.
    Truncated,
}

/// The most bytes that one read asks for.
pub const READ_CHUNK: usize = 4096;

/// Reads a byte stream out of TLS application data records.
pub struct TlsRecordReader {
    residual: Vec<u8>,
    residual_pos: usize,
    remaining_in_record: usize,
    hdr: Vec<u8>,
}

impl TlsRecordReader {
    /// Payload that was read from the stream and not delivered yet.
    pub closed spec fn queued(self) -> Seq<u8> {
        self.residual@.subrange(self.residual_pos as int, self.residual@.len() as int)
    }

    /// Where the reader stands in the record stream.
    pub closed spec fn position(self) -> TlsPosition {
        TlsPosition { remaining: self.remaining_in_record as int, header: self.hdr@ }
    }

    /// What was delivered is dropped once all of it was.
    pub closed spec fn queue_fits(self) -> bool {
        &&& self.residual@.len() == 0 ==> self.residual_pos == 0
        &&& self.residual@.len() > 0 ==> self.residual_pos < self.residual@.len()
    }

    pub open spec fn well_formed(self) -> bool {
        &&& possible(self.position())
        &&& self.position().remaining < 0x10000
        &&& self.queue_fits()
    }

    /// A reader in front of the first record.
    pub fn new() -> (r: Self)
        ensures
            r.well_formed(),
            r.queued() == Seq::<u8>::empty(),
            r.position() == (TlsPosition { remaining: 0, header: Seq::empty() }),
    {
        TlsRecordReader {
            residual: Vec::new(),
            residual_pos: 0,
            remaining_in_record: 0,
            hdr: Vec::new(),
        }
    }

    /// Takes up to `room` of the queued bytes.
    fn take_queued(&mut self, room: usize) -> (r: Vec<u8>)
        requires
            old(self).well_formed(),
        ensures
            final(self).well_formed(),
            final(self).position() == old(self).position(),
            ({
                let n = if room < old(self).queued().len() {
                    room as int
                } else {
                    old(self).queued().len() as int
                };
                r@ == old(self).queued().take(n) && final(self).queued() == old(self).queued().skip(n)
            }),
    {
        let left: usize = self.residual.len() - self.residual_pos;
        let to_copy: usize = if left < room { left } else { room };
        let out = copy_range(
            self.residual.as_slice(),
            self.residual_pos,
            self.residual_pos + to_copy,
        );
        self.residual_pos += to_copy;
        assert(out@ =~= old(self).queued().take(to_copy as int));
        assert(self.queued() =~= old(self).queued().skip(to_copy as int));
        if self.residual_pos >= self.residual.len() {
            self.residual = Vec::new();
            self.residual_pos = 0;
            assert(self.queued() =~= old(self).queued().skip(to_copy as int));
        }
        out
    }

    /// The first step of a read into a buffer with `room` bytes left.
    pub fn begin_read(&mut self, room: usize) -> (r: TlsReadStep)
        requires
            old(self).well_formed(),
        ensures
            final(self).well_formed(),
            final(self).position() == old(self).position(),
            ({
                let queued = old(self).queued();
                let at = old(self).position();
                if queued.len() > 0 {
                    let n = if room < queued.len() { room as int } else { queued.len() as int };
                    &&& r matches TlsReadStep::Deliver(out) && out@ == queued.take(n)
                    &&& final(self).queued() == queued.skip(n)
                } else {
                    &&& final(self).queued() == queued
                    &&& at.remaining > 0 && room == 0 ==> (r matches TlsReadStep::Deliver(out)
                        && out@.len() == 0)
                    &&& at.remaining > 0 && room > 0 ==> r == TlsReadStep::ReadRecord(
                        at_most(at.remaining, room as int) as usize,
                    )
                    &&& at.remaining == 0 ==> r == TlsReadStep::ReadRaw
                }
            }),
    {
        if self.residual_pos < self.residual.len() {
            return TlsReadStep::Deliver(self.take_queued(room));
        }
        if self.remaining_in_record > 0 {
            if room == 0 {
                return TlsReadStep::Deliver(Vec::new());
            }
            return TlsReadStep::ReadRecord(read_size(self.remaining_in_record, room));
        }
        TlsReadStep::ReadRaw
    }

    /// A read that `ReadRecord` asked for brought `data`.
    pub fn on_record(&mut self, data: &[u8]) -> (r: TlsReadStep)
        requires
            old(self).well_formed(),
            old(self).queued().len() == 0,
            data@.len() <= old(self).position().remaining,
        ensures
            final(self).well_formed(),
            final(self).queued() == old(self).queued(),
            data@.len() == 0 ==> r == TlsReadStep::Truncated && *final(self) == *old(self),
            data@.len() > 0 ==> {
                &&& r matches TlsReadStep::Deliver(out) && out@ == data@
                &&& final(self).position() == (TlsPosition {
                    remaining: old(self).position().remaining - data@.len(),
                    header: Seq::empty(),
                })
            },
    {
        if data.len() == 0 {
            return TlsReadStep::Truncated;
        }
        self.remaining_in_record -= data.len();
        assert(self.hdr@ =~= Seq::empty());
        TlsReadStep::Deliver(slice_to_vec(data))
    }

    /// A read that `ReadRest` asked for brought `data`.
    pub fn on_rest(&mut self, data: &[u8]) -> (r: TlsReadStep)
        requires
            old(self).well_formed(),
            old(self).queued().len() == 0,
            0 < old(self).position().remaining,
            data@.len() <= old(self).position().remaining,
        ensures
            final(self).well_formed(),
            final(self).queued() == old(self).queued(),
            r matches TlsReadStep::Deliver(out) && out@ == data@,
            final(self).position() == (TlsPosition {
                remaining: old(self).position().remaining - data@.len(),
                header: Seq::empty(),
            }),
    {
        self.remaining_in_record -= data.len();
        assert(self.hdr@ =~= Seq::empty());
        TlsReadStep::Deliver(slice_to_vec(data))
    }

    /// Moves `data` through the record parser; what it yields is queued.
    fn scan(&mut self, data: &[u8])
        requires
            old(self).well_formed(),
            old(self).hdr@.len() == 0,
            old(self).residual_pos == 0,
        ensures
            final(self).well_formed(),
            final(self).residual_pos == 0,
            ({
                let f = tls_scan(old(self).remaining_in_record as int, data@);
                final(self).residual@ == old(self).residual@ + f.out && final(self).position() == f.at
            }),
    {
        let ghost whole = tls_scan(self.remaining_in_record as int, data@);
        let ghost before = self.residual@;
        let n: usize = data.len();
        let mut i: usize = 0;
        assert(data@.skip(0) =~= data@);
        assert(before + whole.out =~= self.residual@ + whole.out);
        while i < n
            invariant
                n == data@.len(),
                i <= n,
                self.well_formed(),
                self.residual_pos == 0,
                self.hdr@.len() > 0 ==> i == n,
                ({
                    let f = tls_scan(self.remaining_in_record as int, data@.skip(i as int));
                    if self.hdr@.len() == 0 {
                        &&& before + whole.out == self.residual@ + f.out
                        &&& whole.at == f.at
                    } else {
                        &&& before + whole.out == self.residual@
                        &&& whole.at == self.position()
                    }
                }),
            decreases n - i,
        {
            let ghost rest = data@.skip(i as int);
            let ghost rem0 = self.remaining_in_record;
            let ghost f0 = tls_scan(rem0 as int, rest);
            if self.remaining_in_record > 0 {
                let left: usize = n - i;
                let take: usize = if self.remaining_in_record < left {
                    self.remaining_in_record
                } else {
                    left
                };
                let ghost r0 = self.residual@;
                append(&mut self.residual, slice_subrange(data, i, i + take));
                self.remaining_in_record -= take;
                i += take;
                proof {
                    assert(rest.take(take as int) =~= data@.subrange(i - take, i as int));
                    assert(rest.skip(take as int) =~= data@.skip(i as int));
                    let f1 = tls_scan(self.remaining_in_record as int, data@.skip(i as int));
                    assert(r0 + (rest.take(take as int) + f1.out) =~= self.residual@ + f1.out);
                }
            } else if n - i >= TLS_RECORD_HEADER_SIZE {
                if data[i] == 0x17 && data[i + 1] == 0x03 {
                    self.remaining_in_record = read_be16(data, i + 3) as usize;
                    i += TLS_RECORD_HEADER_SIZE;
                    proof {
                        assert(rest.subrange(3, 5) =~= data@.subrange(i - 2, i as int));
                        assert(rest.skip(5) =~= data@.skip(i as int));
                    }
                } else {
                    let ghost r0 = self.residual@;
                    append(&mut self.residual, slice_subrange(data, i, n));
                    proof {
                        assert(data@.subrange(i as int, n as int) =~= rest);
                        assert(data@.skip(n as int) =~= Seq::empty());
                        assert(self.residual@ + Seq::<u8>::empty() =~= self.residual@);
                    }
                    i = n;
                }
            } else {
                self.hdr = copy_range(data, i, n);
                proof {
                    assert(self.hdr@ =~= rest);
                    assert(self.residual@ + Seq::<u8>::empty() =~= self.residual@);
                }
                i = n;
            }
        }
        proof {
            assert(data@.skip(n as int) =~= Seq::empty());
            if self.hdr@.len() == 0 {
                assert(self.hdr@ =~= Seq::empty());
                assert(self.residual@ + Seq::<u8>::empty() =~= self.residual@);
            }
        }
    }

    /// Decides what follows once a chunk went through the parser.
    fn after_chunk(&mut self, room: usize) -> (r: TlsReadStep)
        requires
            old(self).well_formed(),
        ensures
            final(self).well_formed(),
            final(self).position() == old(self).position(),
            ({
                let out = old(self).queued();
                let rem = old(self).position().remaining;
                if out.len() > 0 {
                    let n = if room < out.len() { room as int } else { out.len() as int };
                    &&& r matches TlsReadStep::Deliver(d) && d@ == out.take(n)
                    &&& final(self).queued() == out.skip(n)
                } else {
                    &&& final(self).queued().len() == 0
                    &&& rem > 0 && room == 0 ==> (r matches TlsReadStep::Deliver(d) && d@.len() == 0)
                    &&& rem > 0 && room > 0 ==> r == TlsReadStep::ReadRest(
                        at_most(rem, room as int) as usize,
                    )
                    &&& rem == 0 ==> r == TlsReadStep::Retry
                }
            }),
    {
        if !self.residual.is_empty() {
            return TlsReadStep::Deliver(self.take_queued(room));
        }
        if self.remaining_in_record > 0 {
            if room == 0 {
                return TlsReadStep::Deliver(Vec::new());
            }
            return TlsReadStep::ReadRest(read_size(self.remaining_in_record, room));
        }
        TlsReadStep::Retry
    }

    /// A read that `ReadRaw` asked for brought `data`, for a caller with `room` bytes.
    pub fn on_raw(&mut self, data: &[u8], room: usize) -> (r: TlsReadStep)
        requires
            old(self).well_formed(),
            old(self).queued().len() == 0,
            old(self).position().remaining == 0,
        ensures
            final(self).well_formed(),
            data@.len() == 0 ==> *final(self) == *old(self) && (r matches TlsReadStep::Deliver(d)
                && d@.len() == 0),
            data@.len() > 0 ==> {
                let f = tls_feed(old(self).position(), data@);
                &&& final(self).position() == f.at
                &&& if f.out.len() > 0 {
                    let n = if room < f.out.len() { room as int } else { f.out.len() as int };
                    &&& r matches TlsReadStep::Deliver(d) && d@ == f.out.take(n)
                    &&& final(self).queued() == f.out.skip(n)
                } else {
                    &&& final(self).queued().len() == 0
                    &&& f.at.remaining > 0 && room == 0 ==> (r matches TlsReadStep::Deliver(d)
                        && d@.len() == 0)
                    &&& f.at.remaining > 0 && room > 0 ==> r == TlsReadStep::ReadRest(
                        at_most(f.at.remaining, room as int) as usize,
                    )
                    &&& f.at.remaining == 0 ==> r == TlsReadStep::Retry
                }
            },
    {
        if data.len() == 0 {
            return TlsReadStep::Deliver(Vec::new());
        }
        let ghost at = self.position();
        let ghost f = tls_feed(at, data@);
        let n: usize = data.len();
        let mut i: usize = 0;
        if self.hdr.len() > 0 {
            let need: usize = TLS_RECORD_HEADER_SIZE - self.hdr.len();
            let avail: usize = if n < need { n } else { need };
            let ghost h0 = self.hdr@;
            append(&mut self.hdr, slice_subrange(data, 0, avail));
            i = avail;
            if self.hdr.len() < TLS_RECORD_HEADER_SIZE {
                assert(data@.subrange(0, avail as int) =~= data@);
                assert(self.hdr@ =~= f.at.header);
                return TlsReadStep::Retry;
            }
            assert(data@.take(need as int) =~= data@.subrange(0, avail as int));
            let ghost header = self.hdr@;
            assert(header == at.header + data@.take(need as int));
            if self.hdr[0] == 0x17 && self.hdr[1] == 0x03 {
                self.remaining_in_record = read_be16(self.hdr.as_slice(), 3) as usize;
            } else {
                append(&mut self.residual, self.hdr.as_slice());
            }
            self.hdr = Vec::new();
            assert(self.hdr@ =~= Seq::empty());
        }
        assert(data@.subrange(i as int, n as int) =~= data@.skip(i as int));
        assert(data@.skip(0) =~= data@);
        self.scan(slice_subrange(data, i, n));
        proof {
            assert(self.residual@ =~= f.out);
            assert(self.queued() =~= f.out);
        }
        self.after_chunk(room)
    }
}

/// The smaller of what a record holds and what the caller takes, and at most one chunk.
pub open spec fn at_most(remaining: int, room: int) -> int {
    let n = if remaining < room { remaining } else { room };
    if n < 4096 {
        n
    } else {
        4096
    }
}

fn read_size(remaining: usize, room: usize) -> (r: usize)
    ensures
        r == at_most(remaining as int, room as int),
{
    let n: usize = if remaining < room { remaining } else { room };
    if n < READ_CHUNK {
        n
    } else {
        READ_CHUNK
    }
}

/// The payload that a whole stream of application data records carries, from a position
/// `remaining` bytes before the end of a record; `None` where the stream breaks off or
/// holds something else.
pub open spec fn tls_plain(remaining: int, stream: Seq<u8>) -> Option<Seq<u8>>
    decreases stream.len(),
{
    if remaining > 0 {
        if stream.len() < remaining {
            None
        } else {
            match tls_plain(0, stream.skip(remaining)) {
                Some(rest) => Some(stream.take(remaining) + rest),
                None => None,
            }
        }
    } else if stream.len() == 0 {
        Some(Seq::empty())
    } else if stream.len() < 5 || !is_app_data(stream) {
        None
    } else {
        tls_plain(disguise_protocol::tls_body_len(stream), stream.skip(5))
    }
}

/// The records that carry `payloads`, one after the other.
pub open spec fn tls_stream(payloads: Seq<Seq<u8>>) -> Seq<u8>
    decreases payloads.len(),
{
    if payloads.len() == 0 {
        Seq::empty()
    } else {
        disguise_protocol::tls_record(0x17, 3, 3, payloads[0]) + tls_stream(payloads.drop_first())
    }
}

/// Feeds chunks one after the other.
pub open spec fn tls_feed_all(at: TlsPosition, chunks: Seq<Seq<u8>>) -> TlsScan
    decreases chunks.len(),
{
    if chunks.len() == 0 {
        TlsScan { out: Seq::empty(), at }
    } else {
        let first = tls_feed(at, chunks[0]);
        let rest = tls_feed_all(first.at, chunks.drop_first());
        TlsScan { out: first.out + rest.out, at: rest.at }
    }
}

/// A position that a reader can be in.
pub open spec fn possible(at: TlsPosition) -> bool {
    &&& at.remaining >= 0
    &&& at.header.len() < 5
    &&& at.remaining > 0 ==> at.header.len() == 0
}

proof fn lemma_scan_within(remaining: int, data: Seq<u8>)
    requires
        0 < data.len() <= remaining,
    ensures
        tls_scan(remaining, data).out == data,
        tls_scan(remaining, data).at == (TlsPosition {
            remaining: remaining - data.len(),
            header: Seq::empty(),
        }),
{
    let take = data.len() as int;
    assert(data.skip(take) =~= Seq::empty());
    assert(data.take(take) =~= data);
    assert(tls_scan(remaining - take, data.skip(take)).out =~= Seq::empty());
    assert(data + Seq::<u8>::empty() =~= data);
}

/// Scanning `a` leaves a position from which `b` carries what `a` left of the payload.
spec fn scan_splits(remaining: int, a: Seq<u8>, b: Seq<u8>) -> bool {
    let f = tls_scan(remaining, a);
    &&& possible(f.at)
    &&& tls_plain(f.at.remaining, f.at.header + b) is Some
    &&& f.out + tls_plain(f.at.remaining, f.at.header + b)->0 == tls_plain(remaining, a + b)->0
}

/// `a` ends inside a record.
#[verifier::spinoff_prover]
proof fn lemma_splits_inside_record(remaining: int, a: Seq<u8>, b: Seq<u8>)
    requires
        0 < a.len() < remaining,
        tls_plain(remaining, a + b) is Some,
    ensures
        scan_splits(remaining, a, b),
{
    let s = a + b;
    let left = remaining - a.len();
    lemma_scan_within(remaining, a);
    assert(Seq::<u8>::empty() + b =~= b);
    assert(s.skip(remaining) =~= b.skip(left));
    assert(s.take(remaining) =~= a + b.take(left));
    let q = tls_plain(0, s.skip(remaining))->0;
    assert((a + b.take(left)) + q =~= a + (b.take(left) + q));
}

/// `a` reaches the end of the record that it begins in.
#[verifier::spinoff_prover]
proof fn lemma_splits_past_record(remaining: int, a: Seq<u8>, b: Seq<u8>)
    requires
        0 < remaining <= a.len(),
        tls_plain(remaining, a + b) is Some,
        scan_splits(0, a.skip(remaining), b),
    ensures
        scan_splits(remaining, a, b),
{
    let s = a + b;
    let rest = a.skip(remaining);
    assert(s.skip(remaining) =~= rest + b);
    assert(s.take(remaining) =~= a.take(remaining));
    let f = tls_scan(remaining, a);
    let g = tls_scan(0, rest);
    assert(f.at == g.at && f.out == a.take(remaining) + g.out);
    let q = tls_plain(g.at.remaining, g.at.header + b)->0;
    assert(a.take(remaining) + (g.out + q) =~= f.out + q);
}

/// `a` begins with the header of a record.
#[verifier::spinoff_prover]
proof fn lemma_splits_past_header(a: Seq<u8>, b: Seq<u8>)
    requires
        a.len() >= 5,
        tls_plain(0, a + b) is Some,
        scan_splits(disguise_protocol::tls_body_len(a), a.skip(5), b),
    ensures
        scan_splits(0, a, b),
{
    let s = a + b;
    assert(s.subrange(3, 5) =~= a.subrange(3, 5));
    assert(s.skip(5) =~= a.skip(5) + b);
}

#[verifier::spinoff_prover]
proof fn lemma_scan_splits(remaining: int, a: Seq<u8>, b: Seq<u8>)
    requires
        remaining >= 0,
        tls_plain(remaining, a + b) is Some,
    ensures
        scan_splits(remaining, a, b),
    decreases a.len(),
{
    let s = a + b;
    let p = tls_plain(remaining, s)->0;
    assert(Seq::<u8>::empty() + p =~= p);
    if a.len() == 0 {
        assert(Seq::<u8>::empty() + b =~= s);
    } else if remaining > a.len() {
        lemma_splits_inside_record(remaining, a, b);
    } else if remaining > 0 {
        assert(s.skip(remaining) =~= a.skip(remaining) + b);
        lemma_scan_splits(0, a.skip(remaining), b);
        lemma_splits_past_record(remaining, a, b);
    } else if a.len() >= 5 {
        assert(s.subrange(3, 5) =~= a.subrange(3, 5));
        assert(s.skip(5) =~= a.skip(5) + b);
        lemma_scan_splits(disguise_protocol::tls_body_len(a), a.skip(5), b);
        lemma_splits_past_header(a, b);
    }
}

proof fn lemma_feed_splits(at: TlsPosition, a: Seq<u8>, b: Seq<u8>)
    requires
        possible(at),
        tls_plain(at.remaining, at.header + (a + b)) is Some,
    ensures
        ({
            let f = tls_feed(at, a);
            &&& possible(f.at)
            &&& tls_plain(f.at.remaining, f.at.header + b) is Some
            &&& f.out + tls_plain(f.at.remaining, f.at.header + b)->0 == tls_plain(
                at.remaining,
                at.header + (a + b),
            )->0
        }),
{
    let h = at.header;
    let s = h + (a + b);
    if h.len() == 0 {
        assert(s =~= a + b);
        lemma_scan_splits(at.remaining, a, b);
    } else {
        let need = 5 - h.len();
        if a.len() < need {
            assert((h + a) + b =~= s);
            let p = tls_plain(0, s)->0;
            assert(Seq::<u8>::empty() + p =~= p);
        } else {
            let header = h + a.take(need);
            assert(s.subrange(3, 5) =~= header.subrange(3, 5));
            assert(s[0] == header[0] && s[1] == header[1]);
            assert(s.skip(5) =~= a.skip(need) + b);
            lemma_scan_splits(disguise_protocol::tls_body_len(header), a.skip(need), b);
        }
    }
}

proof fn lemma_feed_all(at: TlsPosition, chunks: Seq<Seq<u8>>)
    requires
        possible(at),
        tls_plain(at.remaining, at.header + wire::joined(chunks)) is Some,
    ensures
        tls_feed_all(at, chunks).out == tls_plain(at.remaining, at.header + wire::joined(chunks))->0,
        tls_feed_all(at, chunks).at == (TlsPosition { remaining: 0, header: Seq::empty() }),
    decreases chunks.len(),
{
    if chunks.len() == 0 {
        assert(at.header + wire::joined(chunks) =~= at.header);
        assert(at.remaining == 0 && at.header.len() == 0);
        assert(at.header =~= Seq::empty());
    } else {
        let rest = chunks.drop_first();
        lemma_feed_splits(at, chunks[0], wire::joined(rest));
        lemma_feed_all(tls_feed(at, chunks[0]).at, rest);
    }
}

proof fn lemma_stream_is_plain(payloads: Seq<Seq<u8>>)
    requires
        forall|i: int| 0 <= i < payloads.len() ==> (#[trigger] payloads[i]).len() < 0x10000,
    ensures
        tls_plain(0, tls_stream(payloads)) == Some(wire::joined(payloads)),
    decreases payloads.len(),
{
    if payloads.len() > 0 {
        let p = payloads[0];
        let rest = payloads.drop_first();
        assert forall|i: int| 0 <= i < rest.len() implies (#[trigger] rest[i]).len() < 0x10000 by {
            assert(rest[i] == payloads[i + 1]);
        }
        lemma_stream_is_plain(rest);
        let s = tls_stream(payloads);
        wire::wire_integers_round_trip(p.len() as int);
        assert(s.subrange(3, 5) =~= wire::be16(p.len() as int));
        assert(s.skip(5) =~= p + tls_stream(rest));
        reveal_with_fuel(tls_plain, 2);
        if p.len() > 0 {
            assert((p + tls_stream(rest)).skip(p.len() as int) =~= tls_stream(rest));
            assert((p + tls_stream(rest)).take(p.len() as int) =~= p);
        } else {
            assert(p + tls_stream(rest) =~= tls_stream(rest));
            assert(p + wire::joined(rest) =~= wire::joined(rest));
        }
    }
}

/// However the network cuts a stream of records into chunks, a reader that starts in
/// front of it delivers the payloads, joined, and ends between two records.
pub proof fn tls_stream_reads_back(payloads: Seq<Seq<u8>>, chunks: Seq<Seq<u8>>)
    requires
        forall|i: int| 0 <= i < payloads.len() ==> (#[trigger] payloads[i]).len() < 0x10000,
        wire::joined(chunks) == tls_stream(payloads),
    ensures
        ({
            let start = TlsPosition { remaining: 0, header: Seq::empty() };
            &&& tls_feed_all(start, chunks).out == wire::joined(payloads)
            &&& tls_feed_all(start, chunks).at == start
        }),
{
    let start = TlsPosition { remaining: 0, header: Seq::empty() };
    lemma_stream_is_plain(payloads);
    assert(start.header + wire::joined(chunks) =~= tls_stream(payloads));
    lemma_feed_all(start, chunks);
}

/// Reading part of a record directly yields what the parser yields for it.
pub proof fn direct_reads_agree(at: TlsPosition, data: Seq<u8>)
    requires
        possible(at),
        0 < data.len() <= at.remaining,
    ensures
        tls_feed(at, data).out == data,
        tls_feed(at, data).at == (TlsPosition {
            remaining: at.remaining - data.len(),
            header: Seq::empty(),
        }),
{
    lemma_scan_within(at.remaining, data);
}

} // verus!

//! Byte streams in TLS records and WebSocket frames.

use crate::laws::bytes;
use crate::laws::bytes::{u16_at, u64_at};
use crate::laws::disguise;
use crate::tunnel::disguise_protocol;
use crate::tunnel::fakehttp::tls_stream;
use crate::tunnel::fakehttp::send_queue::{FlushStep, SendQueue, WriteStep};
use crate::tunnel::fakehttp::tls_stream::{
    TlsPosition, TlsReadStep, TlsRecordReader, TlsRecordWriter, TlsScan,
};
use crate::tunnel::fakehttp::ws_stream;
use crate::tunnel::fakehttp::ws_stream::{
    WsFrameReader, WsFrameWriter, WsPart, WsPosition, WsReadStep,
};
use vstd::prelude::*;

verus! {

// --- TLS records ---

/// Between two records.
pub open spec fn between_records() -> TlsPosition {
    TlsPosition { remaining: 0, header: Seq::empty() }
}

/// Where no application data record stands, the rest of what one read brought is passed on
/// as it is, and the reader stands between two records.
pub proof fn foreign_bytes_are_passed_on(data: Seq<u8>)
    requires
        data.len() >= 5,
        !(data[0] == 0x17 && data[1] == 3),
    ensures
        tls_stream::tls_feed(between_records(), data) == (TlsScan {
            out: data,
            at: between_records(),
        }),
{
}

/// Fewer than five bytes between two records are kept until the rest of a header comes.
pub proof fn part_of_a_header_is_kept(data: Seq<u8>, more: Seq<u8>)
    requires
        0 < data.len(),
        data.len() + more.len() < 5,
    ensures
        tls_stream::tls_feed(between_records(), data).out.len() == 0,
        tls_stream::tls_feed(between_records(), data).at == (TlsPosition {
            remaining: 0,
            header: data,
        }),
        ({
            let after = tls_stream::tls_feed(TlsPosition { remaining: 0, header: data }, more);
            &&& after.out.len() == 0
            &&& after.at.remaining == 0
            &&& after.at.header == data + more
        }),
{
}

/// A header that a read completes is judged like one that comes at once: application data
/// begins as many bytes of payload as it says, and anything else is passed on.
pub proof fn header_may_come_in_parts(kept: Seq<u8>, data: Seq<u8>)
    requires
        0 < kept.len() < 5,
        kept.len() + data.len() >= 5,
    ensures
        ({
            let all = kept + data;
            let here = TlsPosition { remaining: 0, header: kept };
            let rest = data.skip(5 - kept.len());
            &&& all[0] == 0x17 && all[1] == 3 ==> tls_stream::tls_feed(here, data)
                == tls_stream::tls_feed(
                TlsPosition { remaining: u16_at(all, 3), header: Seq::empty() },
                rest,
            )
            &&& !(all[0] == 0x17 && all[1] == 3) ==> {
                let after = tls_stream::tls_feed(between_records(), rest);
                &&& tls_stream::tls_feed(here, data).out == all.take(5) + after.out
                &&& tls_stream::tls_feed(here, data).at == after.at
            }
        }),
{
    let all = kept + data;
    let need = 5 - kept.len();
    let header = kept + data.take(need);
    assert(header =~= all.take(5));
    bytes::lemma_reads(header, 3);
    assert(u16_at(header, 3) == u16_at(all, 3));
}

/// A header that comes at once begins as many bytes of payload as it says.
pub proof fn record_begins_its_payload(data: Seq<u8>)
    requires
        data.len() >= 5,
        data[0] == 0x17,
        data[1] == 3,
    ensures
        tls_stream::tls_feed(between_records(), data) == tls_stream::tls_feed(
            TlsPosition { remaining: u16_at(data, 3), header: Seq::empty() },
            data.skip(5),
        ),
{
    bytes::lemma_reads(data, 3);
}

/// Inside a record its payload is delivered as it comes, and what follows it is read as from
/// between two records.
pub proof fn payload_is_delivered_as_it_comes(remaining: int, data: Seq<u8>, rest: Seq<u8>)
    requires
        remaining > 0,
        data.len() == remaining,
    ensures
        ({
            let here = TlsPosition { remaining, header: Seq::empty() };
            let after = tls_stream::tls_feed(between_records(), rest);
            &&& tls_stream::tls_feed(here, data + rest).out == data + after.out
            &&& tls_stream::tls_feed(here, data + rest).at == after.at
        }),
{
    assert((data + rest).take(remaining) =~= data);
    assert((data + rest).skip(remaining) =~= rest);
}

/// One read asks for no more than the record holds, the caller takes, and 4096 bytes.
pub proof fn reads_are_bounded(remaining: int, room: int)
    requires
        remaining >= 0,
        room >= 0,
    ensures
        ({
            let n = tls_stream::at_most(remaining, room);
            &&& n <= remaining && n <= room && n <= 4096
            &&& n == remaining || n == room || n == 4096
        }),
{
}

// --- WebSocket frames ---

/// How long a header is, by its second byte; it takes two bytes to know.
pub proof fn header_length_is_in_the_second_byte(h: Seq<u8>)
    ensures
        h.len() < 2 ==> ws_stream::header_target(h) == 2,
        h.len() >= 2 ==> ws_stream::header_target(h) == (if h[1] as int % 128 < 126 {
            2int
        } else if h[1] as int % 128 == 126 {
            4
        } else {
            10
        }) + if h[1] >= 128 {
            4int
        } else {
            0
        },
        h.len() >= 1 ==> ws_stream::is_control(h) == (h[0] as int % 16 >= 8),
{
}

/// What a complete header leads to: nothing for an empty frame, the payload of a data frame
/// with its mask, and for a control frame the header until its payload was dropped.
pub proof fn header_leads_to_its_payload(h: Seq<u8>)
    requires
        h.len() >= 2,
        h.len() == ws_stream::header_target(h),
    ensures
        ({
            let code = h[1] as int % 128;
            let n = if code < 126 {
                code
            } else if code == 126 {
                u16_at(h, 2)
            } else {
                u64_at(h, 2)
            };
            let k = h.len() as int;
            let p = ws_stream::ws_settled(WsPosition::Header(h));
            &&& n == 0 ==> p == WsPosition::Header(Seq::<u8>::empty())
            &&& n > 0 && h[0] as int % 16 >= 8 ==> p == WsPosition::Header(h)
            &&& n > 0 && h[0] as int % 16 < 8 ==> {
                &&& p matches WsPosition::Payload { remaining, key, offset } && remaining == n
                    && offset == 0 && (h[1] >= 128 ==> key == Some(h.subrange(k - 4, k))) && (h[1]
                    < 128 ==> key is None)
            }
        }),
{
    bytes::lemma_reads(h, 2);
}

/// Reading goes on where it stopped: an incomplete header and an unfinished payload stay,
/// and a finished payload gives way to the next header.
pub proof fn reading_goes_on(h: Seq<u8>, remaining: int, key: Option<Seq<u8>>, offset: int)
    requires
        remaining >= 0,
        h.len() < ws_stream::header_target(h),
    ensures
        ws_stream::ws_settled(WsPosition::Header(h)) == WsPosition::Header(h),
        ({
            let p = WsPosition::Payload { remaining, key, offset };
            ws_stream::ws_settled(p) == if remaining > 0 {
                p
            } else {
                WsPosition::Header(Seq::empty())
            }
        }),
{
}

/// Payload is freed from its mask, which goes on from read to read.
pub proof fn payload_is_unmasked(data: Seq<u8>, key: Seq<u8>, offset: int)
    requires
        offset >= 0,
        key.len() == 4,
    ensures
        ws_stream::unmask(data, None, offset) == data,
        ws_stream::unmask(data, Some(key), offset).len() == data.len(),
        forall|i: int|
            0 <= i < data.len() ==> #[trigger] ws_stream::unmask(data, Some(key), offset)[i]
                == data[i] ^ key[(offset + i) % 4],
{
    assert forall|i: int| 0 <= i < data.len() implies #[trigger] ws_stream::unmask(
        data,
        Some(key),
        offset,
    )[i] == data[i] ^ key[(offset + i) % 4] by {
        assert((offset % 4 + i) % 4 == (offset + i) % 4);
    }
}

/// A stream may end between two frames; elsewhere the end tells the part that is missing.
pub proof fn end_inside_a_frame_is_told(h: Seq<u8>, remaining: int, key: Option<Seq<u8>>, offset: int)
    ensures
        ws_stream::ended_inside(WsPosition::Header(Seq::empty())) is None,
        0 < h.len() < ws_stream::header_target(h) ==> ws_stream::ended_inside(WsPosition::Header(h))
            == Some(WsPart::Header),
        h.len() >= 2 && h.len() >= ws_stream::header_target(h) ==> ws_stream::ended_inside(
            WsPosition::Header(h),
        ) == Some(WsPart::Control),
        ws_stream::ended_inside((WsPosition::Payload { remaining, key, offset })) == Some(
            WsPart::Payload,
        ),
{
}

/// One read asks for no more than the payload holds and the caller takes, and for 4096 bytes
/// at most where they pass through the mask; a control frame is dropped by up to 125 bytes.
pub proof fn frame_reads_are_bounded(remaining: int, room: int, masked: bool)
    requires
        remaining >= 0,
        room >= 0,
    ensures
        ({
            let n = ws_stream::payload_size(remaining, room, masked);
            &&& n <= remaining && n <= room && (masked ==> n <= 4096)
            &&& n == remaining || n == room || (masked && n == 4096)
        }),
        ws_stream::drain_size(remaining) == if remaining < 125 {
            remaining
        } else {
            125
        },
{
}

// --- Writing ---

/// Data is written as one application data record of up to 16384 bytes; the caller is told
/// so many bytes once all of the record is sent. What is pending goes first.
pub proof fn data_is_written_as_a_record(w: &mut TlsRecordWriter, buf: &[u8], r: WriteStep)
    requires
        call_ensures(TlsRecordWriter::begin_write, (w, buf), r),
    ensures
        ({
            let idle = old(w).unsent().len() == 0;
            let n = if buf@.len() < 16384 {
                buf@.len() as int
            } else {
                16384
            };
            &&& !idle ==> r == WriteStep::Send && *final(w) == *old(w)
            &&& idle && buf@.len() == 0 ==> r == WriteStep::Done(0) && *final(w) == *old(w)
            &&& idle && buf@.len() > 0 ==> {
                let b = final(w).unsent();
                &&& r == WriteStep::Send
                &&& b.len() == 5 + n
                &&& b[0] == 0x17 && b[1] == 3 && b[2] == 3
                &&& u16_at(b, 3) == n
                &&& b.subrange(5, 5 + n) == buf@.subrange(0, n)
                &&& final(w).credit() == n
            }
        }),
{
    let n = if buf@.len() < 16384 {
        buf@.len() as int
    } else {
        16384
    };
    disguise::record_counts_its_body(0x17, 3, 3, buf@.take(n));
    assert(buf@.take(n) =~= buf@.subrange(0, n));
}

/// Data is written as one WebSocket frame, masked by a client and not by a server.
pub proof fn data_is_written_as_a_frame(
    w: &mut WsFrameWriter,
    buf: &[u8],
    r: WriteStep,
    is_client: bool,
    fresh: WsFrameWriter,
)
    requires
        call_ensures(WsFrameWriter::begin_write, (w, buf), r),
        call_ensures(WsFrameWriter::new, (is_client,), fresh),
        buf@.len() <= u64::MAX,
    ensures
        fresh.client() == is_client && fresh.unsent().len() == 0,
        final(w).client() == old(w).client(),
        ({
            let idle = old(w).unsent().len() == 0;
            &&& !idle ==> r == WriteStep::Send && *final(w) == *old(w)
            &&& idle && buf@.len() == 0 ==> r == WriteStep::Done(0) && *final(w) == *old(w)
            &&& idle && buf@.len() > 0 ==> {
                let b = final(w).unsent();
                &&& r == WriteStep::Send
                &&& final(w).credit() == buf@.len()
                &&& b[0] == 0x82
                &&& (b[1] >= 128) == old(w).client()
                &&& !old(w).client() ==> b.subrange(b.len() - buf@.len(), b.len() as int) == buf@
            }
        }),
{
    if old(w).unsent().len() == 0 && buf@.len() > 0 {
        if old(w).client() {
            let key = choose|key: Seq<u8>|
                key.len() == 4 && final(w).unsent() == #[trigger] disguise_protocol::ws_frame(
                    buf@,
                    Some(key),
                );
            disguise::frame_counts_and_masks_its_payload(buf@, Some(key));
        } else {
            disguise::frame_counts_and_masks_its_payload(buf@, None);
        }
    }
}

/// What the stream takes is no longer pending. Once all is taken the caller is told its
/// bytes; a stream that takes nothing is an error.
pub proof fn taken_bytes_are_no_longer_pending(
    t: &mut TlsRecordWriter,
    w: &mut WsFrameWriter,
    n: usize,
    rt: WriteStep,
    rw: WriteStep,
)
    requires
        call_ensures(TlsRecordWriter::wrote, (t, n), rt),
        call_ensures(WsFrameWriter::wrote, (w, n), rw),
        old(t).unsent().len() > 0,
        old(w).unsent().len() > 0,
    ensures
        n == 0 ==> rt == WriteStep::WriteZero && rw == WriteStep::WriteZero,
        n == 0 ==> *final(t) == *old(t) && *final(w) == *old(w),
        0 < n < old(t).unsent().len() ==> rt == WriteStep::Send && final(t).unsent()
            == old(t).unsent().subrange(n as int, old(t).unsent().len() as int)
            && final(t).credit() == old(t).credit(),
        0 < n < old(w).unsent().len() ==> rw == WriteStep::Send && final(w).unsent()
            == old(w).unsent().subrange(n as int, old(w).unsent().len() as int)
            && final(w).credit() == old(w).credit(),
        n >= old(t).unsent().len() ==> rt == WriteStep::Done(old(t).credit() as usize)
            && final(t).unsent().len() == 0,
        n >= old(w).unsent().len() ==> rw == WriteStep::Done(old(w).credit() as usize)
            && final(w).unsent().len() == 0,
{
    if 0 < n < old(t).unsent().len() {
        assert(old(t).unsent().skip(n as int) =~= old(t).unsent().subrange(
            n as int,
            old(t).unsent().len() as int,
        ));
    }
    if 0 < n < old(w).unsent().len() {
        assert(old(w).unsent().skip(n as int) =~= old(w).unsent().subrange(
            n as int,
            old(w).unsent().len() as int,
        ));
    }
}

/// A flush sends what is pending before it flushes the stream.
pub proof fn flush_sends_what_is_pending(
    t: &mut TlsRecordWriter,
    u: &mut TlsRecordWriter,
    n: usize,
    begun: FlushStep,
    r: FlushStep,
)
    requires
        call_ensures(TlsRecordWriter::begin_flush, (t,), begun),
        call_ensures(TlsRecordWriter::flushed, (u, n), r),
        old(u).unsent().len() > 0,
    ensures
        begun == if old(t).unsent().len() > 0 {
            FlushStep::Send
        } else {
            FlushStep::FlushStream
        },
        *final(t) == *old(t),
        n == 0 ==> r == FlushStep::WriteZero && *final(u) == *old(u),
        0 < n < old(u).unsent().len() ==> r == FlushStep::Send && final(u).unsent()
            == old(u).unsent().skip(n as int),
        n >= old(u).unsent().len() ==> r == FlushStep::FlushStream && final(u).unsent().len() == 0,
{
}

/// The same for frames.
pub proof fn flush_sends_pending_frames(
    t: &mut WsFrameWriter,
    u: &mut WsFrameWriter,
    n: usize,
    begun: FlushStep,
    r: FlushStep,
)
    requires
        call_ensures(WsFrameWriter::begin_flush, (t,), begun),
        call_ensures(WsFrameWriter::flushed, (u, n), r),
        old(u).unsent().len() > 0,
    ensures
        begun == if old(t).unsent().len() > 0 {
            FlushStep::Send
        } else {
            FlushStep::FlushStream
        },
        *final(t) == *old(t),
        n == 0 ==> r == FlushStep::WriteZero && *final(u) == *old(u),
        0 < n < old(u).unsent().len() ==> r == FlushStep::Send && final(u).unsent()
            == old(u).unsent().skip(n as int),
        n >= old(u).unsent().len() ==> r == FlushStep::FlushStream && final(u).unsent().len() == 0,
{
}

// --- Reading ---

/// A reader delivers what is queued first, then asks for the record it is in, and else for
/// anything.
pub proof fn queued_bytes_come_first(t: &mut TlsRecordReader, room: usize, r: TlsReadStep)
    requires
        call_ensures(TlsRecordReader::begin_read, (t, room), r),
        0 <= old(t).position().remaining,
    ensures
        ({
            let q = old(t).queued();
            let left = old(t).position().remaining;
            &&& final(t).position() == old(t).position()
            &&& q.len() > 0 ==> (r matches TlsReadStep::Deliver(out) && out@ + final(t).queued()
                == q && (out@.len() == room || out@.len() == q.len()))
            &&& q.len() == 0 && left == 0 ==> r == TlsReadStep::ReadRaw
            &&& q.len() == 0 && left > 0 && room == 0 ==> (r matches TlsReadStep::Deliver(out)
                && out@.len() == 0)
            &&& q.len() == 0 && left > 0 && room > 0 ==> (r matches TlsReadStep::ReadRecord(n) && n
                <= left && n <= room && n <= 4096 && n > 0)
        }),
{
    let q = old(t).queued();
    let n = if room < q.len() {
        room as int
    } else {
        q.len() as int
    };
    assert(q.take(n) + q.skip(n) =~= q);
}

/// Bytes of a record are delivered as they come and counted; the end of the stream inside a
/// record is told.
pub proof fn record_bytes_are_counted(t: &mut TlsRecordReader, data: &[u8], r: TlsReadStep)
    requires
        call_ensures(TlsRecordReader::on_record, (t, data), r),
    ensures
        data@.len() == 0 ==> r == TlsReadStep::Truncated && *final(t) == *old(t),
        data@.len() > 0 ==> (r matches TlsReadStep::Deliver(out) && out@ == data@)
            && final(t).position().remaining == old(t).position().remaining - data@.len(),
{
}

/// What one raw read brings is fed through the records: what comes out is delivered up to
/// the room, and the rest queued. With nothing out the reader asks for the record that began,
/// or reads again; nothing read is the end.
pub proof fn raw_bytes_are_fed_through_the_records(
    t: &mut TlsRecordReader,
    data: &[u8],
    room: usize,
    r: TlsReadStep,
)
    requires
        call_ensures(TlsRecordReader::on_raw, (t, data, room), r),
        old(t).queued().len() == 0,
    ensures
        data@.len() == 0 ==> (r matches TlsReadStep::Deliver(out) && out@.len() == 0) && *final(t)
            == *old(t),
        data@.len() > 0 ==> {
            let f = tls_stream::tls_feed(old(t).position(), data@);
            &&& final(t).position() == f.at
            &&& f.out.len() > 0 ==> (r matches TlsReadStep::Deliver(out) && out@
                + final(t).queued() == f.out && (out@.len() == room || out@.len() == f.out.len()))
            &&& f.out.len() == 0 ==> final(t).queued().len() == 0
            &&& f.out.len() == 0 && f.at.remaining == 0 ==> r == TlsReadStep::Retry
            &&& f.out.len() == 0 && f.at.remaining > 0 && room > 0 ==> (
            r matches TlsReadStep::ReadRest(n) && n <= f.at.remaining && n <= room && 0 < n <= 4096)
        },
{
    if data@.len() > 0 {
        let f = tls_stream::tls_feed(old(t).position(), data@);
        let n = if room < f.out.len() {
            room as int
        } else {
            f.out.len() as int
        };
        assert(f.out.take(n) + f.out.skip(n) =~= f.out);
    }
}

/// Payload of a frame is unmasked and delivered, and counted; its end inside a frame is told.
pub proof fn frame_payload_is_delivered(
    w: &mut WsFrameReader,
    data: &[u8],
    r: WsReadStep,
    remaining: int,
    key: Option<Seq<u8>>,
    offset: int,
)
    requires
        call_ensures(WsFrameReader::on_payload, (w, data), r),
        old(w).position() == (WsPosition::Payload { remaining, key, offset }),
        key matches Some(k) ==> k.len() == 4,
        0 <= offset,
    ensures
        data@.len() == 0 ==> r == WsReadStep::Truncated(WsPart::Payload) && *final(w) == *old(w),
        data@.len() > 0 ==> {
            &&& r matches WsReadStep::Deliver(out) && out@.len() == data@.len() && (key is None
                ==> out@ == data@) && (key matches Some(k) ==> forall|i: int|
                0 <= i < data@.len() ==> #[trigger] out@[i] == data@[i] ^ k[(offset + i) % 4])
            &&& final(w).position() == (WsPosition::Payload {
                remaining: remaining - data@.len(),
                key,
                offset: offset + data@.len(),
            })
        },
{
    if let Some(k) = key {
        payload_is_unmasked(data@, k, offset);
    }
}

/// Header bytes are collected; the stream may end before the first of them, and nowhere else.
pub proof fn header_bytes_are_collected(
    w: &mut WsFrameReader,
    data: &[u8],
    r: WsReadStep,
    h: Seq<u8>,
)
    requires
        call_ensures(WsFrameReader::on_header, (w, data), r),
        old(w).position() == WsPosition::Header(h),
        h.len() < ws_stream::header_target(h),
    ensures
        data@.len() > 0 ==> r == WsReadStep::Continue && final(w).position() == WsPosition::Header(
            h + data@,
        ),
        data@.len() == 0 && h.len() == 0 ==> (r matches WsReadStep::Deliver(out) && out@.len()
            == 0),
        data@.len() == 0 && h.len() > 0 ==> r == WsReadStep::Truncated(WsPart::Header),
        data@.len() == 0 ==> *final(w) == *old(w),
{
    end_inside_a_frame_is_told(h, 0, None, 0);
    if h.len() == 0 {
        assert(h =~= Seq::empty());
    }
}

/// A control frame is over once all of its payload was dropped at once; less is dropped
/// again from the start.
pub proof fn control_frame_is_dropped(w: &mut WsFrameReader, n: usize, r: WsReadStep, h: Seq<u8>)
    requires
        call_ensures(WsFrameReader::on_drained, (w, n), r),
        old(w).position() == WsPosition::Header(h),
        h.len() >= 2,
        h.len() == ws_stream::header_target(h),
    ensures
        n == 0 ==> r == WsReadStep::Truncated(WsPart::Control) && *final(w) == *old(w),
        0 < n < disguise_protocol::ws_payload_len(h) ==> r == WsReadStep::Retry && *final(w)
            == *old(w),
        0 < n && n == disguise_protocol::ws_payload_len(h) ==> r == WsReadStep::Continue
            && final(w).position() == WsPosition::Header(Seq::<u8>::empty()),
{
    end_inside_a_frame_is_told(h, 0, None, 0);
}

/// A reader asks for what is missing of a header, drops control frames, and reads payload as
/// far as there is room.
pub proof fn reader_asks_for_what_is_missing(w: &mut WsFrameReader, room: usize, r: WsReadStep)
    requires
        call_ensures(WsFrameReader::begin_read, (w, room), r),
    ensures
        ({
            let p = ws_stream::ws_settled(old(w).position());
            &&& final(w).position() == p
            &&& p matches WsPosition::Header(h) ==> {
                let missing = ws_stream::header_target(h) - h.len();
                &&& missing > 0 ==> r == WsReadStep::ReadHeader(missing as usize)
                &&& missing <= 0 ==> r is Drain
            }
            &&& p matches WsPosition::Payload { remaining, key, .. } ==> {
                &&& room == 0 ==> (r matches WsReadStep::Deliver(out) && out@.len() == 0)
                &&& room > 0 ==> r == WsReadStep::ReadPayload(
                    ws_stream::payload_size(remaining, room as int, key is Some) as usize,
                )
            }
        }),
{
}

/// A queue hands out the frame it was loaded with.
pub proof fn loaded_frame_is_pending(
    fresh: SendQueue,
    q: &mut SendQueue,
    frame: Vec<u8>,
    payload_len: usize,
    before: bool,
    after: bool,
    pending: &[u8],
)
    requires
        call_ensures(SendQueue::new, (), fresh),
        *old(q) == fresh,
        call_ensures(SendQueue::load, (q, frame, payload_len), ()),
        call_ensures(SendQueue::has_pending, (&fresh,), before),
        call_ensures(SendQueue::has_pending, (final(q),), after),
        call_ensures(SendQueue::pending, (final(q),), pending),
        frame@.len() > 0,
    ensures
        !before && after,
        pending@ == frame@,
        final(q).credit() == payload_len,
{
}

/// Writers show what is pending.
pub proof fn pending_bytes_are_shown(
    t: TlsRecordWriter,
    w: WsFrameWriter,
    a: &[u8],
    b: &[u8],
    some: bool,
)
    requires
        call_ensures(TlsRecordWriter::pending, (&t,), a),
        call_ensures(WsFrameWriter::pending, (&w,), b),
        call_ensures(WsFrameWriter::has_pending, (&w,), some),
    ensures
        a@ == t.unsent(),
        b@ == w.unsent(),
        some == (b@.len() > 0),
{
}

/// With a chosen mask a frame is written just as without.
pub proof fn data_is_written_with_a_mask(
    w: &mut WsFrameWriter,
    buf: &[u8],
    mask: Option<[u8; 4]>,
    r: WriteStep,
)
    requires
        call_ensures(WsFrameWriter::begin_write_with, (w, buf, mask), r),
        buf@.len() <= u64::MAX,
    ensures
        old(w).unsent().len() > 0 ==> r == WriteStep::Send && *final(w) == *old(w),
        old(w).unsent().len() == 0 && buf@.len() == 0 ==> r == WriteStep::Done(0) && *final(w)
            == *old(w),
        old(w).unsent().len() == 0 && buf@.len() > 0 ==> {
            &&& r == WriteStep::Send
            &&& final(w).credit() == buf@.len()
            &&& final(w).unsent()[0] == 0x82
            &&& (final(w).unsent()[1] >= 128) == mask is Some
            &&& disguise_protocol::ws_first_frame(final(w).unsent()) == Some(
                (final(w).unsent().len() as int, buf@),
            )
        },
{
    if old(w).unsent().len() == 0 && buf@.len() > 0 {
        let m = match mask {
            Some(key) => Some(key@),
            None => None,
        };
        let frame = disguise_protocol::ws_frame(buf@, m);
        disguise::frame_counts_and_masks_its_payload(buf@, m);
        disguise_protocol::ws_frame_round_trip(buf@, m, Seq::empty());
        assert(frame + Seq::<u8>::empty() =~= frame);
    }
}

/// The rest of a record is delivered as it comes.
pub proof fn rest_of_a_record_is_delivered(t: &mut TlsRecordReader, data: &[u8], r: TlsReadStep)
    requires
        call_ensures(TlsRecordReader::on_rest, (t, data), r),
    ensures
        r matches TlsReadStep::Deliver(out) && out@ == data@,
        final(t).position().remaining == old(t).position().remaining - data@.len(),
        final(t).position().header.len() == 0,
        final(t).queued() == old(t).queued(),
{
}

} // verus!

//! One encoded frame on its way to a stream that takes it piece by piece.

use vstd::prelude::*;
use vstd::slice::*;

verus! {

/// What a writer does next.
#[derive(Debug, Clone, Copy, PartialEq, Eq, Structural)]
pub enum WriteStep {
    /// Hand the pending bytes to the stream.
    Send,
    /// The write is complete; so many bytes of the caller's data were taken.
    Done(usize),
    /// The stream took nothing: fail with a write-zero error.
    WriteZero,
}

/// What a flush does next.
#[derive(Debug, Clone, Copy, PartialEq, Eq, Structural)]
pub enum FlushStep {
    /// Hand the pending bytes to the stream.
    Send,
    /// Nothing is pending: flush the stream itself.
    FlushStream,
    /// The stream took nothing: fail with a write-zero error.
    WriteZero,
}

/// A frame, how much of it the stream took, and how much of the caller's data it carries.
pub struct SendQueue {
    send_buf: Vec<u8>,
    send_pos: usize,
    payload_len: usize,
}

impl SendQueue {
    /// The bytes that the stream has not taken yet.
    pub closed spec fn unsent(self) -> Seq<u8> {
        self.send_buf@.subrange(self.send_pos as int, self.send_buf@.len() as int)
    }

    /// How many bytes of the caller's data the pending frame carries.
    pub closed spec fn credit(self) -> nat {
        self.payload_len as nat
    }

    /// A frame that the stream took whole is not kept.
    pub closed spec fn well_formed(self) -> bool {
        &&& self.send_buf@.len() == 0 ==> self.send_pos == 0 && self.payload_len == 0
        &&& self.send_buf@.len() > 0 ==> self.send_pos < self.send_buf@.len()
    }

    /// Nothing is pending.
    pub fn new() -> (r: Self)
        ensures
            r.well_formed(),
            r.unsent() == Seq::<u8>::empty(),
            r.credit() == 0,
    {
        SendQueue { send_buf: Vec::new(), send_pos: 0, payload_len: 0 }
    }

    /// Whether a frame is pending.
    pub fn has_pending(&self) -> (r: bool)
        requires
            self.well_formed(),
        ensures
            r == (self.unsent().len() > 0),
    {
        self.send_pos < self.send_buf.len() && !self.send_buf.is_empty()
    }

    /// The bytes to hand to the stream.
    pub fn pending(&self) -> (r: &[u8])
        requires
            self.well_formed(),
        ensures
            r@ == self.unsent(),
    {
        slice_subrange(self.send_buf.as_slice(), self.send_pos, self.send_buf.len())
    }

    /// Queues a frame that carries `payload_len` bytes of the caller's data.
    pub fn load(&mut self, frame: Vec<u8>, payload_len: usize)
        requires
            old(self).well_formed(),
            old(self).unsent().len() == 0,
            frame@.len() > 0,
        ensures
            final(self).well_formed(),
            final(self).unsent() == frame@,
            final(self).credit() == payload_len,
    {
        self.send_buf = frame;
        self.send_pos = 0;
        self.payload_len = payload_len;
        assert(self.unsent() =~= frame@);
    }

    /// Forgets the pending frame.
    fn reset(&mut self)
        ensures
            final(self).well_formed(),
            final(self).unsent() == Seq::<u8>::empty(),
            final(self).credit() == 0,
    {
        self.send_buf = Vec::new();
        self.send_pos = 0;
        self.payload_len = 0;
    }

    /// The stream took `n` of the pending bytes during a write.
    pub fn wrote(&mut self, n: usize) -> (r: WriteStep)
        requires
            old(self).well_formed(),
            old(self).unsent().len() > 0,
        ensures
            final(self).well_formed(),
            n == 0 ==> r == WriteStep::WriteZero && *final(self) == *old(self),
            0 < n < old(self).unsent().len() ==> {
                &&& r == WriteStep::Send
                &&& final(self).unsent() == old(self).unsent().skip(n as int)
                &&& final(self).credit() == old(self).credit()
            },
            n > 0 && n >= old(self).unsent().len() ==> {
                &&& r == WriteStep::Done(old(self).credit() as usize)
                &&& final(self).unsent().len() == 0
                &&& final(self).credit() == 0
            },
    {
        if n == 0 {
            return WriteStep::WriteZero;
        }
        if n >= self.send_buf.len() - self.send_pos {
            let done: usize = self.payload_len;
            self.reset();
            return WriteStep::Done(done);
        }
        self.send_pos += n;
        assert(self.unsent() =~= old(self).unsent().skip(n as int));
        WriteStep::Send
    }

    /// The first step of a flush.
    pub fn begin_flush(&mut self) -> (r: FlushStep)
        requires
            old(self).well_formed(),
        ensures
            *final(self) == *old(self),
            r == if old(self).unsent().len() > 0 {
                FlushStep::Send
            } else {
                FlushStep::FlushStream
            },
    {
        if self.has_pending() {
            FlushStep::Send
        } else {
            FlushStep::FlushStream
        }
    }

    /// The stream took `n` of the pending bytes during a flush.
    pub fn flushed(&mut self, n: usize) -> (r: FlushStep)
        requires
            old(self).well_formed(),
            old(self).unsent().len() > 0,
        ensures
            final(self).well_formed(),
            n == 0 ==> r == FlushStep::WriteZero && *final(self) == *old(self),
            0 < n < old(self).unsent().len() ==> {
                &&& r == FlushStep::Send
                &&& final(self).unsent() == old(self).unsent().skip(n as int)
                &&& final(self).credit() == old(self).credit()
            },
            n > 0 && n >= old(self).unsent().len() ==> {
                &&& r == FlushStep::FlushStream
                &&& final(self).unsent().len() == 0
                &&& final(self).credit() == 0
            },
    {
        match self.wrote(n) {
            WriteStep::Send => FlushStep::Send,
            WriteStep::Done(_) => FlushStep::FlushStream,
            WriteStep::WriteZero => FlushStep::WriteZero,
        }
    }
}

/// The pieces of `frame` that a stream takes when it accepts `counts` bytes in turn.
pub open spec fn pieces_taken(frame: Seq<u8>, counts: Seq<nat>) -> Seq<u8>
    decreases counts.len(),
{
    if counts.len() == 0 {
        Seq::empty()
    } else {
        let n = if counts[0] < frame.len() { counts[0] } else { frame.len() };
        frame.take(n as int) + pieces_taken(frame.skip(n as int), counts.drop_first())
    }
}

/// What is left of `frame` after that.
pub open spec fn left_over(frame: Seq<u8>, counts: Seq<nat>) -> Seq<u8>
    decreases counts.len(),
{
    if counts.len() == 0 {
        frame
    } else {
        let n = if counts[0] < frame.len() { counts[0] } else { frame.len() };
        left_over(frame.skip(n as int), counts.drop_first())
    }
}

/// However the stream splits a frame, the pieces it takes are the frame, in order and
/// without gaps.
pub proof fn pieces_make_the_frame(frame: Seq<u8>, counts: Seq<nat>)
    ensures
        pieces_taken(frame, counts) + left_over(frame, counts) == frame,
    decreases counts.len(),
{
    if counts.len() > 0 {
        let n = if counts[0] < frame.len() { counts[0] } else { frame.len() };
        pieces_make_the_frame(frame.skip(n as int), counts.drop_first());
        assert(pieces_taken(frame, counts) + left_over(frame, counts) =~= frame.take(n as int) + (
        pieces_taken(frame.skip(n as int), counts.drop_first()) + left_over(
            frame.skip(n as int),
            counts.drop_first(),
        )));
        assert(frame.take(n as int) + frame.skip(n as int) =~= frame);
    } else {
        assert(pieces_taken(frame, counts) + left_over(frame, counts) =~= frame);
    }
}

} // verus!

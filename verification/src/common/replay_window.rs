//! Sliding window that tells a fresh sequence number from a replayed one.

use vstd::prelude::*;

verus! {

/// Bit `k` of byte `b`.
pub open spec fn bit_of(b: u8, k: int) -> bool {
    b & (1u8 << (k as u8)) != 0
}

proof fn lemma_set_bit(b: u8, k: u8, j: u8)
    requires
        k < 8,
        j < 8,
    ensures
        bit_of(b | (1u8 << k), j as int) == (j == k || bit_of(b, j as int)),
{
    assert(((b | (1u8 << k)) & (1u8 << j) != 0) == (j == k || b & (1u8 << j) != 0)) by (bit_vector)
        requires
            k < 8,
            j < 8,
    ;
}

proof fn lemma_clear_bit(b: u8, k: u8, j: u8)
    requires
        k < 8,
        j < 8,
    ensures
        bit_of(b & !(1u8 << k), j as int) == (j != k && bit_of(b, j as int)),
{
    assert(((b & !(1u8 << k)) & (1u8 << j) != 0) == (j != k && b & (1u8 << j) != 0)) by (bit_vector)
        requires
            k < 8,
            j < 8,
    ;
}

proof fn lemma_zero_bit(j: u8)
    requires
        j < 8,
    ensures
        !bit_of(0u8, j as int),
{
    assert(0u8 & (1u8 << j) == 0) by (bit_vector);
}

/// What the window remembers: the highest sequence number accepted so far, if any,
/// and the accepted numbers that are still inside the window.
pub struct Seen {
    pub highest: Option<u64>,
    pub marks: Set<u64>,
}

impl Seen {
    /// Nothing was accepted yet.
    pub open spec fn nothing() -> Seen {
        Seen { highest: None, marks: Set::empty() }
    }

    /// `seq` is new: ahead of everything, or inside the window and not yet marked.
    pub open spec fn fresh(self, window: int, seq: u64) -> bool {
        match self.highest {
            None => true,
            Some(h) => seq > h || (h - seq < window && !self.marks.contains(seq)),
        }
    }

    /// The state after `seq` was accepted.
    pub open spec fn marked(self, window: int, seq: u64) -> Seen {
        let h: u64 = match self.highest {
            None => seq,
            Some(h) => if seq > h { seq } else { h },
        };
        Seen {
            highest: Some(h),
            marks: Set::new(|s: u64| (s == seq || self.marks.contains(s)) && h - s < window),
        }
    }
}

/// Ring-buffer based sliding window for packet deduplication.
/// Window capacity = `N * 8` bits. O(1) for normal in-order traffic.
#[derive(Debug, Clone)]
pub struct ReplayWindow<const N: usize> {
    max_seq: u64,
    head: usize,
    bitmap: [u8; N],
    valid: bool,
}

impl<const N: usize> View for ReplayWindow<N> {
    type V = Seen;

    closed spec fn view(&self) -> Seen {
        if self.valid {
            Seen {
                highest: Some(self.max_seq),
                marks: Set::new(
                    |s: u64| s <= self.max_seq && self.max_seq - s < 8 * N && self.slot(self.ring(self.max_seq - s)),
                ),
            }
        } else {
            Seen::nothing()
        }
    }
}

impl<const N: usize> ReplayWindow<N> {
    /// The ring position `offset` places behind the head.
    spec fn ring(self, offset: int) -> int {
        if self.head >= offset {
            self.head - offset
        } else {
            self.head + 8 * N - offset
        }
    }

    /// The bit at ring position `i`.
    spec fn slot(self, i: int) -> bool {
        bit_of(self.bitmap@[i / 8], i % 8)
    }

    /// The head lies inside the ring, and a window that holds something has room for it.
    pub closed spec fn well_formed(self) -> bool {
        &&& self.head == 0 || self.head < 8 * N
        &&& self.valid ==> N > 0
    }

    /// Forgets every sequence number.
    pub fn clear(&mut self)
        ensures
            final(self).well_formed(),
            final(self)@ == Seen::nothing(),
    {
        self.max_seq = 0;
        self.head = 0;
        self.bitmap = [0u8; N];
        self.valid = false;
    }

    /// The byte and the mask of the bit `offset_from_head` places behind the head.
    fn bit_index(&self, offset_from_head: usize) -> (r: (usize, u8))
        requires
            self.well_formed(),
            N <= usize::MAX / 8,
            offset_from_head < 8 * N,
        ensures
            r.0 == self.ring(offset_from_head as int) / 8,
            r.0 < N,
            r.1 == 1u8 << ((self.ring(offset_from_head as int) % 8) as u8),
    {
        let window: usize = N * 8;
        let idx: usize = if self.head >= offset_from_head {
            self.head - offset_from_head
        } else {
            self.head + (window - offset_from_head)
        };
        let bit: u8 = (idx % 8) as u8;
        (idx / 8, 1u8 << bit)
    }

    fn test_bit_at_offset(&self, offset_from_head: usize) -> (r: bool)
        requires
            self.well_formed(),
            N <= usize::MAX / 8,
            offset_from_head < 8 * N,
        ensures
            r == self.slot(self.ring(offset_from_head as int)),
    {
        let (byte, mask) = self.bit_index(offset_from_head);
        (self.bitmap[byte] & mask) != 0
    }

    fn set_bit_at_offset(&mut self, offset_from_head: usize)
        requires
            old(self).well_formed(),
            N <= usize::MAX / 8,
            offset_from_head < 8 * N,
        ensures
            final(self).well_formed(),
            final(self).max_seq == old(self).max_seq,
            final(self).head == old(self).head,
            final(self).valid == old(self).valid,
            forall|i: int|
                0 <= i < 8 * N ==> #[trigger] final(self).slot(i) == (i == old(self).ring(
                    offset_from_head as int,
                ) || old(self).slot(i)),
    {
        let (byte, mask) = self.bit_index(offset_from_head);
        let ghost at = self.ring(offset_from_head as int);
        let b: u8 = self.bitmap[byte];
        self.bitmap[byte] = b | mask;
        assert forall|i: int| 0 <= i < 8 * N implies #[trigger] self.slot(i) == (i == at || old(
            self,
        ).slot(i)) by {
            if i / 8 == at / 8 {
                lemma_set_bit(b, (at % 8) as u8, (i % 8) as u8);
            }
        }
    }

    /// Clears the `advance` positions that follow the head and moves the head there.
    fn slide(&mut self, advance: usize)
        requires
            old(self).well_formed(),
            0 < N <= usize::MAX / 8,
            0 < advance < 8 * N,
        ensures
            final(self).well_formed(),
            final(self).max_seq == old(self).max_seq,
            final(self).valid == old(self).valid,
            forall|o: int|
                0 <= o < 8 * N ==> #[trigger] final(self).slot(final(self).ring(o)) == (o >= advance
                    && old(self).slot(old(self).ring(o - advance))),
    {
        let window: usize = N * 8;
        let ghost before = *self;
        let mut i: usize = 1;
        while i <= advance
            invariant
                window == 8 * N,
                0 < N <= usize::MAX / 8,
                1 <= i <= advance + 1,
                advance < window,
                self.head == before.head,
                self.max_seq == before.max_seq,
                self.valid == before.valid,
                self.well_formed(),
                before.well_formed(),
                forall|k: int|
                    0 <= k < 8 * N ==> #[trigger] self.slot(k) == (before.slot(k) && !(1 <= (if k
                        > before.head {
                        k - before.head
                    } else {
                        k + 8 * N - before.head
                    }) < i)),
            decreases advance + 1 - i,
        {
            let idx: usize = if self.head >= window - i {
                self.head - (window - i)
            } else {
                self.head + i
            };
            let byte: usize = idx / 8;
            let bit: u8 = (idx % 8) as u8;
            let b: u8 = self.bitmap[byte];
            let ghost mid = *self;
            self.bitmap[byte] = b & !(1u8 << bit);
            assert forall|k: int| 0 <= k < 8 * N implies #[trigger] self.slot(k) == (k != idx
                && mid.slot(k)) by {
                if k / 8 == byte {
                    lemma_clear_bit(b, bit, (k % 8) as u8);
                }
            }
            i += 1;
        }
        let ghost cleared = *self;
        if self.head >= window - advance {
            self.head = self.head - (window - advance);
        } else {
            self.head = self.head + advance;
        }
        assert forall|o: int| 0 <= o < 8 * N implies #[trigger] self.slot(self.ring(o)) == (o
            >= advance && old(self).slot(old(self).ring(o - advance))) by {
            let k = self.ring(o);
            assert(cleared.slot(k) == (before.slot(k) && !(1 <= (if k > before.head {
                k - before.head
            } else {
                k + 8 * N - before.head
            }) < advance + 1)));
        }
    }

    /// Check if seq is acceptable (not a replay) and mark it as seen.
    /// Returns true if accepted, false if rejected (duplicate or too old).
    pub fn accept(&mut self, seq: u64) -> (r: bool)
        requires
            old(self).well_formed(),
            0 < N <= usize::MAX / 8,
        ensures
            final(self).well_formed(),
            r == old(self)@.fresh(8 * N as int, seq),
            r ==> final(self)@ == old(self)@.marked(8 * N as int, seq),
            !r ==> final(self)@ == old(self)@,
    {
        if !self.valid {
            self.valid = true;
            self.max_seq = seq;
            self.restart();
            self.set_bit_at_offset(0);
            assert(self@.marks =~= old(self)@.marked(8 * N as int, seq).marks);
            return true;
        }
        let window: u64 = (N * 8) as u64;
        if seq > self.max_seq {
            let advance: u64 = seq - self.max_seq;
            if advance >= window {
                self.restart();
            } else {
                self.slide(advance as usize);
            }
            let ghost slid = *self;
            self.max_seq = seq;
            self.set_bit_at_offset(0);
            proof {
                let goal = old(self)@.marked(8 * N as int, seq).marks;
                assert forall|s: u64| self@.marks.contains(s) == goal.contains(s) by {
                    if s <= seq && seq - s < 8 * N {
                        assert(self.slot(self.ring(seq - s)) == (seq == s || slid.slot(slid.ring(seq - s))));
                    }
                }
                assert(self@.marks =~= goal);
            }
            return true;
        }
        let delta: u64 = self.max_seq - seq;
        if delta >= window {
            return false;
        }
        if self.test_bit_at_offset(delta as usize) {
            return false;
        }
        self.set_bit_at_offset(delta as usize);
        proof {
            let goal = old(self)@.marked(8 * N as int, seq).marks;
            assert forall|s: u64| self@.marks.contains(s) == goal.contains(s) by {
                if s <= self.max_seq && self.max_seq - s < 8 * N {
                    let o = self.max_seq - s;
                    assert(self.slot(self.ring(o)) == (s == seq || old(self).slot(old(self).ring(o))));
                }
            }
            assert(self@.marks =~= goal);
        }
        true
    }

    /// Empties the ring and moves the head to its start.
    fn restart(&mut self)
        requires
            old(self).well_formed(),
            0 < N,
        ensures
            final(self).well_formed(),
            final(self).head == 0,
            final(self).max_seq == old(self).max_seq,
            final(self).valid == old(self).valid,
            forall|i: int| 0 <= i < 8 * N ==> !#[trigger] final(self).slot(i),
    {
        self.bitmap = [0u8; N];
        self.head = 0;
        assert forall|i: int| 0 <= i < 8 * N implies !#[trigger] self.slot(i) by {
            lemma_zero_bit((i % 8) as u8);
        }
    }

    /// Read-only check without marking. Returns true if the seq would be accepted.
    pub fn can_accept(&self, seq: u64) -> (r: bool)
        requires
            self.well_formed(),
            N <= usize::MAX / 8,
        ensures
            r == self@.fresh(8 * N as int, seq),
    {
        if !self.valid || seq > self.max_seq {
            return true;
        }
        let delta: u64 = self.max_seq - seq;
        delta < (N * 8) as u64 && !self.test_bit_at_offset(delta as usize)
    }
}

impl<const N: usize> Default for ReplayWindow<N> {
    fn default() -> (r: Self)
        ensures
            r.well_formed(),
            r@ == Seen::nothing(),
    {
        Self { max_seq: 0, head: 0, bitmap: [0u8; N], valid: false }
    }
}

/// Once a number was accepted it is never fresh again, whatever is accepted after it:
/// it stays marked, or it falls out of the window for good.
pub proof fn accepted_stays_spent(seen: Seen, window: int, seq: u64, later: Seq<u64>)
    requires
        window > 0,
    ensures
        !accept_all(seen.marked(window, seq), window, later).fresh(window, seq),
    decreases later.len(),
{
    lemma_spent_after(seen.marked(window, seq), window, seq, later);
}

/// Offers the numbers one after the other; the fresh ones are marked.
pub open spec fn accept_all(seen: Seen, window: int, seqs: Seq<u64>) -> Seen
    decreases seqs.len(),
{
    if seqs.len() == 0 {
        seen
    } else {
        let before = accept_all(seen, window, seqs.drop_last());
        if before.fresh(window, seqs.last()) {
            before.marked(window, seqs.last())
        } else {
            before
        }
    }
}

proof fn lemma_spent_after(seen: Seen, window: int, seq: u64, later: Seq<u64>)
    requires
        window > 0,
        !seen.fresh(window, seq),
    ensures
        !accept_all(seen, window, later).fresh(window, seq),
    decreases later.len(),
{
    if later.len() > 0 {
        lemma_spent_after(seen, window, seq, later.drop_last());
    }
}

/// A number that lies a whole window or more behind the highest one is refused.
pub proof fn too_old_is_refused(seen: Seen, window: int, seq: u64)
    requires
        seen.highest is Some,
        seen.highest->0 - seq >= window,
        window > 0,
    ensures
        !seen.fresh(window, seq),
{
}

/// A number ahead of everything accepted so far is accepted, however far ahead it is.
pub proof fn newer_is_accepted(seen: Seen, window: int, seq: u64)
    requires
        seen.highest is Some ==> seq > seen.highest->0,
    ensures
        seen.fresh(window, seq),
        seen.marked(window, seq).highest == Some(seq),
{
}

} // verus!

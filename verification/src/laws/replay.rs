//! Which sequence numbers are replays.

use crate::common::replay_window;
use crate::common::replay_window::{ReplayWindow, Seen};
use vstd::prelude::*;

verus! {

/// `max` is the highest of the numbers.
pub open spec fn is_highest(seqs: Seq<u64>, max: u64) -> bool {
    &&& exists|i: int| 0 <= i < seqs.len() && #[trigger] seqs[i] == max
    &&& forall|i: int| 0 <= i < seqs.len() ==> #[trigger] seqs[i] <= max
}

/// Of numbers that were offered one after the other to an empty window of `window` places,
/// the next is accepted exactly if it is higher than all of them, or less than the window
/// behind the highest and not among them.
pub proof fn window_refuses_exactly_the_replays(seqs: Seq<u64>, max: u64, window: int, next: u64)
    requires
        window > 0,
        is_highest(seqs, max),
    ensures
        replay_window::accept_all(Seen::nothing(), window, seqs).fresh(window, next) == (next > max
            || (max - next < window && !seqs.contains(next))),
{
    lemma_window(seqs, window);
}

/// An empty window accepts everything.
pub proof fn empty_window_accepts_everything(window: int, next: u64)
    ensures
        Seen::nothing().fresh(window, next),
{
}

/// What a window remembers of the numbers that it was offered: the highest, and those less
/// than the window behind it.
proof fn lemma_window(seqs: Seq<u64>, window: int)
    requires
        window > 0,
    ensures
        ({
            let s = replay_window::accept_all(Seen::nothing(), window, seqs);
            &&& seqs.len() == 0 ==> s == Seen::nothing()
            &&& seqs.len() > 0 ==> {
                &&& s.highest matches Some(h) && is_highest(seqs, h)
                &&& forall|x: u64| #[trigger]
                    s.marks.contains(x) == (seqs.contains(x) && s.highest->0 - x < window)
            }
        }),
    decreases seqs.len(),
{
    if seqs.len() > 0 {
        let before = seqs.drop_last();
        let last = seqs.last();
        lemma_window(before, window);
        let b = replay_window::accept_all(Seen::nothing(), window, before);
        let s = replay_window::accept_all(Seen::nothing(), window, seqs);
        assert forall|x: u64| seqs.contains(x) == (before.contains(x) || x == last) by {
            if before.contains(x) {
                let i = choose|i: int| 0 <= i < before.len() && before[i] == x;
                assert(seqs[i] == x);
            }
            if seqs.contains(x) && x != last {
                let i = choose|i: int| 0 <= i < seqs.len() && seqs[i] == x;
                assert(before[i] == x);
            }
            assert(seqs[seqs.len() - 1] == last);
        }
        assert(seqs[seqs.len() - 1] == last);
        if before.len() > 0 {
            let h = b.highest->0;
            let i = choose|i: int| 0 <= i < before.len() && #[trigger] before[i] == h;
            assert(seqs[i] == h);
            assert forall|k: int| 0 <= k < before.len() implies before[k] == #[trigger] seqs[k] by {}
            if !b.fresh(window, last) && h - last < window {
                assert(b.marks.contains(last));
            }
        }
        let h = s.highest->0;
        assert(is_highest(seqs, h)) by {
            assert forall|k: int| 0 <= k < seqs.len() implies #[trigger] seqs[k] <= h by {
                if k < before.len() {
                    assert(before[k] == seqs[k]);
                }
            }
        }
        assert forall|x: u64| #[trigger]
            s.marks.contains(x) == (seqs.contains(x) && h - x < window) by {
            if before.len() == 0 {
                assert(!before.contains(x));
            }
        }
    }
}

// --- Calls ---

/// A number that was accepted is refused the next time, whatever the window saw before; one
/// ahead of all others is accepted, and is then the highest.
pub proof fn accepted_number_is_refused_again<const N: usize>(
    w: &mut ReplayWindow<N>,
    u: &mut ReplayWindow<N>,
    seq: u64,
    first: bool,
    second: bool,
    asked: bool,
)
    requires
        call_ensures(ReplayWindow::<N>::accept, (w, seq), first),
        call_ensures(ReplayWindow::<N>::accept, (u, seq), second),
        call_ensures(ReplayWindow::<N>::can_accept, (&*old(w), seq), asked),
        *old(u) == *final(w),
        0 < N,
    ensures
        !second,
        asked == first,
        !first ==> final(w)@ == old(w)@,
        old(w)@.highest is None ==> first,
        old(w)@.highest matches Some(h) ==> {
            &&& seq > h ==> first && final(w)@.highest == Some(seq)
            &&& seq <= h && h - seq >= 8 * N ==> !first
            &&& seq <= h && h - seq < 8 * N ==> first == !old(w)@.marks.contains(seq)
            &&& seq <= h ==> final(w)@.highest == Some(h)
        },
{
}

/// Accepting a number leaves what is known of the others, as far as the window still reaches
/// to them; clearing forgets everything.
pub proof fn other_numbers_are_not_touched<const N: usize>(
    w: &mut ReplayWindow<N>,
    c: &mut ReplayWindow<N>,
    seq: u64,
    other: u64,
    r: bool,
    known: u64,
)
    requires
        call_ensures(ReplayWindow::<N>::accept, (w, seq), r),
        call_ensures(ReplayWindow::<N>::clear, (c,), ()),
        other != seq,
        final(w)@.highest == Some(known),
        0 < N,
    ensures
        known - other < 8 * N && r ==> final(w)@.marks.contains(other)
            == old(w)@.marks.contains(other),
        final(c)@.highest is None,
        !final(c)@.marks.contains(other),
{
}

} // verus!

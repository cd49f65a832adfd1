//! The choice of the exit node.

use crate::net::IpAddr;
use crate::peers::exit_node_selector;
use crate::peers::exit_node_selector::{
    ActiveExitNode, EvalStep, ExitNodeCandidate, ExitNodeSelector, PeerGraph, PeerId, PeerLink, PeerNode,
    PerVersionCounters, ResolvedNode, RouteInfo, Slot,
};
use vstd::prelude::*;

verus! {

// --- Candidates ---

/// The candidate loses two percent at most, or has a path whose loss is unknown.
pub open spec fn fine(c: ExitNodeCandidate) -> bool {
    match c.loss {
        Some(loss) => loss <= 2,
        None => c.path_cost is Some,
    }
}

/// The candidate loses more than two percent.
pub open spec fn lossy(c: ExitNodeCandidate) -> bool {
    c.loss matches Some(loss) && loss > 2
}

/// What candidates that are not fine are compared by: a hundred times the loss, else the
/// cost of the path, else the largest number.
pub open spec fn price(c: ExitNodeCandidate) -> int {
    match (c.loss, c.path_cost) {
        (Some(loss), _) => loss * 100,
        (None, Some(cost)) => if cost > 0 {
            cost as int
        } else {
            0
        },
        (None, None) => 0xffff_ffff_ffff_ffff,
    }
}

/// The candidate is measured fine, and a node with the given loss is left for it: it loses
/// less, or that one loses too much.
pub open spec fn invites_back(c: ExitNodeCandidate, current_loss: Option<u32>) -> bool {
    &&& c.loss matches Some(loss) && loss <= 2 && (current_loss matches Some(now) ==> loss < now
        || now > 2)
}

/// Candidates are judged by their loss.
pub proof fn candidates_are_judged_by_loss(c: ExitNodeCandidate, current_loss: Option<u32>)
    ensures
        c.good() == fine(c),
        c.over() == lossy(c),
        c.score() == price(c),
        c.returnable(current_loss) == invites_back(c, current_loss),
{
}

/// The candidate at `i` is another peer, is fine, and none before it is both.
pub open spec fn is_first_fine_other(cs: Seq<ExitNodeCandidate>, not: Option<PeerId>, i: int) -> bool {
    &&& 0 <= i < cs.len()
    &&& fine(cs[i]) && not != Some(cs[i].peer_id)
    &&& forall|k: int| 0 <= k < i ==> !(fine(#[trigger] cs[k]) && not != Some(cs[k].peer_id))
}

/// No other candidate is fine.
pub open spec fn no_fine_other(cs: Seq<ExitNodeCandidate>, not: Option<PeerId>) -> bool {
    forall|k: int| 0 <= k < cs.len() ==> !(fine(#[trigger] cs[k]) && not != Some(cs[k].peer_id))
}

/// The candidate at `i` is another peer; those before it have a higher price, and those
/// behind it no lower one.
pub open spec fn is_first_cheapest_other(
    cs: Seq<ExitNodeCandidate>,
    not: Option<PeerId>,
    i: int,
) -> bool {
    &&& 0 <= i < cs.len()
    &&& not != Some(cs[i].peer_id)
    &&& forall|k: int|
        0 <= k < i && not != Some((#[trigger] cs[k]).peer_id) ==> price(cs[i]) < price(cs[k])
    &&& forall|k: int|
        i <= k < cs.len() && not != Some((#[trigger] cs[k]).peer_id) ==> price(cs[i]) <= price(cs[k])
}

/// The first candidate of the peer stands at `at`.
pub open spec fn stands_first(cs: Seq<ExitNodeCandidate>, peer: PeerId, at: int) -> bool {
    &&& 0 <= at < cs.len()
    &&& cs[at].peer_id == peer
    &&& forall|k: int| 0 <= k < at ==> (#[trigger] cs[k]).peer_id != peer
}

proof fn lemma_first_good(cs: Seq<ExitNodeCandidate>, not: Option<PeerId>, from: int)
    requires
        0 <= from,
        forall|k: int|
            0 <= k < from && k < cs.len() ==> !(fine(#[trigger] cs[k]) && not != Some(
                cs[k].peer_id,
            )),
    ensures
        match exit_node_selector::first_good(cs, not, from) {
            Some(i) => is_first_fine_other(cs, not, i),
            None => no_fine_other(cs, not),
        },
    decreases cs.len() - from,
{
    if from < cs.len() {
        candidates_are_judged_by_loss(cs[from], None);
        if !(fine(cs[from]) && not != Some(cs[from].peer_id)) {
            lemma_first_good(cs, not, from + 1);
        }
    }
}

proof fn lemma_lowest(cs: Seq<ExitNodeCandidate>, not: Option<PeerId>, n: int)
    requires
        0 <= n <= cs.len(),
    ensures
        match exit_node_selector::lowest(cs, not, n) {
            Some(i) => is_first_cheapest_other(cs.take(n), not, i),
            None => forall|k: int| 0 <= k < n ==> not == Some((#[trigger] cs[k]).peer_id),
        },
    decreases n,
{
    if n > 0 {
        lemma_lowest(cs, not, n - 1);
        candidates_are_judged_by_loss(cs[n - 1], None);
        let shorter = cs.take(n - 1);
        let longer = cs.take(n);
        assert forall|k: int| 0 <= k < n - 1 implies shorter[k] == #[trigger] longer[k] by {}
        assert forall|k: int| 0 <= k < n - 1 implies #[trigger] shorter[k] == longer[k] by {}
        if let Some(b) = exit_node_selector::lowest(cs, not, n - 1) {
            candidates_are_judged_by_loss(cs[b], None);
            assert(shorter[b] == cs[b] && longer[b] == cs[b]);
        }
        assert(longer[n - 1] == cs[n - 1]);
    }
}

proof fn lemma_position(cs: Seq<ExitNodeCandidate>, peer: PeerId, from: int)
    requires
        0 <= from,
        forall|k: int| 0 <= k < from && k < cs.len() ==> (#[trigger] cs[k]).peer_id != peer,
    ensures
        match exit_node_selector::position_of(cs, peer, from) {
            Some(i) => stands_first(cs, peer, i),
            None => forall|k: int| 0 <= k < cs.len() ==> (#[trigger] cs[k]).peer_id != peer,
        },
    decreases cs.len() - from,
{
    if from < cs.len() && cs[from].peer_id != peer {
        lemma_position(cs, peer, from + 1);
    }
}

/// Where no candidate is active, the first fine one is taken; where none is fine, the first
/// of the cheapest.
pub proof fn first_fine_candidate_is_taken(cs: Seq<ExitNodeCandidate>, i: int)
    ensures
        is_first_fine_other(cs, None, i) ==> exit_node_selector::best_choice(cs, None) == Some(i),
        no_fine_other(cs, None) && is_first_cheapest_other(cs, None, i)
            ==> exit_node_selector::best_choice(cs, None) == Some(i),
        cs.len() > 0 ==> exit_node_selector::best_choice(cs, None) is Some,
        cs.len() == 0 ==> exit_node_selector::best_choice(cs, None) is None,
{
    lemma_first_good(cs, None, 0);
    lemma_lowest(cs, None, cs.len() as int);
    assert(cs.take(cs.len() as int) =~= cs);
}

/// A candidate is left for the first fine other one. Where there is none, it is left for the
/// first of the cheapest others if that is cheaper than itself, and otherwise kept.
pub proof fn bad_candidate_is_left_for_a_better_one(cs: Seq<ExitNodeCandidate>, at: int, i: int)
    requires
        stands_first(cs, cs[at].peer_id, at),
        !fine(cs[at]),
    ensures
        ({
            let not = Some(cs[at].peer_id);
            let choice = exit_node_selector::best_choice(cs, not);
            &&& is_first_fine_other(cs, not, i) ==> choice == Some(i)
            &&& no_fine_other(cs, not) && is_first_cheapest_other(cs, not, i) && price(cs[i])
                < price(cs[at]) ==> choice == Some(i)
            &&& no_fine_other(cs, not) && (forall|k: int|
                0 <= k < cs.len() && (#[trigger] cs[k]).peer_id != cs[at].peer_id ==> price(cs[k])
                    >= price(cs[at])) ==> choice is None || price(cs[choice->0]) < price(cs[at])
            &&& choice matches Some(j) ==> 0 <= j < cs.len() && (fine(cs[j]) || price(cs[j])
                < price(cs[at]))
        }),
{
    let not = Some(cs[at].peer_id);
    lemma_first_good(cs, not, 0);
    lemma_lowest(cs, not, cs.len() as int);
    lemma_lowest(cs, None, cs.len() as int);
    lemma_position(cs, cs[at].peer_id, 0);
    assert(cs.take(cs.len() as int) =~= cs);
    candidates_are_judged_by_loss(cs[at], None);
    if let Some(p) = exit_node_selector::position_of(cs, cs[at].peer_id, 0) {
        assert(p == at);
    }
    if let Some(b) = exit_node_selector::lowest(cs, not, cs.len() as int) {
        candidates_are_judged_by_loss(cs[b], None);
    }
    if let Some(b) = exit_node_selector::lowest(cs, None, cs.len() as int) {
        candidates_are_judged_by_loss(cs[b], None);
    }
}

// --- Judging the node in use ---

/// The node of `slot` is the candidate at `at`, seen on the path on which it was seen before,
/// and no change of its path is younger than twelve seconds.
pub open spec fn in_use_undisturbed(
    slot: Slot,
    cs: Seq<ExitNodeCandidate>,
    at: int,
    now: u64,
) -> bool {
    &&& stands_first(cs, cs[at].peer_id, at)
    &&& slot.active matches Some(a) && a.peer_id == cs[at].peer_id
    &&& cs[at].fingerprint == slot.counters.last_fingerprint
    &&& slot.counters.last_relay_path_change matches Some(t) ==> now >= t + 12_000
}

/// The node that the candidate makes.
pub open spec fn node_of(c: ExitNodeCandidate) -> ActiveExitNode {
    ActiveExitNode { ip: c.ip, peer_id: c.peer_id }
}

/// A node in use that loses more than two percent, and was seen to do so in the evaluation
/// before, is left: for the first fine candidate that is another peer.
pub proof fn lossy_node_is_left_when_seen_twice(
    slot: Slot,
    last_switch: Option<u64>,
    cs: Seq<ExitNodeCandidate>,
    at: int,
    i: int,
    now: u64,
)
    requires
        in_use_undisturbed(slot, cs, at, now),
        lossy(cs[at]),
        slot.counters.consecutive_over_threshold == 1,
        is_first_fine_other(cs, Some(cs[at].peer_id), i),
    ensures
        ({
            let (after, switched) = exit_node_selector::evaluated(slot, last_switch, cs, now);
            &&& after.active == Some(node_of(cs[i]))
            &&& switched == Some(now)
            &&& after.counters.consecutive_over_threshold == 0
        }),
{
    lemma_position(cs, cs[at].peer_id, 0);
    candidates_are_judged_by_loss(cs[at], None);
    bad_candidate_is_left_for_a_better_one(cs, at, i);
}

/// A node in use that loses more than two percent for the first time is kept, and
/// remembered as such.
pub proof fn lossy_node_is_kept_when_seen_once(
    slot: Slot,
    last_switch: Option<u64>,
    cs: Seq<ExitNodeCandidate>,
    at: int,
    now: u64,
)
    requires
        in_use_undisturbed(slot, cs, at, now),
        lossy(cs[at]),
        slot.counters.consecutive_over_threshold == 0,
    ensures
        exit_node_selector::evaluated(slot, last_switch, cs, now) == (
            Slot {
                counters: PerVersionCounters { consecutive_over_threshold: 1, ..slot.counters },
                ..slot
            },
            last_switch,
        ),
{
    lemma_position(cs, cs[at].peer_id, 0);
    candidates_are_judged_by_loss(cs[at], None);
}

/// Two evaluations in a row that see the node in use lose more than two percent, however
/// little more, end with a fine candidate in use where there is one.
pub proof fn two_bad_evaluations_move_on(
    slot: Slot,
    last_switch: Option<u64>,
    cs1: Seq<ExitNodeCandidate>,
    at1: int,
    t1: u64,
    cs2: Seq<ExitNodeCandidate>,
    at2: int,
    i: int,
    t2: u64,
)
    requires
        in_use_undisturbed(slot, cs1, at1, t1),
        in_use_undisturbed(slot, cs2, at2, t2),
        lossy(cs1[at1]),
        lossy(cs2[at2]),
        slot.counters.consecutive_over_threshold == 0,
        is_first_fine_other(cs2, Some(cs2[at2].peer_id), i),
    ensures
        ({
            let (once, s1) = exit_node_selector::evaluated(slot, last_switch, cs1, t1);
            let (twice, s2) = exit_node_selector::evaluated(once, s1, cs2, t2);
            &&& once.active == slot.active && s1 == last_switch
            &&& twice.active == Some(node_of(cs2[i])) && s2 == Some(t2)
        }),
{
    lossy_node_is_kept_when_seen_once(slot, last_switch, cs1, at1, t1);
    let (once, s1) = exit_node_selector::evaluated(slot, last_switch, cs1, t1);
    lossy_node_is_left_when_seen_twice(once, s1, cs2, at2, i, t2);
}

/// A lossy node that was seen twice and finds no fine candidate is left for the cheapest
/// other one if that is cheaper, and kept otherwise.
pub proof fn lossy_node_moves_to_the_cheapest(
    slot: Slot,
    last_switch: Option<u64>,
    cs: Seq<ExitNodeCandidate>,
    at: int,
    i: int,
    now: u64,
)
    requires
        in_use_undisturbed(slot, cs, at, now),
        lossy(cs[at]),
        slot.counters.consecutive_over_threshold == 1,
        no_fine_other(cs, Some(cs[at].peer_id)),
        is_first_cheapest_other(cs, Some(cs[at].peer_id), i),
    ensures
        ({
            let (after, switched) = exit_node_selector::evaluated(slot, last_switch, cs, now);
            &&& price(cs[i]) < price(cs[at]) ==> after.active == Some(node_of(cs[i])) && switched
                == Some(now)
            &&& price(cs[i]) >= price(cs[at]) ==> after.active == slot.active && switched
                == last_switch
            &&& after.counters.consecutive_over_threshold == 0
        }),
{
    lemma_position(cs, cs[at].peer_id, 0);
    candidates_are_judged_by_loss(cs[at], None);
    candidates_are_judged_by_loss(cs[i], None);
    bad_candidate_is_left_for_a_better_one(cs, at, i);
    lemma_lowest(cs, Some(cs[at].peer_id), cs.len() as int);
    lemma_first_good(cs, Some(cs[at].peer_id), 0);
    assert(cs.take(cs.len() as int) =~= cs);
    if let Some(b) = exit_node_selector::lowest(cs, Some(cs[at].peer_id), cs.len() as int) {
        candidates_are_judged_by_loss(cs[b], None);
        assert(b == i) by {
            if b < i {
                assert(price(cs[i]) < price(cs[b]));
            }
            if i < b {
                assert(price(cs[b]) < price(cs[i]));
            }
        }
    }
    if let Some(p) = exit_node_selector::position_of(cs, cs[at].peer_id, 0) {
        assert(p == at);
    }
}

/// The time after a change of a relayed path excuses a loss of up to five percent, and only
/// where no fine candidate is reached directly: the node is kept and nothing is counted.
pub proof fn young_path_is_excused(
    slot: Slot,
    last_switch: Option<u64>,
    cs: Seq<ExitNodeCandidate>,
    at: int,
    now: u64,
    changed: u64,
    loss: u32,
)
    requires
        stands_first(cs, cs[at].peer_id, at),
        slot.active matches Some(a) && a.peer_id == cs[at].peer_id,
        cs[at].fingerprint == slot.counters.last_fingerprint,
        slot.counters.last_relay_path_change == Some(changed),
        now < changed + 12_000,
        cs[at].loss == Some(loss),
        loss > 2,
        slot.counters.consecutive_over_threshold <= 1,
    ensures
        ({
            let (after, switched) = exit_node_selector::evaluated(slot, last_switch, cs, now);
            let direct = exists|k: int|
                0 <= k < cs.len() && (#[trigger] cs[k]).peer_id != cs[at].peer_id && fine(cs[k])
                    && !cs[k].fingerprint.is_relay;
            &&& loss <= 5 && !direct ==> after == slot && switched == last_switch
            &&& loss > 5 || direct ==> {
                &&& slot.counters.consecutive_over_threshold == 0 ==> after.active == slot.active
                    && after.counters.consecutive_over_threshold == 1
                &&& slot.counters.consecutive_over_threshold == 1 ==> {
                    &&& after.counters.consecutive_over_threshold == 0
                    &&& forall|i: int| #[trigger]
                        is_first_fine_other(cs, Some(cs[at].peer_id), i) ==> after.active == Some(
                            node_of(cs[i]),
                        )
                }
            }
        }),
{
    lemma_position(cs, cs[at].peer_id, 0);
    candidates_are_judged_by_loss(cs[at], None);
    assert forall|k: int| 0 <= k < cs.len() implies (#[trigger] cs[k]).good() == fine(cs[k]) by {
        candidates_are_judged_by_loss(cs[k], None);
    }
    if exists|k: int|
        0 <= k < cs.len() && (#[trigger] cs[k]).peer_id != cs[at].peer_id && fine(cs[k])
            && !cs[k].fingerprint.is_relay {
        let k = choose|k: int|
            0 <= k < cs.len() && (#[trigger] cs[k]).peer_id != cs[at].peer_id && fine(cs[k])
                && !cs[k].fingerprint.is_relay;
        assert(exit_node_selector::has_good_direct(cs, cs[at].peer_id)) by {
            assert(cs[k].good());
        }
    } else {
        assert(!exit_node_selector::has_good_direct(cs, cs[at].peer_id));
    }
    assert forall|i: int| #[trigger]
        is_first_fine_other(
            cs,
            Some(cs[at].peer_id),
            i,
        ) implies exit_node_selector::best_choice(cs, Some(cs[at].peer_id)) == Some(i) by {
        bad_candidate_is_left_for_a_better_one(cs, at, i);
    }
}

/// A path that changed begins to be judged anew. A changed relayed path is given time, for
/// the first two changes; a first relayed path, and the loss of a path, are no changes.
pub proof fn changed_path_is_judged_anew(
    c: PerVersionCounters,
    current: ExitNodeCandidate,
    now: u64,
)
    requires
        c.grace_reset_count < u32::MAX,
    ensures
        ({
            let a = exit_node_selector::path_seen(c, current, now);
            let seen = current.fingerprint;
            let known = c.last_fingerprint;
            let noticed = seen != known && (seen.is_relay || seen.conn_id != 0);
            let counts = noticed && (!seen.is_relay || known.gateway_peer_id != 0);
            &&& !noticed ==> a == c
            &&& noticed ==> a.last_fingerprint == seen
            &&& counts ==> a.consecutive_over_threshold == 0
            &&& noticed && !counts ==> a == (PerVersionCounters { last_fingerprint: seen, ..c })
            &&& counts && !seen.is_relay ==> a == (PerVersionCounters {
                last_fingerprint: seen,
                consecutive_over_threshold: 0,
                ..c
            })
            &&& counts && seen.is_relay ==> a == (PerVersionCounters {
                last_fingerprint: seen,
                consecutive_over_threshold: 0,
                grace_reset_count: (c.grace_reset_count + 1) as u32,
                last_relay_path_change: if c.grace_reset_count < 2 {
                    Some(now)
                } else {
                    c.last_relay_path_change
                },
                ..c
            })
        }),
{
}

/// What is judged of a node in use is judged after its path was looked at.
pub proof fn path_is_looked_at_first(
    slot: Slot,
    last_switch: Option<u64>,
    cs: Seq<ExitNodeCandidate>,
    at: int,
    now: u64,
)
    requires
        stands_first(cs, cs[at].peer_id, at),
        slot.active matches Some(a) && a.peer_id == cs[at].peer_id,
    ensures
        ({
            let seen = exit_node_selector::path_seen(slot.counters, cs[at], now);
            exit_node_selector::evaluated(slot, last_switch, cs, now)
                == exit_node_selector::evaluated(
                Slot { counters: seen, ..slot },
                last_switch,
                cs,
                now,
            )
        }),
{
    lemma_position(cs, cs[at].peer_id, 0);
}

/// A fine node in use has its counts forgotten. It is left only for a candidate before it
/// that invites back: for the first such, when there was one in the evaluation before too.
pub proof fn fine_node_is_left_for_a_preferred_one(
    slot: Slot,
    last_switch: Option<u64>,
    cs: Seq<ExitNodeCandidate>,
    at: int,
    i: int,
    now: u64,
)
    requires
        stands_first(cs, cs[at].peer_id, at),
        slot.active matches Some(a) && a.peer_id == cs[at].peer_id,
        cs[at].fingerprint == slot.counters.last_fingerprint,
        fine(cs[at]),
        slot.counters.preferred_return_count <= 1,
    ensures
        ({
            let (after, switched) = exit_node_selector::evaluated(slot, last_switch, cs, now);
            let first = 0 <= i < at && invites_back(cs[i], cs[at].loss) && forall|k: int|
                0 <= k < i ==> !invites_back(#[trigger] cs[k], cs[at].loss);
            let none = forall|k: int| 0 <= k < at ==> !invites_back(#[trigger] cs[k], cs[at].loss);
            &&& after.counters == (PerVersionCounters {
                consecutive_over_threshold: 0,
                last_relay_path_change: None,
                grace_reset_count: 0,
                preferred_return_count: after.counters.preferred_return_count,
                ..slot.counters
            })
            &&& none ==> after.active == slot.active && switched == last_switch
                && after.counters.preferred_return_count == 0
            &&& first && slot.counters.preferred_return_count == 0 ==> after.active == slot.active
                && switched == last_switch && after.counters.preferred_return_count == 1
            &&& first && slot.counters.preferred_return_count == 1 ==> after.active == Some(
                node_of(cs[i]),
            ) && switched == Some(now) && after.counters.preferred_return_count == 0
        }),
{
    lemma_position(cs, cs[at].peer_id, 0);
    candidates_are_judged_by_loss(cs[at], None);
    lemma_first_returnable(cs, cs[at].loss, 0, at);
}

proof fn lemma_first_returnable(cs: Seq<ExitNodeCandidate>, loss: Option<u32>, from: int, n: int)
    requires
        0 <= from <= n <= cs.len(),
        forall|k: int| 0 <= k < from ==> !invites_back(#[trigger] cs[k], loss),
    ensures
        match exit_node_selector::first_returnable(cs, loss, from, n) {
            Some(i) => 0 <= i < n && invites_back(cs[i], loss) && forall|k: int|
                0 <= k < i ==> !invites_back(#[trigger] cs[k], loss),
            None => forall|k: int| 0 <= k < n ==> !invites_back(#[trigger] cs[k], loss),
        },
    decreases n - from,
{
    if from < n {
        candidates_are_judged_by_loss(cs[from], loss);
        if !invites_back(cs[from], loss) {
            lemma_first_returnable(cs, loss, from + 1, n);
        }
    }
}

/// A node in use of which nothing is known is kept.
pub proof fn unmeasured_node_is_kept(
    slot: Slot,
    last_switch: Option<u64>,
    cs: Seq<ExitNodeCandidate>,
    at: int,
    now: u64,
)
    requires
        stands_first(cs, cs[at].peer_id, at),
        slot.active matches Some(a) && a.peer_id == cs[at].peer_id,
        cs[at].fingerprint == slot.counters.last_fingerprint,
        cs[at].loss is None,
        cs[at].path_cost is None,
    ensures
        exit_node_selector::evaluated(slot, last_switch, cs, now) == (slot, last_switch),
{
    lemma_position(cs, cs[at].peer_id, 0);
    candidates_are_judged_by_loss(cs[at], None);
}

/// Where no candidate is in use, the first fine one is, else the first of the cheapest, and
/// no count changes. Without candidates no node is in use.
pub proof fn missing_node_is_replaced(
    slot: Slot,
    last_switch: Option<u64>,
    cs: Seq<ExitNodeCandidate>,
    i: int,
    now: u64,
)
    requires
        slot.active matches Some(a) ==> forall|k: int|
            0 <= k < cs.len() ==> (#[trigger] cs[k]).peer_id != a.peer_id,
    ensures
        ({
            let (after, switched) = exit_node_selector::evaluated(slot, last_switch, cs, now);
            &&& after.counters == slot.counters
            &&& cs.len() == 0 ==> after.active is None && switched == last_switch
            &&& is_first_fine_other(cs, None, i) || (no_fine_other(cs, None)
                && is_first_cheapest_other(cs, None, i)) ==> after.active == Some(node_of(cs[i]))
                && switched == Some(now)
        }),
{
    first_fine_candidate_is_taken(cs, i);
    if let Some(a) = slot.active {
        lemma_position(cs, a.peer_id, 0);
    }
}

/// No evaluation follows a switch within ten seconds, or five while the node in use loses
/// more than five percent.
pub proof fn switches_are_kept_apart(s: ExitNodeSelector, now: u64, last: u64, loss: u32)
    requires
        s.last_switch_at == Some(last),
    ensures
        s.cooled_down(now, loss) == (now >= last + 10_000 || (loss > 5 && now >= last + 5_000)),
        (ExitNodeSelector { last_switch_at: None, ..s }).cooled_down(now, loss),
{
}

// --- Resolving ---

/// What a node makes a candidate: its direct connection if there is one, else its route. A
/// node of which neither loss nor latency is known is no candidate.
pub proof fn direct_connection_comes_first(n: ResolvedNode)
    ensures
        ({
            let c = n.candidate();
            let latency = n.route matches Some(r) && r.path_latency_latency_first is Some;
            &&& n.has_direct ==> c is Some == (n.direct_loss is Some || latency)
            &&& !n.has_direct ==> c is Some == (n.route is Some && (n.relay_loss is Some || latency))
            &&& c matches Some(c) ==> {
                &&& c.ip == n.ip && c.peer_id == n.peer_id
                &&& n.route matches Some(r) ==> c.path_cost == r.path_latency_latency_first
                &&& n.route is None ==> c.path_cost is None
                &&& n.has_direct ==> {
                    &&& c.loss == n.direct_loss
                    &&& !c.fingerprint.is_relay && c.fingerprint.gateway_peer_id == 0
                    &&& n.conn_id matches Some(id) ==> c.fingerprint.conn_id == id
                    &&& n.conn_id is None ==> c.fingerprint.conn_id == 0
                }
                &&& !n.has_direct ==> {
                    &&& c.loss == n.relay_loss
                    &&& c.fingerprint.is_relay && c.fingerprint.conn_id == 0
                    &&& n.route matches Some(r) && c.fingerprint.gateway_peer_id
                        == match r.next_hop_peer_id_latency_first {
                        Some(p) => p,
                        None => r.next_hop_peer_id,
                    }
                }
            }
        }),
{
}

/// The candidates of a family are made of its nodes, in their order, and of no others.
pub proof fn candidates_keep_the_order(nodes: Seq<ResolvedNode>, n: ResolvedNode, v4: bool)
    ensures
        exit_node_selector::candidates_of(Seq::<ResolvedNode>::empty(), v4).len() == 0,
        ({
            let before = exit_node_selector::candidates_of(nodes, v4);
            let after = exit_node_selector::candidates_of(nodes.push(n), v4);
            &&& n.candidate() is Some && (n.ip is V4) == v4 ==> after == before.push(
                n.candidate()->0,
            )
            &&& n.candidate() is None || (n.ip is V4) != v4 ==> after == before
        }),
{
    assert(nodes.push(n).drop_last() =~= nodes);
}

/// The route to a peer is the first one that is listed.
pub proof fn first_route_is_found(routes: Seq<RouteInfo>, peer: PeerId, i: int)
    ensures
        0 <= i < routes.len() && routes[i].peer_id == peer && (forall|k: int|
            0 <= k < i ==> (#[trigger] routes[k]).peer_id != peer)
            ==> exit_node_selector::route_to(routes, peer) == Some(routes[i]),
        (forall|k: int| 0 <= k < routes.len() ==> (#[trigger] routes[k]).peer_id != peer)
            ==> exit_node_selector::route_to(routes, peer) is None,
    decreases routes.len(),
{
    if routes.len() > 0 {
        let rest = routes.drop_first();
        first_route_is_found(rest, peer, i - 1);
        assert forall|k: int| 0 <= k < rest.len() implies #[trigger] rest[k] == routes[k + 1] by {}
    }
}

/// The link to a peer is the first one that is listed.
pub proof fn first_link_is_found(links: Seq<PeerLink>, peer: PeerId, i: int)
    ensures
        0 <= i < links.len() && links[i].peer_id == peer && (forall|k: int|
            0 <= k < i ==> (#[trigger] links[k]).peer_id != peer)
            ==> exit_node_selector::link_to(links, peer) == Some(links[i]),
        (forall|k: int| 0 <= k < links.len() ==> (#[trigger] links[k]).peer_id != peer)
            ==> exit_node_selector::link_to(links, peer) is None,
    decreases links.len(),
{
    if links.len() > 0 {
        let rest = links.drop_first();
        first_link_is_found(rest, peer, i - 1);
        assert forall|k: int| 0 <= k < rest.len() implies #[trigger] rest[k] == links[k + 1] by {}
    }
}

/// The links of a peer are those of the first entry for it.
pub proof fn first_entry_is_found(peers: Seq<PeerNode>, peer: PeerId, i: int)
    ensures
        0 <= i < peers.len() && peers[i].peer_id == peer && (forall|k: int|
            0 <= k < i ==> (#[trigger] peers[k]).peer_id != peer)
            ==> exit_node_selector::links_of(peers, peer) == Some(peers[i].direct_peers@),
        (forall|k: int| 0 <= k < peers.len() ==> (#[trigger] peers[k]).peer_id != peer)
            ==> exit_node_selector::links_of(peers, peer) is None,
    decreases peers.len(),
{
    if peers.len() > 0 {
        let rest = peers.drop_first();
        first_entry_is_found(rest, peer, i - 1);
        assert forall|k: int| 0 <= k < rest.len() implies #[trigger] rest[k] == peers[k + 1] by {}
    }
}

/// A common neighbour is the first of the first list that the second holds too.
pub proof fn first_common_neighbour_is_found(links: Seq<PeerLink>, others: Seq<PeerLink>, i: int)
    ensures
        0 <= i < links.len() && exit_node_selector::link_to(others, links[i].peer_id) is Some && (
        forall|k: int|
            0 <= k < i ==> exit_node_selector::link_to(others, (#[trigger] links[k]).peer_id) is None)
            ==> exit_node_selector::common_neighbour(links, others) == Some(links[i].peer_id),
        (forall|k: int|
            0 <= k < links.len() ==> exit_node_selector::link_to(
                others,
                (#[trigger] links[k]).peer_id,
            ) is None) ==> exit_node_selector::common_neighbour(links, others) is None,
    decreases links.len(),
{
    if links.len() > 0 {
        let rest = links.drop_first();
        first_common_neighbour_is_found(rest, others, i - 1);
        assert forall|k: int| 0 <= k < rest.len() implies #[trigger] rest[k] == links[k + 1] by {}
    }
}

/// The loss on the link from one peer to another.
pub open spec fn link_loss(peers: Seq<PeerNode>, from: PeerId, to: PeerId) -> Option<u32> {
    match exit_node_selector::links_of(peers, from) {
        Some(links) => match exit_node_selector::link_to(links, to) {
            Some(link) => Some(link.loss_rate_percent),
            None => None,
        },
        None => None,
    }
}

/// The losses on the way to a peer are those of its links: of one where the first hop is the
/// peer, of two where the first hop knows it, and of three where the first hop and the peer
/// have a common neighbour.
pub proof fn losses_are_those_of_the_links(
    peers: Seq<PeerNode>,
    me: PeerId,
    first: PeerId,
    dst: PeerId,
)
    requires
        me != dst,
        first != me,
    ensures
        ({
            let losses = exit_node_selector::path_losses(peers, me, first, dst, me, 3);
            &&& link_loss(peers, me, first) is None ==> losses is None
            &&& link_loss(peers, me, first) matches Some(l1) ==> {
                &&& first == dst ==> losses == Some(seq![l1])
                &&& first != dst ==> match link_loss(peers, first, dst) {
                    Some(l2) => losses == Some(seq![l1, l2]),
                    None => {
                        let here = exit_node_selector::links_of(peers, first);
                        let there = exit_node_selector::links_of(peers, dst);
                        match (here, there) {
                            (Some(here), Some(there)) => {
                                match exit_node_selector::common_neighbour(here, there) {
                                    None => losses is None,
                                    Some(c) => c != me && c != dst ==> match (
                                        link_loss(peers, first, c),
                                        link_loss(peers, c, dst),
                                    ) {
                                        (Some(l2), Some(l3)) => losses == Some(seq![l1, l2, l3]),
                                        _ => losses is None,
                                    },
                                }
                            },
                            _ => losses is None,
                        }
                    },
                }
            }
        }),
{
    reveal_with_fuel(exit_node_selector::path_losses, 4);
    let losses = exit_node_selector::path_losses(peers, me, first, dst, me, 3);
    if let Some(l1) = link_loss(peers, me, first) {
        if first == dst {
            assert(seq![l1] + Seq::<u32>::empty() =~= seq![l1]);
        } else if let Some(l2) = link_loss(peers, first, dst) {
            assert(seq![l2] + Seq::<u32>::empty() =~= seq![l2]);
            assert(seq![l1] + seq![l2] =~= seq![l1, l2]);
        } else {
            let here = exit_node_selector::links_of(peers, first);
            let there = exit_node_selector::links_of(peers, dst);
            if here is Some && there is Some {
                if let Some(c) = exit_node_selector::common_neighbour(here->0, there->0) {
                    if let (Some(l2), Some(l3)) = (
                        link_loss(peers, first, c),
                        link_loss(peers, c, dst),
                    ) {
                        assert(seq![l3] + Seq::<u32>::empty() =~= seq![l3]);
                        assert(seq![l1] + (seq![l2] + seq![l3]) =~= seq![l1, l2, l3]);
                    }
                }
            }
        }
    }
}

/// No way is needed to ourselves.
pub proof fn no_hops_to_ourselves(peers: Seq<PeerNode>, me: PeerId, first: PeerId)
    ensures
        exit_node_selector::path_losses(peers, me, first, me, me, 3) == Some(Seq::<u32>::empty()),
{
}

// --- Calls ---

/// Two evaluations in a row in which the node in use loses more than two percent put the
/// first fine candidate in its place.
pub proof fn two_bad_rounds_move_on(
    slot: &mut Slot,
    next: &mut Slot,
    last_switch: Option<u64>,
    cs1: Vec<ExitNodeCandidate>,
    at1: int,
    t1: u64,
    cs2: Vec<ExitNodeCandidate>,
    at2: int,
    i: int,
    t2: u64,
    r1: Option<u64>,
    r2: Option<u64>,
)
    requires
        call_ensures(exit_node_selector::evaluate_candidates, (slot, last_switch, &cs1, t1), r1),
        call_ensures(exit_node_selector::evaluate_candidates, (next, r1, &cs2, t2), r2),
        *old(next) == *final(slot),
        in_use_undisturbed(*old(slot), cs1@, at1, t1),
        in_use_undisturbed(*old(slot), cs2@, at2, t2),
        lossy(cs1@[at1]),
        lossy(cs2@[at2]),
        old(slot).counters.consecutive_over_threshold == 0,
        is_first_fine_other(cs2@, Some(cs2@[at2].peer_id), i),
    ensures
        final(slot).active == old(slot).active,
        r1 == last_switch,
        final(next).active == Some(node_of(cs2@[i])),
        r2 == Some(t2),
{
    two_bad_evaluations_move_on(*old(slot), last_switch, cs1@, at1, t1, cs2@, at2, i, t2);
}

/// Each family is evaluated with its own candidates, and a switch of either is remembered.
pub proof fn families_are_evaluated_alike(
    s: &mut ExitNodeSelector,
    only4: &mut Slot,
    only6: &mut Slot,
    v4: Vec<ExitNodeCandidate>,
    v6: Vec<ExitNodeCandidate>,
    now: u64,
    r4: Option<u64>,
    r6: Option<u64>,
)
    requires
        call_ensures(ExitNodeSelector::finish_evaluation, (s, &v4, &v6, now), ()),
        call_ensures(
            exit_node_selector::evaluate_candidates,
            (only4, old(s).last_switch_at, &v4, now),
            r4,
        ),
        call_ensures(exit_node_selector::evaluate_candidates, (only6, r4, &v6, now), r6),
        *old(only4) == old(s).v4,
        *old(only6) == old(s).v6,
    ensures
        final(s).v4 == *final(only4),
        final(s).v6 == *final(only6),
        final(s).last_switch_at == r6,
        final(s).my_peer_id == old(s).my_peer_id,
{
}

/// Without exit nodes none is in use. A single one is resolved at any time, and several only
/// once ten seconds passed since the last switch, or five while the node in use loses more
/// than five percent.
pub proof fn evaluation_begins_by_the_number_of_nodes(
    s: &mut ExitNodeSelector,
    nodes: &[IpAddr],
    now: u64,
    loss: u32,
    r: EvalStep,
)
    requires
        call_ensures(ExitNodeSelector::begin_evaluation, (s, nodes, now, loss), r),
    ensures
        nodes@.len() == 0 ==> r == EvalStep::Done && final(s).v4.active is None
            && final(s).v6.active is None && final(s).last_switch_at == old(s).last_switch_at,
        nodes@.len() > 0 ==> *final(s) == *old(s),
        nodes@.len() == 1 ==> r == EvalStep::ResolveSingle(nodes@[0]),
        nodes@.len() > 1 ==> (r == EvalStep::ResolveAll || r == EvalStep::Done),
        nodes@.len() > 1 ==> (r == EvalStep::ResolveAll) == (match old(s).last_switch_at {
            None => true,
            Some(last) => now >= last + 10_000 || (loss > 5 && now >= last + 5_000),
        }),
{
    if let Some(last) = old(s).last_switch_at {
        switches_are_kept_apart(*old(s), now, last, loss);
    }
}

/// A single exit node is used without comparison: it takes the place of its own family, and
/// one that has no peer leaves that place empty. The other family and all counts stay.
pub proof fn single_node_is_used_as_it_is(s: &mut ExitNodeSelector, ip: IpAddr, peer: Option<PeerId>)
    requires
        call_ensures(ExitNodeSelector::set_single_node, (s, ip, peer), ()),
    ensures
        final(s).last_switch_at == old(s).last_switch_at,
        final(s).v4.counters == old(s).v4.counters && final(s).v6.counters == old(s).v6.counters,
        ip is V4 ==> final(s).v6 == old(s).v6 && final(s).v4.active is Some == peer is Some,
        ip is V6 ==> final(s).v4 == old(s).v4 && final(s).v6.active is Some == peer is Some,
        ip is V4 ==> (final(s).v4.active matches Some(a) ==> a.ip == ip && Some(a.peer_id) == peer),
        ip is V6 ==> (final(s).v6.active matches Some(a) ==> a.ip == ip && Some(a.peer_id) == peer),
{
}

/// After a reset, and in the beginning, no node is in use and nothing is counted. A reset
/// does not forget the last switch.
pub proof fn reset_forgets_the_nodes(s: &mut ExitNodeSelector, me: PeerId, fresh: ExitNodeSelector)
    requires
        call_ensures(ExitNodeSelector::reset, (s,), ()),
        call_ensures(ExitNodeSelector::new, (me,), fresh),
    ensures
        final(s).v4.active is None && final(s).v6.active is None,
        final(s).v4.counters.consecutive_over_threshold == 0,
        final(s).v6.counters.consecutive_over_threshold == 0,
        final(s).v4.counters.preferred_return_count == 0,
        final(s).v6.counters.preferred_return_count == 0,
        final(s).last_switch_at == old(s).last_switch_at,
        final(s).my_peer_id == old(s).my_peer_id,
        fresh.v4 == final(s).v4 && fresh.v6 == final(s).v6,
        fresh.last_switch_at is None && fresh.my_peer_id == me,
{
}

/// The loss that counts is that of the IPv4 node; without it that of the IPv6 node.
pub proof fn ipv4_loss_counts_first(v4: Option<u32>, v6: Option<u32>, r: u32)
    requires
        call_ensures(exit_node_selector::current_active_loss, (v4, v6), r),
    ensures
        v4 is Some ==> r == v4->0,
        v4 is None && v6 is Some ==> r == v6->0,
        v4 is None && v6 is None ==> r == 0,
{
}

/// Of several candidates the first fine one is chosen that is not the excluded peer, else
/// the first of the cheapest; there is a choice exactly if there is another candidate.
pub proof fn best_candidate_is_chosen(
    cs: Vec<ExitNodeCandidate>,
    i: int,
    r: Option<usize>,
)
    requires
        call_ensures(exit_node_selector::choose_best, (&cs, None), r),
        is_first_fine_other(cs@, None, i) || (no_fine_other(cs@, None) && is_first_cheapest_other(
            cs@,
            None,
            i,
        )),
    ensures
        r == Some(i as usize),
{
    first_fine_candidate_is_taken(cs@, i);
}

/// A candidate is judged by its loss, and compared by it.
pub proof fn candidate_is_judged(
    c: ExitNodeCandidate,
    current: Option<u32>,
    score: u64,
    over: bool,
    good: bool,
    back: bool,
)
    requires
        call_ensures(ExitNodeCandidate::quality_score, (&c,), score),
        call_ensures(ExitNodeCandidate::is_over_threshold, (&c,), over),
        call_ensures(ExitNodeCandidate::is_good, (&c,), good),
        call_ensures(ExitNodeCandidate::is_return_candidate, (&c, current), back),
    ensures
        score == price(c),
        over == lossy(c),
        good == fine(c),
        back == invites_back(c, current),
{
    candidates_are_judged_by_loss(c, current);
}

/// The active nodes are those of their families, and evaluations are kept apart.
pub proof fn active_node_is_told(
    s: ExitNodeSelector,
    now: u64,
    loss: u32,
    v4: Option<PeerId>,
    v6: Option<PeerId>,
    cool: bool,
)
    requires
        call_ensures(ExitNodeSelector::get_active_v4_peer_id, (&s,), v4),
        call_ensures(ExitNodeSelector::get_active_v6_peer_id, (&s,), v6),
        call_ensures(ExitNodeSelector::cooldown_elapsed, (&s, now, loss), cool),
    ensures
        v4 is Some == s.v4.active is Some && v6 is Some == s.v6.active is Some,
        s.v4.active matches Some(a) ==> v4 == Some(a.peer_id),
        s.v6.active matches Some(a) ==> v6 == Some(a.peer_id),
        s.last_switch_at is None ==> cool,
        s.last_switch_at matches Some(last) ==> cool == (now >= last + 10_000 || (loss > 5 && now
            >= last + 5_000)),
{
    if let Some(last) = s.last_switch_at {
        switches_are_kept_apart(s, now, last, loss);
    }
}

/// Candidates are resolved by family, in the order of the nodes.
pub proof fn candidates_are_resolved_by_family(
    nodes: Vec<ResolvedNode>,
    n: ResolvedNode,
    r: (Vec<ExitNodeCandidate>, Vec<ExitNodeCandidate>),
    c: Option<ExitNodeCandidate>,
)
    requires
        call_ensures(exit_node_selector::resolve_candidates, (&nodes,), r),
        call_ensures(ResolvedNode::to_candidate, (&n,), c),
    ensures
        r.0@ == exit_node_selector::candidates_of(nodes@, true),
        r.1@ == exit_node_selector::candidates_of(nodes@, false),
        c == n.candidate(),
{
}

/// The way to a peer is followed through the mesh, from ourselves and by the first hop.
pub proof fn losses_are_those_of_the_way(
    mesh: PeerGraph,
    me: PeerId,
    dst: PeerId,
    first: PeerId,
    r: Option<Vec<u32>>,
)
    requires
        call_ensures(PeerGraph::path_loss_percents, (&mesh, me, dst, first), r),
        me != dst,
        first != me,
    ensures
        link_loss(mesh.peers@, me, first) is None ==> r is None,
        link_loss(mesh.peers@, me, first) matches Some(l1) ==> {
            &&& first == dst ==> (r matches Some(v) && v@ == seq![l1])
            &&& first != dst ==> (link_loss(mesh.peers@, first, dst) matches Some(l2) ==> (
            r matches Some(v) && v@ == seq![l1, l2]))
        },
        r matches Some(v) ==> 1 <= v@.len() <= 3,
{
    losses_are_those_of_the_links(mesh.peers@, me, first, dst);
    reveal_with_fuel(exit_node_selector::path_losses, 4);
}

/// The first hop of a route is the one of the lowest latency where it is known.
pub proof fn first_hop_is_the_fastest(
    route: RouteInfo,
    hop: PeerId,
    routes: Vec<RouteInfo>,
    peer: PeerId,
    i: int,
    found: Option<RouteInfo>,
)
    requires
        call_ensures(RouteInfo::first_hop, (&route,), hop),
        call_ensures(exit_node_selector::find_route, (&routes, peer), found),
    ensures
        route.next_hop_peer_id_latency_first matches Some(p) ==> hop == p,
        route.next_hop_peer_id_latency_first is None ==> hop == route.next_hop_peer_id,
        0 <= i < routes@.len() && routes@[i].peer_id == peer && (forall|k: int|
            0 <= k < i ==> (#[trigger] routes@[k]).peer_id != peer) ==> found == Some(routes@[i]),
        (forall|k: int| 0 <= k < routes@.len() ==> (#[trigger] routes@[k]).peer_id != peer)
            ==> found is None,
{
    first_route_is_found(routes@, peer, i);
}

} // verus!

//! Chooses the exit node: the peer through which traffic leaves the mesh.
//!
//! Nodes are listed in the order of preference. The selector stays with a node as long as
//! it is good, leaves it when it was seen bad twice in a row, and returns to a preferred
//! node when that was seen recovered twice in a row. IPv4 and IPv6 are judged apart.

use crate::net::IpAddr;
use vstd::prelude::*;

verus! {

pub type PeerId = u32;

/// A node loses no more than this, in percent, while it is good.
pub const LOSS_THRESHOLD_PERCENT: u32 = 2;

/// No switch follows another within this time.
pub const SWITCH_COOLDOWN_MS: u64 = 10_000;

/// The same, while the active node loses much.
pub const CASCADE_COOLDOWN_MS: u64 = 5_000;

/// Loss above this, in percent, is much.
pub const CASCADE_LOSS_THRESHOLD: u32 = 5;

/// A new node is measured for this long before it is judged.
pub const MIN_SAMPLES_AFTER_SWITCH_MS: u64 = 3_000;

/// A change is made when it was called for this many times in a row.
pub const CONSECUTIVE_CONFIRM: u32 = 2;

/// The longest path whose loss is computed.
pub const MAX_RELAY_HOPS: usize = 3;

/// A relayed path that changed is given this time to recover.
pub const CONN_SWITCH_GRACE_MS: u64 = 12_000;

/// So many changes of a relayed path are given time before the node recovers.
pub const MAX_GRACE_RESETS: u32 = 2;

/// The node in use.
#[derive(Debug, Clone, Copy, PartialEq, Eq, Structural)]
pub struct ActiveExitNode {
    pub ip: IpAddr,
    pub peer_id: PeerId,
}

/// Identifies the path to a node: the connection of a direct path, the first hop of a
/// relayed one.
#[derive(Debug, Clone, Copy, PartialEq, Eq, Structural)]
pub struct PathFingerprint {
    pub is_relay: bool,
    /// Zero where there is none.
    pub conn_id: u128,
    pub gateway_peer_id: PeerId,
}

/// A node that can be reached.
#[derive(Debug, Clone, Copy, PartialEq, Eq, Structural)]
pub struct ExitNodeCandidate {
    pub ip: IpAddr,
    pub peer_id: PeerId,
    /// Loss on the path, in percent.
    pub loss: Option<u32>,
    pub path_cost: Option<i32>,
    pub fingerprint: PathFingerprint,
}

impl ExitNodeCandidate {
    /// The lower the better: loss, else path cost, else the worst of all.
    pub open spec fn score(self) -> int {
        match self.loss {
            Some(loss) => loss * 100,
            None => match self.path_cost {
                Some(cost) => if cost < 0 {
                    0
                } else {
                    cost as int
                },
                None => u64::MAX as int,
            },
        }
    }

    /// The lower the better.
    pub fn quality_score(&self) -> (r: u64)
        ensures
            r == self.score(),
    {
        match self.loss {
            Some(loss) => loss as u64 * 100,
            None => match self.path_cost {
                Some(cost) => if cost < 0 {
                    0
                } else {
                    cost as u64
                },
                None => u64::MAX,
            },
        }
    }

    pub open spec fn over(self) -> bool {
        self.loss is Some && self.loss->0 > 2
    }

    /// The node is known to lose too much.
    pub fn is_over_threshold(&self) -> (r: bool)
        ensures
            r == self.over(),
    {
        match self.loss {
            Some(loss) => loss > LOSS_THRESHOLD_PERCENT,
            None => false,
        }
    }

    pub open spec fn good(self) -> bool {
        match self.loss {
            Some(loss) => loss <= 2,
            None => self.path_cost is Some,
        }
    }

    /// The node loses little, or its loss is unknown and it has a path.
    pub fn is_good(&self) -> (r: bool)
        ensures
            r == self.good(),
    {
        match self.loss {
            Some(loss) => loss <= LOSS_THRESHOLD_PERCENT,
            None => self.path_cost.is_some(),
        }
    }

    pub open spec fn returnable(self, current_loss: Option<u32>) -> bool {
        &&& self.loss is Some
        &&& self.loss->0 <= 2
        &&& match current_loss {
            Some(cl) => self.loss->0 < cl || cl > 2,
            None => true,
        }
    }

    /// The node is measured good, and better than the current one if that is good too.
    pub fn is_return_candidate(&self, current_loss: Option<u32>) -> (r: bool)
        ensures
            r == self.returnable(current_loss),
    {
        match self.loss {
            Some(loss) => loss <= LOSS_THRESHOLD_PERCENT && match current_loss {
                Some(cl) => loss < cl || cl > LOSS_THRESHOLD_PERCENT,
                None => true,
            },
            None => false,
        }
    }
}

/// What one address family remembers between evaluations.
#[derive(Debug, Clone, Copy, PartialEq, Eq, Structural)]
pub struct PerVersionCounters {
    pub consecutive_over_threshold: u32,
    pub preferred_return_count: u32,
    pub last_fingerprint: PathFingerprint,
    pub last_relay_path_change: Option<u64>,
    pub grace_reset_count: u32,
}

impl PerVersionCounters {
    pub open spec fn zero() -> PerVersionCounters {
        PerVersionCounters {
            consecutive_over_threshold: 0,
            preferred_return_count: 0,
            last_fingerprint: PathFingerprint { is_relay: false, conn_id: 0, gateway_peer_id: 0 },
            last_relay_path_change: None,
            grace_reset_count: 0,
        }
    }

    /// Neither count reaches the number that would have been acted on.
    pub open spec fn well_formed(self) -> bool {
        self.consecutive_over_threshold < 2 && self.preferred_return_count < 2
    }
}

impl Default for PerVersionCounters {
    fn default() -> (r: Self)
        ensures
            r == PerVersionCounters::zero(),
    {
        PerVersionCounters {
            consecutive_over_threshold: 0,
            preferred_return_count: 0,
            last_fingerprint: PathFingerprint { is_relay: false, conn_id: 0, gateway_peer_id: 0 },
            last_relay_path_change: None,
            grace_reset_count: 0,
        }
    }
}

// --- Choosing among candidates ---

/// The candidate is not the excluded peer.
pub open spec fn eligible(c: ExitNodeCandidate, exclude: Option<PeerId>) -> bool {
    exclude != Some(c.peer_id)
}

/// The first candidate from `from` on that is good and not excluded.
pub open spec fn first_good(cs: Seq<ExitNodeCandidate>, exclude: Option<PeerId>, from: int) -> Option<
    int,
>
    decreases cs.len() - from,
{
    if from >= cs.len() {
        None
    } else if eligible(cs[from], exclude) && cs[from].good() {
        Some(from)
    } else {
        first_good(cs, exclude, from + 1)
    }
}

/// Among the first `n` candidates that are not excluded, the first with the lowest score.
pub open spec fn lowest(cs: Seq<ExitNodeCandidate>, exclude: Option<PeerId>, n: int) -> Option<int>
    decreases n,
{
    if n <= 0 {
        None
    } else {
        let before = lowest(cs, exclude, n - 1);
        if eligible(cs[n - 1], exclude) && (before is None || cs[n - 1].score()
            < cs[before->0].score()) {
            Some(n - 1)
        } else {
            before
        }
    }
}

/// The first candidate from `from` on that is the given peer.
pub open spec fn position_of(cs: Seq<ExitNodeCandidate>, peer: PeerId, from: int) -> Option<int>
    decreases cs.len() - from,
{
    if from >= cs.len() {
        None
    } else if cs[from].peer_id == peer {
        Some(from)
    } else {
        position_of(cs, peer, from + 1)
    }
}

/// Which candidate to switch to: the first good one; where there is none, the one with
/// the lowest score, unless the excluded peer's is no higher.
pub open spec fn best_choice(cs: Seq<ExitNodeCandidate>, exclude: Option<PeerId>) -> Option<int> {
    match first_good(cs, exclude, 0) {
        Some(i) => Some(i),
        None => {
            let best = match lowest(cs, exclude, cs.len() as int) {
                Some(i) => Some(i),
                None => lowest(cs, None, cs.len() as int),
            };
            let bar = match exclude {
                Some(peer) => position_of(cs, peer, 0),
                None => None,
            };
            if best is Some && bar is Some && cs[best->0].score() >= cs[bar->0].score() {
                None
            } else {
                best
            }
        },
    }
}

fn is_excluded(c: &ExitNodeCandidate, exclude: Option<PeerId>) -> (r: bool)
    ensures
        r == !eligible(*c, exclude),
{
    match exclude {
        Some(peer) => peer == c.peer_id,
        None => false,
    }
}

fn find_peer(cs: &Vec<ExitNodeCandidate>, peer: PeerId) -> (r: Option<usize>)
    ensures
        match r {
            Some(i) => position_of(cs@, peer, 0) == Some(i as int) && i < cs@.len()
                && cs@[i as int].peer_id == peer,
            None => position_of(cs@, peer, 0) is None,
        },
{
    let mut i: usize = 0;
    while i < cs.len()
        invariant
            i <= cs@.len(),
            position_of(cs@, peer, 0) == position_of(cs@, peer, i as int),
        decreases cs@.len() - i,
    {
        if cs[i].peer_id == peer {
            return Some(i);
        }
        i += 1;
    }
    None
}

fn find_lowest(cs: &Vec<ExitNodeCandidate>, exclude: Option<PeerId>) -> (r: Option<usize>)
    ensures
        match r {
            Some(i) => lowest(cs@, exclude, cs@.len() as int) == Some(i as int) && i < cs@.len(),
            None => lowest(cs@, exclude, cs@.len() as int) is None,
        },
{
    let mut best: Option<usize> = None;
    let mut i: usize = 0;
    while i < cs.len()
        invariant
            i <= cs@.len(),
            match best {
                Some(b) => lowest(cs@, exclude, i as int) == Some(b as int) && b < i,
                None => lowest(cs@, exclude, i as int) is None,
            },
        decreases cs@.len() - i,
    {
        if !is_excluded(&cs[i], exclude) {
            let better: bool = match best {
                Some(b) => cs[i].quality_score() < cs[b].quality_score(),
                None => true,
            };
            if better {
                best = Some(i);
            }
        }
        i += 1;
    }
    best
}

/// Picks the candidate to switch to, if any.
pub fn choose_best(cs: &Vec<ExitNodeCandidate>, exclude: Option<PeerId>) -> (r: Option<usize>)
    ensures
        match r {
            Some(i) => best_choice(cs@, exclude) == Some(i as int) && i < cs@.len(),
            None => best_choice(cs@, exclude) is None,
        },
{
    let mut i: usize = 0;
    while i < cs.len()
        invariant
            i <= cs@.len(),
            first_good(cs@, exclude, 0) == first_good(cs@, exclude, i as int),
        decreases cs@.len() - i,
    {
        if !is_excluded(&cs[i], exclude) && cs[i].is_good() {
            return Some(i);
        }
        i += 1;
    }
    let best = match find_lowest(cs, exclude) {
        Some(b) => Some(b),
        None => find_lowest(cs, None),
    };
    if let Some(b) = best {
        if let Some(peer) = exclude {
            if let Some(bar) = find_peer(cs, peer) {
                if cs[b].quality_score() >= cs[bar].quality_score() {
                    return None;
                }
            }
        }
        return Some(b);
    }
    None
}

// --- Judging one address family ---

/// The state of one address family.
#[derive(Debug, Clone, Copy, PartialEq, Eq, Structural)]
pub struct Slot {
    pub active: Option<ActiveExitNode>,
    pub counters: PerVersionCounters,
}

/// The counters once the path to the current node was looked at: a changed path starts
/// the count anew, and a changed relayed path is given time, twice at most.
pub open spec fn path_seen(c: PerVersionCounters, current: ExitNodeCandidate, now: u64) -> PerVersionCounters {
    let fp = current.fingerprint;
    if fp != c.last_fingerprint && (fp.is_relay || fp.conn_id != 0) {
        let genuine = !fp.is_relay || c.last_fingerprint.gateway_peer_id != 0;
        PerVersionCounters {
            consecutive_over_threshold: if genuine {
                0
            } else {
                c.consecutive_over_threshold
            },
            grace_reset_count: if genuine && fp.is_relay {
                ((c.grace_reset_count + 1) % 0x1_0000_0000) as u32
            } else {
                c.grace_reset_count
            },
            last_relay_path_change: if genuine && fp.is_relay && c.grace_reset_count < 2 {
                Some(now)
            } else {
                c.last_relay_path_change
            },
            last_fingerprint: fp,
            ..c
        }
    } else {
        c
    }
}

/// A relayed path changed less than the grace time ago.
pub open spec fn in_grace(c: PerVersionCounters, now: u64) -> bool {
    match c.last_relay_path_change {
        Some(t) => now - t < 12_000,
        None => false,
    }
}

/// Another candidate is good and reached directly.
pub open spec fn has_good_direct(cs: Seq<ExitNodeCandidate>, current: PeerId) -> bool {
    exists|i: int|
        0 <= i < cs.len() && (#[trigger] cs[i]).peer_id != current && cs[i].good()
            && !cs[i].fingerprint.is_relay
}

/// The first of the `n` most preferred candidates to which to return.
pub open spec fn first_returnable(
    cs: Seq<ExitNodeCandidate>,
    current_loss: Option<u32>,
    from: int,
    n: int,
) -> Option<int>
    decreases n - from,
{
    if from >= n {
        None
    } else if cs[from].returnable(current_loss) {
        Some(from)
    } else {
        first_returnable(cs, current_loss, from + 1, n)
    }
}

/// What an evaluation decides: new counters, and the candidate to switch to.
pub struct Verdict {
    pub counters: PerVersionCounters,
    pub switch_to: Option<int>,
}

/// The current node is good: return to a preferred one that was seen recovered often
/// enough.
pub open spec fn return_verdict(
    c: PerVersionCounters,
    cs: Seq<ExitNodeCandidate>,
    at: int,
) -> Verdict {
    match first_returnable(cs, cs[at].loss, 0, at) {
        Some(i) => if c.preferred_return_count + 1 >= 2 {
            Verdict {
                counters: PerVersionCounters { preferred_return_count: 0, ..c },
                switch_to: Some(i),
            }
        } else {
            Verdict {
                counters: PerVersionCounters {
                    preferred_return_count: (c.preferred_return_count + 1) as u32,
                    ..c
                },
                switch_to: None,
            }
        },
        None => Verdict {
            counters: PerVersionCounters { preferred_return_count: 0, ..c },
            switch_to: None,
        },
    }
}

/// Judges the current node, which stands at `at` among the candidates.
pub open spec fn current_verdict(
    counters: PerVersionCounters,
    cs: Seq<ExitNodeCandidate>,
    at: int,
    now: u64,
) -> Verdict {
    let current = cs[at];
    let c = path_seen(counters, current, now);
    if current.good() {
        return_verdict(
            PerVersionCounters {
                consecutive_over_threshold: 0,
                last_relay_path_change: None,
                grace_reset_count: 0,
                ..c
            },
            cs,
            at,
        )
    } else if current.over() {
        if in_grace(c, now) && current.loss->0 <= 5 && !has_good_direct(cs, current.peer_id) {
            Verdict { counters: c, switch_to: None }
        } else if c.consecutive_over_threshold + 1 < 2 {
            Verdict {
                counters: PerVersionCounters {
                    consecutive_over_threshold: (c.consecutive_over_threshold + 1) as u32,
                    ..c
                },
                switch_to: None,
            }
        } else {
            Verdict {
                counters: PerVersionCounters { consecutive_over_threshold: 0, ..c },
                switch_to: best_choice(cs, Some(current.peer_id)),
            }
        }
    } else {
        Verdict { counters: c, switch_to: None }
    }
}

/// The slot, and the time of the last switch, after an evaluation.
pub open spec fn evaluated(
    slot: Slot,
    last_switch: Option<u64>,
    cs: Seq<ExitNodeCandidate>,
    now: u64,
) -> (Slot, Option<u64>) {
    if cs.len() == 0 {
        (Slot { active: None, ..slot }, last_switch)
    } else {
        let v = match slot.active {
            Some(a) => match position_of(cs, a.peer_id, 0) {
                Some(at) => current_verdict(slot.counters, cs, at, now),
                None => Verdict { counters: slot.counters, switch_to: best_choice(cs, None) },
            },
            None => Verdict { counters: slot.counters, switch_to: best_choice(cs, None) },
        };
        match v.switch_to {
            Some(i) => (
                Slot {
                    active: Some(ActiveExitNode { ip: cs[i].ip, peer_id: cs[i].peer_id }),
                    counters: v.counters,
                },
                Some(now),
            ),
            None => (Slot { active: slot.active, counters: v.counters }, last_switch),
        }
    }
}

fn track(c: &mut PerVersionCounters, current: &ExitNodeCandidate, now: u64)
    ensures
        *final(c) == path_seen(*old(c), *current, now),
{
    let fp = current.fingerprint;
    let last = c.last_fingerprint;
    if fp != last && (fp.is_relay || fp.conn_id != 0) {
        let genuine: bool = if fp.is_relay { last.gateway_peer_id != 0 } else { true };
        if genuine {
            c.consecutive_over_threshold = 0;
            if fp.is_relay {
                let resets: u32 = c.grace_reset_count;
                c.grace_reset_count = if resets == u32::MAX { 0 } else { resets + 1 };
                if resets < MAX_GRACE_RESETS {
                    c.last_relay_path_change = Some(now);
                }
            }
        }
        c.last_fingerprint = fp;
    }
}

fn good_direct_alternative(cs: &Vec<ExitNodeCandidate>, current: PeerId) -> (r: bool)
    ensures
        r == has_good_direct(cs@, current),
{
    let mut i: usize = 0;
    while i < cs.len()
        invariant
            i <= cs@.len(),
            forall|k: int|
                0 <= k < i ==> !((#[trigger] cs@[k]).peer_id != current && cs@[k].good()
                    && !cs@[k].fingerprint.is_relay),
        decreases cs@.len() - i,
    {
        if cs[i].peer_id != current && cs[i].is_good() && !cs[i].fingerprint.is_relay {
            return true;
        }
        i += 1;
    }
    false
}

/// Looks for a preferred node to return to, and counts how often one was seen.
fn check_preferred_return(c: &mut PerVersionCounters, cs: &Vec<ExitNodeCandidate>, at: usize) -> (r: Option<
    usize,
>)
    requires
        at < cs@.len(),
        old(c).well_formed(),
    ensures
        ({
            let v = return_verdict(*old(c), cs@, at as int);
            &&& *final(c) == v.counters
            &&& match r {
                Some(i) => v.switch_to == Some(i as int) && i < cs@.len(),
                None => v.switch_to is None,
            }
        }),
{
    let loss = cs[at].loss;
    let mut i: usize = 0;
    while i < at
        invariant
            i <= at < cs@.len(),
            *c == *old(c),
            loss == cs@[at as int].loss,
            old(c).well_formed(),
            first_returnable(cs@, loss, 0, at as int) == first_returnable(
                cs@,
                loss,
                i as int,
                at as int,
            ),
        decreases at - i,
    {
        if cs[i].is_return_candidate(loss) {
            let count: u32 = c.preferred_return_count + 1;
            if count >= CONSECUTIVE_CONFIRM {
                c.preferred_return_count = 0;
                return Some(i);
            }
            c.preferred_return_count = count;
            return None;
        }
        i += 1;
    }
    c.preferred_return_count = 0;
    None
}

/// Judges the current node, which stands at `at` among the candidates.
fn judge_current(c: &mut PerVersionCounters, cs: &Vec<ExitNodeCandidate>, at: usize, now: u64) -> (r: Option<
    usize,
>)
    requires
        at < cs@.len(),
        old(c).well_formed(),
    ensures
        ({
            let v = current_verdict(*old(c), cs@, at as int, now);
            &&& *final(c) == v.counters
            &&& match r {
                Some(i) => v.switch_to == Some(i as int) && i < cs@.len(),
                None => v.switch_to is None,
            }
        }),
{
    let current = cs[at];
    track(c, &current, now);
    let grace: bool = match c.last_relay_path_change {
        Some(t) => now < t || now - t < CONN_SWITCH_GRACE_MS,
        None => false,
    };
    if current.is_good() {
        c.consecutive_over_threshold = 0;
        c.last_relay_path_change = None;
        c.grace_reset_count = 0;
        return check_preferred_return(c, cs, at);
    }
    if current.is_over_threshold() {
        let loss: u32 = match current.loss {
            Some(l) => l,
            None => 0,
        };
        if grace && loss <= CASCADE_LOSS_THRESHOLD {
            if !good_direct_alternative(cs, current.peer_id) {
                return None;
            }
        }
        let count: u32 = c.consecutive_over_threshold + 1;
        if count < CONSECUTIVE_CONFIRM {
            c.consecutive_over_threshold = count;
            return None;
        }
        c.consecutive_over_threshold = 0;
        return choose_best(cs, Some(current.peer_id));
    }
    None
}

// --- The selector ---

/// What an evaluation needs next.
#[derive(Debug, Clone, Copy, PartialEq, Eq, Structural)]
pub enum EvalStep {
    /// Nothing: the evaluation is over.
    Done,
    /// Look up the peer of the only node, and report with `set_single_node`.
    ResolveSingle(IpAddr),
    /// Resolve the candidates, and report with `finish_evaluation`.
    ResolveAll,
}

/// Chooses the exit nodes.
#[derive(Debug, Clone, Copy, PartialEq, Eq, Structural)]
pub struct ExitNodeSelector {
    pub my_peer_id: PeerId,
    pub v4: Slot,
    pub v6: Slot,
    pub last_switch_at: Option<u64>,
}

impl ExitNodeSelector {
    /// The counts stay below the number that would have been acted on.
    pub open spec fn well_formed(self) -> bool {
        self.v4.counters.well_formed() && self.v6.counters.well_formed()
    }

    /// No node is active yet.
    pub fn new(my_peer_id: PeerId) -> (r: Self)
        ensures
            r.well_formed(),
            r == (ExitNodeSelector {
                my_peer_id,
                v4: Slot { active: None, counters: PerVersionCounters::zero() },
                v6: Slot { active: None, counters: PerVersionCounters::zero() },
                last_switch_at: None,
            }),
    {
        ExitNodeSelector {
            my_peer_id,
            v4: Slot { active: None, counters: PerVersionCounters::default() },
            v6: Slot { active: None, counters: PerVersionCounters::default() },
            last_switch_at: None,
        }
    }

    /// The peer for IPv4 traffic.
    pub fn get_active_v4_peer_id(&self) -> (r: Option<PeerId>)
        ensures
            r == match self.v4.active {
                Some(a) => Some(a.peer_id),
                None => None,
            },
    {
        match self.v4.active {
            Some(a) => Some(a.peer_id),
            None => None,
        }
    }

    /// The peer for IPv6 traffic.
    pub fn get_active_v6_peer_id(&self) -> (r: Option<PeerId>)
        ensures
            r == match self.v6.active {
                Some(a) => Some(a.peer_id),
                None => None,
            },
    {
        match self.v6.active {
            Some(a) => Some(a.peer_id),
            None => None,
        }
    }

    /// Forgets the active nodes and all counts.
    pub fn reset(&mut self)
        ensures
            final(self).well_formed(),
            *final(self) == (ExitNodeSelector {
                v4: Slot { active: None, counters: PerVersionCounters::zero() },
                v6: Slot { active: None, counters: PerVersionCounters::zero() },
                ..*old(self)
            }),
    {
        self.v4 = Slot { active: None, counters: PerVersionCounters::default() };
        self.v6 = Slot { active: None, counters: PerVersionCounters::default() };
    }

    /// Enough time passed since the last switch: three seconds in any case, then five
    /// while the active node loses much, and ten otherwise.
    pub open spec fn cooled_down(self, now: u64, current_loss: u32) -> bool {
        match self.last_switch_at {
            None => true,
            Some(last) => {
                let elapsed = if now < last { 0 } else { now - last };
                elapsed >= 3_000 && elapsed >= if current_loss > 5 {
                    5_000int
                } else {
                    10_000
                }
            },
        }
    }

    /// Whether enough time passed since the last switch.
    pub fn cooldown_elapsed(&self, now: u64, current_loss: u32) -> (r: bool)
        ensures
            r == self.cooled_down(now, current_loss),
    {
        match self.last_switch_at {
            None => true,
            Some(last) => {
                let elapsed: u64 = now.saturating_sub(last);
                if elapsed < MIN_SAMPLES_AFTER_SWITCH_MS {
                    return false;
                }
                let cooldown: u64 = if current_loss > CASCADE_LOSS_THRESHOLD {
                    CASCADE_COOLDOWN_MS
                } else {
                    SWITCH_COOLDOWN_MS
                };
                elapsed >= cooldown
            },
        }
    }

    /// Begins an evaluation of the configured nodes. `current_loss` is the loss on the way
    /// to the active node.
    pub fn begin_evaluation(&mut self, nodes: &[IpAddr], now: u64, current_loss: u32) -> (r: EvalStep)
        requires
            old(self).well_formed(),
        ensures
            final(self).well_formed(),
            nodes@.len() == 0 ==> r == EvalStep::Done && *final(self) == (ExitNodeSelector {
                v4: Slot { active: None, ..old(self).v4 },
                v6: Slot { active: None, ..old(self).v6 },
                ..*old(self)
            }),
            nodes@.len() > 0 ==> *final(self) == *old(self),
            nodes@.len() == 1 ==> r == EvalStep::ResolveSingle(nodes@[0]),
            nodes@.len() > 1 ==> r == if old(self).cooled_down(now, current_loss) {
                EvalStep::ResolveAll
            } else {
                EvalStep::Done
            },
    {
        if nodes.is_empty() {
            self.v4.active = None;
            self.v6.active = None;
            return EvalStep::Done;
        }
        if nodes.len() == 1 {
            return EvalStep::ResolveSingle(nodes[0]);
        }
        if !self.cooldown_elapsed(now, current_loss) {
            return EvalStep::Done;
        }
        EvalStep::ResolveAll
    }

    /// The only configured node is the exit node of its family while its peer is known.
    pub fn set_single_node(&mut self, ip: IpAddr, peer_id: Option<PeerId>)
        requires
            old(self).well_formed(),
        ensures
            final(self).well_formed(),
            ({
                let active = match peer_id {
                    Some(peer_id) => Some(ActiveExitNode { ip, peer_id }),
                    None => None,
                };
                *final(self) == match ip {
                    IpAddr::V4(_) => ExitNodeSelector {
                        v4: Slot { active, ..old(self).v4 },
                        ..*old(self)
                    },
                    IpAddr::V6(_) => ExitNodeSelector {
                        v6: Slot { active, ..old(self).v6 },
                        ..*old(self)
                    },
                }
            }),
    {
        let active = match peer_id {
            Some(peer_id) => Some(ActiveExitNode { ip, peer_id }),
            None => None,
        };
        match ip {
            IpAddr::V4(_) => {
                self.v4.active = active;
            },
            IpAddr::V6(_) => {
                self.v6.active = active;
            },
        }
    }

    /// Judges the candidates of both families; the second sees the switch of the first.
    pub fn finish_evaluation(
        &mut self,
        v4: &Vec<ExitNodeCandidate>,
        v6: &Vec<ExitNodeCandidate>,
        now: u64,
    )
        requires
            old(self).well_formed(),
        ensures
            final(self).well_formed(),
            final(self).my_peer_id == old(self).my_peer_id,
            ({
                let (s4, t4) = evaluated(old(self).v4, old(self).last_switch_at, v4@, now);
                let (s6, t6) = evaluated(old(self).v6, t4, v6@, now);
                final(self).v4 == s4 && final(self).v6 == s6 && final(self).last_switch_at == t6
            }),
    {
        self.last_switch_at = evaluate_candidates(&mut self.v4, self.last_switch_at, v4, now);
        self.last_switch_at = evaluate_candidates(&mut self.v6, self.last_switch_at, v6, now);
    }
}

proof fn lemma_evaluated_well_formed(
    slot: Slot,
    last_switch: Option<u64>,
    cs: Seq<ExitNodeCandidate>,
    now: u64,
)
    requires
        slot.counters.well_formed(),
    ensures
        evaluated(slot, last_switch, cs, now).0.counters.well_formed(),
{
}

/// Judges the candidates of one family, listed in order of preference. Returns the time
/// of the last switch.
pub fn evaluate_candidates(
    slot: &mut Slot,
    last_switch: Option<u64>,
    candidates: &Vec<ExitNodeCandidate>,
    now: u64,
) -> (r: Option<u64>)
    requires
        old(slot).counters.well_formed(),
    ensures
        (*final(slot), r) == evaluated(*old(slot), last_switch, candidates@, now),
        final(slot).counters.well_formed(),
{
    proof {
        lemma_evaluated_well_formed(*old(slot), last_switch, candidates@, now);
    }
    if candidates.is_empty() {
        slot.active = None;
        return last_switch;
    }
    let choice = match slot.active {
        Some(active) => match find_peer(candidates, active.peer_id) {
            Some(at) => judge_current(&mut slot.counters, candidates, at, now),
            None => choose_best(candidates, None),
        },
        None => choose_best(candidates, None),
    };
    match choice {
        Some(i) => {
            slot.active = Some(
                ActiveExitNode { ip: candidates[i].ip, peer_id: candidates[i].peer_id },
            );
            Some(now)
        },
        None => last_switch,
    }
}

/// The loss on the way to the active node: the IPv4 node's if it is known, else the IPv6
/// node's, else none.
pub fn current_active_loss(v4_loss: Option<u32>, v6_loss: Option<u32>) -> (r: u32)
    ensures
        r == match v4_loss {
            Some(loss) => loss,
            None => match v6_loss {
                Some(loss) => loss,
                None => 0,
            },
        },
{
    match v4_loss {
        Some(loss) => loss,
        None => match v6_loss {
            Some(loss) => loss,
            None => 0,
        },
    }
}

// --- Resolving candidates ---

/// A neighbour of a peer, and the loss on the way to it in percent.
#[derive(Debug, Clone, Copy, PartialEq, Eq, Structural)]
pub struct PeerLink {
    pub peer_id: PeerId,
    pub loss_rate_percent: u32,
}

/// A peer and its direct neighbours.
#[derive(Debug, Clone)]
pub struct PeerNode {
    pub peer_id: PeerId,
    pub direct_peers: Vec<PeerLink>,
}

/// What is known of the mesh.
#[derive(Debug, Clone)]
pub struct PeerGraph {
    pub peers: Vec<PeerNode>,
}

/// The neighbours of a peer, if it is known.
pub open spec fn links_of(peers: Seq<PeerNode>, id: PeerId) -> Option<Seq<PeerLink>>
    decreases peers.len(),
{
    if peers.len() == 0 {
        None
    } else if peers[0].peer_id == id {
        Some(peers[0].direct_peers@)
    } else {
        links_of(peers.drop_first(), id)
    }
}

/// The link to a neighbour.
pub open spec fn link_to(links: Seq<PeerLink>, id: PeerId) -> Option<PeerLink>
    decreases links.len(),
{
    if links.len() == 0 {
        None
    } else if links[0].peer_id == id {
        Some(links[0])
    } else {
        link_to(links.drop_first(), id)
    }
}

/// The first neighbour that is also among `others`.
pub open spec fn common_neighbour(links: Seq<PeerLink>, others: Seq<PeerLink>) -> Option<PeerId>
    decreases links.len(),
{
    if links.len() == 0 {
        None
    } else if link_to(others, links[0].peer_id) is Some {
        Some(links[0].peer_id)
    } else {
        common_neighbour(links.drop_first(), others)
    }
}

/// The hop that follows `current` on the way to `dst`: from ourselves the first hop; from
/// a neighbour of the destination the destination; else a neighbour common to both.
pub open spec fn next_hop(
    peers: Seq<PeerNode>,
    me: PeerId,
    first_hop: PeerId,
    dst: PeerId,
    current: PeerId,
) -> Option<PeerId> {
    match links_of(peers, current) {
        None => None,
        Some(links) => if current == me {
            Some(first_hop)
        } else if link_to(links, dst) is Some {
            Some(dst)
        } else {
            match links_of(peers, dst) {
                None => None,
                Some(others) => common_neighbour(links, others),
            }
        },
    }
}

/// The losses of the hops from `current` to `dst`, if no more than `hops` are needed.
pub open spec fn path_losses(
    peers: Seq<PeerNode>,
    me: PeerId,
    first_hop: PeerId,
    dst: PeerId,
    current: PeerId,
    hops: nat,
) -> Option<Seq<u32>>
    decreases hops,
{
    if current == dst {
        Some(Seq::empty())
    } else if hops == 0 {
        None
    } else {
        match next_hop(peers, me, first_hop, dst, current) {
            None => None,
            Some(next) => match link_to(links_of(peers, current)->0, next) {
                None => None,
                Some(link) => match path_losses(
                    peers,
                    me,
                    first_hop,
                    dst,
                    next,
                    (hops - 1) as nat,
                ) {
                    None => None,
                    Some(rest) => Some(seq![link.loss_rate_percent] + rest),
                },
            },
        }
    }
}

impl PeerGraph {
    fn find_node(&self, id: PeerId) -> (r: Option<usize>)
        ensures
            match r {
                Some(i) => i < self.peers@.len() && links_of(self.peers@, id) == Some(
                    self.peers@[i as int].direct_peers@,
                ),
                None => links_of(self.peers@, id) is None,
            },
    {
        let mut i: usize = 0;
        assert(self.peers@.skip(0) =~= self.peers@);
        while i < self.peers.len()
            invariant
                i <= self.peers@.len(),
                links_of(self.peers@.skip(i as int), id) == links_of(self.peers@, id),
            decreases self.peers@.len() - i,
        {
            assert(self.peers@.skip(i as int).drop_first() =~= self.peers@.skip(i + 1));
            if self.peers[i].peer_id == id {
                return Some(i);
            }
            i += 1;
        }
        None
    }

    /// The losses of the hops on the way to `dst_peer_id`, of which there are three at
    /// most; `None` where the mesh does not tell the way.
    pub fn path_loss_percents(&self, my_peer_id: PeerId, dst_peer_id: PeerId, first_hop: PeerId) -> (r: Option<
        Vec<u32>,
    >)
        ensures
            match r {
                Some(losses) => path_losses(
                    self.peers@,
                    my_peer_id,
                    first_hop,
                    dst_peer_id,
                    my_peer_id,
                    3,
                ) == Some(losses@),
                None => path_losses(
                    self.peers@,
                    my_peer_id,
                    first_hop,
                    dst_peer_id,
                    my_peer_id,
                    3,
                ) is None,
            },
    {
        let mut current: PeerId = my_peer_id;
        let mut losses: Vec<u32> = Vec::new();
        let mut hops: usize = 0;
        let ghost whole = path_losses(
            self.peers@,
            my_peer_id,
            first_hop,
            dst_peer_id,
            my_peer_id,
            3,
        );
        proof {
            if let Some(w) = whole {
                assert(losses@ + w =~= w);
            }
        }
        while hops < MAX_RELAY_HOPS
            invariant
                hops <= 3,
                whole == path_losses(
                    self.peers@,
                    my_peer_id,
                    first_hop,
                    dst_peer_id,
                    my_peer_id,
                    3,
                ),
                ({
                    let rest = path_losses(
                        self.peers@,
                        my_peer_id,
                        first_hop,
                        dst_peer_id,
                        current,
                        (3 - hops) as nat,
                    );
                    match rest {
                        Some(q) => whole == Some(losses@ + q),
                        None => whole is None,
                    }
                }),
            decreases 3 - hops,
        {
            if current == dst_peer_id {
                assert(losses@ + Seq::<u32>::empty() =~= losses@);
                return Some(losses);
            }
            let at: usize = match self.find_node(current) {
                Some(i) => i,
                None => return None,
            };
            let links = &self.peers[at].direct_peers;
            let next: PeerId = if current == my_peer_id {
                first_hop
            } else if find_link(links, dst_peer_id).is_some() {
                dst_peer_id
            } else {
                let other: usize = match self.find_node(dst_peer_id) {
                    Some(i) => i,
                    None => return None,
                };
                match find_common(links, &self.peers[other].direct_peers) {
                    Some(p) => p,
                    None => return None,
                }
            };
            let link = match find_link(links, next) {
                Some(l) => l,
                None => return None,
            };
            let ghost before = losses@;
            losses.push(link.loss_rate_percent);
            proof {
                let rest = path_losses(
                    self.peers@,
                    my_peer_id,
                    first_hop,
                    dst_peer_id,
                    next,
                    (3 - (hops + 1)) as nat,
                );
                if let Some(q) = rest {
                    assert(losses@ + q =~= before + (seq![link.loss_rate_percent] + q));
                }
            }
            current = next;
            hops += 1;
        }
        if current != dst_peer_id {
            return None;
        }
        assert(losses@ + Seq::<u32>::empty() =~= losses@);
        Some(losses)
    }
}

fn find_link(links: &Vec<PeerLink>, id: PeerId) -> (r: Option<PeerLink>)
    ensures
        r == link_to(links@, id),
{
    let mut i: usize = 0;
    assert(links@.skip(0) =~= links@);
    while i < links.len()
        invariant
            i <= links@.len(),
            link_to(links@.skip(i as int), id) == link_to(links@, id),
        decreases links@.len() - i,
    {
        assert(links@.skip(i as int).drop_first() =~= links@.skip(i + 1));
        if links[i].peer_id == id {
            return Some(links[i]);
        }
        i += 1;
    }
    None
}

fn find_common(links: &Vec<PeerLink>, others: &Vec<PeerLink>) -> (r: Option<PeerId>)
    ensures
        r == common_neighbour(links@, others@),
{
    let mut i: usize = 0;
    assert(links@.skip(0) =~= links@);
    while i < links.len()
        invariant
            i <= links@.len(),
            common_neighbour(links@.skip(i as int), others@) == common_neighbour(links@, others@),
        decreases links@.len() - i,
    {
        assert(links@.skip(i as int).drop_first() =~= links@.skip(i + 1));
        if find_link(others, links[i].peer_id).is_some() {
            return Some(links[i].peer_id);
        }
        i += 1;
    }
    None
}

/// A route to a peer.
#[derive(Debug, Clone, Copy, PartialEq, Eq, Structural)]
pub struct RouteInfo {
    pub peer_id: PeerId,
    pub next_hop_peer_id: PeerId,
    pub next_hop_peer_id_latency_first: Option<PeerId>,
    pub path_latency_latency_first: Option<i32>,
}

impl RouteInfo {
    /// The first hop: the one for low latency where there is one.
    pub open spec fn hop(self) -> PeerId {
        match self.next_hop_peer_id_latency_first {
            Some(p) => p,
            None => self.next_hop_peer_id,
        }
    }

    /// The first hop of the route.
    pub fn first_hop(&self) -> (r: PeerId)
        ensures
            r == self.hop(),
    {
        match self.next_hop_peer_id_latency_first {
            Some(p) => p,
            None => self.next_hop_peer_id,
        }
    }
}

/// What was found out about a configured node.
#[derive(Debug, Clone, Copy, PartialEq, Eq, Structural)]
pub struct ResolvedNode {
    pub ip: IpAddr,
    pub peer_id: PeerId,
    /// A connection to the peer exists.
    pub has_direct: bool,
    /// The loss on that connection, and its number.
    pub direct_loss: Option<u32>,
    pub conn_id: Option<u128>,
    /// The loss of the relayed path, where one is known.
    pub relay_loss: Option<u32>,
    pub route: Option<RouteInfo>,
}

impl ResolvedNode {
    /// The candidate that the node makes; none if nothing is known of its quality.
    pub open spec fn candidate(self) -> Option<ExitNodeCandidate> {
        let loss = if self.has_direct {
            self.direct_loss
        } else if self.route is Some {
            self.relay_loss
        } else {
            None
        };
        let path_cost = match self.route {
            Some(r) => r.path_latency_latency_first,
            None => None,
        };
        if loss is None && path_cost is None {
            None
        } else {
            Some(
                ExitNodeCandidate {
                    ip: self.ip,
                    peer_id: self.peer_id,
                    loss,
                    path_cost,
                    fingerprint: if self.has_direct {
                        PathFingerprint {
                            is_relay: false,
                            conn_id: match self.conn_id {
                                Some(c) => c,
                                None => 0,
                            },
                            gateway_peer_id: 0,
                        }
                    } else {
                        PathFingerprint {
                            is_relay: true,
                            conn_id: 0,
                            gateway_peer_id: match self.route {
                                Some(r) => r.hop(),
                                None => 0,
                            },
                        }
                    },
                },
            )
        }
    }

    /// The candidate that the node makes.
    pub fn to_candidate(&self) -> (r: Option<ExitNodeCandidate>)
        ensures
            r == self.candidate(),
    {
        let (loss, fingerprint) = if self.has_direct {
            let conn_id: u128 = match self.conn_id {
                Some(c) => c,
                None => 0,
            };
            (self.direct_loss, PathFingerprint { is_relay: false, conn_id, gateway_peer_id: 0 })
        } else {
            match self.route {
                Some(route) => (
                    self.relay_loss,
                    PathFingerprint {
                        is_relay: true,
                        conn_id: 0,
                        gateway_peer_id: route.first_hop(),
                    },
                ),
                None => (
                    None,
                    PathFingerprint { is_relay: true, conn_id: 0, gateway_peer_id: 0 },
                ),
            }
        };
        let path_cost = match self.route {
            Some(route) => route.path_latency_latency_first,
            None => None,
        };
        if loss.is_none() && path_cost.is_none() {
            return None;
        }
        Some(ExitNodeCandidate { ip: self.ip, peer_id: self.peer_id, loss, path_cost, fingerprint })
    }
}

/// The candidates of one family, in the order of the nodes.
pub open spec fn candidates_of(nodes: Seq<ResolvedNode>, want_v4: bool) -> Seq<ExitNodeCandidate>
    decreases nodes.len(),
{
    if nodes.len() == 0 {
        Seq::empty()
    } else {
        let before = candidates_of(nodes.drop_last(), want_v4);
        match nodes.last().candidate() {
            Some(c) => if (nodes.last().ip is V4) == want_v4 {
                before.push(c)
            } else {
                before
            },
            None => before,
        }
    }
}

/// The candidates for IPv4 and for IPv6, in the order of the nodes.
pub fn resolve_candidates(nodes: &Vec<ResolvedNode>) -> (r: (
    Vec<ExitNodeCandidate>,
    Vec<ExitNodeCandidate>,
))
    ensures
        r.0@ == candidates_of(nodes@, true),
        r.1@ == candidates_of(nodes@, false),
{
    let mut v4: Vec<ExitNodeCandidate> = Vec::new();
    let mut v6: Vec<ExitNodeCandidate> = Vec::new();
    let mut i: usize = 0;
    while i < nodes.len()
        invariant
            i <= nodes@.len(),
            v4@ =~= candidates_of(nodes@.take(i as int), true),
            v6@ =~= candidates_of(nodes@.take(i as int), false),
        decreases nodes@.len() - i,
    {
        proof {
            let t = nodes@.take(i + 1);
            assert(t.drop_last() =~= nodes@.take(i as int));
            assert(t.last() == nodes@[i as int]);
        }
        if let Some(candidate) = nodes[i].to_candidate() {
            match nodes[i].ip {
                IpAddr::V4(_) => v4.push(candidate),
                IpAddr::V6(_) => v6.push(candidate),
            }
        }
        i += 1;
    }
    assert(nodes@.take(nodes@.len() as int) =~= nodes@);
    (v4, v6)
}

/// The first route to a peer.
pub open spec fn route_to(routes: Seq<RouteInfo>, peer: PeerId) -> Option<RouteInfo>
    decreases routes.len(),
{
    if routes.len() == 0 {
        None
    } else if routes[0].peer_id == peer {
        Some(routes[0])
    } else {
        route_to(routes.drop_first(), peer)
    }
}

/// Finds the route to a peer.
pub fn find_route(routes: &Vec<RouteInfo>, peer: PeerId) -> (r: Option<RouteInfo>)
    ensures
        r == route_to(routes@, peer),
{
    let mut i: usize = 0;
    assert(routes@.skip(0) =~= routes@);
    while i < routes.len()
        invariant
            i <= routes@.len(),
            route_to(routes@.skip(i as int), peer) == route_to(routes@, peer),
        decreases routes@.len() - i,
    {
        assert(routes@.skip(i as int).drop_first() =~= routes@.skip(i + 1));
        if routes[i].peer_id == peer {
            return Some(routes[i]);
        }
        i += 1;
    }
    None
}

// --- Laws ---

proof fn lemma_first_good(cs: Seq<ExitNodeCandidate>, exclude: Option<PeerId>, from: int)
    requires
        0 <= from,
    ensures
        first_good(cs, exclude, from) matches Some(i) ==> from <= i < cs.len() && eligible(
            cs[i],
            exclude,
        ) && cs[i].good(),
        first_good(cs, exclude, from) is None ==> forall|k: int|
            from <= k < cs.len() ==> !(eligible(#[trigger] cs[k], exclude) && cs[k].good()),
    decreases cs.len() - from,
{
    if from < cs.len() && !(eligible(cs[from], exclude) && cs[from].good()) {
        lemma_first_good(cs, exclude, from + 1);
    }
}

proof fn lemma_lowest(cs: Seq<ExitNodeCandidate>, exclude: Option<PeerId>, n: int)
    requires
        0 <= n <= cs.len(),
    ensures
        lowest(cs, exclude, n) matches Some(i) ==> 0 <= i < n && eligible(cs[i], exclude)
            && forall|k: int|
            0 <= k < n && eligible(#[trigger] cs[k], exclude) ==> cs[i].score() <= cs[k].score(),
        lowest(cs, exclude, n) is None ==> forall|k: int|
            0 <= k < n ==> !eligible(#[trigger] cs[k], exclude),
    decreases n,
{
    if n > 0 {
        lemma_lowest(cs, exclude, n - 1);
    }
}

proof fn lemma_position(cs: Seq<ExitNodeCandidate>, peer: PeerId, from: int)
    requires
        0 <= from,
    ensures
        position_of(cs, peer, from) matches Some(i) ==> from <= i < cs.len() && cs[i].peer_id == peer,
        position_of(cs, peer, from) is None ==> forall|k: int|
            from <= k < cs.len() ==> (#[trigger] cs[k]).peer_id != peer,
    decreases cs.len() - from,
{
    if from < cs.len() && cs[from].peer_id != peer {
        lemma_position(cs, peer, from + 1);
    }
}

proof fn lemma_first_returnable(cs: Seq<ExitNodeCandidate>, loss: Option<u32>, from: int, n: int)
    requires
        0 <= from <= n <= cs.len(),
    ensures
        first_returnable(cs, loss, from, n) matches Some(i) ==> from <= i < n && cs[i].returnable(
            loss,
        ),
    decreases n - from,
{
    if from < n && !cs[from].returnable(loss) {
        lemma_first_returnable(cs, loss, from + 1, n);
    }
}

/// What is chosen is a candidate; a good one is taken where there is one; and otherwise
/// none scores lower.
pub proof fn best_choice_is_best(cs: Seq<ExitNodeCandidate>)
    ensures
        cs.len() > 0 ==> best_choice(cs, None) is Some,
        best_choice(cs, None) matches Some(i) ==> {
            &&& 0 <= i < cs.len()
            &&& (exists|k: int| 0 <= k < cs.len() && (#[trigger] cs[k]).good()) ==> cs[i].good()
            &&& !cs[i].good() ==> forall|k: int|
                0 <= k < cs.len() ==> cs[i].score() <= (#[trigger] cs[k]).score()
        },
{
    lemma_first_good(cs, None, 0);
    lemma_lowest(cs, None, cs.len() as int);
    if cs.len() > 0 {
        assert(eligible(cs[0], None));
    }
    if let Some(i) = best_choice(cs, None) {
        if !cs[i].good() {
            assert forall|k: int| 0 <= k < cs.len() implies cs[i].score() <= (#[trigger] cs[k]).score() by {
                assert(eligible(cs[k], None));
            }
        }
    }
}

/// A switch away from a bad node goes to a good one, or to one with a strictly lower
/// score.
pub proof fn leaving_a_node_improves(cs: Seq<ExitNodeCandidate>, at: int)
    requires
        0 <= at < cs.len(),
        position_of(cs, cs[at].peer_id, 0) == Some(at),
    ensures
        best_choice(cs, Some(cs[at].peer_id)) matches Some(i) ==> 0 <= i < cs.len() && (cs[i].good()
            || cs[i].score() < cs[at].score()),
{
    let exclude = Some(cs[at].peer_id);
    lemma_first_good(cs, exclude, 0);
    lemma_lowest(cs, exclude, cs.len() as int);
    lemma_lowest(cs, None, cs.len() as int);
}

/// One bad measurement never moves the exit node: a node that was not over the threshold
/// in the evaluation before is kept.
pub proof fn one_bad_evaluation_keeps_the_node(
    counters: PerVersionCounters,
    cs: Seq<ExitNodeCandidate>,
    at: int,
    now: u64,
)
    requires
        0 <= at < cs.len(),
        counters.consecutive_over_threshold == 0,
        !cs[at].good(),
    ensures
        current_verdict(counters, cs, at, now).switch_to is None,
{
}

/// A good node is left only for a more preferred one that is measured good.
pub proof fn good_node_is_left_only_for_a_preferred_one(
    counters: PerVersionCounters,
    cs: Seq<ExitNodeCandidate>,
    at: int,
    now: u64,
)
    requires
        0 <= at < cs.len(),
        cs[at].good(),
    ensures
        current_verdict(counters, cs, at, now).switch_to matches Some(i) ==> 0 <= i < at
            && cs[i].good() && cs[i].loss is Some,
{
    lemma_first_returnable(cs, cs[at].loss, 0, at);
}

/// The most preferred node, once good and active, stays.
pub proof fn preferred_good_node_stays(
    counters: PerVersionCounters,
    cs: Seq<ExitNodeCandidate>,
    now: u64,
)
    requires
        cs.len() > 0,
        cs[0].good(),
    ensures
        current_verdict(counters, cs, 0, now).switch_to is None,
{
}

/// Every evaluation leaves a candidate active where there are candidates.
pub proof fn some_candidate_is_active(
    slot: Slot,
    last_switch: Option<u64>,
    cs: Seq<ExitNodeCandidate>,
    now: u64,
)
    requires
        cs.len() > 0,
    ensures
        ({
            let after = evaluated(slot, last_switch, cs, now).0;
            &&& after.active is Some
            &&& exists|i: int| 0 <= i < cs.len() && (#[trigger] cs[i]).peer_id == after.active->0.peer_id
        }),
{
    best_choice_is_best(cs);
    match slot.active {
        Some(a) => {
            lemma_position(cs, a.peer_id, 0);
            if let Some(at) = position_of(cs, a.peer_id, 0) {
                lemma_first_returnable(cs, cs[at].loss, 0, at);
                lemma_first_good(cs, Some(a.peer_id), 0);
                lemma_lowest(cs, Some(a.peer_id), cs.len() as int);
                lemma_lowest(cs, None, cs.len() as int);
            }
        },
        None => {},
    }
}

/// A relayed path that keeps changing is given time twice at most before its node is good
/// again.
pub proof fn grace_is_bounded(c: PerVersionCounters, current: ExitNodeCandidate, now: u64)
    requires
        c.grace_reset_count >= 2,
    ensures
        path_seen(c, current, now).last_relay_path_change == c.last_relay_path_change,
{
}

} // verus!

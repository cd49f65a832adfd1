//! Drops what the kernel sends on taken-over connections, with pf.
//!
//! There is one rule for each connection, and the anchor is loaded anew whenever the
//! connections change.

use crate::display;
use crate::display::{append_decimal, append_ip};
use crate::net;
use crate::net::{IpAddr, SocketAddr};
use crate::text;
use crate::text::{lines, strip_prefix, trim};
use vstd::prelude::*;
use vstd::string::*;

verus! {

/// The rule that drops what leaves from `local` to `remote`.
pub open spec fn rule_text(local: SocketAddr, remote: SocketAddr) -> Seq<char> {
    "block drop out quick "@ + (if local.ip is V4 {
        "inet"@
    } else {
        "inet6"@
    }) + " proto tcp from "@ + display::ip_text(local.ip) + " port "@ + display::decimal(
        local.port as int,
    ) + " to "@ + display::ip_text(remote.ip) + " port "@ + display::decimal(remote.port as int)
        + "\n"@
}

/// Writes the rule for a connection. Addresses of two families have none.
pub fn rule_for(local: &SocketAddr, remote: &SocketAddr) -> (r: Option<String>)
    ensures
        r is Some == net::same_family(*local, *remote),
        r matches Some(rule) ==> rule@ == rule_text(*local, *remote),
{
    let family: &'static str = match (local.ip, remote.ip) {
        (IpAddr::V4(_), IpAddr::V4(_)) => "inet",
        (IpAddr::V6(_), IpAddr::V6(_)) => "inet6",
        _ => return None,
    };
    let mut out = String::new();
    out.append("block drop out quick ");
    out.append(family);
    out.append(" proto tcp from ");
    append_ip(&mut out, local.ip);
    out.append(" port ");
    append_decimal(&mut out, local.port as u64);
    out.append(" to ");
    append_ip(&mut out, remote.ip);
    out.append(" port ");
    append_decimal(&mut out, remote.port as u64);
    out.append("\n");
    assert(out@ =~= rule_text(*local, *remote));
    Some(out)
}

// --- The connections, in order ---

/// A connection: its local and its remote address.
pub type Tuple = (SocketAddr, SocketAddr);

/// The place of an address among all addresses: by family, address and port.
pub open spec fn addr_rank(a: SocketAddr) -> (int, int, int, int) {
    match a.ip {
        IpAddr::V4(ip) => (0, 0, ip.bits as int, a.port as int),
        IpAddr::V6(ip) => (1, ip.high as int, ip.low as int, a.port as int),
    }
}

/// `a` comes before `b`.
pub open spec fn addr_before(a: SocketAddr, b: SocketAddr) -> bool {
    let (a0, a1, a2, a3) = addr_rank(a);
    let (b0, b1, b2, b3) = addr_rank(b);
    a0 < b0 || (a0 == b0 && (a1 < b1 || (a1 == b1 && (a2 < b2 || (a2 == b2 && a3 < b3)))))
}

/// `a` comes before `b`: by the local address, and by the remote one where that is equal.
pub open spec fn tuple_before(a: Tuple, b: Tuple) -> bool {
    addr_before(a.0, b.0) || (a.0 == b.0 && addr_before(a.1, b.1))
}

/// The connections stand in order, none twice.
pub open spec fn in_order(s: Seq<Tuple>) -> bool {
    forall|i: int, j: int| 0 <= i < j < s.len() ==> tuple_before(#[trigger] s[i], #[trigger] s[j])
}

fn rank_of(a: &SocketAddr) -> (r: (u64, u64, u64, u64))
    ensures
        (r.0 as int, r.1 as int, r.2 as int, r.3 as int) == addr_rank(*a),
{
    match a.ip {
        IpAddr::V4(ip) => (0, 0, ip.bits as u64, a.port as u64),
        IpAddr::V6(ip) => (1, ip.high, ip.low, a.port as u64),
    }
}

fn is_before(a: &SocketAddr, b: &SocketAddr) -> (r: bool)
    ensures
        r == addr_before(*a, *b),
{
    let (a0, a1, a2, a3) = rank_of(a);
    let (b0, b1, b2, b3) = rank_of(b);
    a0 < b0 || (a0 == b0 && (a1 < b1 || (a1 == b1 && (a2 < b2 || (a2 == b2 && a3 < b3)))))
}

fn tuple_is_before(a: &Tuple, b: &Tuple) -> (r: bool)
    ensures
        r == tuple_before(*a, *b),
{
    is_before(&a.0, &b.0) || (a.0 == b.0 && is_before(&a.1, &b.1))
}

/// The rules for the connections, in order.
pub open spec fn rules_text(s: Seq<Tuple>) -> Seq<char>
    decreases s.len(),
{
    if s.len() == 0 {
        Seq::empty()
    } else {
        rules_text(s.drop_last()) + if net::same_family(s.last().0, s.last().1) {
            rule_text(s.last().0, s.last().1)
        } else {
            Seq::empty()
        }
    }
}

/// Two lists in order with the same connections are one list.
pub proof fn order_is_unique(s: Seq<Tuple>, t: Seq<Tuple>)
    requires
        in_order(s),
        in_order(t),
        s.to_set() == t.to_set(),
    ensures
        s == t,
    decreases s.len(),
{
    if s.len() == 0 {
        if t.len() > 0 {
            assert(t.to_set().contains(t[0]));
        }
        assert(s =~= t);
    } else {
        assert(s.to_set().contains(s.last()));
        let k = choose|k: int| 0 <= k < t.len() && t[k] == s.last();
        assert(t.to_set().contains(t.last()));
        let m = choose|m: int| 0 <= m < s.len() && s[m] == t.last();
        if k < t.len() - 1 {
            assert(tuple_before(t[k], t[t.len() - 1]));
        }
        if m < s.len() - 1 {
            assert(tuple_before(s[m], s[s.len() - 1]));
        }
        assert(s.last() == t.last());
        let a = s.drop_last();
        let b = t.drop_last();
        assert forall|x: Tuple| a.to_set().contains(x) == b.to_set().contains(x) by {
            if a.to_set().contains(x) {
                let i = choose|i: int| 0 <= i < a.len() && a[i] == x;
                assert(s[i] == x && tuple_before(s[i], s[s.len() - 1]));
                assert(s.to_set().contains(x));
                assert(t.to_set().contains(x));
                let j = choose|j: int| 0 <= j < t.len() && t[j] == x;
                assert(b[j] == x);
            }
            if b.to_set().contains(x) {
                let i = choose|i: int| 0 <= i < b.len() && b[i] == x;
                assert(t[i] == x && tuple_before(t[i], t[t.len() - 1]));
                assert(t.to_set().contains(x));
                assert(s.to_set().contains(x));
                let j = choose|j: int| 0 <= j < s.len() && s[j] == x;
                assert(a[j] == x);
            }
        }
        assert(a.to_set() =~= b.to_set());
        order_is_unique(a, b);
        assert(s =~= a.push(s.last()));
        assert(t =~= b.push(t.last()));
    }
}

/// What is suppressed, and the reference that keeps pf enabled.
pub struct PfState {
    tuples: Vec<Tuple>,
    token: Option<String>,
}

/// What making a guard asks for next.
#[derive(Debug, Clone, PartialEq, Eq)]
pub enum PfStep {
    /// Nothing: the addresses are not of one family, and the guard is inactive.
    Inactive,
    /// Enable pf; report with `on_enabled`.
    Enable,
    /// Load these rules; report with `on_loaded`.
    Load(String),
}

impl PfState {
    /// The connections, in order.
    pub closed spec fn list(self) -> Seq<Tuple> {
        self.tuples@
    }

    /// The connections that are suppressed.
    pub open spec fn live(self) -> Set<Tuple> {
        self.list().to_set()
    }

    /// The reference that keeps pf enabled.
    pub closed spec fn reference(self) -> Option<Seq<char>> {
        match self.token {
            Some(t) => Some(t@),
            None => None,
        }
    }

    /// The connections are in order, and pf is held only while there is something to
    /// suppress.
    pub open spec fn well_formed(self) -> bool {
        &&& in_order(self.list())
        &&& self.reference() is Some ==> self.list().len() > 0
    }

    /// Nothing is suppressed.
    pub fn new() -> (r: Self)
        ensures
            r.well_formed(),
            r.list() == Seq::<Tuple>::empty(),
            r.reference() is None,
    {
        PfState { tuples: Vec::new(), token: None }
    }

    /// The rules of the anchor.
    pub fn rules(&self) -> (r: String)
        ensures
            r@ == rules_text(self.list()),
    {
        let mut out = String::new();
        let mut i: usize = 0;
        assert(self.tuples@.take(0) =~= Seq::empty());
        while i < self.tuples.len()
            invariant
                i <= self.tuples@.len(),
                out@ == rules_text(self.tuples@.take(i as int)),
            decreases self.tuples@.len() - i,
        {
            let t = self.tuples[i];
            let ghost part = self.tuples@.take(i + 1);
            assert(part.drop_last() =~= self.tuples@.take(i as int));
            assert(part.last() == t);
            if let Some(rule) = rule_for(&t.0, &t.1) {
                out.append(rule.as_str());
            }
            assert(out@ =~= rules_text(part));
            i += 1;
        }
        assert(self.tuples@.take(i as int) =~= self.tuples@);
        out
    }

    fn insert(&mut self, tuple: Tuple)
        requires
            in_order(old(self).list()),
        ensures
            in_order(final(self).list()),
            final(self).list().len() > 0,
            final(self).live() == old(self).live().insert(tuple),
            final(self).reference() == old(self).reference(),
    {
        let mut i: usize = 0;
        while i < self.tuples.len() && tuple_is_before(&self.tuples[i], &tuple)
            invariant
                i <= self.tuples@.len(),
                forall|k: int| 0 <= k < i ==> tuple_before(#[trigger] self.tuples@[k], tuple),
            decreases self.tuples@.len() - i,
        {
            i += 1;
        }
        if i < self.tuples.len() && self.tuples[i].0 == tuple.0 && self.tuples[i].1 == tuple.1 {
            assert(self.tuples@[i as int] == tuple);
            assert(self.live() =~= old(self).live().insert(tuple));
            return;
        }
        let ghost before = self.tuples@;
        assert forall|k: int| i <= k < before.len() implies tuple_before(
            tuple,
            #[trigger] before[k],
        ) by {
            assert(before[i as int] != tuple);
            lemma_total(before[i as int], tuple);
            if k > i {
                assert(tuple_before(before[i as int], before[k]));
            }
        }
        self.tuples.insert(i, tuple);
        let ghost after = self.tuples@;
        assert(after =~= before.insert(i as int, tuple));
        assert(after.to_set() =~= before.to_set().insert(tuple)) by {
            assert forall|x: Tuple| after.to_set().contains(x) == before.to_set().insert(
                tuple,
            ).contains(x) by {
                if after.to_set().contains(x) {
                    let k = choose|k: int| 0 <= k < after.len() && after[k] == x;
                    if k < i {
                        assert(before[k] == x);
                    } else if k > i {
                        assert(before[k - 1] == x);
                    }
                }
                if before.to_set().contains(x) {
                    let k = choose|k: int| 0 <= k < before.len() && before[k] == x;
                    if k < i {
                        assert(after[k] == x);
                    } else {
                        assert(after[k + 1] == x);
                    }
                }
                assert(after[i as int] == tuple);
            }
        }
    }

    fn remove(&mut self, tuple: Tuple)
        requires
            in_order(old(self).list()),
        ensures
            in_order(final(self).list()),
            final(self).live() == old(self).live().remove(tuple),
            final(self).reference() == old(self).reference(),
    {
        let ghost before = self.tuples@;
        let mut i: usize = 0;
        while i < self.tuples.len()
            invariant
                i <= self.tuples@.len(),
                self.tuples@ == before,
                forall|k: int| 0 <= k < i ==> #[trigger] before[k] != tuple,
                in_order(before),
                old(self).list() == before,
                self.reference() == old(self).reference(),
            decreases self.tuples@.len() - i,
        {
            if self.tuples[i].0 == tuple.0 && self.tuples[i].1 == tuple.1 {
                assert(before[i as int] == tuple);
                let _ = self.tuples.remove(i);
                let ghost after = self.tuples@;
                assert(after =~= before.remove(i as int));
                assert forall|x: Tuple| after.to_set().contains(x) == before.to_set().remove(
                    tuple,
                ).contains(x) by {
                    if after.to_set().contains(x) {
                        let k = choose|k: int| 0 <= k < after.len() && after[k] == x;
                        if k < i {
                            assert(before[k] == x);
                        } else {
                            assert(before[k + 1] == x);
                            assert(tuple_before(before[i as int], before[k + 1]));
                        }
                    }
                    if before.to_set().remove(tuple).contains(x) {
                        let k = choose|k: int| 0 <= k < before.len() && before[k] == x;
                        if k < i {
                            assert(after[k] == x);
                        } else {
                            assert(after[k - 1] == x);
                        }
                    }
                }
                assert(after.to_set() =~= before.to_set().remove(tuple));
                return;
            }
            i += 1;
        }
        assert(self.live() =~= old(self).live().remove(tuple));
    }

    /// Hands the reference out once nothing is suppressed any more.
    fn release(&mut self) -> (r: Option<String>)
        requires
            in_order(old(self).list()),
        ensures
            final(self).well_formed(),
            final(self).list() == old(self).list(),
            if old(self).list().len() == 0 {
                &&& final(self).reference() is None
                &&& r is Some == old(self).reference() is Some
                &&& r matches Some(t) ==> t@ == old(self).reference()->0
            } else {
                r is None && final(self).reference() == old(self).reference()
            },
    {
        if self.tuples.is_empty() {
            self.token.take()
        } else {
            None
        }
    }

    /// Begins to suppress a connection. Its rule is part of the rules to load.
    pub fn begin(&mut self, local: SocketAddr, remote: SocketAddr) -> (r: PfStep)
        requires
            old(self).well_formed(),
        ensures
            final(self).well_formed(),
            final(self).reference() == old(self).reference(),
            if !net::same_family(local, remote) {
                r is Inactive && final(self).list() == old(self).list()
            } else if old(self).reference() is None {
                r is Enable && final(self).list() == old(self).list()
            } else {
                &&& r matches PfStep::Load(rules) && rules@ == rules_text(final(self).list())
                &&& final(self).live() == old(self).live().insert((local, remote))
            },
    {
        if rule_for(&local, &remote).is_none() {
            return PfStep::Inactive;
        }
        if self.token.is_none() {
            return PfStep::Enable;
        }
        self.insert((local, remote));
        PfStep::Load(self.rules())
    }

    /// pf was enabled under a reference, or could not be. Gives the rules to load.
    pub fn on_enabled(&mut self, token: Option<String>, local: SocketAddr, remote: SocketAddr) -> (r:
        String)
        requires
            old(self).well_formed(),
        ensures
            final(self).well_formed(),
            final(self).reference() == match token {
                Some(t) => Some(t@),
                None => None,
            },
            final(self).live() == old(self).live().insert((local, remote)),
            r@ == rules_text(final(self).list()),
    {
        self.token = token;
        self.insert((local, remote));
        self.rules()
    }

    /// The rules were loaded or not. Gives the guard, and the reference to release where
    /// nothing is left to suppress.
    pub fn on_loaded(&mut self, local: SocketAddr, remote: SocketAddr, ok: bool) -> (r: (
        Guard,
        Option<String>,
    ))
        requires
            old(self).well_formed(),
        ensures
            final(self).well_formed(),
            r.0 == (Guard { local_addr: local, remote_addr: remote, active: ok }),
            if ok {
                &&& final(self).list() == old(self).list()
                &&& final(self).reference() == old(self).reference()
                &&& r.1 is None
            } else {
                &&& final(self).live() == old(self).live().remove((local, remote))
                &&& if final(self).list().len() == 0 {
                    &&& final(self).reference() is None
                    &&& r.1 is Some == old(self).reference() is Some
                    &&& r.1 matches Some(t) ==> t@ == old(self).reference()->0
                } else {
                    r.1 is None && final(self).reference() == old(self).reference()
                }
            },
    {
        let guard = Guard { local_addr: local, remote_addr: remote, active: ok };
        if ok {
            return (guard, None);
        }
        self.remove((local, remote));
        let token = self.release();
        (guard, token)
    }

    /// A guard is dropped: the rules to load and the reference to release afterwards, or
    /// nothing if the guard was not active.
    pub fn withdraw(&mut self, guard: &Guard) -> (r: Option<(String, Option<String>)>)
        requires
            old(self).well_formed(),
        ensures
            final(self).well_formed(),
            r is Some == guard.active,
            r is None ==> final(self).list() == old(self).list() && final(self).reference() == old(
                self,
            ).reference(),
            r matches Some((rules, token)) ==> {
                &&& final(self).live() == old(self).live().remove(
                    (guard.local_addr, guard.remote_addr),
                )
                &&& rules@ == rules_text(final(self).list())
                &&& if final(self).list().len() == 0 {
                    &&& final(self).reference() is None
                    &&& token is Some == old(self).reference() is Some
                    &&& token matches Some(t) ==> t@ == old(self).reference()->0
                } else {
                    token is None && final(self).reference() == old(self).reference()
                }
            },
    {
        if !guard.active {
            return None;
        }
        self.remove((guard.local_addr, guard.remote_addr));
        let rules = self.rules();
        let token = self.release();
        Some((rules, token))
    }

    /// Forgets everything. Gives the reference to release, if there is one.
    pub fn cleanup_all(&mut self) -> (r: Option<String>)
        ensures
            final(self).well_formed(),
            final(self).list().len() == 0,
            final(self).reference() is None,
            r is Some == old(self).reference() is Some,
            r matches Some(t) ==> t@ == old(self).reference()->0,
    {
        self.tuples = Vec::new();
        self.token.take()
    }
}

proof fn lemma_total(a: Tuple, b: Tuple)
    ensures
        tuple_before(a, b) || tuple_before(b, a) || a == b,
{
}

/// A connection, and whether it is suppressed.
#[derive(Debug, Clone, Copy, PartialEq, Eq, Structural)]
pub struct Guard {
    pub local_addr: SocketAddr,
    pub remote_addr: SocketAddr,
    pub active: bool,
}

// --- The reference ---

/// What the first line that names the reference names.
pub open spec fn token_from(lines: Seq<Seq<char>>) -> Option<Seq<char>>
    decreases lines.len(),
{
    if lines.len() == 0 {
        None
    } else if text::has_prefix(lines[0], "Token : "@) {
        Some(text::trimmed(lines[0].skip("Token : "@.len() as int)))
    } else {
        token_from(lines.drop_first())
    }
}

/// The reference that pf printed when it was enabled, in the first line that names one.
pub fn token_in(output: &str) -> (r: Option<String>)
    ensures
        ({
            let all = text::lines_of(output@);
            &&& r is Some == token_from(all) is Some
            &&& r matches Some(t) ==> t@ == token_from(all)->0
        }),
{
    let lines = lines(output);
    let ghost all = text::texts(lines@);
    let mut i: usize = 0;
    assert(all.skip(0) =~= all);
    while i < lines.len()
        invariant
            i <= lines@.len(),
            all == text::texts(lines@),
            all == text::lines_of(output@),
            token_from(all) == token_from(all.skip(i as int)),
        decreases lines@.len() - i,
    {
        let line: &String = &lines[i];
        assert(all.skip(i as int)[0] == line@);
        if let Some(rest) = strip_prefix(line.as_str(), "Token : ") {
            assert(rest@ =~= line@.skip("Token : "@.len() as int));
            return Some(trim(rest.as_str()));
        }
        assert(all.skip(i as int).drop_first() =~= all.skip(i + 1));
        i += 1;
    }
    assert(all.skip(i as int).len() == 0);
    None
}

} // verus!

//! The connections that a stack knows, by the addresses of their two ends.

use crate::net::{IpAddr, SocketAddr};
use vstd::prelude::*;

verus! {

/// The two ends of a connection.
#[derive(Debug, Clone, Copy, PartialEq, Eq, Structural, Hash)]
pub struct AddrTuple {
    pub local_addr: SocketAddr,
    pub remote_addr: SocketAddr,
}

impl AddrTuple {
    pub fn new(local_addr: SocketAddr, remote_addr: SocketAddr) -> (r: Self)
        ensures
            r.local_addr == local_addr,
            r.remote_addr == remote_addr,
    {
        AddrTuple { local_addr, remote_addr }
    }
}

/// A table from connections to the channels that take their packets.
pub struct TupleTable {
    entries: Vec<(AddrTuple, u64)>,
}

impl View for TupleTable {
    type V = Map<AddrTuple, u64>;

    closed spec fn view(&self) -> Map<AddrTuple, u64> {
        Map::new(
            |t: AddrTuple| exists|i: int| 0 <= i < self.entries@.len() && self.entries@[i].0 == t,
            |t: AddrTuple|
                self.entries@[choose|i: int|
                    0 <= i < self.entries@.len() && self.entries@[i].0 == t].1,
        )
    }
}

impl TupleTable {
    /// No connection occurs twice.
    pub closed spec fn well_formed(self) -> bool {
        forall|i: int, j: int|
            0 <= i < self.entries@.len() && 0 <= j < self.entries@.len() && (
            #[trigger] self.entries@[i]).0 == (#[trigger] self.entries@[j]).0 ==> i == j
    }

    proof fn lemma_entry(self, i: int)
        requires
            self.well_formed(),
            0 <= i < self.entries@.len(),
        ensures
            self@.contains_key(self.entries@[i].0),
            self@[self.entries@[i].0] == self.entries@[i].1,
    {
        let t = self.entries@[i].0;
        let j = choose|j: int| 0 <= j < self.entries@.len() && self.entries@[j].0 == t;
        assert(self.entries@[j].0 == self.entries@[i].0);
    }

    /// An empty table.
    pub fn new() -> (r: Self)
        ensures
            r.well_formed(),
            r@ == Map::<AddrTuple, u64>::empty(),
    {
        let r = TupleTable { entries: Vec::new() };
        assert(r@ =~= Map::<AddrTuple, u64>::empty());
        r
    }

    fn find(&self, tuple: AddrTuple) -> (r: Option<usize>)
        requires
            self.well_formed(),
        ensures
            match r {
                Some(i) => i < self.entries@.len() && self.entries@[i as int].0 == tuple
                    && self@.contains_key(tuple) && self@[tuple] == self.entries@[i as int].1,
                None => !self@.contains_key(tuple),
            },
    {
        let mut i: usize = 0;
        while i < self.entries.len()
            invariant
                self.well_formed(),
                i <= self.entries@.len(),
                forall|k: int| 0 <= k < i ==> (#[trigger] self.entries@[k]).0 != tuple,
            decreases self.entries@.len() - i,
        {
            if self.entries[i].0 == tuple {
                proof {
                    self.lemma_entry(i as int);
                }
                return Some(i);
            }
            i += 1;
        }
        None
    }

    /// The channel of a connection.
    pub fn get(&self, tuple: AddrTuple) -> (r: Option<u64>)
        requires
            self.well_formed(),
        ensures
            r == if self@.contains_key(tuple) {
                Some(self@[tuple])
            } else {
                None
            },
    {
        match self.find(tuple) {
            Some(i) => Some(self.entries[i].1),
            None => None,
        }
    }

    /// Enters a connection, in place of an older entry for it. Says whether it is new.
    pub fn insert(&mut self, tuple: AddrTuple, channel: u64) -> (r: bool)
        requires
            old(self).well_formed(),
        ensures
            final(self).well_formed(),
            final(self)@ == old(self)@.insert(tuple, channel),
            r == !old(self)@.contains_key(tuple),
    {
        let found = self.find(tuple);
        let fresh: bool = found.is_none();
        if let Some(i) = found {
            self.entries[i] = (tuple, channel);
        } else {
            self.entries.push((tuple, channel));
        }
        proof {
            let old_e = old(self).entries@;
            let new_e = self.entries@;
            assert(self.well_formed()) by {
                assert forall|i: int, j: int|
                    0 <= i < new_e.len() && 0 <= j < new_e.len() && (#[trigger] new_e[i]).0 == (
                    #[trigger] new_e[j]).0 implies i == j by {
                    if i < old_e.len() {
                        assert(old_e[i].0 == new_e[i].0);
                        old(self).lemma_entry(i);
                    }
                    if j < old_e.len() {
                        assert(old_e[j].0 == new_e[j].0);
                        old(self).lemma_entry(j);
                    }
                }
            }
            assert forall|t: AddrTuple| #[trigger] self@.contains_key(t) == old(self)@.insert(
                tuple,
                channel,
            ).contains_key(t) by {
                if self@.contains_key(t) {
                    let k = choose|k: int| 0 <= k < new_e.len() && new_e[k].0 == t;
                    if k < old_e.len() && t != tuple {
                        assert(old_e[k].0 == t);
                        old(self).lemma_entry(k);
                    }
                }
                if old(self)@.contains_key(t) {
                    let k = choose|k: int| 0 <= k < old_e.len() && old_e[k].0 == t;
                    assert(new_e[k].0 == t);
                    self.lemma_entry(k);
                }
                if t == tuple {
                    if let Some(i) = found {
                        assert(new_e[i as int].0 == tuple);
                        self.lemma_entry(i as int);
                    } else {
                        assert(new_e[old_e.len() as int].0 == tuple);
                        self.lemma_entry(old_e.len() as int);
                    }
                }
            }
            assert forall|t: AddrTuple| #[trigger] self@.contains_key(t) implies self@[t] == old(
                self,
            )@.insert(tuple, channel)[t] by {
                let k = choose|k: int| 0 <= k < new_e.len() && new_e[k].0 == t;
                self.lemma_entry(k);
                if t != tuple {
                    assert(old_e[k] == new_e[k]);
                    old(self).lemma_entry(k);
                }
            }
            assert(self@ =~= old(self)@.insert(tuple, channel));
        }
        fresh
    }

    /// Removes a connection. Says whether it was there.
    pub fn remove(&mut self, tuple: AddrTuple) -> (r: bool)
        requires
            old(self).well_formed(),
        ensures
            final(self).well_formed(),
            final(self)@ == old(self)@.remove(tuple),
            r == old(self)@.contains_key(tuple),
    {
        match self.find(tuple) {
            None => {
                assert(self@ =~= old(self)@.remove(tuple));
                false
            },
            Some(at) => {
                self.entries.remove(at);
                proof {
                    let old_e = old(self).entries@;
                    let new_e = self.entries@;
                    assert(new_e =~= old_e.remove(at as int));
                    assert forall|k: int| 0 <= k < new_e.len() implies #[trigger] new_e[k] == (if k
                        < at {
                        old_e[k]
                    } else {
                        old_e[k + 1]
                    }) by {}
                    assert(self.well_formed()) by {
                        assert forall|i: int, j: int|
                            0 <= i < new_e.len() && 0 <= j < new_e.len() && (#[trigger] new_e[i]).0
                                == (#[trigger] new_e[j]).0 implies i == j by {
                            let a = if i < at { i } else { i + 1 };
                            let b = if j < at { j } else { j + 1 };
                            assert(old_e[a].0 == old_e[b].0);
                        }
                    }
                    assert forall|t: AddrTuple| #[trigger] self@.contains_key(t) == old(
                        self,
                    )@.remove(tuple).contains_key(t) by {
                        if self@.contains_key(t) {
                            let k = choose|k: int| 0 <= k < new_e.len() && new_e[k].0 == t;
                            let a = if k < at { k } else { k + 1 };
                            assert(old_e[a].0 == t);
                            old(self).lemma_entry(a);
                            assert(old_e[at as int].0 == tuple);
                        }
                        if old(self)@.contains_key(t) && t != tuple {
                            let a = choose|a: int| 0 <= a < old_e.len() && old_e[a].0 == t;
                            let k = if a < at { a } else { a - 1 };
                            assert(new_e[k].0 == t);
                            self.lemma_entry(k);
                        }
                    }
                    assert forall|t: AddrTuple| #[trigger] self@.contains_key(t) implies self@[t]
                        == old(self)@.remove(tuple)[t] by {
                        let k = choose|k: int| 0 <= k < new_e.len() && new_e[k].0 == t;
                        self.lemma_entry(k);
                        let a = if k < at { k } else { k + 1 };
                        assert(old_e[a] == new_e[k]);
                        old(self).lemma_entry(a);
                    }
                    assert(self@ =~= old(self)@.remove(tuple));
                }
                true
            },
        }
    }

    /// Removes every connection.
    pub fn clear(&mut self)
        ensures
            final(self).well_formed(),
            final(self)@ == Map::<AddrTuple, u64>::empty(),
    {
        self.entries = Vec::new();
        assert(self@ =~= Map::<AddrTuple, u64>::empty());
    }
}

} // verus!

//! A table with at most one entry for each peer.

use crate::net::PeerId;
use vstd::prelude::*;

verus! {

/// Values by peer. Its view is the mathematical map.
pub struct PeerMap<V> {
    entries: Vec<(PeerId, V)>,
}

/// Whether the entry at `i` is that of `peer`.
spec fn entry_at<V>(entries: Seq<(PeerId, V)>, peer: PeerId, i: int) -> bool {
    0 <= i < entries.len() && entries[i].0 == peer
}

spec fn entry_index<V>(entries: Seq<(PeerId, V)>, peer: PeerId) -> int {
    choose|i: int| entry_at(entries, peer, i)
}

/// No peer has two entries.
spec fn distinct_peers<V>(entries: Seq<(PeerId, V)>) -> bool {
    forall|i: int, j: int|
        0 <= i < entries.len() && 0 <= j < entries.len() && entries[i].0 == entries[j].0 ==> i == j
}

spec fn entries_map<V>(entries: Seq<(PeerId, V)>) -> Map<PeerId, V> {
    Map::new(
        |peer: PeerId| exists|i: int| entry_at(entries, peer, i),
        |peer: PeerId| entries[entry_index(entries, peer)].1,
    )
}

proof fn lemma_entry<V>(entries: Seq<(PeerId, V)>, i: int)
    requires
        distinct_peers(entries),
        0 <= i < entries.len(),
    ensures
        entries_map(entries).contains_key(entries[i].0),
        entries_map(entries)[entries[i].0] == entries[i].1,
{
    assert(entry_at(entries, entries[i].0, i));
}

impl<V> View for PeerMap<V> {
    type V = Map<PeerId, V>;

    closed spec fn view(&self) -> Map<PeerId, V> {
        entries_map(self.entries@)
    }
}

impl<V> PeerMap<V> {
    /// No peer has two entries.
    pub closed spec fn wf(&self) -> bool {
        distinct_peers(self.entries@)
    }

    /// The empty table.
    pub fn new() -> (map: PeerMap<V>)
        ensures
            map.wf(),
            map@ == Map::<PeerId, V>::empty(),
    {
        let map = PeerMap { entries: Vec::new() };
        assert(map@ =~= Map::<PeerId, V>::empty());
        map
    }

    fn position(&self, peer: &PeerId) -> (found: Option<usize>)
        requires
            self.wf(),
        ensures
            match found {
                Some(i) => entry_at(self.entries@, *peer, i as int) && self@.contains_key(*peer)
                    && self@[*peer] == self.entries@[i as int].1,
                None => !self@.contains_key(*peer),
            },
    {
        let mut i: usize = 0;
        while i < self.entries.len()
            invariant
                self.wf(),
                i <= self.entries@.len(),
                forall|j: int| 0 <= j < i ==> self.entries@[j].0 != *peer,
            decreases self.entries@.len() - i,
        {
            if self.entries[i].0 == *peer {
                proof {
                    lemma_entry(self.entries@, i as int);
                }
                return Some(i);
            }
            i += 1;
        }
        assert(!self@.contains_key(*peer)) by {
            if self@.contains_key(*peer) {
                let j = entry_index(self.entries@, *peer);
                assert(entry_at(self.entries@, *peer, j));
            }
        }
        None
    }

    /// Whether there is an entry for `peer`.
    pub fn contains_key(&self, peer: &PeerId) -> (found: bool)
        requires
            self.wf(),
        ensures
            found == self@.contains_key(*peer),
    {
        self.position(peer).is_some()
    }

    /// The entry for `peer`.
    pub fn get(&self, peer: &PeerId) -> (value: Option<&V>)
        requires
            self.wf(),
        ensures
            match value {
                Some(v) => self@.contains_key(*peer) && *v == self@[*peer],
                None => !self@.contains_key(*peer),
            },
    {
        match self.position(peer) {
            Some(i) => Some(&self.entries[i].1),
            None => None,
        }
    }

    /// The entry for `peer`, to be changed.
    pub fn get_mut(&mut self, peer: &PeerId) -> (value: Option<&mut V>)
        requires
            old(self).wf(),
        ensures
            final(self).wf(),
            match value {
                Some(v) => {
                    &&& old(self)@.contains_key(*peer)
                    &&& *v == old(self)@[*peer]
                    &&& final(self)@ == old(self)@.insert(*peer, *final(v))
                },
                None => {
                    &&& !old(self)@.contains_key(*peer)
                    &&& final(self)@ == old(self)@
                },
            },
    {
        match self.position(peer) {
            Some(i) => {
                let ghost before = self.entries@;
                let entry = &mut self.entries[i];
                let value = &mut entry.1;
                proof {
                    lemma_set_entry(before, i as int, *final(value));
                }
                Some(value)
            },
            None => None,
        }
    }

    /// Makes `value` the entry for `peer`. The entry that it replaces is handed back.
    pub fn insert(&mut self, peer: PeerId, value: V) -> (replaced: Option<V>)
        requires
            old(self).wf(),
        ensures
            final(self).wf(),
            final(self)@ == old(self)@.insert(peer, value),
            match replaced {
                Some(v) => old(self)@.contains_key(peer) && v == old(self)@[peer],
                None => !old(self)@.contains_key(peer),
            },
    {
        let replaced = self.remove(&peer);
        let ghost before = self.entries@;
        self.entries.push((peer, value));
        proof {
            lemma_push_entry(before, peer, value);
        }
        assert(self@ =~= old(self)@.insert(peer, value));
        replaced
    }

    /// Takes the entry for `peer` out.
    pub fn remove(&mut self, peer: &PeerId) -> (removed: Option<V>)
        requires
            old(self).wf(),
        ensures
            final(self).wf(),
            final(self)@ == old(self)@.remove(*peer),
            match removed {
                Some(v) => old(self)@.contains_key(*peer) && v == old(self)@[*peer],
                None => !old(self)@.contains_key(*peer),
            },
    {
        match self.position(peer) {
            Some(i) => {
                let ghost before = self.entries@;
                let (_, value) = self.entries.remove(i);
                proof {
                    lemma_remove_entry(before, i as int);
                }
                Some(value)
            },
            None => {
                assert(self@ =~= self@.remove(*peer));
                None
            },
        }
    }
}

proof fn lemma_set_entry<V>(entries: Seq<(PeerId, V)>, i: int, value: V)
    requires
        distinct_peers(entries),
        0 <= i < entries.len(),
    ensures
        distinct_peers(entries.update(i, (entries[i].0, value))),
        entries_map(entries.update(i, (entries[i].0, value))) == entries_map(entries).insert(
            entries[i].0,
            value,
        ),
{
    let after = entries.update(i, (entries[i].0, value));
    assert(distinct_peers(after)) by {
        assert forall|a: int, b: int|
            0 <= a < after.len() && 0 <= b < after.len() && after[a].0 == after[b].0 implies a
            == b by {
            assert(after[a].0 == entries[a].0 && after[b].0 == entries[b].0);
        }
    }
    assert forall|p: PeerId|
        entries_map(after).contains_key(p) == #[trigger] entries_map(entries).insert(
            entries[i].0,
            value,
        ).contains_key(p) by {
        if entries_map(after).contains_key(p) {
            let k = entry_index(after, p);
            assert(entry_at(after, p, k));
            assert(entry_at(entries, p, k));
        }
        if entries_map(entries).contains_key(p) {
            let k = entry_index(entries, p);
            assert(entry_at(entries, p, k));
            assert(entry_at(after, p, k));
        }
        if p == entries[i].0 {
            assert(entry_at(after, p, i));
        }
    }
    assert forall|p: PeerId| entries_map(after).contains_key(p) implies #[trigger] entries_map(
        after,
    )[p] == entries_map(entries).insert(entries[i].0, value)[p] by {
        let k = entry_index(after, p);
        assert(entry_at(after, p, k));
        lemma_entry(after, k);
        lemma_entry(entries, k);
    }
    assert(entries_map(after) =~= entries_map(entries).insert(entries[i].0, value));
}

proof fn lemma_push_entry<V>(entries: Seq<(PeerId, V)>, peer: PeerId, value: V)
    requires
        distinct_peers(entries),
        !entries_map(entries).contains_key(peer),
    ensures
        distinct_peers(entries.push((peer, value))),
        entries_map(entries.push((peer, value))) == entries_map(entries).insert(peer, value),
{
    let after = entries.push((peer, value));
    assert(distinct_peers(after)) by {
        assert forall|a: int, b: int|
            0 <= a < after.len() && 0 <= b < after.len() && after[a].0 == after[b].0 implies a
            == b by {
            if a < entries.len() {
                lemma_entry(entries, a);
            }
            if b < entries.len() {
                lemma_entry(entries, b);
            }
        }
    }
    assert forall|p: PeerId|
        entries_map(after).contains_key(p) == #[trigger] entries_map(entries).insert(
            peer,
            value,
        ).contains_key(p) by {
        if entries_map(after).contains_key(p) {
            let k = entry_index(after, p);
            assert(entry_at(after, p, k));
            if k < entries.len() {
                assert(entry_at(entries, p, k));
            }
        }
        if entries_map(entries).contains_key(p) {
            let k = entry_index(entries, p);
            assert(entry_at(entries, p, k));
            assert(entry_at(after, p, k));
        }
        assert(entry_at(after, peer, entries.len() as int));
    }
    assert forall|p: PeerId| entries_map(after).contains_key(p) implies #[trigger] entries_map(
        after,
    )[p] == entries_map(entries).insert(peer, value)[p] by {
        let k = entry_index(after, p);
        assert(entry_at(after, p, k));
        lemma_entry(after, k);
        if k < entries.len() {
            lemma_entry(entries, k);
        }
    }
    assert(entries_map(after) =~= entries_map(entries).insert(peer, value));
}

proof fn lemma_remove_entry<V>(entries: Seq<(PeerId, V)>, i: int)
    requires
        distinct_peers(entries),
        0 <= i < entries.len(),
    ensures
        distinct_peers(entries.remove(i)),
        entries_map(entries.remove(i)) == entries_map(entries).remove(entries[i].0),
{
    let after = entries.remove(i);
    assert forall|k: int| 0 <= k < after.len() implies #[trigger] after[k] == entries[if k < i {
        k
    } else {
        k + 1
    }] by {}
    assert(distinct_peers(after));
    assert forall|p: PeerId|
        entries_map(after).contains_key(p) == #[trigger] entries_map(entries).remove(
            entries[i].0,
        ).contains_key(p) by {
        if entries_map(after).contains_key(p) {
            let k = entry_index(after, p);
            assert(entry_at(after, p, k));
            let m = if k < i { k } else { k + 1 };
            assert(entry_at(entries, p, m));
        }
        if entries_map(entries).contains_key(p) && p != entries[i].0 {
            let k = entry_index(entries, p);
            assert(entry_at(entries, p, k));
            let m = if k < i { k } else { k - 1 };
            assert(entry_at(after, p, m));
        }
    }
    assert forall|p: PeerId| entries_map(after).contains_key(p) implies #[trigger] entries_map(
        after,
    )[p] == entries_map(entries).remove(entries[i].0)[p] by {
        let k = entry_index(after, p);
        assert(entry_at(after, p, k));
        lemma_entry(after, k);
        lemma_entry(entries, if k < i { k } else { k + 1 });
    }
    assert(entries_map(after) =~= entries_map(entries).remove(entries[i].0));
}

} // verus!

//! A map from block hashes to heights.

use crate::bytes::{hash_eq, Hash32};
use vstd::prelude::*;

verus! {

/// A map from hashes to numbers, held as entries with distinct hashes.
pub struct HashIndex {
    entries: Vec<(Hash32, u64)>,
}

/// A position at which `k` is the key.
pub open spec fn index_position(entries: Seq<(Hash32, u64)>, k: Hash32) -> int {
    choose|i: int| 0 <= i < entries.len() && (#[trigger] entries[i]).0 == k
}

/// The map that a sequence of entries with distinct keys stands for.
pub open spec fn index_map(entries: Seq<(Hash32, u64)>) -> Map<Hash32, u64> {
    Map::new(
        |k: Hash32| exists|i: int| 0 <= i < entries.len() && (#[trigger] entries[i]).0 == k,
        |k: Hash32| entries[index_position(entries, k)].1,
    )
}

/// No hash occurs twice.
pub open spec fn distinct(entries: Seq<(Hash32, u64)>) -> bool {
    forall|i: int, j: int|
        0 <= i < j < entries.len() ==> (#[trigger] entries[i]).0 != (#[trigger] entries[j]).0
}

pub proof fn lemma_index_map(entries: Seq<(Hash32, u64)>, i: int)
    requires
        distinct(entries),
        0 <= i < entries.len(),
    ensures
        index_map(entries).contains_key(entries[i].0),
        index_map(entries)[entries[i].0] == entries[i].1,
{
    let k = entries[i].0;
    let p = index_position(entries, k);
    assert(entries[i].0 == k);
    assert(0 <= p < entries.len() && entries[p].0 == k);
    if p < i {
        assert(entries[p].0 != entries[i].0);
    } else if i < p {
        assert(entries[i].0 != entries[p].0);
    }
}

impl View for HashIndex {
    type V = Map<Hash32, u64>;

    closed spec fn view(&self) -> Map<Hash32, u64> {
        index_map(self.entries@)
    }
}

impl HashIndex {
    /// No hash occurs twice.
    pub closed spec fn wf(&self) -> bool {
        distinct(self.entries@)
    }

    /// The entries, in the order in which they are held.
    pub closed spec fn list(&self) -> Seq<(Hash32, u64)> {
        self.entries@
    }

    /// What the entries say of the map.
    pub proof fn lemma_list(&self)
        requires
            self.wf(),
        ensures
            distinct(self.list()),
            self@ == index_map(self.list()),
    {
    }

    /// The entry at position `i`.
    pub fn entry(&self, i: usize) -> (r: (Hash32, u64))
        requires
            i < self.list().len(),
        ensures
            r == self.list()[i as int],
    {
        self.entries[i]
    }

    /// The number of entries.
    pub fn entry_count(&self) -> (n: usize)
        ensures
            n == self.list().len(),
    {
        self.entries.len()
    }

    pub fn new() -> (m: Self)
        ensures
            m.wf(),
            m@ == Map::<Hash32, u64>::empty(),
    {
        let m = HashIndex { entries: Vec::new() };
        assert(m@ =~= Map::<Hash32, u64>::empty());
        m
    }

    fn find(&self, key: &Hash32) -> (r: Option<usize>)
        requires
            self.wf(),
        ensures
            r is Some <==> self@.contains_key(*key),
            r is Some ==> r->0 < self.entries@.len() && self.entries@[r->0 as int].0 == *key,
    {
        let mut i: usize = self.entries.len();
        while i > 0
            invariant
                0 <= i <= self.entries@.len(),
                self.wf(),
                forall|k: int| i <= k < self.entries@.len() ==> (#[trigger] self.entries@[k]).0 != *key,
            decreases i,
        {
            i -= 1;
            if hash_eq(&self.entries[i].0, key) {
                proof {
                    lemma_index_map(self.entries@, i as int);
                }
                return Some(i);
            }
        }
        None
    }

    /// Gives `key` the value `value`, in place of any it had.
    pub fn insert(&mut self, key: Hash32, value: u64)
        requires
            old(self).wf(),
        ensures
            final(self).wf(),
            final(self)@ == old(self)@.insert(key, value),
    {
        let ghost before = self.entries@;
        let at = match self.find(&key) {
            Some(i) => {
                self.entries[i] = (key, value);
                i
            },
            None => {
                let i: usize = self.entries.len();
                self.entries.push((key, value));
                i
            },
        };
        proof {
            let after = self.entries@;
            assert(after.len() == before.len() || (after.len() == before.len() + 1 && at
                == before.len()));
            assert forall|i: int| 0 <= i < before.len() && i != at implies before[i].0 != key by {
                if before[i].0 == key {
                    lemma_index_map(before, i);
                    if i < at {
                        assert(before[i].0 != before[at as int].0);
                    } else {
                        assert(before[at as int].0 != before[i].0);
                    }
                }
            }
            assert(distinct(after));
            lemma_index_map(after, at as int);
            assert forall|x: Hash32| index_map(after).contains_key(x) <==> #[trigger] index_map(
                before,
            ).insert(key, value).contains_key(x) by {
                if index_map(after).contains_key(x) && x != key {
                    let q = index_position(after, x);
                    assert(before[q].0 == x);
                }
                if index_map(before).contains_key(x) && x != key {
                    let q = index_position(before, x);
                    assert(after[q].0 == x);
                }
            }
            assert forall|x: Hash32| #[trigger]
                index_map(after).contains_key(x) implies index_map(after)[x] == index_map(
                before,
            ).insert(key, value)[x] by {
                if x != key {
                    let q = index_position(after, x);
                    lemma_index_map(after, q);
                    lemma_index_map(before, q);
                }
            }
            assert(index_map(after) =~= index_map(before).insert(key, value));
        }
    }

    /// Takes `key` out, handing back its value.
    pub fn remove(&mut self, key: &Hash32) -> (r: Option<u64>)
        requires
            old(self).wf(),
        ensures
            final(self).wf(),
            final(self)@ == old(self)@.remove(*key),
            r is Some <==> old(self)@.contains_key(*key),
            r is Some ==> r->0 == old(self)@[*key],
    {
        let ghost before = self.entries@;
        match self.find(key) {
            Some(p) => {
                proof {
                    lemma_index_map(before, p as int);
                }
                let entry = self.entries.swap_remove(p);
                proof {
                    let after = self.entries@;
                    let last: int = before.len() - 1;
                    assert forall|i: int| 0 <= i < after.len() implies #[trigger] after[i] == (if i
                        == p {
                        before[last]
                    } else {
                        before[i]
                    }) by {}
                    assert(distinct(after));
                    assert forall|x: Hash32| index_map(after).contains_key(x) <==> #[trigger] index_map(
                        before,
                    ).remove(*key).contains_key(x) by {
                        if index_map(after).contains_key(x) {
                            let q = index_position(after, x);
                            let o = if q == p { last } else { q };
                            assert(before[o].0 == x);
                        }
                        if index_map(before).contains_key(x) && x != *key {
                            let q = index_position(before, x);
                            let o = if q == last { p as int } else { q };
                            assert(after[o].0 == x);
                        }
                    }
                    assert forall|x: Hash32| #[trigger]
                        index_map(after).contains_key(x) implies index_map(after)[x] == index_map(
                        before,
                    ).remove(*key)[x] by {
                        let q = index_position(after, x);
                        let o = if q == p { last } else { q };
                        lemma_index_map(after, q);
                        lemma_index_map(before, o);
                    }
                    assert(index_map(after) =~= index_map(before).remove(*key));
                }
                Some(entry.1)
            },
            None => {
                assert(index_map(before).remove(*key) =~= index_map(before));
                None
            },
        }
    }
}

} // verus!

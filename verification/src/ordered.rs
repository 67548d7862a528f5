//! A map ordered by its integer keys.

use vstd::prelude::*;

verus! {

/// A map from `u64` keys to values, held as entries in ascending key order.
pub struct OrderedMap<V> {
    entries: Vec<(u64, V)>,
}

/// The map that a sequence of entries with distinct keys stands for.
pub open spec fn map_of<V>(entries: Seq<(u64, V)>) -> Map<u64, V> {
    Map::new(
        |k: u64| exists|i: int| 0 <= i < entries.len() && (#[trigger] entries[i]).0 == k,
        |k: u64| entries[position_of(entries, k)].1,
    )
}

/// A position at which `k` is the key.
pub open spec fn position_of<V>(entries: Seq<(u64, V)>, k: u64) -> int {
    choose|i: int| 0 <= i < entries.len() && (#[trigger] entries[i]).0 == k
}

/// Keys strictly ascend.
pub open spec fn ascending<V>(entries: Seq<(u64, V)>) -> bool {
    forall|i: int, j: int|
        0 <= i < j < entries.len() ==> (#[trigger] entries[i]).0 < (#[trigger] entries[j]).0
}

pub proof fn lemma_map_of<V>(entries: Seq<(u64, V)>, i: int)
    requires
        ascending(entries),
        0 <= i < entries.len(),
    ensures
        map_of(entries).contains_key(entries[i].0),
        map_of(entries)[entries[i].0] == entries[i].1,
{
    let k = entries[i].0;
    let p = position_of(entries, k);
    assert(entries[i].0 == k);
    assert(0 <= p < entries.len() && entries[p].0 == k);
    if p < i {
        assert(entries[p].0 < entries[i].0);
    } else if i < p {
        assert(entries[i].0 < entries[p].0);
    }
}

proof fn lemma_map_len<V>(entries: Seq<(u64, V)>)
    requires
        ascending(entries),
    ensures
        map_of(entries).dom().finite(),
        map_of(entries).dom().len() == entries.len(),
    decreases entries.len(),
{
    if entries.len() == 0 {
        assert(map_of(entries).dom() =~= Set::empty());
    } else {
        let shorter = entries.drop_last();
        assert(ascending(shorter));
        lemma_map_len(shorter);
        let k = entries.last().0;
        assert forall|x: u64| map_of(entries).dom().contains(x) <==> #[trigger] map_of(
            shorter,
        ).dom().insert(k).contains(x) by {
            if map_of(entries).dom().contains(x) {
                let p = position_of(entries, x);
                if p < shorter.len() {
                    assert(shorter[p].0 == x);
                }
            }
            if map_of(shorter).dom().contains(x) {
                let p = position_of(shorter, x);
                assert(entries[p].0 == x);
            }
            assert(entries[entries.len() - 1].0 == k);
        }
        assert(map_of(entries).dom() =~= map_of(shorter).dom().insert(k));
        if map_of(shorter).dom().contains(k) {
            let p = position_of(shorter, k);
            assert(entries[p].0 < entries[entries.len() - 1].0);
        }
    }
}

impl<V> View for OrderedMap<V> {
    type V = Map<u64, V>;

    closed spec fn view(&self) -> Map<u64, V> {
        map_of(self.entries@)
    }
}

impl<V> OrderedMap<V> {
    /// Keys are in order and none occurs twice.
    pub closed spec fn wf(&self) -> bool {
        ascending(self.entries@)
    }

    /// The entries, in ascending key order.
    pub closed spec fn list(&self) -> Seq<(u64, V)> {
        self.entries@
    }

    /// What the entries say of the map.
    pub proof fn lemma_list(&self)
        requires
            self.wf(),
        ensures
            ascending(self.list()),
            self@ == map_of(self.list()),
    {
    }

    pub fn new() -> (m: Self)
        ensures
            m.wf(),
            m@ == Map::<u64, V>::empty(),
    {
        let m = OrderedMap { entries: Vec::new() };
        assert(m@ =~= Map::<u64, V>::empty());
        m
    }

    /// The entry at position `i` in key order.
    pub fn entry(&self, i: usize) -> (r: (u64, &V))
        requires
            i < self.list().len(),
        ensures
            r.0 == self.list()[i as int].0,
            *r.1 == self.list()[i as int].1,
    {
        let pair = &self.entries[i];
        (pair.0, &pair.1)
    }

    /// The number of entries.
    pub fn entry_count(&self) -> (n: usize)
        ensures
            n == self.list().len(),
    {
        self.entries.len()
    }

    /// The number of keys below `key`.
    fn lower_bound(&self, key: u64) -> (p: usize)
        requires
            self.wf(),
        ensures
            p <= self.entries@.len(),
            forall|i: int| 0 <= i < p ==> (#[trigger] self.entries@[i]).0 < key,
            forall|i: int| p <= i < self.entries@.len() ==> (#[trigger] self.entries@[i]).0 >= key,
    {
        let mut low: usize = 0;
        let mut high: usize = self.entries.len();
        while low < high
            invariant
                low <= high <= self.entries@.len(),
                self.wf(),
                forall|i: int| 0 <= i < low ==> (#[trigger] self.entries@[i]).0 < key,
                forall|i: int|
                    high <= i < self.entries@.len() ==> (#[trigger] self.entries@[i]).0 >= key,
            decreases high - low,
        {
            let mid: usize = low + (high - low) / 2;
            if self.entries[mid].0 < key {
                low = mid + 1;
            } else {
                high = mid;
            }
        }
        low
    }

    /// The value of `key`.
    pub fn get(&self, key: u64) -> (r: Option<&V>)
        requires
            self.wf(),
        ensures
            r is Some <==> self@.contains_key(key),
            r is Some ==> *r->0 == self@[key],
    {
        let p = self.lower_bound(key);
        if p < self.entries.len() && self.entries[p].0 == key {
            proof {
                lemma_map_of(self.entries@, p as int);
            }
            Some(&self.entries[p].1)
        } else {
            proof {
                if self@.contains_key(key) {
                    let q = position_of(self.entries@, key);
                    assert(self.entries@[q].0 == key);
                }
            }
            None
        }
    }

    /// Gives `key` the value `value`, in place of any it had.
    pub fn insert(&mut self, key: u64, value: V)
        requires
            old(self).wf(),
        ensures
            final(self).wf(),
            final(self)@ == old(self)@.insert(key, value),
    {
        let p = self.lower_bound(key);
        let ghost before = self.entries@;
        if p < self.entries.len() && self.entries[p].0 == key {
            self.entries[p] = (key, value);
        } else {
            self.entries.insert(p, (key, value));
        }
        proof {
            let after = self.entries@;
            assert(ascending(after));
            assert(after[p as int] == (key, value));
            lemma_map_of(after, p as int);
            let shift: int = after.len() - before.len();
            assert forall|x: u64| map_of(after).contains_key(x) <==> #[trigger] map_of(
                before,
            ).insert(key, value).contains_key(x) by {
                if map_of(after).contains_key(x) && x != key {
                    let q = position_of(after, x);
                    let o = if q < p { q } else { q - shift };
                    assert(before[o].0 == x);
                }
                if map_of(before).contains_key(x) && x != key {
                    let q = position_of(before, x);
                    let o = if q < p { q } else { q + shift };
                    assert(after[o].0 == x);
                }
            }
            assert forall|x: u64| #[trigger]
                map_of(after).contains_key(x) implies map_of(after)[x] == map_of(before).insert(
                key,
                value,
            )[x] by {
                if x != key {
                    let q = position_of(after, x);
                    let o = if q < p { q } else { q - shift };
                    lemma_map_of(after, q);
                    lemma_map_of(before, o);
                }
            }
            assert(map_of(after) =~= map_of(before).insert(key, value));
        }
    }

    /// Takes `key` out, handing back its value.
    pub fn remove(&mut self, key: u64) -> (r: Option<V>)
        requires
            old(self).wf(),
        ensures
            final(self).wf(),
            final(self)@ == old(self)@.remove(key),
            r is Some <==> old(self)@.contains_key(key),
            r is Some ==> r->0 == old(self)@[key],
    {
        let p = self.lower_bound(key);
        let ghost before = self.entries@;
        if p < self.entries.len() && self.entries[p].0 == key {
            proof {
                lemma_map_of(before, p as int);
            }
            let entry = self.entries.remove(p);
            proof {
                let after = self.entries@;
                assert(ascending(after));
                assert forall|x: u64| map_of(after).contains_key(x) <==> #[trigger] map_of(
                    before,
                ).remove(key).contains_key(x) by {
                    if map_of(after).contains_key(x) {
                        let q = position_of(after, x);
                        let o = if q < p { q } else { q + 1 };
                        assert(before[o].0 == x);
                    }
                    if map_of(before).contains_key(x) && x != key {
                        let q = position_of(before, x);
                        let o = if q < p { q } else { q - 1 };
                        assert(after[o].0 == x);
                    }
                }
                assert forall|x: u64| #[trigger]
                    map_of(after).contains_key(x) implies map_of(after)[x] == map_of(before).remove(
                    key,
                )[x] by {
                    let q = position_of(after, x);
                    let o = if q < p { q } else { q + 1 };
                    lemma_map_of(after, q);
                    lemma_map_of(before, o);
                }
                assert(map_of(after) =~= map_of(before).remove(key));
            }
            Some(entry.1)
        } else {
            proof {
                if map_of(before).contains_key(key) {
                    let q = position_of(before, key);
                    assert(before[q].0 == key);
                }
                assert(map_of(before).remove(key) =~= map_of(before));
            }
            None
        }
    }

    /// The number of keys.
    pub fn len(&self) -> (n: usize)
        requires
            self.wf(),
        ensures
            self@.dom().finite(),
            n == self@.dom().len(),
    {
        proof {
            lemma_map_len(self.entries@);
        }
        self.entries.len()
    }

    /// The lowest key.
    pub fn first_key(&self) -> (r: Option<u64>)
        requires
            self.wf(),
        ensures
            r is None <==> self@ == Map::<u64, V>::empty(),
            r is Some ==> self@.contains_key(r->0) && forall|k: u64| #[trigger]
                self@.contains_key(k) ==> r->0 <= k,
    {
        if self.entries.len() == 0 {
            assert(self@ =~= Map::<u64, V>::empty());
            None
        } else {
            proof {
                lemma_map_of(self.entries@, 0);
                assert forall|k: u64| #[trigger] self@.contains_key(k) implies self.entries@[0].0
                    <= k by {
                    let q = position_of(self.entries@, k);
                    if q > 0 {
                        assert(self.entries@[0].0 < self.entries@[q].0);
                    }
                }
            }
            Some(self.entries[0].0)
        }
    }

    /// The highest key.
    pub fn last_key(&self) -> (r: Option<u64>)
        requires
            self.wf(),
        ensures
            r is None <==> self@ == Map::<u64, V>::empty(),
            r is Some ==> self@.contains_key(r->0) && forall|k: u64| #[trigger]
                self@.contains_key(k) ==> k <= r->0,
    {
        let n = self.entries.len();
        if n == 0 {
            assert(self@ =~= Map::<u64, V>::empty());
            None
        } else {
            proof {
                lemma_map_of(self.entries@, n - 1);
                assert forall|k: u64| #[trigger] self@.contains_key(k) implies k
                    <= self.entries@[n - 1].0 by {
                    let q = position_of(self.entries@, k);
                    if q < n - 1 {
                        assert(self.entries@[q].0 < self.entries@[n - 1].0);
                    }
                }
            }
            Some(self.entries[n - 1].0)
        }
    }
}

} // verus!

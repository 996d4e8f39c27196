//! A map keyed by commodity, kept in ascending order of the key.

use vstd::prelude::*;

use crate::ids::CommodityId;

verus! {

/// Values by commodity. Iteration follows the commodity ids.
#[derive(Debug)]
pub struct ById<V> {
    entries: Vec<(CommodityId, V)>,
}

/// Whether `k` is the key of some entry.
spec fn has_key<V>(entries: Seq<(CommodityId, V)>, k: CommodityId) -> bool {
    exists|i: int| 0 <= i < entries.len() && (#[trigger] entries[i]).0 == k
}

/// Where the entry of `k` stands.
spec fn key_pos<V>(entries: Seq<(CommodityId, V)>, k: CommodityId) -> int {
    choose|i: int| 0 <= i < entries.len() && (#[trigger] entries[i]).0 == k
}

/// Keys ascend strictly, so each occurs once.
spec fn ascending<V>(entries: Seq<(CommodityId, V)>) -> bool {
    forall|i: int, j: int|
        0 <= i < j < entries.len() ==> (#[trigger] entries[i]).0.0 < (#[trigger] entries[j]).0.0
}

/// Ids in strictly ascending order.
pub open spec fn ids_ascend(ids: Seq<CommodityId>) -> bool {
    forall|i: int, j: int| 0 <= i < j < ids.len() ==> (#[trigger] ids[i]).0 < (#[trigger] ids[j]).0
}

impl<V> View for ById<V> {
    type V = Map<CommodityId, V>;

    closed spec fn view(&self) -> Map<CommodityId, V> {
        Map::new(
            |k: CommodityId| has_key(self.entries@, k),
            |k: CommodityId| self.entries@[key_pos(self.entries@, k)].1,
        )
    }
}

impl<V: Copy> Clone for ById<V> {
    fn clone(&self) -> (r: Self)
        ensures
            r@ == self@,
    {
        proof {
            use_type_invariant(self);
        }
        let mut entries: Vec<(CommodityId, V)> = Vec::new();
        let mut i: usize = 0;
        while i < self.entries.len()
            invariant
                i <= self.entries@.len(),
                entries@ == self.entries@.take(i as int),
            decreases self.entries@.len() - i,
        {
            entries.push(self.entries[i]);
            assert(entries@ =~= self.entries@.take(i + 1));
            i = i + 1;
        }
        assert(entries@ =~= self.entries@);
        ById { entries }
    }
}

impl<V> ById<V> {
    #[verifier::type_invariant]
    closed spec fn sorted(self) -> bool {
        ascending(self.entries@)
    }

    /// The empty map.
    pub fn new() -> (m: Self)
        ensures
            m@ == Map::<CommodityId, V>::empty(),
    {
        let m = ById { entries: Vec::new() };
        assert(m@ =~= Map::<CommodityId, V>::empty());
        m
    }

    /// The number of leading entries whose key is below `k`.
    fn rank_of(&self, k: CommodityId) -> (r: usize)
        ensures
            r <= self.entries@.len(),
            forall|i: int| 0 <= i < r ==> (#[trigger] self.entries@[i]).0.0 < k.0,
            forall|i: int| r <= i < self.entries@.len() ==> (#[trigger] self.entries@[i]).0.0 >= k.0,
    {
        proof {
            use_type_invariant(self);
        }
        let mut i: usize = 0;
        while i < self.entries.len() && self.entries[i].0.0 < k.0
            invariant
                i <= self.entries@.len(),
                ascending(self.entries@),
                forall|j: int| 0 <= j < i ==> (#[trigger] self.entries@[j]).0.0 < k.0,
            decreases self.entries@.len() - i,
        {
            i = i + 1;
        }
        i
    }

    /// The value of `k`, if it has one.
    pub fn get(&self, k: &CommodityId) -> (v: Option<&V>)
        ensures
            match v {
                Some(x) => self@.contains_key(*k) && *x == self@[*k],
                None => !self@.contains_key(*k),
            },
    {
        proof {
            use_type_invariant(self);
        }
        let r = self.rank_of(*k);
        if r < self.entries.len() && self.entries[r].0.0 == k.0 {
            assert(self.entries@[r as int].0 == *k);
            Some(&self.entries[r].1)
        } else {
            assert forall|i: int| 0 <= i < self.entries@.len() implies (
            #[trigger] self.entries@[i]).0 != *k by {
                if i > r {
                    assert(self.entries@[r as int].0.0 < self.entries@[i].0.0);
                }
            }
            None
        }
    }

    /// Whether `k` has a value.
    pub fn contains_key(&self, k: &CommodityId) -> (b: bool)
        ensures
            b == self@.contains_key(*k),
    {
        self.get(k).is_some()
    }

    /// Give `k` the value `v`, replacing any it had.
    pub fn insert(&mut self, k: CommodityId, v: V)
        ensures
            final(self)@ == old(self)@.insert(k, v),
    {
        proof {
            use_type_invariant(&*self);
        }
        let r = self.rank_of(k);
        let ghost before = self.entries@;
        let ghost map = self@;
        let mut entries: Vec<(CommodityId, V)> = Vec::new();
        std::mem::swap(&mut entries, &mut self.entries);
        if r < entries.len() && entries[r].0.0 == k.0 {
            entries.set(r, (k, v));
            proof {
                assert(entries@ =~= before.update(r as int, (k, v)));
                lemma_update_view(before, r as int, k, v);
            }
        } else {
            entries.insert(r, (k, v));
            proof {
                assert(entries@ =~= before.insert(r as int, (k, v)));
                lemma_insert_view(before, r as int, k, v);
            }
        }
        self.entries = entries;
        assert(self@ =~= map.insert(k, v));
    }

    /// Drop the value of `k`, if it has one.
    pub fn remove(&mut self, k: &CommodityId)
        ensures
            final(self)@ == old(self)@.remove(*k),
    {
        proof {
            use_type_invariant(&*self);
        }
        let r = self.rank_of(*k);
        let ghost before = self.entries@;
        let ghost map = self@;
        let mut entries: Vec<(CommodityId, V)> = Vec::new();
        std::mem::swap(&mut entries, &mut self.entries);
        if r < entries.len() && entries[r].0.0 == k.0 {
            let _gone = entries.remove(r);
            proof {
                assert(entries@ =~= before.remove(r as int));
                lemma_remove_view(before, r as int, *k);
            }
        } else {
            assert(!has_key(before, *k)) by {
                assert forall|i: int| 0 <= i < before.len() implies (
                #[trigger] before[i]).0 != *k by {
                    if i > r {
                        assert(before[r as int].0.0 < before[i].0.0);
                    }
                }
            }
        }
        self.entries = entries;
        assert(self@ =~= map.remove(*k));
    }

    /// Drop every value.
    pub fn clear(&mut self)
        ensures
            final(self)@ == Map::<CommodityId, V>::empty(),
    {
        self.entries = Vec::new();
        assert(self@ =~= Map::<CommodityId, V>::empty());
    }

    /// Whether no commodity has a value.
    pub fn is_empty(&self) -> (b: bool)
        ensures
            b == (self@ == Map::<CommodityId, V>::empty()),
    {
        let b = self.entries.len() == 0;
        proof {
            if b {
                assert(self@ =~= Map::<CommodityId, V>::empty());
            } else {
                assert(has_key(self.entries@, self.entries@[0].0));
                assert(self@.contains_key(self.entries@[0].0));
                assert(!Map::<CommodityId, V>::empty().contains_key(self.entries@[0].0));
            }
        }
        b
    }

    /// The keys, ascending.
    pub fn keys(&self) -> (ks: Vec<CommodityId>)
        ensures
            ids_ascend(ks@),
            forall|k: CommodityId| ks@.contains(k) <==> #[trigger] self@.contains_key(k),
    {
        proof {
            use_type_invariant(self);
        }
        let mut ks: Vec<CommodityId> = Vec::new();
        let mut i: usize = 0;
        while i < self.entries.len()
            invariant
                i <= self.entries@.len(),
                ascending(self.entries@),
                ks@.len() == i,
                forall|j: int| 0 <= j < i ==> #[trigger] ks@[j] == self.entries@[j].0,
            decreases self.entries@.len() - i,
        {
            ks.push(self.entries[i].0);
            i = i + 1;
        }
        proof {
            assert forall|k: CommodityId| ks@.contains(k) <==> #[trigger] self@.contains_key(k) by {
                if ks@.contains(k) {
                    let j = choose|j: int| 0 <= j < ks@.len() && ks@[j] == k;
                    assert(self.entries@[j].0 == k);
                }
                if has_key(self.entries@, k) {
                    let j = key_pos(self.entries@, k);
                    assert(ks@[j] == k);
                }
            }
        }
        ks
    }
}

proof fn lemma_update_view<V>(before: Seq<(CommodityId, V)>, r: int, k: CommodityId, v: V)
    requires
        ascending(before),
        0 <= r < before.len(),
        before[r].0 == k,
    ensures
        ascending(before.update(r, (k, v))),
        forall|q: CommodityId|
            #![trigger has_key(before.update(r, (k, v)), q)]
            has_key(before.update(r, (k, v)), q) <==> (q == k || has_key(before, q)),
        forall|q: CommodityId|
            #![trigger key_pos(before.update(r, (k, v)), q)]
            has_key(before.update(r, (k, v)), q) ==> before.update(
                r,
                (k, v),
            )[key_pos(before.update(r, (k, v)), q)].1 == (if q == k {
                v
            } else {
                before[key_pos(before, q)].1
            }),
{
    let after = before.update(r, (k, v));
    assert forall|q: CommodityId| has_key(after, q) <==> (q == k || has_key(before, q)) by {
        if has_key(after, q) {
            let i = key_pos(after, q);
            assert(before[i].0 == after[i].0);
        }
        if q == k {
            assert(after[r].0 == k);
        } else if has_key(before, q) {
            let i = key_pos(before, q);
            assert(after[i].0 == q);
        }
    }
    assert forall|q: CommodityId| has_key(after, q) implies after[key_pos(after, q)].1 == (if q
        == k {
        v
    } else {
        before[key_pos(before, q)].1
    }) by {
        let i = key_pos(after, q);
        if q == k {
            if i != r {
                if i < r {
                    assert(before[i].0.0 < before[r].0.0);
                } else {
                    assert(before[r].0.0 < before[i].0.0);
                }
            }
        } else {
            assert(before[i].0 == q);
            let j = key_pos(before, q);
            if i < j {
                assert(before[i].0.0 < before[j].0.0);
            } else if j < i {
                assert(before[j].0.0 < before[i].0.0);
            }
        }
    }
}

proof fn lemma_insert_view<V>(before: Seq<(CommodityId, V)>, r: int, k: CommodityId, v: V)
    requires
        ascending(before),
        0 <= r <= before.len(),
        forall|i: int| 0 <= i < r ==> (#[trigger] before[i]).0.0 < k.0,
        forall|i: int| r <= i < before.len() ==> (#[trigger] before[i]).0.0 > k.0,
    ensures
        ascending(before.insert(r, (k, v))),
        forall|q: CommodityId|
            #![trigger has_key(before.insert(r, (k, v)), q)]
            has_key(before.insert(r, (k, v)), q) <==> (q == k || has_key(before, q)),
        forall|q: CommodityId|
            #![trigger key_pos(before.insert(r, (k, v)), q)]
            has_key(before.insert(r, (k, v)), q) ==> before.insert(
                r,
                (k, v),
            )[key_pos(before.insert(r, (k, v)), q)].1 == (if q == k {
                v
            } else {
                before[key_pos(before, q)].1
            }),
{
    let after = before.insert(r, (k, v));
    assert(after[r] == (k, v));
    assert forall|i: int| 0 <= i < after.len() implies #[trigger] after[i] == (if i < r {
        before[i]
    } else if i == r {
        (k, v)
    } else {
        before[i - 1]
    }) by {}
    assert forall|i: int, j: int| 0 <= i < j < after.len() implies (#[trigger] after[i]).0.0 < (
    #[trigger] after[j]).0.0 by {
        let bi = if i < r { i } else { i - 1 };
        let bj = if j < r { j } else { j - 1 };
        if i != r && j != r {
            assert(before[bi].0.0 < before[bj].0.0);
        }
    }
    assert forall|q: CommodityId| has_key(after, q) <==> (q == k || has_key(before, q)) by {
        if has_key(after, q) && q != k {
            let i = key_pos(after, q);
            let bi = if i < r { i } else { i - 1 };
            assert(before[bi].0 == q);
        }
        if q == k {
            assert(after[r].0 == k);
        } else if has_key(before, q) {
            let i = key_pos(before, q);
            let ai = if i < r { i } else { i + 1 };
            assert(after[ai].0 == q);
        }
    }
    assert forall|q: CommodityId| has_key(after, q) implies after[key_pos(after, q)].1 == (if q
        == k {
        v
    } else {
        before[key_pos(before, q)].1
    }) by {
        let i = key_pos(after, q);
        let bi = if i < r { i } else { i - 1 };
        if q == k {
            assert(i == r);
        } else {
            assert(before[bi].0 == q);
            let j = key_pos(before, q);
            if bi < j {
                assert(before[bi].0.0 < before[j].0.0);
            } else if j < bi {
                assert(before[j].0.0 < before[bi].0.0);
            }
        }
    }
}

proof fn lemma_remove_view<V>(before: Seq<(CommodityId, V)>, r: int, k: CommodityId)
    requires
        ascending(before),
        0 <= r < before.len(),
        before[r].0 == k,
    ensures
        ascending(before.remove(r)),
        forall|q: CommodityId|
            #![trigger has_key(before.remove(r), q)]
            has_key(before.remove(r), q) <==> (q != k && has_key(before, q)),
        forall|q: CommodityId|
            #![trigger key_pos(before.remove(r), q)]
            has_key(before.remove(r), q) ==> before.remove(r)[key_pos(before.remove(r), q)].1
                == before[key_pos(before, q)].1,
{
    let after = before.remove(r);
    assert forall|i: int| 0 <= i < after.len() implies #[trigger] after[i] == (if i < r {
        before[i]
    } else {
        before[i + 1]
    }) by {}
    assert forall|i: int, j: int| 0 <= i < j < after.len() implies (#[trigger] after[i]).0.0 < (
    #[trigger] after[j]).0.0 by {
        let bi = if i < r { i } else { i + 1 };
        let bj = if j < r { j } else { j + 1 };
        assert(before[bi].0.0 < before[bj].0.0);
    }
    assert forall|q: CommodityId| has_key(after, q) <==> (q != k && has_key(before, q)) by {
        if has_key(after, q) {
            let i = key_pos(after, q);
            let bi = if i < r { i } else { i + 1 };
            assert(before[bi].0 == q);
            if q == k {
                if bi < r {
                    assert(before[bi].0.0 < before[r].0.0);
                } else {
                    assert(before[r].0.0 < before[bi].0.0);
                }
            }
        }
        if q != k && has_key(before, q) {
            let i = key_pos(before, q);
            let ai = if i < r { i } else { i - 1 };
            assert(after[ai].0 == q);
        }
    }
    assert forall|q: CommodityId| has_key(after, q) implies after[key_pos(after, q)].1
        == before[key_pos(before, q)].1 by {
        let i = key_pos(after, q);
        let bi = if i < r { i } else { i + 1 };
        assert(before[bi].0 == q);
        let j = key_pos(before, q);
        if bi < j {
            assert(before[bi].0.0 < before[j].0.0);
        } else if j < bi {
            assert(before[j].0.0 < before[bi].0.0);
        }
    }
}

} // verus!

//! A finite map keyed by GPU index, stored by ascending key so that every
//! walk over it has one fixed order.

use vstd::prelude::*;

verus! {

/// Whether `keys` lists exactly the members of `domain`, each once, in
/// ascending order. For a finite `domain` there is one such sequence.
pub open spec fn ascending_listing(keys: Seq<u32>, domain: Set<u32>) -> bool {
    &&& forall|i: int, j: int| 0 <= i < j < keys.len() ==> keys[i] < keys[j]
    &&& forall|i: int| 0 <= i < keys.len() ==> domain.contains(#[trigger] keys[i])
    &&& forall|k: u32| domain.contains(k) ==> keys.contains(k)
}

/// Two ascending listings of one set are the same sequence.
pub proof fn lemma_ascending_listing_unique(a: Seq<u32>, b: Seq<u32>, domain: Set<u32>)
    requires
        ascending_listing(a, domain),
        ascending_listing(b, domain),
    ensures
        a == b,
    decreases a.len(),
{
    if a.len() == 0 {
        if b.len() > 0 {
            assert(domain.contains(b[0]));
            assert(a.contains(b[0]));
        }
        assert(a =~= b);
    } else {
        let top = a.last();
        assert(domain.contains(top));
        assert(b.contains(top));
        let pos = choose|i: int| 0 <= i < b.len() && b[i] == top;
        if pos < b.len() - 1 {
            let above = b[b.len() - 1];
            assert(domain.contains(above));
            assert(a.contains(above));
            let q = choose|i: int| 0 <= i < a.len() && a[i] == above;
            assert(a[q] <= a[a.len() - 1]);
        }
        assert(b.last() == top);
        let rest = domain.remove(top);
        assert(ascending_listing(a.drop_last(), rest)) by {
            assert forall|k: u32| rest.contains(k) implies a.drop_last().contains(k) by {
                assert(a.contains(k));
                let i = choose|i: int| 0 <= i < a.len() && a[i] == k;
                assert(a.drop_last()[i] == k);
            }
        }
        assert(ascending_listing(b.drop_last(), rest)) by {
            assert forall|k: u32| rest.contains(k) implies b.drop_last().contains(k) by {
                assert(b.contains(k));
                let i = choose|i: int| 0 <= i < b.len() && b[i] == k;
                assert(b.drop_last()[i] == k);
            }
        }
        lemma_ascending_listing_unique(a.drop_last(), b.drop_last(), rest);
        assert(a =~= a.drop_last().push(top));
        assert(b =~= b.drop_last().push(top));
    }
}

/// The members of `domain` in ascending order.
pub open spec fn ascending(domain: Set<u32>) -> Seq<u32> {
    choose|keys: Seq<u32>| ascending_listing(keys, domain)
}

/// An ascending listing of a set is its ascending order.
pub proof fn lemma_ascending(keys: Seq<u32>, domain: Set<u32>)
    requires
        ascending_listing(keys, domain),
    ensures
        ascending(domain) == keys,
{
    lemma_ascending_listing_unique(ascending(domain), keys, domain);
}

/// A finite map from GPU index to `V`.
pub struct GpuTable<V> {
    entries: Vec<(u32, V)>,
}

impl<V> GpuTable<V> {
    /// The keys are stored in strictly ascending order.
    pub closed spec fn wf(&self) -> bool {
        forall|i: int, j: int|
            0 <= i < j < self.entries.len() ==> self.entries[i].0 < self.entries[j].0
    }

    /// The map that the table stands for.
    pub closed spec fn view(&self) -> Map<u32, V> {
        Map::new(
            |k: u32| exists|i: int| 0 <= i < self.entries.len() && self.entries[i].0 == k,
            |k: u32|
                self.entries[choose|i: int| 0 <= i < self.entries.len() && self.entries[i].0 == k].1,
        )
    }

    /// The keys in storage order.
    pub closed spec fn keys(&self) -> Seq<u32> {
        Seq::new(self.entries.len() as nat, |i: int| self.entries[i].0)
    }

    proof fn lemma_entry(&self, i: int)
        requires
            self.wf(),
            0 <= i < self.entries.len(),
        ensures
            self@.contains_key(self.entries[i].0),
            self@[self.entries[i].0] == self.entries[i].1,
    {
        let k = self.entries[i].0;
        let j = choose|j: int| 0 <= j < self.entries.len() && self.entries[j].0 == k;
        assert(j == i) by {
            if j < i {
                assert(self.entries[j].0 < self.entries[i].0);
            } else if i < j {
                assert(self.entries[i].0 < self.entries[j].0);
            }
        }
    }

    /// The stored keys are the ascending listing of the map's domain, which
    /// is finite.
    pub proof fn lemma_keys(&self)
        requires
            self.wf(),
        ensures
            ascending_listing(self.keys(), self@.dom()),
            self@.dom().finite(),
            self.keys().len() == self@.dom().len(),
    {
        let keys = self.keys();
        assert forall|k: u32| self@.dom().contains(k) implies keys.contains(k) by {
            let i = choose|i: int| 0 <= i < self.entries.len() && self.entries[i].0 == k;
            assert(keys[i] == k);
        }
        assert(keys.no_duplicates());
        assert(keys.to_set() =~= self@.dom()) by {
            assert forall|k: u32| keys.to_set().contains(k) implies self@.dom().contains(k) by {
                let i = choose|i: int| 0 <= i < keys.len() && keys[i] == k;
                assert(self.entries[i].0 == k);
            }
        }
        keys.unique_seq_to_set();
        vstd::seq_lib::seq_to_set_is_finite(keys);
    }

    /// The empty table.
    pub fn new() -> (table: Self)
        ensures
            table.wf(),
            table@ == Map::<u32, V>::empty(),
    {
        let table = GpuTable { entries: Vec::new() };
        assert(table@ =~= Map::<u32, V>::empty());
        table
    }

    /// Number of entries.
    pub fn len(&self) -> (n: usize)
        ensures
            n == self.keys().len(),
    {
        self.entries.len()
    }

    /// The `i`-th smallest key.
    pub fn key_at(&self, i: usize) -> (k: u32)
        requires
            self.wf(),
            i < self.keys().len(),
        ensures
            k == self.keys()[i as int],
            self@.contains_key(k),
    {
        proof {
            self.lemma_entry(i as int);
        }
        self.entries[i].0
    }

    /// The value under the `i`-th smallest key.
    pub fn value_at(&self, i: usize) -> (v: &V)
        requires
            self.wf(),
            i < self.keys().len(),
        ensures
            self@.contains_key(self.keys()[i as int]),
            *v == self@[self.keys()[i as int]],
    {
        proof {
            self.lemma_entry(i as int);
        }
        &self.entries[i].1
    }

    /// Index of the first entry whose key is at least `k`.
    fn position(&self, k: u32) -> (p: usize)
        requires
            self.wf(),
        ensures
            p <= self.entries.len(),
            forall|i: int| 0 <= i < p ==> self.entries[i].0 < k,
            forall|i: int| p <= i < self.entries.len() ==> self.entries[i].0 >= k,
    {
        let mut p: usize = 0;
        while p < self.entries.len() && self.entries[p].0 < k
            invariant
                self.wf(),
                p <= self.entries.len(),
                forall|i: int| 0 <= i < p ==> self.entries[i].0 < k,
            decreases self.entries.len() - p,
        {
            p += 1;
        }
        assert forall|i: int| p <= i < self.entries.len() implies self.entries[i].0 >= k by {
            if p < i {
                assert(self.entries[p as int].0 < self.entries[i].0);
            }
        }
        p
    }

    /// The value under `k`, if there is one.
    pub fn get(&self, k: u32) -> (found: Option<&V>)
        requires
            self.wf(),
        ensures
            match found {
                Some(v) => self@.contains_key(k) && *v == self@[k],
                None => !self@.contains_key(k),
            },
    {
        let p = self.position(k);
        if p < self.entries.len() && self.entries[p].0 == k {
            proof {
                self.lemma_entry(p as int);
            }
            Some(&self.entries[p].1)
        } else {
            None
        }
    }

    /// Whether `k` has an entry.
    pub fn contains_key(&self, k: u32) -> (present: bool)
        requires
            self.wf(),
        ensures
            present == self@.contains_key(k),
    {
        let p = self.position(k);
        p < self.entries.len() && self.entries[p].0 == k
    }

    /// Puts `v` under `k`, replacing what was there.
    pub fn insert(&mut self, k: u32, v: V)
        requires
            old(self).wf(),
        ensures
            final(self).wf(),
            final(self)@ == old(self)@.insert(k, v),
    {
        let p = self.position(k);
        let ghost before = *self;
        if p < self.entries.len() && self.entries[p].0 == k {
            self.entries[p] = (k, v);
            assert(self.wf()) by {
                assert forall|i: int, j: int| 0 <= i < j < self.entries.len() implies self.entries[i].0
                    < self.entries[j].0 by {
                    assert(before.entries[i].0 < before.entries[j].0);
                }
            }
            assert forall|x: u32| #[trigger]
                self@.contains_key(x) == before@.insert(k, v).contains_key(x) by {
                if self@.contains_key(x) {
                    let i = choose|i: int| 0 <= i < self.entries.len() && self.entries[i].0 == x;
                    assert(before.entries[i].0 == x);
                }
                if before@.contains_key(x) {
                    let i = choose|i: int| 0 <= i < before.entries.len() && before.entries[i].0 == x;
                    assert(self.entries[i].0 == x);
                }
                if x == k {
                    assert(self.entries[p as int].0 == x);
                }
            }
            assert forall|x: u32| self@.contains_key(x) implies #[trigger] self@[x] == before@.insert(
                k,
                v,
            )[x] by {
                let i = choose|i: int| 0 <= i < self.entries.len() && self.entries[i].0 == x;
                self.lemma_entry(i);
                if x != k {
                    before.lemma_entry(i);
                }
            }
        } else {
            self.entries.insert(p, (k, v));
            assert(self.wf()) by {
                assert forall|i: int, j: int| 0 <= i < j < self.entries.len() implies self.entries[i].0
                    < self.entries[j].0 by {
                    if j < p {
                        assert(before.entries[i].0 < before.entries[j].0);
                    } else if j == p {
                    } else if i < p {
                        assert(before.entries[j - 1].0 >= k);
                    } else if i == p {
                        assert(before.entries[j - 1].0 >= k);
                    } else {
                        assert(before.entries[i - 1].0 < before.entries[j - 1].0);
                    }
                }
            }
            assert forall|x: u32| #[trigger]
                self@.contains_key(x) == before@.insert(k, v).contains_key(x) by {
                if self@.contains_key(x) && x != k {
                    let i = choose|i: int| 0 <= i < self.entries.len() && self.entries[i].0 == x;
                    if i < p {
                        assert(before.entries[i].0 == x);
                    } else {
                        assert(before.entries[i - 1].0 == x);
                    }
                }
                if before@.contains_key(x) {
                    let i = choose|i: int| 0 <= i < before.entries.len() && before.entries[i].0 == x;
                    if i < p {
                        assert(self.entries[i].0 == x);
                    } else {
                        assert(self.entries[i + 1].0 == x);
                    }
                }
                if x == k {
                    assert(self.entries[p as int].0 == x);
                }
            }
            assert forall|x: u32| self@.contains_key(x) implies #[trigger] self@[x] == before@.insert(
                k,
                v,
            )[x] by {
                let i = choose|i: int| 0 <= i < self.entries.len() && self.entries[i].0 == x;
                self.lemma_entry(i);
                if x != k {
                    if i < p {
                        before.lemma_entry(i);
                    } else {
                        before.lemma_entry(i - 1);
                    }
                }
            }
        }
        assert(self@ =~= before@.insert(k, v));
    }

    /// Drops the entry under `k`, if there is one.
    pub fn remove(&mut self, k: u32)
        requires
            old(self).wf(),
        ensures
            final(self).wf(),
            final(self)@ == old(self)@.remove(k),
    {
        let p = self.position(k);
        let ghost before = *self;
        if p < self.entries.len() && self.entries[p].0 == k {
            self.entries.remove(p);
            assert(self.wf()) by {
                assert forall|i: int, j: int| 0 <= i < j < self.entries.len() implies self.entries[i].0
                    < self.entries[j].0 by {
                    let bi = if i < p { i } else { i + 1 };
                    let bj = if j < p { j } else { j + 1 };
                    assert(before.entries[bi].0 < before.entries[bj].0);
                }
            }
            assert forall|x: u32| #[trigger]
                self@.contains_key(x) == before@.remove(k).contains_key(x) by {
                if self@.contains_key(x) {
                    let i = choose|i: int| 0 <= i < self.entries.len() && self.entries[i].0 == x;
                    let bi = if i < p { i } else { i + 1 };
                    assert(before.entries[bi].0 == x);
                    if x == k {
                        if bi < p {
                            assert(before.entries[bi].0 < before.entries[p as int].0);
                        } else {
                            assert(before.entries[p as int].0 < before.entries[bi].0);
                        }
                    }
                }
                if before@.contains_key(x) && x != k {
                    let i = choose|i: int| 0 <= i < before.entries.len() && before.entries[i].0 == x;
                    if i < p {
                        assert(self.entries[i].0 == x);
                    } else {
                        assert(self.entries[i - 1].0 == x);
                    }
                }
            }
            assert forall|x: u32| self@.contains_key(x) implies #[trigger] self@[x] == before@.remove(
                k,
            )[x] by {
                let i = choose|i: int| 0 <= i < self.entries.len() && self.entries[i].0 == x;
                self.lemma_entry(i);
                if i < p {
                    before.lemma_entry(i);
                } else {
                    before.lemma_entry(i + 1);
                }
            }
        } else {
            assert(!before@.contains_key(k)) by {
                if before@.contains_key(k) {
                    let i = choose|i: int| 0 <= i < before.entries.len() && before.entries[i].0 == k;
                    if i < p {
                    } else if i > p {
                        assert(before.entries[p as int].0 < before.entries[i].0);
                    }
                }
            }
        }
        assert(self@ =~= before@.remove(k));
    }
}

} // verus!

//! Lists of task ids and of GPU indices in which nothing is meant to occur
//! twice: membership, removal and guarded insertion.

use crate::store::{with_item, without};
use vstd::prelude::*;

verus! {

/// What `without` leaves is what was there, `x` excepted, and it is no
/// longer than the list it came from.
pub proof fn lemma_without_contains<T>(items: Seq<T>, x: T)
    ensures
        forall|y: T| #[trigger] without(items, x).contains(y) <==> (items.contains(y) && y != x),
        without(items, x).len() <= items.len(),
        !without(items, x).contains(x),
    decreases items.len(),
{
    if items.len() > 0 {
        let front = items.drop_last();
        let last = items.last();
        lemma_without_contains(front, x);
        let rest = without(front, x);
        let all = without(items, x);
        assert(all == if last == x { rest } else { rest.push(last) });
        assert forall|y: T| #[trigger] all.contains(y) <==> (items.contains(y) && y != x) by {
            if all.contains(y) {
                let i = choose|i: int| 0 <= i < all.len() && all[i] == y;
                if last != x && i == rest.len() {
                    assert(items[items.len() - 1] == y);
                } else {
                    assert(rest[i] == y);
                    assert(rest.contains(y));
                    assert(front.contains(y));
                    let j = choose|j: int| 0 <= j < front.len() && front[j] == y;
                    assert(items[j] == y);
                }
            }
            if items.contains(y) && y != x {
                let j = choose|j: int| 0 <= j < items.len() && items[j] == y;
                if j == items.len() - 1 {
                    assert(all[rest.len() as int] == y);
                } else {
                    assert(front[j] == y);
                    assert(front.contains(y));
                    assert(rest.contains(y));
                    let i = choose|i: int| 0 <= i < rest.len() && rest[i] == y;
                    assert(all[i] == y);
                }
            }
        }
    }
}

/// Removing what is absent changes nothing.
pub proof fn lemma_without_absent<T>(items: Seq<T>, x: T)
    requires
        !items.contains(x),
    ensures
        without(items, x) == items,
    decreases items.len(),
{
    if items.len() > 0 {
        assert(items.last() != x) by {
            assert(items[items.len() - 1] == items.last());
        }
        assert(!items.drop_last().contains(x)) by {
            if items.drop_last().contains(x) {
                let i = choose|i: int| 0 <= i < items.drop_last().len() && items.drop_last()[i] == x;
                assert(items[i] == x);
            }
        }
        lemma_without_absent(items.drop_last(), x);
        assert(items.drop_last().push(items.last()) =~= items);
    }
}

/// Removal keeps a list free of repetitions, and shortens it by one where
/// `x` was present.
pub proof fn lemma_without_no_duplicates<T>(items: Seq<T>, x: T)
    requires
        items.no_duplicates(),
    ensures
        without(items, x).no_duplicates(),
        items.contains(x) ==> without(items, x).len() == items.len() - 1,
    decreases items.len(),
{
    if items.len() > 0 {
        let front = items.drop_last();
        let last = items.last();
        assert(front.no_duplicates());
        lemma_without_no_duplicates(front, x);
        lemma_without_contains(front, x);
        assert(!front.contains(last)) by {
            if front.contains(last) {
                let i = choose|i: int| 0 <= i < front.len() && front[i] == last;
                assert(items[i] == items[items.len() - 1]);
            }
        }
        if last == x {
            lemma_without_absent(front, x);
        } else {
            assert(!without(front, x).contains(last));
            if items.contains(x) {
                let i = choose|i: int| 0 <= i < items.len() && items[i] == x;
                assert(front[i] == x);
            }
        }
    }
}

/// Guarded insertion keeps a list free of repetitions and makes `x` a
/// member without losing one.
pub proof fn lemma_with_item<T>(items: Seq<T>, x: T)
    ensures
        forall|y: T| with_item(items, x).contains(y) <==> (items.contains(y) || y == x),
        items.no_duplicates() ==> with_item(items, x).no_duplicates(),
{
    assert forall|y: T| with_item(items, x).contains(y) <==> (items.contains(y) || y == x) by {
        if items.contains(x) {
        } else {
            let grown = items.push(x);
            if grown.contains(y) {
                let i = choose|i: int| 0 <= i < grown.len() && grown[i] == y;
                if i < items.len() {
                    assert(items[i] == y);
                }
            }
            if items.contains(y) {
                let i = choose|i: int| 0 <= i < items.len() && items[i] == y;
                assert(grown[i] == y);
            }
            if y == x {
                assert(grown[items.len() as int] == y);
            }
        }
    }
}

/// Whether `id` occurs in `ids`.
pub fn contains_id(ids: &Vec<u64>, id: u64) -> (found: bool)
    ensures
        found == ids@.contains(id),
{
    let mut k: usize = 0;
    while k < ids.len()
        invariant
            k <= ids.len(),
            forall|i: int| 0 <= i < k ==> ids@[i] != id,
        decreases ids.len() - k,
    {
        if ids[k] == id {
            return true;
        }
        k += 1;
    }
    false
}

/// Removes every occurrence of `id` from `ids`.
pub fn retain_other(ids: &mut Vec<u64>, id: u64)
    ensures
        final(ids)@ == without(old(ids)@, id),
{
    let mut kept: Vec<u64> = Vec::new();
    let mut k: usize = 0;
    assert(ids@.take(0) =~= Seq::<u64>::empty());
    while k < ids.len()
        invariant
            k <= ids.len(),
            kept@ == without(ids@.take(k as int), id),
        decreases ids.len() - k,
    {
        let x = ids[k];
        proof {
            let next = ids@.take(k as int + 1);
            assert(next.drop_last() =~= ids@.take(k as int));
            assert(next.last() == x);
        }
        if x != id {
            kept.push(x);
        }
        k += 1;
    }
    assert(ids@.take(k as int) =~= ids@);
    *ids = kept;
}

/// Appends `id` to `ids` unless it is already there.
pub fn push_if_absent(ids: &mut Vec<u64>, id: u64)
    ensures
        final(ids)@ == with_item(old(ids)@, id),
{
    if !contains_id(ids, id) {
        ids.push(id);
    }
}

/// Whether `gpu` occurs in `gpus`.
pub fn contains_gpu(gpus: &Vec<u8>, gpu: u8) -> (found: bool)
    ensures
        found == gpus@.contains(gpu),
{
    let mut k: usize = 0;
    while k < gpus.len()
        invariant
            k <= gpus.len(),
            forall|i: int| 0 <= i < k ==> gpus@[i] != gpu,
        decreases gpus.len() - k,
    {
        if gpus[k] == gpu {
            return true;
        }
        k += 1;
    }
    false
}

/// Removes every occurrence of `gpu` from `gpus`.
pub fn retain_other_gpus(gpus: &mut Vec<u8>, gpu: u8)
    ensures
        final(gpus)@ == without(old(gpus)@, gpu),
{
    let mut kept: Vec<u8> = Vec::new();
    let mut k: usize = 0;
    assert(gpus@.take(0) =~= Seq::<u8>::empty());
    while k < gpus.len()
        invariant
            k <= gpus.len(),
            kept@ == without(gpus@.take(k as int), gpu),
        decreases gpus.len() - k,
    {
        let x = gpus[k];
        proof {
            let next = gpus@.take(k as int + 1);
            assert(next.drop_last() =~= gpus@.take(k as int));
            assert(next.last() == x);
        }
        if x != gpu {
            kept.push(x);
        }
        k += 1;
    }
    assert(gpus@.take(k as int) =~= gpus@);
    *gpus = kept;
}

/// Appends `gpu` to `gpus` unless it is already there.
pub fn push_gpu_if_absent(gpus: &mut Vec<u8>, gpu: u8)
    ensures
        final(gpus)@ == with_item(old(gpus)@, gpu),
{
    if !contains_gpu(gpus, gpu) {
        gpus.push(gpu);
    }
}

} // verus!

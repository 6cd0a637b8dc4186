//! Laws of one scheduling round: what it places, on which GPUs, and that
//! it leaves the store coherent.

use crate::invariants::{lemma_holds_at, lemma_lists_exact, lemma_update_task_state_coherent};
use crate::models::{QueueView, TaskState, TaskView, DEFAULT_WAITING_QUEUE_NAME};
use crate::placement::{
    by_priority, by_rank, queue_slot, task_slot, unreserved, Placement, Plan, GPU_INDEX_SPACE,
};
use crate::store::StateView;
use vstd::prelude::*;

verus! {

/// The slot of a task lies within the sorted sequence.
proof fn lemma_task_slot_bounds(sorted: Seq<TaskView>, task: TaskView)
    ensures
        0 <= task_slot(sorted, task) <= sorted.len(),
    decreases sorted.len(),
{
    if sorted.len() > 0 {
        lemma_task_slot_bounds(sorted.drop_last(), task);
    }
}

/// The slot of a queue lies within the sorted sequence.
proof fn lemma_queue_slot_bounds(sorted: Seq<QueueView>, queue: QueueView)
    ensures
        0 <= queue_slot(sorted, queue) <= sorted.len(),
    decreases sorted.len(),
{
    if sorted.len() > 0 {
        lemma_queue_slot_bounds(sorted.drop_last(), queue);
    }
}

/// Placement order has as many tasks as were given.
proof fn lemma_by_rank_len(tasks: Seq<TaskView>)
    ensures
        by_rank(tasks).len() == tasks.len(),
    decreases tasks.len(),
{
    if tasks.len() > 0 {
        lemma_by_rank_len(tasks.drop_last());
        lemma_task_slot_bounds(by_rank(tasks.drop_last()), tasks.last());
    }
}

/// Sorting tasks into placement order rearranges them: every task
/// occurs as often behind as before.
pub proof fn law_by_rank_permutes(tasks: Seq<TaskView>)
    ensures
        by_rank(tasks).to_multiset() == tasks.to_multiset(),
        by_rank(tasks).len() == tasks.len(),
        forall|t: TaskView| #[trigger] by_rank(tasks).contains(t) <==> tasks.contains(t),
    decreases tasks.len(),
{
    if tasks.len() > 0 {
        let front = tasks.drop_last();
        let last = tasks.last();
        let sorted = by_rank(front);
        let slot = task_slot(sorted, last);
        law_by_rank_permutes(front);
        lemma_task_slot_bounds(sorted, last);
        assert(front.push(last) =~= tasks);
        vstd::seq_lib::to_multiset_build(front, last);
        vstd::seq_lib::to_multiset_insert(sorted, slot, last);
    }
    vstd::seq_lib::to_multiset_len(tasks);
    vstd::seq_lib::to_multiset_len(by_rank(tasks));
    assert forall|t: TaskView| #[trigger] by_rank(tasks).contains(t) <==> tasks.contains(t) by {
        vstd::seq_lib::to_multiset_contains(tasks, t);
        vstd::seq_lib::to_multiset_contains(by_rank(tasks), t);
    }
}

/// Sorting queues by priority rearranges them: every queue occurs as
/// often behind as before.
pub proof fn law_by_priority_permutes(queues: Seq<QueueView>)
    ensures
        by_priority(queues).to_multiset() == queues.to_multiset(),
        by_priority(queues).len() == queues.len(),
        forall|q: QueueView| #[trigger] by_priority(queues).contains(q) <==> queues.contains(q),
    decreases queues.len(),
{
    if queues.len() > 0 {
        let front = queues.drop_last();
        let last = queues.last();
        let sorted = by_priority(front);
        let slot = queue_slot(sorted, last);
        law_by_priority_permutes(front);
        lemma_queue_slot_bounds(sorted, last);
        assert(front.push(last) =~= queues);
        vstd::seq_lib::to_multiset_build(front, last);
        vstd::seq_lib::to_multiset_insert(sorted, slot, last);
    }
    vstd::seq_lib::to_multiset_len(queues);
    vstd::seq_lib::to_multiset_len(by_priority(queues));
    assert forall|q: QueueView| #[trigger] by_priority(queues).contains(q) <==> queues.contains(
        q,
    ) by {
        vstd::seq_lib::to_multiset_contains(queues, q);
        vstd::seq_lib::to_multiset_contains(by_priority(queues), q);
    }
}

/// Tasks with distinct ids have distinct ids in placement order.
proof fn lemma_by_rank_distinct(tasks: Seq<TaskView>)
    requires
        forall|a: int, b: int| 0 <= a < b < tasks.len() ==> tasks[a].id != tasks[b].id,
    ensures
        forall|a: int, b: int|
            0 <= a < b < by_rank(tasks).len() ==> by_rank(tasks)[a].id != by_rank(tasks)[b].id,
    decreases tasks.len(),
{
    if tasks.len() > 0 {
        let front = tasks.drop_last();
        let last = tasks.last();
        let sorted = by_rank(front);
        let slot = task_slot(sorted, last);
        let all = by_rank(tasks);
        assert forall|a: int, b: int| 0 <= a < b < front.len() implies front[a].id
            != front[b].id by {
            assert(tasks[a].id != tasks[b].id);
        }
        lemma_by_rank_distinct(front);
        law_by_rank_permutes(front);
        lemma_task_slot_bounds(sorted, last);
        assert(all == sorted.insert(slot, last));
        assert forall|e: TaskView| sorted.contains(e) implies e.id != last.id by {
            assert(front.contains(e));
            let j = choose|j: int| 0 <= j < front.len() && front[j] == e;
            assert(tasks[j].id != tasks[tasks.len() - 1].id);
        }
        assert forall|a: int, b: int| 0 <= a < b < all.len() implies all[a].id != all[b].id by {
            if a == slot {
                assert(sorted.contains(sorted[b - 1]));
            } else if b == slot {
                assert(sorted.contains(sorted[a]));
            } else {
                let sa = if a < slot { a } else { a - 1 };
                let sb = if b < slot { b } else { b - 1 };
                assert(sorted[sa].id != sorted[sb].id);
            }
        }
    }
}

/// Queues with distinct names have distinct names in priority order.
proof fn lemma_by_priority_distinct(queues: Seq<QueueView>)
    requires
        forall|a: int, b: int| 0 <= a < b < queues.len() ==> queues[a].name != queues[b].name,
    ensures
        forall|a: int, b: int|
            0 <= a < b < by_priority(queues).len() ==> by_priority(queues)[a].name
                != by_priority(queues)[b].name,
    decreases queues.len(),
{
    if queues.len() > 0 {
        let front = queues.drop_last();
        let last = queues.last();
        let sorted = by_priority(front);
        let slot = queue_slot(sorted, last);
        let all = by_priority(queues);
        assert forall|a: int, b: int| 0 <= a < b < front.len() implies front[a].name
            != front[b].name by {
            assert(queues[a].name != queues[b].name);
        }
        lemma_by_priority_distinct(front);
        law_by_priority_permutes(front);
        lemma_queue_slot_bounds(sorted, last);
        assert(all == sorted.insert(slot, last));
        assert forall|e: QueueView| sorted.contains(e) implies e.name != last.name by {
            assert(front.contains(e));
            let j = choose|j: int| 0 <= j < front.len() && front[j] == e;
            assert(queues[j].name != queues[queues.len() - 1].name);
        }
        assert forall|a: int, b: int| 0 <= a < b < all.len() implies all[a].name
            != all[b].name by {
            if a == slot {
                assert(sorted.contains(sorted[b - 1]));
            } else if b == slot {
                assert(sorted.contains(sorted[a]));
            } else {
                let sa = if a < slot { a } else { a - 1 };
                let sb = if b < slot { b } else { b - 1 };
                assert(sorted[sa].name != sorted[sb].name);
            }
        }
    }
}

/// A sequence in placement order stays in it when a task goes in between
/// those that it does not run before and those that it runs before.
proof fn lemma_insert_keeps_rank(sorted: Seq<TaskView>, slot: int, task: TaskView)
    requires
        0 <= slot <= sorted.len(),
        forall|a: int, b: int|
            0 <= a < b < sorted.len() ==> !#[trigger] crate::placement::runs_before(
                sorted[b],
                sorted[a],
            ),
        forall|i: int|
            slot <= i < sorted.len() ==> crate::placement::runs_before(task, #[trigger] sorted[i]),
        forall|i: int|
            0 <= i < slot ==> !crate::placement::runs_before(task, #[trigger] sorted[i]),
    ensures
        forall|a: int, b: int|
            0 <= a < b < sorted.len() + 1 ==> !#[trigger] crate::placement::runs_before(
                sorted.insert(slot, task)[b],
                sorted.insert(slot, task)[a],
            ),
{
    let all = sorted.insert(slot, task);
    assert forall|a: int, b: int|
        0 <= a < b < sorted.len() + 1 implies !#[trigger] crate::placement::runs_before(
        all[b],
        all[a],
    ) by {
        if a == slot {
            assert(all[a] == task);
            assert(all[b] == sorted[b - 1]);
            assert(crate::placement::runs_before(task, sorted[b - 1]));
        } else if b == slot {
            assert(all[b] == task);
            assert(all[a] == sorted[a]);
            assert(!crate::placement::runs_before(task, sorted[a]));
        } else if b < slot {
            assert(all[a] == sorted[a]);
            assert(all[b] == sorted[b]);
            assert(!crate::placement::runs_before(sorted[b], sorted[a]));
        } else if a < slot {
            assert(all[a] == sorted[a]);
            assert(all[b] == sorted[b - 1]);
            assert(!crate::placement::runs_before(sorted[b - 1], sorted[a]));
        } else {
            assert(all[a] == sorted[a - 1]);
            assert(all[b] == sorted[b - 1]);
            assert(!crate::placement::runs_before(sorted[b - 1], sorted[a - 1]));
        }
    }
}

/// Placement order is an order: no task stands behind one that it runs
/// before.
pub proof fn law_by_rank_is_sorted(tasks: Seq<TaskView>)
    ensures
        forall|a: int, b: int|
            0 <= a < b < by_rank(tasks).len() ==> !#[trigger] crate::placement::runs_before(
                by_rank(tasks)[b],
                by_rank(tasks)[a],
            ),
    decreases tasks.len(),
{
    if tasks.len() > 0 {
        let front = tasks.drop_last();
        let last = tasks.last();
        let sorted = by_rank(front);
        let slot = task_slot(sorted, last);
        law_by_rank_is_sorted(front);
        lemma_by_rank_len(front);
        lemma_task_slot_bounds(sorted, last);
        lemma_task_slot_splits(sorted, last);
        lemma_task_slot_front(sorted, last);
        lemma_insert_keeps_rank(sorted, slot, last);
        assert(by_rank(tasks) == sorted.insert(slot, last));
    }
}

/// A task runs before everything from its slot on, and not before what
/// stands right in front of its slot.
proof fn lemma_task_slot_splits(sorted: Seq<TaskView>, task: TaskView)
    ensures
        forall|i: int|
            task_slot(sorted, task) <= i < sorted.len() ==> crate::placement::runs_before(
                task,
                #[trigger] sorted[i],
            ),
        task_slot(sorted, task) > 0 ==> !crate::placement::runs_before(
            task,
            sorted[task_slot(sorted, task) - 1],
        ),
    decreases sorted.len(),
{
    if sorted.len() > 0 {
        lemma_task_slot_bounds(sorted.drop_last(), task);
        if crate::placement::runs_before(task, sorted.last()) {
            lemma_task_slot_splits(sorted.drop_last(), task);
            assert forall|i: int|
                task_slot(sorted, task) <= i < sorted.len() implies crate::placement::runs_before(
                task,
                #[trigger] sorted[i],
            ) by {
                if i < sorted.len() - 1 {
                    assert(sorted.drop_last()[i] == sorted[i]);
                }
            }
            if task_slot(sorted, task) > 0 {
                assert(sorted.drop_last()[task_slot(sorted, task) - 1] == sorted[task_slot(
                    sorted,
                    task,
                ) - 1]);
            }
        }
    }
}

/// A task does not run before anything in front of its slot in a sorted
/// sequence.
proof fn lemma_task_slot_front(sorted: Seq<TaskView>, task: TaskView)
    requires
        forall|a: int, b: int|
            0 <= a < b < sorted.len() ==> !#[trigger] crate::placement::runs_before(
                sorted[b],
                sorted[a],
            ),
    ensures
        forall|i: int|
            0 <= i < task_slot(sorted, task) ==> !crate::placement::runs_before(
                task,
                #[trigger] sorted[i],
            ),
{
    lemma_task_slot_bounds(sorted, task);
    lemma_task_slot_splits(sorted, task);
    let slot = task_slot(sorted, task);
    assert forall|i: int| 0 <= i < slot implies !crate::placement::runs_before(
        task,
        #[trigger] sorted[i],
    ) by {
        if i < slot - 1 {
            assert(!crate::placement::runs_before(sorted[slot - 1], sorted[i]));
        }
    }
}

/// Where each of `tasks` stands in placement order: the `i`-th entry is the
/// position of `tasks[i]` in `by_rank(tasks)`.
pub open spec fn rank_positions(tasks: Seq<TaskView>) -> Seq<int>
    decreases tasks.len(),
{
    if tasks.len() == 0 {
        Seq::empty()
    } else {
        let front = tasks.drop_last();
        let slot = task_slot(by_rank(front), tasks.last());
        Seq::new(
            tasks.len(),
            |i: int|
                if i == tasks.len() - 1 {
                    slot
                } else if rank_positions(front)[i] >= slot {
                    rank_positions(front)[i] + 1
                } else {
                    rank_positions(front)[i]
                },
        )
    }
}

/// Placement order is the stable order by rank: every task keeps its
/// record, a task that runs before another stands in front of it, and two
/// tasks of which neither runs before the other keep their order.
#[verifier::rlimit(50)]
pub proof fn law_by_rank_is_stable(tasks: Seq<TaskView>)
    ensures
        rank_positions(tasks).len() == tasks.len(),
        forall|i: int|
            0 <= i < tasks.len() ==> 0 <= #[trigger] rank_positions(tasks)[i] < tasks.len()
                && by_rank(tasks)[rank_positions(tasks)[i]] == tasks[i],
        forall|i: int, j: int|
            0 <= i < j < tasks.len() ==> if crate::placement::runs_before(tasks[j], tasks[i]) {
                #[trigger] rank_positions(tasks)[j] < #[trigger] rank_positions(tasks)[i]
            } else {
                rank_positions(tasks)[i] < rank_positions(tasks)[j]
            },
    decreases tasks.len(),
{
    if tasks.len() > 0 {
        let front = tasks.drop_last();
        let last = tasks.last();
        let sorted = by_rank(front);
        let slot = task_slot(sorted, last);
        let before = rank_positions(front);
        let now = rank_positions(tasks);
        law_by_rank_is_stable(front);
        lemma_by_rank_len(front);
        law_by_rank_is_sorted(front);
        lemma_task_slot_bounds(sorted, last);
        lemma_task_slot_splits(sorted, last);
        lemma_task_slot_front(sorted, last);
        assert(by_rank(tasks) == sorted.insert(slot, last));
        assert forall|i: int| 0 <= i < tasks.len() implies 0 <= #[trigger] now[i] < tasks.len()
            && by_rank(tasks)[now[i]] == tasks[i] by {
            if i < tasks.len() - 1 {
                assert(sorted[before[i]] == front[i]);
            }
        }
        assert forall|i: int, j: int| 0 <= i < j < tasks.len() implies if crate::placement::runs_before(
            tasks[j],
            tasks[i],
        ) {
            #[trigger] now[j] < #[trigger] now[i]
        } else {
            now[i] < now[j]
        } by {
            assert(sorted[before[i]] == front[i]);
            if j < tasks.len() - 1 {
                assert(sorted[before[j]] == front[j]);
                if crate::placement::runs_before(front[j], front[i]) {
                    assert(before[j] < before[i]);
                } else {
                    assert(before[i] < before[j]);
                }
            }
        }
    }
}

/// A queue has a higher priority than everything from its slot on, and not
/// than what stands right in front of its slot.
proof fn lemma_queue_slot_splits(sorted: Seq<QueueView>, queue: QueueView)
    ensures
        forall|i: int|
            queue_slot(sorted, queue) <= i < sorted.len() ==> queue.priority > (
            #[trigger] sorted[i]).priority,
        queue_slot(sorted, queue) > 0 ==> queue.priority <= sorted[queue_slot(sorted, queue)
            - 1].priority,
    decreases sorted.len(),
{
    if sorted.len() > 0 {
        lemma_queue_slot_bounds(sorted.drop_last(), queue);
        if queue.priority > sorted.last().priority {
            lemma_queue_slot_splits(sorted.drop_last(), queue);
            assert forall|i: int| queue_slot(sorted, queue) <= i < sorted.len() implies queue.priority
                > (#[trigger] sorted[i]).priority by {
                if i < sorted.len() - 1 {
                    assert(sorted.drop_last()[i] == sorted[i]);
                }
            }
            if queue_slot(sorted, queue) > 0 {
                assert(sorted.drop_last()[queue_slot(sorted, queue) - 1] == sorted[queue_slot(
                    sorted,
                    queue,
                ) - 1]);
            }
        }
    }
}

/// Priority order is an order: no queue stands behind one of lower
/// priority.
#[verifier::rlimit(50)]
pub proof fn law_by_priority_is_sorted(queues: Seq<QueueView>)
    ensures
        forall|a: int, b: int|
            0 <= a < b < by_priority(queues).len() ==> by_priority(queues)[a].priority
                >= by_priority(queues)[b].priority,
    decreases queues.len(),
{
    if queues.len() > 0 {
        let front = queues.drop_last();
        let last = queues.last();
        let sorted = by_priority(front);
        let slot = queue_slot(sorted, last);
        let all = by_priority(queues);
        law_by_priority_is_sorted(front);
        law_by_priority_permutes(front);
        lemma_queue_slot_bounds(sorted, last);
        lemma_queue_slot_splits(sorted, last);
        assert(all == sorted.insert(slot, last));
        assert forall|a: int, b: int| 0 <= a < b < all.len() implies all[a].priority
            >= all[b].priority by {
            if a == slot {
                assert(all[b] == sorted[b - 1]);
            } else if b == slot {
                assert(all[a] == sorted[a]);
                if slot > 0 {
                    if a < slot - 1 {
                        assert(sorted[a].priority >= sorted[slot - 1].priority);
                    }
                }
            } else {
                let sa = if a < slot { a } else { a - 1 };
                let sb = if b < slot { b } else { b - 1 };
                assert(sorted[sa].priority >= sorted[sb].priority);
            }
        }
    }
}

/// The tasks that are eligible under a list are the Waiting tasks that
/// the list names, each once where the list names each id once.
proof fn lemma_eligible(s: StateView, ids: Seq<u64>)
    requires
        s.wf(),
        ids.no_duplicates(),
    ensures
        forall|i: int|
            0 <= i < s.eligible(ids).len() ==> {
                let t = #[trigger] s.eligible(ids)[i];
                ids.contains(t.id) && s.has_task(t.id) && s.task(t.id) == t && t.state is Waiting
            },
        forall|a: int, b: int|
            0 <= a < b < s.eligible(ids).len() ==> s.eligible(ids)[a].id != s.eligible(ids)[b].id,
    decreases ids.len(),
{
    if ids.len() > 0 {
        let front = ids.drop_last();
        let id = ids.last();
        let rest = s.eligible(front);
        let all = s.eligible(ids);
        assert(front.no_duplicates());
        lemma_eligible(s, front);
        assert forall|x: u64| front.contains(x) implies ids.contains(x) && x != id by {
            let k = choose|k: int| 0 <= k < front.len() && front[k] == x;
            assert(ids[k] == x);
            assert(ids[k] != ids[ids.len() - 1]);
        }
        assert(ids.contains(id)) by {
            assert(ids[ids.len() - 1] == id);
        }
        if s.has_task(id) {
            s.lemma_task_pos(id);
        }
        assert forall|i: int| 0 <= i < all.len() implies {
            let t = #[trigger] all[i];
            ids.contains(t.id) && s.has_task(t.id) && s.task(t.id) == t && t.state is Waiting
        } by {
            if i < rest.len() {
                assert(all[i] == rest[i]);
            }
        }
        assert forall|a: int, b: int| 0 <= a < b < all.len() implies all[a].id != all[b].id by {
            assert(all[a] == rest[a]);
            if b < rest.len() {
                assert(all[b] == rest[b]);
            } else {
                assert(front.contains(rest[a].id));
            }
        }
    }
}

impl StateView {
    /// Whether GPU `gpu` is one that tasks of `queue` may be placed on: it
    /// is usable under the queue's limit, and is the queue's own or free.
    pub open spec fn gpu_fits(self, queue: QueueView, gpu: u8) -> bool {
        &&& self.gpu_usable(queue.resource_limit, gpu as u32)
        &&& (self.gpu_owned_by(queue.name, gpu as u32) || self.gpu_free(gpu as u32))
    }
}

/// The own candidates below an index are own, usable and ascending.
proof fn lemma_owned_candidates(s: StateView, queue: QueueView, n: nat)
    requires
        n <= GPU_INDEX_SPACE,
    ensures
        forall|k: int|
            0 <= k < s.owned_candidates(queue, n).len() ==> {
                let g = #[trigger] s.owned_candidates(queue, n)[k];
                g < n && s.gpu_fits(queue, g) && s.gpu_owned_by(queue.name, g as u32)
            },
        forall|a: int, b: int|
            0 <= a < b < s.owned_candidates(queue, n).len() ==> s.owned_candidates(queue, n)[a]
                < s.owned_candidates(queue, n)[b],
    decreases n,
{
    if n > 0 {
        lemma_owned_candidates(s, queue, (n - 1) as nat);
        let below = s.owned_candidates(queue, (n - 1) as nat);
        let all = s.owned_candidates(queue, n);
        assert forall|k: int| 0 <= k < all.len() implies {
            let g = #[trigger] all[k];
            g < n && s.gpu_fits(queue, g) && s.gpu_owned_by(queue.name, g as u32)
        } by {
            if k < below.len() {
                assert(all[k] == below[k]);
            }
        }
        assert forall|a: int, b: int| 0 <= a < b < all.len() implies all[a] < all[b] by {
            assert(all[a] == below[a]);
            if b < below.len() {
                assert(all[b] == below[b]);
            }
        }
    }
}

/// The free candidates below an index are free, usable and ascending.
proof fn lemma_free_candidates(s: StateView, queue: QueueView, n: nat)
    requires
        n <= GPU_INDEX_SPACE,
    ensures
        forall|k: int|
            0 <= k < s.free_candidates(queue, n).len() ==> {
                let g = #[trigger] s.free_candidates(queue, n)[k];
                g < n && s.gpu_fits(queue, g) && s.gpu_free(g as u32)
            },
        forall|a: int, b: int|
            0 <= a < b < s.free_candidates(queue, n).len() ==> s.free_candidates(queue, n)[a]
                < s.free_candidates(queue, n)[b],
    decreases n,
{
    if n > 0 {
        lemma_free_candidates(s, queue, (n - 1) as nat);
        let below = s.free_candidates(queue, (n - 1) as nat);
        let all = s.free_candidates(queue, n);
        assert forall|k: int| 0 <= k < all.len() implies {
            let g = #[trigger] all[k];
            g < n && s.gpu_fits(queue, g) && s.gpu_free(g as u32)
        } by {
            if k < below.len() {
                assert(all[k] == below[k]);
            }
        }
        assert forall|a: int, b: int| 0 <= a < b < all.len() implies all[a] < all[b] by {
            assert(all[a] == below[a]);
            if b < below.len() {
                assert(all[b] == below[b]);
            }
        }
    }
}

/// Every candidate of a queue fits the queue, and none occurs twice.
pub proof fn law_candidates_fit(s: StateView, queue: QueueView)
    ensures
        forall|k: int|
            0 <= k < s.candidates(queue).len() ==> s.gpu_fits(queue, #[trigger] s.candidates(queue)[k]),
        s.candidates(queue).no_duplicates(),
{
    let owned = s.owned_candidates(queue, GPU_INDEX_SPACE as nat);
    let free = s.free_candidates(queue, GPU_INDEX_SPACE as nat);
    let all = s.candidates(queue);
    lemma_owned_candidates(s, queue, GPU_INDEX_SPACE as nat);
    lemma_free_candidates(s, queue, GPU_INDEX_SPACE as nat);
    assert forall|k: int| 0 <= k < all.len() implies s.gpu_fits(queue, #[trigger] all[k]) by {
        if k < owned.len() {
            assert(all[k] == owned[k]);
        } else {
            assert(all[k] == free[k - owned.len()]);
        }
    }
    assert forall|a: int, b: int| 0 <= a < all.len() && 0 <= b < all.len() && a != b implies all[a]
        != all[b] by {
        let lo = if a < b { a } else { b };
        let hi = if a < b { b } else { a };
        if hi < owned.len() {
            assert(owned[lo] < owned[hi]);
        } else if lo >= owned.len() {
            assert(free[lo - owned.len()] < free[hi - owned.len()]);
        } else {
            let g = owned[lo];
            let h = free[hi - owned.len()];
            assert(s.gpu_owned_by(queue.name, g as u32));
            assert(s.gpu_free(h as u32));
        }
    }
}

/// What is unreserved among candidates is a candidate that is not
/// reserved, and occurs once where every candidate occurs once.
pub proof fn law_unreserved_are_open(candidates: Seq<u8>, reserved: Set<u8>)
    ensures
        forall|k: int|
            0 <= k < unreserved(candidates, reserved).len() ==> candidates.contains(
                #[trigger] unreserved(candidates, reserved)[k],
            ) && !reserved.contains(unreserved(candidates, reserved)[k]),
        candidates.no_duplicates() ==> unreserved(candidates, reserved).no_duplicates(),
    decreases candidates.len(),
{
    if candidates.len() > 0 {
        let front = candidates.drop_last();
        let last = candidates.last();
        let rest = unreserved(front, reserved);
        let all = unreserved(candidates, reserved);
        law_unreserved_are_open(front, reserved);
        assert forall|x: u8| front.contains(x) implies candidates.contains(x) by {
            let k = choose|k: int| 0 <= k < front.len() && front[k] == x;
            assert(candidates[k] == x);
        }
        assert(candidates.contains(last)) by {
            assert(candidates[candidates.len() - 1] == last);
        }
        assert forall|k: int| 0 <= k < all.len() implies candidates.contains(#[trigger] all[k])
            && !reserved.contains(all[k]) by {
            if k < rest.len() {
                assert(all[k] == rest[k]);
            }
        }
        if candidates.no_duplicates() {
            assert(front.no_duplicates());
            assert forall|a: int, b: int| 0 <= a < all.len() && 0 <= b < all.len() && a
                != b implies all[a] != all[b] by {
                let lo = if a < b { a } else { b };
                let hi = if a < b { b } else { a };
                assert(all[lo] == rest[lo]);
                if hi < rest.len() {
                    assert(all[hi] == rest[hi]);
                } else {
                    assert(front.contains(rest[lo]));
                    let k = choose|k: int| 0 <= k < front.len() && front[k] == rest[lo];
                    assert(candidates[k] != candidates[candidates.len() - 1]);
                }
            }
        }
    }
}

impl StateView {
    /// Whether `placement` is one that a round may make from `queue`: the
    /// queue is not the parking queue, the task is a Waiting task of the
    /// queue, and it gets as many GPUs as it needs, each once, each
    /// fitting the queue.
    pub open spec fn placement_fits(self, placement: Placement, queue: QueueView) -> bool {
        &&& queue.name != DEFAULT_WAITING_QUEUE_NAME@
        &&& self.holds(placement.task_id, TaskState::Waiting, queue.name)
        &&& self.has_task(placement.task_id)
        &&& placement.gpus.len() == self.task(placement.task_id).gpu_require
        &&& placement.gpus.no_duplicates()
        &&& forall|k: int|
            0 <= k < placement.gpus.len() ==> self.gpu_fits(queue, #[trigger] placement.gpus[k])
    }

    /// Whether `placement` fits one of the queues.
    pub open spec fn placement_sound(self, placement: Placement) -> bool {
        exists|q: int|
            0 <= q < self.queues.len() && self.placement_fits(placement, #[trigger] self.queues[q])
    }

    /// How many of `placements` are for tasks of queue `name`.
    pub open spec fn placed_for(self, placements: Seq<Placement>, name: Seq<char>) -> nat
        decreases placements.len(),
    {
        if placements.len() == 0 {
            0
        } else {
            self.placed_for(placements.drop_last(), name) + if self.task(
                placements.last().task_id,
            ).queue == name {
                1nat
            } else {
                0nat
            }
        }
    }

    /// Whether a plan is sound: every placement fits a queue, no task is
    /// placed twice, every GPU that is given is reserved, and no GPU is
    /// given twice.
    pub open spec fn plan_sound(self, plan: Plan) -> bool {
        &&& forall|i: int|
            0 <= i < plan.placements.len() ==> self.placement_sound(#[trigger] plan.placements[i])
        &&& forall|a: int, b: int|
            0 <= a < b < plan.placements.len() ==> plan.placements[a].task_id
                != plan.placements[b].task_id
        &&& forall|i: int, k: int|
            0 <= i < plan.placements.len() && 0 <= k < plan.placements[i].gpus.len()
                ==> plan.reserved.contains(#[trigger] plan.placements[i].gpus[k])
        &&& forall|a: int, b: int, i: int, j: int|
            0 <= a < b < plan.placements.len() && 0 <= i < plan.placements[a].gpus.len() && 0 <= j
                < plan.placements[b].gpus.len() ==> #[trigger] plan.placements[a].gpus[i]
                != #[trigger] plan.placements[b].gpus[j]
    }
}

/// The room of a queue: how many more tasks it may run at once.
pub open spec fn room(queue: QueueView) -> nat {
    if queue.max_concurrent > queue.running_task_ids.len() {
        (queue.max_concurrent - queue.running_task_ids.len()) as nat
    } else {
        0
    }
}

/// The part of a number of slots that can still be used.
pub open spec fn usable_slots(slots: int) -> nat {
    if slots > 0 {
        slots as nat
    } else {
        0
    }
}

/// One turn of a Waiting task of a queue keeps a sound plan sound, and
/// either changes nothing or places the task and uses up one slot.
#[verifier::rlimit(50)]
proof fn lemma_offer(s: StateView, plan: Plan, task: TaskView, q: int)
    requires
        s.lists_agree(),
        0 <= q < s.queues.len(),
        s.queues[q].name != DEFAULT_WAITING_QUEUE_NAME@,
        s.plan_sound(plan),
        s.has_task(task.id),
        s.task(task.id) == task,
        task.state is Waiting,
        s.queues[q].waiting_task_ids.contains(task.id),
        forall|i: int| 0 <= i < plan.placements.len() ==> plan.placements[i].task_id != task.id,
    ensures
        s.plan_sound(plan.offer(task, s.candidates(s.queues[q]))),
        ({
            let after = plan.offer(task, s.candidates(s.queues[q]));
            ||| after == plan
            ||| {
                &&& plan.slots > 0
                &&& after.slots == plan.slots - 1
                &&& after.placements.len() == plan.placements.len() + 1
                &&& after.placements.drop_last() == plan.placements
                &&& after.placements.last().task_id == task.id
            }
        }),
{
    let queue = s.queues[q];
    let candidates = s.candidates(queue);
    let after = plan.offer(task, candidates);
    if after != plan {
        let open = unreserved(candidates, plan.reserved);
        let chosen = if task.gpu_require == 0 {
            Seq::<u8>::empty()
        } else {
            open.take(task.gpu_require as int)
        };
        let placement = Placement { task_id: task.id, gpus: chosen };
        assert(after.placements == plan.placements.push(placement));
        assert(after.placements.drop_last() =~= plan.placements);
        law_candidates_fit(s, queue);
        law_unreserved_are_open(candidates, plan.reserved);
        lemma_lists_exact(s);
        assert(s.holds(task.id, TaskState::Waiting, queue.name));
        assert(s.placement_fits(placement, queue)) by {
            assert forall|k: int| 0 <= k < chosen.len() implies s.gpu_fits(
                queue,
                #[trigger] chosen[k],
            ) by {
                assert(chosen[k] == open[k]);
                assert(candidates.contains(open[k]));
                let c = choose|c: int| 0 <= c < candidates.len() && candidates[c] == open[k];
                assert(s.gpu_fits(queue, candidates[c]));
            }
            assert forall|a: int, b: int| 0 <= a < chosen.len() && 0 <= b < chosen.len() && a
                != b implies chosen[a] != chosen[b] by {
                assert(chosen[a] == open[a]);
                assert(chosen[b] == open[b]);
            }
        }
        assert(s.placement_sound(placement));
        let n = plan.placements.len() as int;
        assert forall|i: int| 0 <= i < after.placements.len() implies s.placement_sound(
            #[trigger] after.placements[i],
        ) by {
            if i < n {
                assert(after.placements[i] == plan.placements[i]);
            }
        }
        assert forall|a: int, b: int| 0 <= a < b < after.placements.len() implies after.placements[a].task_id
            != after.placements[b].task_id by {
            assert(after.placements[a] == plan.placements[a]);
            if b < n {
                assert(after.placements[b] == plan.placements[b]);
            }
        }
        assert forall|i: int, k: int|
            0 <= i < after.placements.len() && 0 <= k
                < after.placements[i].gpus.len() implies after.reserved.contains(
            #[trigger] after.placements[i].gpus[k],
        ) by {
            if i < n {
                assert(after.placements[i] == plan.placements[i]);
                assert(plan.reserved.contains(plan.placements[i].gpus[k]));
            } else {
                assert(chosen.to_set().contains(chosen[k]));
            }
        }
        assert forall|a: int, b: int, i: int, j: int|
            0 <= a < b < after.placements.len() && 0 <= i < after.placements[a].gpus.len() && 0 <= j
                < after.placements[b].gpus.len() implies #[trigger] after.placements[a].gpus[i]
            != #[trigger] after.placements[b].gpus[j] by {
            assert(after.placements[a] == plan.placements[a]);
            if b < n {
                assert(after.placements[b] == plan.placements[b]);
            } else {
                assert(plan.reserved.contains(plan.placements[a].gpus[i]));
                assert(chosen[j] == open[j]);
                assert(!plan.reserved.contains(open[j]));
            }
        }
    }
}

/// Whether `id` is the id of one of the first `n` tasks of `order`.
pub open spec fn among(order: Seq<TaskView>, n: int, id: u64) -> bool {
    exists|k: int| 0 <= k < n && (#[trigger] order[k]).id == id
}

/// Whether `order` lists Waiting tasks of queue `q`, each once.
pub open spec fn offers_of(s: StateView, q: int, order: Seq<TaskView>) -> bool {
    &&& forall|k: int|
        0 <= k < order.len() ==> {
            let t = #[trigger] order[k];
            s.has_task(t.id) && s.task(t.id) == t && t.state is Waiting
                && s.queues[q].waiting_task_ids.contains(t.id)
        }
    &&& forall|a: int, b: int| 0 <= a < b < order.len() ==> order[a].id != order[b].id
}

/// Where the lists agree with the records, a task in the waiting list of a
/// queue belongs to that queue.
proof fn lemma_listed_task_queue(s: StateView, q: int, id: u64)
    requires
        s.lists_agree(),
        0 <= q < s.queues.len(),
        s.queues[q].waiting_task_ids.contains(id),
    ensures
        s.has_task(id),
        s.task(id).queue == s.queues[q].name,
        s.task(id).state is Waiting,
{
    lemma_lists_exact(s);
    assert(s.holds(id, TaskState::Waiting, s.queues[q].name));
    let i = choose|i: int|
        0 <= i < s.tasks.len() && (#[trigger] s.tasks[i]).id == id && s.tasks[i].state
            == TaskState::Waiting && s.tasks[i].queue == s.queues[q].name;
    s.lemma_task_at(i);
}

/// The turns of the first `n` tasks of a queue keep a sound plan sound.
/// They leave what was placed before in place, place only tasks that had
/// their turn, and use up one slot for each.
#[verifier::rlimit(50)]
proof fn lemma_offer_all(s: StateView, start: Plan, q: int, order: Seq<TaskView>, n: int)
    requires
        s.lists_agree(),
        0 <= q < s.queues.len(),
        s.queues[q].name != DEFAULT_WAITING_QUEUE_NAME@,
        s.plan_sound(start),
        0 <= n <= order.len(),
        offers_of(s, q, order),
        forall|i: int|
            0 <= i < start.placements.len() ==> s.task(
                (#[trigger] start.placements[i]).task_id,
            ).queue != s.queues[q].name,
    ensures
        ({
            let after = start.offer_all(order, s.candidates(s.queues[q]), n);
            let name = s.queues[q].name;
            &&& s.plan_sound(after)
            &&& after.placements.len() >= start.placements.len()
            &&& forall|i: int|
                0 <= i < start.placements.len() ==> #[trigger] after.placements[i]
                    == start.placements[i]
            &&& forall|i: int|
                start.placements.len() <= i < after.placements.len() ==> among(
                    order,
                    n,
                    (#[trigger] after.placements[i]).task_id,
                )
            &&& after.placements.len() - start.placements.len() + usable_slots(after.slots)
                == usable_slots(start.slots)
            &&& s.placed_for(after.placements, name) == s.placed_for(start.placements, name)
                + after.placements.len() - start.placements.len()
            &&& forall|other: Seq<char>|
                other != name ==> #[trigger] s.placed_for(after.placements, other) == s.placed_for(
                    start.placements,
                    other,
                )
        }),
    decreases n,
{
    if n > 0 {
        lemma_offer_all(s, start, q, order, n - 1);
        let candidates = s.candidates(s.queues[q]);
        let name = s.queues[q].name;
        let earlier = start.offer_all(order, candidates, n - 1);
        let task = order[n - 1];
        let after = earlier.offer(task, candidates);
        lemma_listed_task_queue(s, q, task.id);
        assert forall|i: int| 0 <= i < earlier.placements.len() implies earlier.placements[i].task_id
            != task.id by {
            if i < start.placements.len() {
                assert(earlier.placements[i] == start.placements[i]);
            } else {
                assert(among(order, n - 1, earlier.placements[i].task_id));
                let k = choose|k: int|
                    0 <= k < n - 1 && (#[trigger] order[k]).id == earlier.placements[i].task_id;
                assert(order[k].id != order[n - 1].id);
            }
        }
        lemma_offer(s, earlier, task, q);
        assert forall|i: int| start.placements.len() <= i < after.placements.len() implies among(
            order,
            n,
            (#[trigger] after.placements[i]).task_id,
        ) by {
            if i < earlier.placements.len() {
                assert(after.placements[i] == earlier.placements[i]);
                assert(among(order, n - 1, earlier.placements[i].task_id));
                let k = choose|k: int|
                    0 <= k < n - 1 && (#[trigger] order[k]).id == earlier.placements[i].task_id;
                assert(order[k].id == after.placements[i].task_id);
            } else {
                assert(order[n - 1].id == after.placements[i].task_id);
            }
        }
        assert forall|i: int| 0 <= i < start.placements.len() implies #[trigger] after.placements[i]
            == start.placements[i] by {
            assert(earlier.placements[i] == start.placements[i]);
            if after != earlier {
                assert(after.placements.drop_last()[i] == earlier.placements[i]);
            }
        }
        if after != earlier {
            assert(s.placed_for(after.placements, name) == s.placed_for(earlier.placements, name)
                + 1);
            assert forall|other: Seq<char>| other != name implies #[trigger] s.placed_for(
                after.placements,
                other,
            ) == s.placed_for(start.placements, other) by {
                assert(s.placed_for(after.placements, other) == s.placed_for(
                    earlier.placements,
                    other,
                ));
            }
        }
    }
}

/// Whether a queue named `name` is among the first `n` of `order`.
pub open spec fn had_turn(order: Seq<QueueView>, n: int, name: Seq<char>) -> bool {
    exists|k: int| 0 <= k < n && (#[trigger] order[k]).name == name
}

/// Where nothing is placed for a queue, no placed task belongs to it.
proof fn lemma_placed_for_none(s: StateView, placements: Seq<Placement>, name: Seq<char>)
    requires
        s.placed_for(placements, name) == 0,
    ensures
        forall|i: int|
            0 <= i < placements.len() ==> s.task((#[trigger] placements[i]).task_id).queue != name,
    decreases placements.len(),
{
    if placements.len() > 0 {
        lemma_placed_for_none(s, placements.drop_last(), name);
        assert forall|i: int| 0 <= i < placements.len() implies s.task(
            (#[trigger] placements[i]).task_id,
        ).queue != name by {
            if i < placements.len() - 1 {
                assert(placements.drop_last()[i] == placements[i]);
            }
        }
    }
}

/// What is placed for a queue grows with the placements.
proof fn lemma_placed_for_grows(s: StateView, placements: Seq<Placement>, name: Seq<char>, n: int)
    requires
        0 <= n <= placements.len(),
    ensures
        s.placed_for(placements.take(n), name) <= s.placed_for(placements, name),
    decreases placements.len() - n,
{
    if n < placements.len() {
        lemma_placed_for_grows(s, placements, name, n + 1);
        assert(placements.take(n + 1).drop_last() =~= placements.take(n));
    } else {
        assert(placements.take(n) =~= placements);
    }
}

/// The turns of the first `n` queues give a sound plan, in which every
/// queue that had its turn stays within its room and no other queue has
/// anything placed.
#[verifier::rlimit(50)]
proof fn lemma_offer_queues(s: StateView, n: int)
    requires
        s.lists_agree(),
        0 <= n <= by_priority(s.queues).len(),
    ensures
        ({
            let order = by_priority(s.queues);
            let plan = s.offer_queues(order, n);
            &&& s.plan_sound(plan)
            &&& forall|q: int|
                0 <= q < s.queues.len() ==> s.placed_for(
                    plan.placements,
                    (#[trigger] s.queues[q]).name,
                ) <= if had_turn(order, n, s.queues[q].name) {
                    room(s.queues[q])
                } else {
                    0
                }
        }),
    decreases n,
{
    let order = by_priority(s.queues);
    if n > 0 {
        lemma_offer_queues(s, n - 1);
        let earlier = s.offer_queues(order, n - 1);
        let queue = order[n - 1];
        let plan = s.offer_queue(earlier, queue);
        law_by_priority_permutes(s.queues);
        lemma_by_priority_distinct(s.queues);
        assert(order.contains(queue));
        assert(s.queues.contains(queue));
        let at = choose|at: int| 0 <= at < s.queues.len() && s.queues[at] == queue;
        assert(had_turn(order, n, queue.name));
        assert(!had_turn(order, n - 1, queue.name)) by {
            if had_turn(order, n - 1, queue.name) {
                let k = choose|k: int| 0 <= k < n - 1 && (#[trigger] order[k]).name == queue.name;
                assert(order[k].name != order[n - 1].name);
            }
        }
        assert forall|q: int| 0 <= q < s.queues.len() && had_turn(
            order,
            n - 1,
            s.queues[q].name,
        ) implies had_turn(order, n, (#[trigger] s.queues[q]).name) by {
            let k = choose|k: int| 0 <= k < n - 1 && (#[trigger] order[k]).name == s.queues[q].name;
            assert(order[k].name == s.queues[q].name);
        }
        if queue.name != DEFAULT_WAITING_QUEUE_NAME@ {
            let eligible = s.eligible(queue.waiting_task_ids);
            let tasks = by_rank(eligible);
            let start = Plan {
                slots: queue.max_concurrent as int - queue.running_task_ids.len() as int,
                ..earlier
            };
            assert(queue.waiting_task_ids.no_duplicates());
            lemma_eligible(s, queue.waiting_task_ids);
            law_by_rank_permutes(eligible);
            lemma_by_rank_distinct(eligible);
            assert(offers_of(s, at, tasks)) by {
                assert forall|k: int| 0 <= k < tasks.len() implies {
                    let t = #[trigger] tasks[k];
                    s.has_task(t.id) && s.task(t.id) == t && t.state is Waiting
                        && s.queues[at].waiting_task_ids.contains(t.id)
                } by {
                    assert(tasks.contains(tasks[k]));
                    assert(eligible.contains(tasks[k]));
                    let e = choose|e: int| 0 <= e < eligible.len() && eligible[e] == tasks[k];
                    assert(eligible[e] == tasks[k]);
                }
            }
            assert(s.placed_for(earlier.placements, queue.name) == 0);
            lemma_placed_for_none(s, earlier.placements, queue.name);
            assert(s.plan_sound(start));
            lemma_offer_all(s, start, at, tasks, tasks.len() as int);
            let done = start.offer_all(tasks, s.candidates(queue), tasks.len() as int);
            assert(plan.placements == done.placements);
            assert(plan.reserved == done.reserved);
            assert(usable_slots(start.slots) == room(queue));
            assert forall|q: int| 0 <= q < s.queues.len() implies s.placed_for(
                plan.placements,
                (#[trigger] s.queues[q]).name,
            ) <= if had_turn(order, n, s.queues[q].name) {
                room(s.queues[q])
            } else {
                0
            } by {
                if q == at {
                } else {
                    if q < at {
                        assert(s.queues[q].name != s.queues[at].name);
                    } else {
                        assert(s.queues[at].name != s.queues[q].name);
                    }
                    assert(s.placed_for(done.placements, s.queues[q].name) == s.placed_for(
                        start.placements,
                        s.queues[q].name,
                    ));
                }
            }
        }
    }
}

/// A round places only Waiting tasks of queues that are scheduled, each
/// at most once, each on as many GPUs as it needs, and every one of these
/// GPUs is usable under the limit of the task's queue at that moment: it
/// is not ignored, has telemetry and qualifies, and it is the queue's own
/// or free. No GPU is given to two tasks of the round.
pub proof fn law_round_places_soundly(s: StateView)
    requires
        s.lists_agree(),
    ensures
        forall|i: int|
            0 <= i < s.placements().len() ==> s.placement_sound(#[trigger] s.placements()[i]),
        forall|a: int, b: int|
            0 <= a < b < s.placements().len() ==> s.placements()[a].task_id
                != s.placements()[b].task_id,
        forall|a: int, b: int, i: int, j: int|
            0 <= a < b < s.placements().len() && 0 <= i < s.placements()[a].gpus.len() && 0 <= j
                < s.placements()[b].gpus.len() ==> #[trigger] s.placements()[a].gpus[i]
                != #[trigger] s.placements()[b].gpus[j],
{
    lemma_offer_queues(s, by_priority(s.queues).len() as int);
}

/// A round places no more tasks of a queue than the queue has room for.
pub proof fn law_round_within_room(s: StateView, q: int)
    requires
        s.lists_agree(),
        0 <= q < s.queues.len(),
    ensures
        s.placed_for(s.placements(), s.queues[q].name) <= room(s.queues[q]),
{
    lemma_offer_queues(s, by_priority(s.queues).len() as int);
}

/// Whether `st` is what `s` has become after the first `n` placements of
/// its round: the placed tasks apart, nothing about the tasks has changed,
/// and every running list has grown by what was placed for its queue.
spec fn carried(s: StateView, st: StateView, n: int) -> bool {
    let ps = s.placements();
    &&& st.coherent()
    &&& st.tasks.len() == s.tasks.len()
    &&& forall|i: int|
        0 <= i < s.tasks.len() ==> (#[trigger] st.tasks[i]).id == s.tasks[i].id && st.tasks[i].queue
            == s.tasks[i].queue
    &&& forall|i: int|
        0 <= i < s.tasks.len() && (forall|m: int|
            0 <= m < n ==> (#[trigger] ps[m]).task_id != s.tasks[i].id) ==> #[trigger] st.tasks[i]
            == s.tasks[i]
    &&& st.queues.len() == s.queues.len()
    &&& forall|q: int|
        0 <= q < s.queues.len() ==> (#[trigger] st.queues[q]).name == s.queues[q].name
            && st.queues[q].max_concurrent == s.queues[q].max_concurrent
            && st.queues[q].running_task_ids.len() == s.queues[q].running_task_ids.len()
            + s.placed_for(ps.take(n), s.queues[q].name)
}

/// Carrying out the first `n` placements of a round keeps the store
/// coherent.
#[verifier::rlimit(50)]
proof fn lemma_carry_out(s: StateView, n: int)
    requires
        s.coherent(),
        0 <= n <= s.placements().len(),
    ensures
        carried(s, s.carry_out(s.placements(), n), n),
    decreases n,
{
    let ps = s.placements();
    if n == 0 {
        assert(ps.take(0) =~= Seq::<Placement>::empty());
    } else {
        lemma_carry_out(s, n - 1);
        law_round_places_soundly(s);
        let earlier = s.carry_out(ps, n - 1);
        let p = ps[n - 1];
        let x = p.task_id;
        let now = earlier.update_task_state(x, TaskState::Running, Some(p.gpus), None);
        assert(s.placement_sound(p));
        let q = choose|q: int|
            0 <= q < s.queues.len() && s.placement_fits(p, #[trigger] s.queues[q]);
        let name = s.queues[q].name;
        assert(s.holds(x, TaskState::Waiting, name));
        let i = choose|i: int|
            0 <= i < s.tasks.len() && (#[trigger] s.tasks[i]).id == x && s.tasks[i].state
                == TaskState::Waiting && s.tasks[i].queue == name;
        s.lemma_task_at(i);
        assert(earlier.tasks[i] == s.tasks[i]) by {
            assert forall|m: int| 0 <= m < n - 1 implies (#[trigger] ps[m]).task_id
                != s.tasks[i].id by {
                assert(ps[m].task_id != ps[n - 1].task_id);
            }
        }
        earlier.lemma_task_at(i);
        earlier.lemma_queue_at(q);
        law_round_within_room(s, q);
        lemma_placed_for_grows(s, ps, name, n);
        assert(ps.take(n).drop_last() =~= ps.take(n - 1));
        assert(ps.take(n).last() == p);
        assert(s.placed_for(ps.take(n), name) == s.placed_for(ps.take(n - 1), name) + 1);
        assert(earlier.queues[q].running_task_ids.len() < earlier.queues[q].max_concurrent);
        lemma_update_task_state_coherent(earlier, x, TaskState::Running, Some(p.gpus), None);
        lemma_lists_exact(earlier);
        lemma_holds_at(earlier, i);
        assert(!earlier.queues[q].running_task_ids.contains(x));
        crate::idlist::lemma_without_absent(earlier.queues[q].running_task_ids, x);
        assert(now.queues =~= earlier.queues.update(
            q,
            earlier.queues[q].transition(x, TaskState::Running),
        ));
        assert forall|other: int|
            0 <= other < s.tasks.len() && (forall|m: int|
                0 <= m < n ==> (#[trigger] ps[m]).task_id != s.tasks[other].id) implies #[trigger] now.tasks[other]
            == s.tasks[other] by {
            assert(ps[n - 1].task_id != s.tasks[other].id);
            assert forall|m: int| 0 <= m < n - 1 implies (#[trigger] ps[m]).task_id
                != s.tasks[other].id by {
                assert(ps[m].task_id != s.tasks[other].id);
            }
            assert(earlier.tasks[other] == s.tasks[other]);
        }
        assert forall|rank: int| 0 <= rank < s.queues.len() implies (#[trigger] now.queues[rank]).name
            == s.queues[rank].name && now.queues[rank].max_concurrent == s.queues[rank].max_concurrent
            && now.queues[rank].running_task_ids.len() == s.queues[rank].running_task_ids.len()
            + s.placed_for(ps.take(n), s.queues[rank].name) by {
            assert(earlier.queues[rank].name == s.queues[rank].name);
            if rank != q {
                if rank < q {
                    assert(s.queues[rank].name != s.queues[q].name);
                } else {
                    assert(s.queues[q].name != s.queues[rank].name);
                }
                assert(s.placed_for(ps.take(n), s.queues[rank].name) == s.placed_for(
                    ps.take(n - 1),
                    s.queues[rank].name,
                ));
            }
        }
        assert forall|other: int| 0 <= other < s.tasks.len() implies (#[trigger] now.tasks[other]).id
            == s.tasks[other].id && now.tasks[other].queue == s.tasks[other].queue by {
            assert(earlier.tasks[other].id == s.tasks[other].id);
        }
    }
}

/// A scheduling round keeps the store coherent: in particular no queue
/// comes to run more tasks than its cap allows.
pub proof fn law_round_keeps_coherence(s: StateView)
    requires
        s.coherent(),
    ensures
        s.after_round().coherent(),
{
    lemma_carry_out(s, s.placements().len() as int);
}

/// A scheduling round keeps the lists of the queues in agreement with the
/// records of the tasks, whatever the caps of the queues.
pub proof fn law_round_keeps_lists_agreeing(s: StateView)
    requires
        s.lists_agree(),
    ensures
        s.after_round().lists_agree(),
{
    lemma_carry_out_shape(s, s.placements().len() as int);
}

/// Carrying out placements keeps the lists in agreement with the records,
/// and leaves the number of tasks, their ids, what they require and the
/// ignore set as they are.
proof fn lemma_carry_out_shape(s: StateView, n: int)
    requires
        s.lists_agree(),
        0 <= n <= s.placements().len(),
    ensures
        s.carry_out(s.placements(), n).lists_agree(),
        s.carry_out(s.placements(), n).wf(),
        s.carry_out(s.placements(), n).ignored_gpus == s.ignored_gpus,
        s.carry_out(s.placements(), n).tasks.len() == s.tasks.len(),
        forall|i: int|
            0 <= i < s.tasks.len() ==> (#[trigger] s.carry_out(s.placements(), n).tasks[i]).id
                == s.tasks[i].id && s.carry_out(s.placements(), n).tasks[i].gpu_require
                == s.tasks[i].gpu_require,
        forall|i: int|
            0 <= i < s.tasks.len() && (forall|m: int|
                0 <= m < n ==> (#[trigger] s.placements()[m]).task_id != s.tasks[i].id)
                ==> #[trigger] s.carry_out(s.placements(), n).tasks[i] == s.tasks[i],
    decreases n,
{
    if n > 0 {
        lemma_carry_out_shape(s, n - 1);
        let ps = s.placements();
        let earlier = s.carry_out(ps, n - 1);
        let now = s.carry_out(ps, n);
        let x = ps[n - 1].task_id;
        crate::invariants::lemma_update_task_state_agrees(
            earlier,
            x,
            TaskState::Running,
            Some(ps[n - 1].gpus),
            None,
        );
        if earlier.has_task(x) {
            earlier.lemma_task_pos(x);
        }
        assert forall|i: int|
            0 <= i < s.tasks.len() && (forall|m: int|
                0 <= m < n ==> (#[trigger] ps[m]).task_id != s.tasks[i].id) implies #[trigger] now.tasks[i]
            == s.tasks[i] by {
            assert(ps[n - 1].task_id != s.tasks[i].id);
            assert forall|m: int| 0 <= m < n - 1 implies (#[trigger] ps[m]).task_id
                != s.tasks[i].id by {
                assert(ps[m].task_id != s.tasks[i].id);
            }
            assert(earlier.tasks[i] == s.tasks[i]);
        }
    }
}

/// Two placements of a round are for two tasks.
proof fn lemma_placement_ids_apart(s: StateView, a: int, b: int)
    requires
        s.lists_agree(),
        0 <= a < s.placements().len(),
        0 <= b < s.placements().len(),
        a != b,
    ensures
        s.placements()[a].task_id != s.placements()[b].task_id,
{
    law_round_places_soundly(s);
    let ps = s.placements();
    if a < b {
        assert(ps[a].task_id != ps[b].task_id);
    } else {
        assert(ps[b].task_id != ps[a].task_id);
    }
}

/// The task of a placement exists.
proof fn lemma_placement_task(s: StateView, m: int)
    requires
        s.lists_agree(),
        0 <= m < s.placements().len(),
    ensures
        s.has_task(s.placements()[m].task_id),
{
    law_round_places_soundly(s);
    assert(s.placement_sound(s.placements()[m]));
}

/// After the first `n` placements of a round every task that was placed
/// is Running on the GPUs of its placement.
#[verifier::rlimit(50)]
proof fn lemma_carry_out_records(s: StateView, n: int)
    requires
        s.lists_agree(),
        0 <= n <= s.placements().len(),
    ensures
        forall|i: int, m: int|
            0 <= i < s.tasks.len() && 0 <= m < n && (#[trigger] s.placements()[m]).task_id == (
            #[trigger] s.tasks[i]).id ==> {
                let t = s.carry_out(s.placements(), n).tasks[i];
                t.state is Running && t.gpu_ids == s.placements()[m].gpus
            },
    decreases n,
{
    let ps = s.placements();
    if n > 0 {
        lemma_carry_out_records(s, n - 1);
        lemma_carry_out_shape(s, n - 1);
        lemma_placement_task(s, n - 1);
        let earlier = s.carry_out(ps, n - 1);
        let now = s.carry_out(ps, n);
        let x = ps[n - 1].task_id;
        let ix = s.task_pos(x);
        s.lemma_task_pos(x);
        assert(earlier.tasks[ix].id == x);
        earlier.lemma_task_at(ix);
        assert(now.tasks == earlier.tasks.update(
            ix,
            StateView::task_in_state(earlier.tasks[ix], TaskState::Running, Some(ps[n - 1].gpus), None),
        ));
        assert forall|i: int, m: int|
            0 <= i < s.tasks.len() && 0 <= m < n && (#[trigger] ps[m]).task_id == (
            #[trigger] s.tasks[i]).id implies {
            let t = now.tasks[i];
            t.state is Running && t.gpu_ids == ps[m].gpus
        } by {
            if m < n - 1 {
                lemma_placement_ids_apart(s, m, n - 1);
            }
            if i != ix {
                assert(now.tasks[i] == earlier.tasks[i]);
            }
        }
    }
}

/// What the store reads like after a round: the ignore set and the ids
/// are as before, a task that was placed runs on the GPUs of its
/// placement, and every other task is as it was.
pub open spec fn round_done(s: StateView, st: StateView) -> bool {
    let ps = s.placements();
    &&& st.ignored_gpus == s.ignored_gpus
    &&& st.tasks.len() == s.tasks.len()
    &&& forall|i: int| 0 <= i < s.tasks.len() ==> (#[trigger] st.tasks[i]).id == s.tasks[i].id
    &&& forall|i: int|
        0 <= i < s.tasks.len() && !among_placed(s, s.tasks[i].id) ==> #[trigger] st.tasks[i]
            == s.tasks[i]
    &&& forall|i: int, m: int|
        0 <= i < s.tasks.len() && 0 <= m < ps.len() && (#[trigger] ps[m]).task_id == (
        #[trigger] s.tasks[i]).id ==> st.tasks[i].state is Running && st.tasks[i].gpu_ids
            == ps[m].gpus && st.tasks[i].gpu_require == s.tasks[i].gpu_require
}

/// Whether the round places the task with id `id`.
pub open spec fn among_placed(s: StateView, id: u64) -> bool {
    exists|m: int| 0 <= m < s.placements().len() && (#[trigger] s.placements()[m]).task_id == id
}

/// A round carries out its placements and nothing else: afterwards every
/// task that was placed is Running on exactly the GPUs of its placement,
/// and every other task is as it was.
pub proof fn law_round_records_placements(s: StateView)
    requires
        s.lists_agree(),
    ensures
        round_done(s, s.after_round()),
{
    let ps = s.placements();
    let n = ps.len() as int;
    let st = s.after_round();
    lemma_carry_out_shape(s, n);
    lemma_carry_out_records(s, n);
    assert forall|i: int|
        0 <= i < s.tasks.len() && !among_placed(s, s.tasks[i].id) implies #[trigger] st.tasks[i]
        == s.tasks[i] by {
        assert forall|m: int| 0 <= m < n implies (#[trigger] ps[m]).task_id != s.tasks[i].id by {
            if ps[m].task_id == s.tasks[i].id {
                assert(among_placed(s, s.tasks[i].id));
            }
        }
    }
}

} // verus!

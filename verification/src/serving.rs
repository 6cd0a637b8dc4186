//! What a scheduling round gives to the tasks it starts, in every store:
//! also in one whose lists and records have come apart.

use crate::models::{QueueView, TaskView, DEFAULT_WAITING_QUEUE_NAME};
use crate::placement::{by_priority, by_rank, unreserved, Placement, Plan};
use crate::round::{law_by_priority_permutes, law_by_rank_permutes, law_candidates_fit};
use crate::store::StateView;
use vstd::prelude::*;

verus! {

impl StateView {
    /// Whether `placement` serves a task from `queue`: the queue is not the
    /// parking queue and lists the task as waiting, the task is Waiting, and
    /// it gets as many GPUs as it requires, each once, each fitting the
    /// queue.
    pub open spec fn placement_serves(self, placement: Placement, queue: QueueView) -> bool {
        &&& queue.name != DEFAULT_WAITING_QUEUE_NAME@
        &&& queue.waiting_task_ids.contains(placement.task_id)
        &&& self.has_task(placement.task_id)
        &&& self.task(placement.task_id).state is Waiting
        &&& placement.gpus.len() == self.task(placement.task_id).gpu_require
        &&& placement.gpus.no_duplicates()
        &&& forall|k: int|
            0 <= k < placement.gpus.len() ==> self.gpu_fits(queue, #[trigger] placement.gpus[k])
    }

    /// Whether `placement` serves a task from one of the queues.
    pub open spec fn placement_served(self, placement: Placement) -> bool {
        exists|q: int|
            0 <= q < self.queues.len() && self.placement_serves(placement, #[trigger] self.queues[q])
    }

    /// Whether every placement of a plan serves a task from one of the
    /// queues, every GPU that is given is reserved, and no GPU is given
    /// twice.
    pub open spec fn plan_serves(self, plan: Plan) -> bool {
        &&& forall|i: int|
            0 <= i < plan.placements.len() ==> self.placement_served(#[trigger] plan.placements[i])
        &&& forall|i: int, k: int|
            0 <= i < plan.placements.len() && 0 <= k < plan.placements[i].gpus.len()
                ==> plan.reserved.contains(#[trigger] plan.placements[i].gpus[k])
        &&& forall|a: int, b: int, i: int, j: int|
            0 <= a < b < plan.placements.len() && 0 <= i < plan.placements[a].gpus.len() && 0 <= j
                < plan.placements[b].gpus.len() ==> #[trigger] plan.placements[a].gpus[i]
                != #[trigger] plan.placements[b].gpus[j]
    }
}

/// The tasks that are eligible under a list are Waiting tasks that the
/// list names.
proof fn lemma_eligible_waiting(s: StateView, ids: Seq<u64>)
    ensures
        forall|i: int|
            0 <= i < s.eligible(ids).len() ==> {
                let t = #[trigger] s.eligible(ids)[i];
                ids.contains(t.id) && s.has_task(t.id) && s.task(t.id) == t && t.state is Waiting
            },
    decreases ids.len(),
{
    if ids.len() > 0 {
        let front = ids.drop_last();
        let id = ids.last();
        let rest = s.eligible(front);
        let all = s.eligible(ids);
        lemma_eligible_waiting(s, front);
        assert(ids[ids.len() - 1] == id);
        if s.has_task(id) {
            s.lemma_task_pos(id);
        }
        assert forall|i: int| 0 <= i < all.len() implies {
            let t = #[trigger] all[i];
            ids.contains(t.id) && s.has_task(t.id) && s.task(t.id) == t && t.state is Waiting
        } by {
            if i < rest.len() {
                assert(all[i] == rest[i]);
                let k = choose|k: int| 0 <= k < front.len() && front[k] == rest[i].id;
                assert(ids[k] == rest[i].id);
            }
        }
    }
}

/// The turn of one waiting task of a queue keeps a plan serving.
proof fn lemma_offer_serves(s: StateView, plan: Plan, task: TaskView, q: int)
    requires
        0 <= q < s.queues.len(),
        s.queues[q].name != DEFAULT_WAITING_QUEUE_NAME@,
        s.plan_serves(plan),
        s.has_task(task.id),
        s.task(task.id) == task,
        task.state is Waiting,
        s.queues[q].waiting_task_ids.contains(task.id),
    ensures
        s.plan_serves(plan.offer(task, s.candidates(s.queues[q]))),
{
    let queue = s.queues[q];
    let candidates = s.candidates(queue);
    let after = plan.offer(task, candidates);
    if after != plan {
        let open = unreserved(candidates, plan.reserved);
        let chosen = if task.gpu_require == 0 {
            Seq::<u8>::empty()
        } else {
            open.take(task.gpu_require as int)
        };
        let placement = Placement { task_id: task.id, gpus: chosen };
        let n = plan.placements.len() as int;
        assert(after.placements == plan.placements.push(placement));
        law_candidates_fit(s, queue);
        crate::round::law_unreserved_are_open(candidates, plan.reserved);
        assert(s.placement_serves(placement, queue)) by {
            assert forall|k: int| 0 <= k < chosen.len() implies s.gpu_fits(
                queue,
                #[trigger] chosen[k],
            ) by {
                assert(chosen[k] == open[k]);
                assert(candidates.contains(open[k]));
                let c = choose|c: int| 0 <= c < candidates.len() && candidates[c] == open[k];
                assert(s.gpu_fits(queue, candidates[c]));
            }
            assert forall|a: int, b: int| 0 <= a < chosen.len() && 0 <= b < chosen.len() && a
                != b implies chosen[a] != chosen[b] by {
                assert(chosen[a] == open[a]);
                assert(chosen[b] == open[b]);
            }
        }
        assert(s.placement_served(placement));
        assert forall|i: int| 0 <= i < after.placements.len() implies s.placement_served(
            #[trigger] after.placements[i],
        ) by {
            if i < n {
                assert(after.placements[i] == plan.placements[i]);
            }
        }
        assert forall|i: int, k: int|
            0 <= i < after.placements.len() && 0 <= k
                < after.placements[i].gpus.len() implies after.reserved.contains(
            #[trigger] after.placements[i].gpus[k],
        ) by {
            if i < n {
                assert(after.placements[i] == plan.placements[i]);
                assert(plan.reserved.contains(plan.placements[i].gpus[k]));
            } else {
                assert(chosen.to_set().contains(chosen[k]));
            }
        }
        assert forall|a: int, b: int, i: int, j: int|
            0 <= a < b < after.placements.len() && 0 <= i < after.placements[a].gpus.len() && 0 <= j
                < after.placements[b].gpus.len() implies #[trigger] after.placements[a].gpus[i]
            != #[trigger] after.placements[b].gpus[j] by {
            assert(after.placements[a] == plan.placements[a]);
            if b < n {
                assert(after.placements[b] == plan.placements[b]);
            } else {
                assert(plan.reserved.contains(plan.placements[a].gpus[i]));
                assert(chosen[j] == open[j]);
                assert(!plan.reserved.contains(open[j]));
            }
        }
    }
}

/// The turns of the first `n` waiting tasks of a queue keep a plan
/// serving.
proof fn lemma_offer_all_serves(s: StateView, start: Plan, q: int, order: Seq<TaskView>, n: int)
    requires
        0 <= q < s.queues.len(),
        s.queues[q].name != DEFAULT_WAITING_QUEUE_NAME@,
        s.plan_serves(start),
        0 <= n <= order.len(),
        forall|k: int|
            0 <= k < order.len() ==> {
                let t = #[trigger] order[k];
                s.has_task(t.id) && s.task(t.id) == t && t.state is Waiting
                    && s.queues[q].waiting_task_ids.contains(t.id)
            },
    ensures
        s.plan_serves(start.offer_all(order, s.candidates(s.queues[q]), n)),
    decreases n,
{
    if n > 0 {
        lemma_offer_all_serves(s, start, q, order, n - 1);
        let earlier = start.offer_all(order, s.candidates(s.queues[q]), n - 1);
        let task = order[n - 1];
        lemma_offer_serves(s, earlier, task, q);
    }
}

/// The turns of the first `n` queues make a plan that serves.
proof fn lemma_offer_queues_serve(s: StateView, n: int)
    requires
        0 <= n <= by_priority(s.queues).len(),
    ensures
        s.plan_serves(s.offer_queues(by_priority(s.queues), n)),
    decreases n,
{
    let order = by_priority(s.queues);
    if n > 0 {
        lemma_offer_queues_serve(s, n - 1);
        let earlier = s.offer_queues(order, n - 1);
        let queue = order[n - 1];
        let plan = s.offer_queue(earlier, queue);
        law_by_priority_permutes(s.queues);
        assert(order.contains(queue));
        assert(s.queues.contains(queue));
        let at = choose|at: int| 0 <= at < s.queues.len() && s.queues[at] == queue;
        if queue.name != DEFAULT_WAITING_QUEUE_NAME@ {
            let eligible = s.eligible(queue.waiting_task_ids);
            let tasks = by_rank(eligible);
            let start = Plan {
                slots: queue.max_concurrent as int - queue.running_task_ids.len() as int,
                ..earlier
            };
            lemma_eligible_waiting(s, queue.waiting_task_ids);
            law_by_rank_permutes(eligible);
            assert forall|k: int| 0 <= k < tasks.len() implies {
                let t = #[trigger] tasks[k];
                s.has_task(t.id) && s.task(t.id) == t && t.state is Waiting
                    && s.queues[at].waiting_task_ids.contains(t.id)
            } by {
                assert(tasks.contains(tasks[k]));
                assert(eligible.contains(tasks[k]));
                let e = choose|e: int| 0 <= e < eligible.len() && eligible[e] == tasks[k];
                assert(eligible[e] == tasks[k]);
            }
            assert(s.plan_serves(start));
            lemma_offer_all_serves(s, start, at, tasks, tasks.len() as int);
            let done = start.offer_all(tasks, s.candidates(queue), tasks.len() as int);
            assert(plan.placements == done.placements);
            assert(plan.reserved == done.reserved);
        }
    }
}

/// In every store, a round places only Waiting tasks that a scheduled
/// queue lists as waiting, each on as many GPUs as it requires, each GPU
/// once, and every one of these GPUs fits the queue that offered the task:
/// it is not ignored, has telemetry, qualifies under the limit of that
/// queue, and is the queue's own or free. No GPU is given twice in one
/// round.
pub proof fn law_round_serves(s: StateView)
    ensures
        s.plan_serves(s.offer_queues(by_priority(s.queues), by_priority(s.queues).len() as int)),
        forall|m: int|
            0 <= m < s.placements().len() ==> s.placement_served(#[trigger] s.placements()[m]),
        forall|a: int, b: int, i: int, j: int|
            0 <= a < b < s.placements().len() && 0 <= i < s.placements()[a].gpus.len() && 0 <= j
                < s.placements()[b].gpus.len() ==> #[trigger] s.placements()[a].gpus[i]
                != #[trigger] s.placements()[b].gpus[j],
{
    lemma_offer_queues_serve(s, by_priority(s.queues).len() as int);
}

/// Whether `after` reads as `before` does after a round: the ignore set,
/// the number of tasks and their ids are the same; a task that was not
/// Waiting is as it was; and a task that was Waiting and is Running holds
/// as many GPUs as it requires, each once and none of them ignored, all of
/// them fitting a queue that listed the task as waiting.
pub open spec fn round_served(before: StateView, after: StateView) -> bool {
    &&& after.ignored_gpus == before.ignored_gpus
    &&& after.tasks.len() == before.tasks.len()
    &&& forall|i: int|
        0 <= i < before.tasks.len() ==> (#[trigger] after.tasks[i]).id == before.tasks[i].id
            && after.tasks[i].gpu_require == before.tasks[i].gpu_require
    &&& forall|i: int|
        0 <= i < before.tasks.len() && !(before.tasks[i].state is Waiting)
            ==> #[trigger] after.tasks[i] == before.tasks[i]
    &&& forall|i: int|
        0 <= i < before.tasks.len() && before.tasks[i].state is Waiting && (
        #[trigger] after.tasks[i]).state is Running ==> started_served(
            before,
            after.tasks[i],
        )
}

/// Whether `task` holds what a round of `before` may give it: as many GPUs
/// as it requires, each once, none of them ignored, all of them fitting a
/// scheduled queue that listed the task as waiting.
pub open spec fn started_served(before: StateView, task: TaskView) -> bool {
    &&& task.gpu_ids.len() == task.gpu_require
    &&& task.gpu_ids.no_duplicates()
    &&& forall|k: int|
        0 <= k < task.gpu_ids.len() ==> !before.ignored_gpus.contains(
            (#[trigger] task.gpu_ids[k]) as u32,
        )
    &&& exists|q: int|
        0 <= q < before.queues.len() && (#[trigger] before.queues[q]).name
            != DEFAULT_WAITING_QUEUE_NAME@ && before.queues[q].waiting_task_ids.contains(task.id)
            && forall|k: int|
            0 <= k < task.gpu_ids.len() ==> before.gpu_fits(
                before.queues[q],
                #[trigger] task.gpu_ids[k],
            )
    &&& exists|m: int|
        0 <= m < before.placements().len() && (#[trigger] before.placements()[m]).task_id
            == task.id && before.placements()[m].gpus == task.gpu_ids
}

/// Whether `after` is what the first `n` placements make of `before`: the
/// ignore set, the number of tasks, their ids and what they require are
/// the same, and every task is as it was or runs on the GPUs of one of
/// these placements.
spec fn carried_plainly(before: StateView, after: StateView, n: int) -> bool {
    let ps = before.placements();
    &&& after.ignored_gpus == before.ignored_gpus
    &&& after.tasks.len() == before.tasks.len()
    &&& forall|i: int|
        0 <= i < before.tasks.len() ==> (#[trigger] after.tasks[i]).id == before.tasks[i].id
            && after.tasks[i].gpu_require == before.tasks[i].gpu_require
    &&& forall|i: int|
        0 <= i < before.tasks.len() ==> #[trigger] after.tasks[i] == before.tasks[i] || exists|
            m: int,
        |
            0 <= m < n && (#[trigger] ps[m]).task_id == before.tasks[i].id && after.tasks[i].state
                is Running && after.tasks[i].gpu_ids == ps[m].gpus
}

/// Carrying out placements changes nothing but the records of the tasks
/// that are placed.
proof fn lemma_carry_out_plainly(s: StateView, n: int)
    requires
        0 <= n <= s.placements().len(),
    ensures
        carried_plainly(s, s.carry_out(s.placements(), n), n),
    decreases n,
{
    if n > 0 {
        lemma_carry_out_plainly(s, n - 1);
        let ps = s.placements();
        let earlier = s.carry_out(ps, n - 1);
        let now = s.carry_out(ps, n);
        let x = ps[n - 1].task_id;
        if earlier.has_task(x) {
            earlier.lemma_task_pos(x);
            let p = earlier.task_pos(x);
            assert forall|i: int| 0 <= i < s.tasks.len() implies #[trigger] now.tasks[i]
                == s.tasks[i] || exists|m: int|
                0 <= m < n && (#[trigger] ps[m]).task_id == s.tasks[i].id && now.tasks[i].state
                    is Running && now.tasks[i].gpu_ids == ps[m].gpus by {
                if i == p {
                    assert(ps[n - 1].task_id == s.tasks[i].id);
                } else {
                    assert(now.tasks[i] == earlier.tasks[i]);
                    if earlier.tasks[i] != s.tasks[i] {
                        let m = choose|m: int|
                            0 <= m < n - 1 && (#[trigger] ps[m]).task_id == s.tasks[i].id
                                && earlier.tasks[i].state is Running && earlier.tasks[i].gpu_ids
                                == ps[m].gpus;
                        assert(ps[m].task_id == s.tasks[i].id);
                    }
                }
            }
        } else {
            assert forall|i: int| 0 <= i < s.tasks.len() implies #[trigger] now.tasks[i]
                == s.tasks[i] || exists|m: int|
                0 <= m < n && (#[trigger] ps[m]).task_id == s.tasks[i].id && now.tasks[i].state
                    is Running && now.tasks[i].gpu_ids == ps[m].gpus by {
                if earlier.tasks[i] != s.tasks[i] {
                    let m = choose|m: int|
                        0 <= m < n - 1 && (#[trigger] ps[m]).task_id == s.tasks[i].id
                            && earlier.tasks[i].state is Running && earlier.tasks[i].gpu_ids
                            == ps[m].gpus;
                    assert(ps[m].task_id == s.tasks[i].id);
                }
            }
        }
    }
}

/// In a store with distinct ids the task at a position is the task of its
/// id.
proof fn lemma_task_there(s: StateView, i: int)
    requires
        s.ids_distinct(),
        0 <= i < s.tasks.len(),
    ensures
        s.has_task(s.tasks[i].id),
        s.task(s.tasks[i].id) == s.tasks[i],
{
    let j = s.task_pos(s.tasks[i].id);
    if j < i {
        assert(s.tasks[j].id != s.tasks[i].id);
    } else if i < j {
        assert(s.tasks[i].id != s.tasks[j].id);
    }
}

/// In every store in which no task id occurs twice, a round touches only
/// tasks that were Waiting, and every task that it brings from Waiting to
/// Running then holds the GPUs of one of the round's placements: as many
/// as it requires, each once, none of them ignored, and all of them
/// fitting a scheduled queue that listed the task as waiting.
pub proof fn law_round_starts_served(s: StateView)
    requires
        s.ids_distinct(),
    ensures
        round_served(s, s.after_round()),
        s.after_round().ids_distinct(),
{
    let ps = s.placements();
    let st = s.after_round();
    lemma_carry_out_plainly(s, ps.len() as int);
    law_round_serves(s);
    assert forall|i: int| 0 <= i < s.tasks.len() && st.tasks[i] != s.tasks[i] implies s.tasks[i].state
        is Waiting && ((#[trigger] st.tasks[i]).state is Running ==> started_served(
        s,
        st.tasks[i],
    )) by {
        let m = choose|m: int|
            0 <= m < ps.len() && (#[trigger] ps[m]).task_id == s.tasks[i].id && st.tasks[i].state
                is Running && st.tasks[i].gpu_ids == ps[m].gpus;
        assert(s.placement_served(ps[m]));
        let q = choose|q: int|
            0 <= q < s.queues.len() && s.placement_serves(ps[m], #[trigger] s.queues[q]);
        lemma_task_there(s, i);
        assert(s.task(ps[m].task_id) == s.tasks[i]);
        assert forall|k: int| 0 <= k < st.tasks[i].gpu_ids.len() implies !s.ignored_gpus.contains(
            (#[trigger] st.tasks[i].gpu_ids[k]) as u32,
        ) && s.gpu_fits(s.queues[q], st.tasks[i].gpu_ids[k]) by {
            assert(s.gpu_fits(s.queues[q], ps[m].gpus[k]));
        }
        assert(s.queues[q].waiting_task_ids.contains(st.tasks[i].id));
    }
}

/// In every store in which no task id occurs twice, a round leaves every
/// Running task with as many GPUs as it requires, each once and none of
/// them ignored.
pub proof fn law_round_keeps_gpus_counted(s: StateView)
    requires
        s.ids_distinct(),
        s.running_gpus_sound(),
    ensures
        s.after_round().running_gpus_sound(),
{
    let st = s.after_round();
    law_round_starts_served(s);
    assert forall|i: int| 0 <= i < st.tasks.len() && (#[trigger] st.tasks[i]).state is Running implies {
        &&& st.tasks[i].gpu_ids.len() == st.tasks[i].gpu_require
        &&& st.tasks[i].gpu_ids.no_duplicates()
        &&& forall|k: int|
            0 <= k < st.tasks[i].gpu_ids.len() ==> !st.ignored_gpus.contains(
                (#[trigger] st.tasks[i].gpu_ids[k]) as u32,
            )
    } by {
        if s.tasks[i].state is Waiting {
            assert(started_served(s, st.tasks[i]));
        } else {
            assert(st.tasks[i] == s.tasks[i]);
            assert(s.tasks[i].state is Running);
        }
    }
}

/// In every store in which no task id occurs twice, a round that places
/// nothing on a GPU that a Running task holds makes no two Running tasks
/// share a GPU.
pub proof fn law_round_keeps_gpus_apart(s: StateView)
    requires
        s.ids_distinct(),
        s.running_gpus_exclusive(),
        s.round_spares_running(),
    ensures
        s.after_round().running_gpus_exclusive(),
{
    let st = s.after_round();
    let ps = s.placements();
    law_round_starts_served(s);
    law_round_serves(s);
    assert forall|a: int, b: int, i: int, j: int|
        0 <= a < st.tasks.len() && 0 <= b < st.tasks.len() && a != b && st.tasks[a].state is Running
            && st.tasks[b].state is Running && 0 <= i < st.tasks[a].gpu_ids.len() && 0 <= j
            < st.tasks[b].gpu_ids.len() implies #[trigger] st.tasks[a].gpu_ids[i]
        != #[trigger] st.tasks[b].gpu_ids[j] by {
        if a < b {
            assert(s.tasks[a].id != s.tasks[b].id);
        } else {
            assert(s.tasks[b].id != s.tasks[a].id);
        }
        let new_a = s.tasks[a].state is Waiting;
        let new_b = s.tasks[b].state is Waiting;
        if !new_a {
            assert(st.tasks[a] == s.tasks[a]);
        }
        if !new_b {
            assert(st.tasks[b] == s.tasks[b]);
        }
        if new_a && new_b {
            assert(started_served(s, st.tasks[a]));
            assert(started_served(s, st.tasks[b]));
            let ma = choose|m: int|
                0 <= m < ps.len() && (#[trigger] ps[m]).task_id == st.tasks[a].id && ps[m].gpus
                    == st.tasks[a].gpu_ids;
            let mb = choose|m: int|
                0 <= m < ps.len() && (#[trigger] ps[m]).task_id == st.tasks[b].id && ps[m].gpus
                    == st.tasks[b].gpu_ids;
            if ma < mb {
                assert(ps[ma].gpus[i] != ps[mb].gpus[j]);
            } else {
                assert(ps[mb].gpus[j] != ps[ma].gpus[i]);
            }
        } else if new_a {
            assert(started_served(s, st.tasks[a]));
            let ma = choose|m: int|
                0 <= m < ps.len() && (#[trigger] ps[m]).task_id == st.tasks[a].id && ps[m].gpus
                    == st.tasks[a].gpu_ids;
            assert(!s.held(ps[ma].gpus[i]));
            assert(s.tasks[b].gpu_ids.contains(s.tasks[b].gpu_ids[j]));
        } else if new_b {
            assert(started_served(s, st.tasks[b]));
            let mb = choose|m: int|
                0 <= m < ps.len() && (#[trigger] ps[m]).task_id == st.tasks[b].id && ps[m].gpus
                    == st.tasks[b].gpu_ids;
            assert(!s.held(ps[mb].gpus[j]));
            assert(s.tasks[a].gpu_ids.contains(s.tasks[a].gpu_ids[i]));
        } else {
            assert(s.tasks[a].gpu_ids[i] != s.tasks[b].gpu_ids[j]);
        }
    }
}

} // verus!

//! Laws of the daemon: what every operation keeps, and what follows from
//! it for tasks, queues and GPUs.

use crate::invariants::{
    lemma_add_queue_coherent, lemma_add_task_coherent, lemma_lists_exact,
    lemma_remove_task_coherent, lemma_skeleton_coherent, lemma_update_task_queue_coherent,
    lemma_update_task_state_coherent,
};
use crate::message::{
    GPUActionView, MessageView, QueueActionView, SubmitActionView, TaskActionView,
};
use crate::models::{QueueView, ResourceLimit, TaskState, TaskView, DEFAULT_WAITING_QUEUE_NAME};
use crate::monitor::GpuStats;
use crate::store::StateView;
use crate::submit_handler::{task_id_for, tasks_in, Batch, SubmitCounters};
use vstd::set_lib::{lemma_int_range, lemma_len_subset, set_int_range};
use crate::supervise::ChildExitView;
use vstd::prelude::*;

verus! {

/// The empty store is coherent.
pub proof fn law_empty_is_coherent()
    ensures
        StateView::empty().coherent(),
{
}

/// In a coherent store every task names an existing queue; every id in a
/// waiting list belongs to a Waiting task of that queue and every id in a
/// running list to a Running task of that queue; and a Finished or Failed
/// task is in no list.
pub proof fn law_lists_and_records_agree(s: StateView)
    requires
        s.coherent(),
    ensures
        forall|i: int| 0 <= i < s.tasks.len() ==> s.has_queue((#[trigger] s.tasks[i]).queue),
        forall|q: int, k: int|
            0 <= q < s.queues.len() && 0 <= k < s.queues[q].waiting_task_ids.len() ==> {
                let id = #[trigger] s.queues[q].waiting_task_ids[k];
                s.has_task(id) && s.task(id).state is Waiting && s.task(id).queue
                    == s.queues[q].name
            },
        forall|q: int, k: int|
            0 <= q < s.queues.len() && 0 <= k < s.queues[q].running_task_ids.len() ==> {
                let id = #[trigger] s.queues[q].running_task_ids[k];
                s.has_task(id) && s.task(id).state is Running && s.task(id).queue
                    == s.queues[q].name
            },
        forall|i: int, q: int|
            0 <= i < s.tasks.len() && 0 <= q < s.queues.len() && (
            #[trigger] s.tasks[i]).state.is_terminal() ==> !(
            #[trigger] s.queues[q]).waiting_task_ids.contains(s.tasks[i].id)
                && !s.queues[q].running_task_ids.contains(s.tasks[i].id),
{
    lemma_lists_exact(s);
    assert forall|q: int, k: int|
        0 <= q < s.queues.len() && 0 <= k < s.queues[q].waiting_task_ids.len() implies {
        let id = #[trigger] s.queues[q].waiting_task_ids[k];
        s.has_task(id) && s.task(id).state is Waiting && s.task(id).queue == s.queues[q].name
    } by {
        let id = s.queues[q].waiting_task_ids[k];
        assert(s.holds(id, TaskState::Waiting, s.queues[q].name));
        let i = choose|i: int|
            0 <= i < s.tasks.len() && (#[trigger] s.tasks[i]).id == id && s.tasks[i].state
                == TaskState::Waiting && s.tasks[i].queue == s.queues[q].name;
        s.lemma_task_at(i);
    }
    assert forall|q: int, k: int|
        0 <= q < s.queues.len() && 0 <= k < s.queues[q].running_task_ids.len() implies {
        let id = #[trigger] s.queues[q].running_task_ids[k];
        s.has_task(id) && s.task(id).state is Running && s.task(id).queue == s.queues[q].name
    } by {
        let id = s.queues[q].running_task_ids[k];
        assert(s.holds(id, TaskState::Running, s.queues[q].name));
        let i = choose|i: int|
            0 <= i < s.tasks.len() && (#[trigger] s.tasks[i]).id == id && s.tasks[i].state
                == TaskState::Running && s.tasks[i].queue == s.queues[q].name;
        s.lemma_task_at(i);
    }
    assert forall|i: int, q: int|
        0 <= i < s.tasks.len() && 0 <= q < s.queues.len() && (
        #[trigger] s.tasks[i]).state.is_terminal() implies !(
    #[trigger] s.queues[q]).waiting_task_ids.contains(s.tasks[i].id)
        && !s.queues[q].running_task_ids.contains(s.tasks[i].id) by {
        crate::invariants::lemma_holds_at(s, i);
    }
}

/// In a coherent store no queue has more Running tasks than its cap
/// allows.
pub proof fn law_running_within_cap(s: StateView, q: int)
    requires
        s.coherent(),
        0 <= q < s.queues.len(),
    ensures
        s.running_ids(s.queues[q].name).finite(),
        s.running_ids(s.queues[q].name).len() <= s.queues[q].max_concurrent,
{
    lemma_lists_exact(s);
    let list = s.queues[q].running_task_ids;
    assert(list.no_duplicates());
    assert(list.to_set() =~= s.running_ids(s.queues[q].name)) by {
        assert forall|id: u64| list.to_set().contains(id) <==> s.running_ids(
            s.queues[q].name,
        ).contains(id) by {
            assert(list.contains(id) <==> s.holds(id, TaskState::Running, s.queues[q].name));
        }
    }
    list.unique_seq_to_set();
    vstd::seq_lib::seq_to_set_is_finite(list);
}

/// After a telemetry snapshot the table of telemetry is finite.
proof fn lemma_refresh_finite(s: StateView, snapshot: Seq<Option<GpuStats>>)
    ensures
        s.refresh_gpu_stats(snapshot).gpu_stats.dom().finite(),
{
    let bound: nat = if snapshot.len() < 0x1_0000_0000 {
        snapshot.len()
    } else {
        0x1_0000_0000
    };
    let all = Seq::new(bound, |i: int| i as u32);
    vstd::seq_lib::seq_to_set_is_finite(all);
    let dom = s.refresh_gpu_stats(snapshot).gpu_stats.dom();
    assert(dom.subset_of(all.to_set())) by {
        assert forall|k: u32| dom.contains(k) implies all.to_set().contains(k) by {
            assert(all[k as int] == k);
        }
    }
    vstd::set_lib::lemma_len_subset(dom, all.to_set());
}

/// Bookkeeping keeps the store coherent: recording a process id, a
/// priority, a resource limit, a queue's list of GPUs, telemetry, the
/// ignore set and the ownership table do not touch what coherence speaks
/// of.
#[verifier::rlimit(50)]
pub proof fn law_bookkeeping_keeps_coherence(s: StateView)
    requires
        s.coherent(),
    ensures
        forall|id: u64, pid: Option<i32>| (#[trigger] s.set_task_pid(id, pid)).coherent(),
        forall|id: u64, priority: u8| (#[trigger] s.update_task_priority(id, priority)).coherent(),
        forall|name: Seq<char>, limit: ResourceLimit|
            (#[trigger] s.update_queue_resource_limit(name, limit)).coherent(),
        forall|name: Seq<char>, gpu: u8| (#[trigger] s.grant_gpu(name, gpu)).coherent(),
        forall|name: Seq<char>, gpu: u8| (#[trigger] s.revoke_gpu(name, gpu)).coherent(),
        forall|snapshot: Seq<Option<GpuStats>>|
            (#[trigger] s.refresh_gpu_stats(snapshot)).coherent(),
        forall|gpu: u32| (#[trigger] s.set_gpu_ignore(gpu)).coherent(),
        forall|gpu: u32| (#[trigger] s.unset_gpu_ignore(gpu)).coherent(),
        forall|gpu: u32, owner: Option<Seq<char>>|
            (#[trigger] s.set_gpu_allocation(gpu, owner)).coherent(),
        forall|gpu: u32| (#[trigger] s.remove_gpu_allocation(gpu)).coherent(),
{
    assert forall|id: u64, pid: Option<i32>| (#[trigger] s.set_task_pid(id, pid)).coherent() by {
        assert(s.same_skeleton(s.set_task_pid(id, pid)));
        lemma_skeleton_coherent(s, s.set_task_pid(id, pid));
    }
    assert forall|id: u64, priority: u8|
        (#[trigger] s.update_task_priority(id, priority)).coherent() by {
        assert(s.same_skeleton(s.update_task_priority(id, priority)));
        lemma_skeleton_coherent(s, s.update_task_priority(id, priority));
    }
    assert forall|name: Seq<char>, limit: ResourceLimit|
        (#[trigger] s.update_queue_resource_limit(name, limit)).coherent() by {
        assert(s.same_skeleton(s.update_queue_resource_limit(name, limit)));
        lemma_skeleton_coherent(s, s.update_queue_resource_limit(name, limit));
    }
    assert forall|name: Seq<char>, gpu: u8| (#[trigger] s.grant_gpu(name, gpu)).coherent() by {
        assert(s.same_skeleton(s.grant_gpu(name, gpu)));
        lemma_skeleton_coherent(s, s.grant_gpu(name, gpu));
    }
    assert forall|name: Seq<char>, gpu: u8| (#[trigger] s.revoke_gpu(name, gpu)).coherent() by {
        assert(s.same_skeleton(s.revoke_gpu(name, gpu)));
        lemma_skeleton_coherent(s, s.revoke_gpu(name, gpu));
    }
    assert forall|snapshot: Seq<Option<GpuStats>>|
        (#[trigger] s.refresh_gpu_stats(snapshot)).coherent() by {
        lemma_refresh_finite(s, snapshot);
        assert(s.same_skeleton(s.refresh_gpu_stats(snapshot)));
        lemma_skeleton_coherent(s, s.refresh_gpu_stats(snapshot));
    }
    assert forall|gpu: u32| (#[trigger] s.set_gpu_ignore(gpu)).coherent() by {
        assert(s.same_skeleton(s.set_gpu_ignore(gpu)));
        lemma_skeleton_coherent(s, s.set_gpu_ignore(gpu));
    }
    assert forall|gpu: u32| (#[trigger] s.unset_gpu_ignore(gpu)).coherent() by {
        assert(s.same_skeleton(s.unset_gpu_ignore(gpu)));
        lemma_skeleton_coherent(s, s.unset_gpu_ignore(gpu));
    }
    assert forall|gpu: u32, owner: Option<Seq<char>>|
        (#[trigger] s.set_gpu_allocation(gpu, owner)).coherent() by {
        assert(s.same_skeleton(s.set_gpu_allocation(gpu, owner)));
        lemma_skeleton_coherent(s, s.set_gpu_allocation(gpu, owner));
    }
    assert forall|gpu: u32| (#[trigger] s.remove_gpu_allocation(gpu)).coherent() by {
        assert(s.same_skeleton(s.remove_gpu_allocation(gpu)));
        lemma_skeleton_coherent(s, s.remove_gpu_allocation(gpu));
    }
}

impl StateView {
    /// Whether every task that a request on tasks moves is Waiting. Only
    /// a release moves a task.
    pub open spec fn task_command_moves_waiting(self, action: TaskActionView) -> bool {
        match action {
            TaskActionView::Run { task_id } => self.can_release(task_id) ==> self.task(
                task_id,
            ).state is Waiting,
            _ => true,
        }
    }

    /// Whether every task that a request on queues moves is Waiting.
    pub open spec fn queue_command_moves_waiting(self, action: QueueActionView) -> bool {
        match action {
            QueueActionView::Merge { source, dest } => self.can_merge(source, dest) ==> forall|
                i: int,
            |
                0 <= i < self.tasks.len() && (#[trigger] self.tasks[i]).queue == source
                    ==> self.tasks[i].state is Waiting,
            QueueActionView::Move { task_id, dest_queue } => self.can_move(task_id, dest_queue)
                ==> self.task(task_id).state is Waiting,
            _ => true,
        }
    }

    /// Whether every task that a request moves to another queue is
    /// Waiting.
    pub open spec fn request_moves_waiting(self, message: MessageView) -> bool {
        match message {
            MessageView::TaskCommand(action) => self.task_command_moves_waiting(action),
            MessageView::QueueCommand(action) => self.queue_command_moves_waiting(action),
            _ => true,
        }
    }
}

/// A request on tasks keeps the store coherent, unless it moves a task
/// that is not Waiting.
pub proof fn law_task_command_keeps_coherence(s: StateView, action: TaskActionView)
    requires
        s.coherent(),
        s.task_command_moves_waiting(action),
    ensures
        s.after_task_command(action).coherent(),
{
    match action {
        TaskActionView::Run { task_id } => {
            if s.can_release(task_id) {
                lemma_update_task_queue_coherent(s, task_id, crate::models::DEFAULT_RUNNING_QUEUE_NAME@);
            }
        },
        TaskActionView::Remove { task_id } => {
            lemma_remove_task_coherent(s, task_id);
        },
        _ => {},
    }
}

/// An allocation keeps what coherence speaks of.
proof fn lemma_granting_skeleton(s: StateView, gpus: Seq<u8>, queue: Seq<char>, n: int)
    requires
        s.wf(),
        n <= gpus.len(),
    ensures
        s.same_skeleton(s.granting(gpus, queue, n).state),
        s.granting(gpus, queue, n).state.gpu_stats.dom().finite(),
        s.granting(gpus, queue, n).state.gpu_allocations.dom().finite(),
        s.granting(gpus, queue, n).state.ignored_gpus.finite(),
    decreases n,
{
    if n > 0 {
        lemma_granting_skeleton(s, gpus, queue, n - 1);
        let earlier = s.granting(gpus, queue, n - 1).state;
        let now = s.granting(gpus, queue, n).state;
        assert(earlier.same_skeleton(now));
    }
}

/// A request on GPUs keeps the store coherent.
pub proof fn law_gpu_command_keeps_coherence(s: StateView, action: GPUActionView)
    requires
        s.coherent(),
    ensures
        s.after_gpu_command(action).coherent(),
{
    let after = s.after_gpu_command(action);
    match action {
        GPUActionView::Allocate { gpu_ids, queue } => {
            lemma_granting_skeleton(s, gpu_ids, queue, gpu_ids.len() as int);
        },
        GPUActionView::ResetIgnored => {
            assert(after.gpu_allocations.dom() =~= s.gpu_allocations.dom().union(s.ignored_gpus));
            assert(after.ignored_gpus.finite());
        },
        _ => {},
    }
    assert(s.same_skeleton(after));
    lemma_skeleton_coherent(s, after);
}

/// Merging keeps the store coherent while every task it moves is Waiting.
proof fn lemma_merging_coherent(s: StateView, source: Seq<char>, dest: Seq<char>, n: int)
    requires
        s.coherent(),
        n <= s.tasks.len(),
        forall|i: int|
            0 <= i < s.tasks.len() && (#[trigger] s.tasks[i]).queue == source
                ==> s.tasks[i].state is Waiting,
    ensures
        s.merging(s.tasks, source, dest, n).coherent(),
        s.merging(s.tasks, source, dest, n).tasks.len() == s.tasks.len(),
        forall|i: int|
            0 <= i < s.tasks.len() ==> (#[trigger] s.merging(s.tasks, source, dest, n).tasks[i]).id
                == s.tasks[i].id && s.merging(s.tasks, source, dest, n).tasks[i].state
                == s.tasks[i].state,
    decreases n,
{
    if n > 0 {
        lemma_merging_coherent(s, source, dest, n - 1);
        let earlier = s.merging(s.tasks, source, dest, n - 1);
        if s.tasks[n - 1].queue == source {
            let id = s.tasks[n - 1].id;
            assert(earlier.tasks[n - 1].id == id);
            earlier.lemma_task_at(n - 1);
            lemma_update_task_queue_coherent(earlier, id, dest);
        }
    }
}

/// A request on queues keeps the store coherent, unless it moves a task
/// that is not Waiting.
pub proof fn law_queue_command_keeps_coherence(s: StateView, action: QueueActionView)
    requires
        s.coherent(),
        s.queue_command_moves_waiting(action),
    ensures
        s.after_queue_command(action).coherent(),
{
    law_bookkeeping_keeps_coherence(s);
    match action {
        QueueActionView::Merge { source, dest } => {
            if s.can_merge(source, dest) {
                lemma_merging_coherent(s, source, dest, s.tasks.len() as int);
            }
        },
        QueueActionView::Create { name, priority } => {
            if !s.has_queue(name) {
                lemma_add_queue_coherent(s, QueueView::empty(name, priority, 1));
            }
        },
        QueueActionView::Move { task_id, dest_queue } => {
            lemma_update_task_queue_coherent(s, task_id, dest_queue);
        },
        _ => {},
    }
}

/// What the search for a free id finds is free and the first such id from
/// its start on; it finds none only where none is free from there on.
pub proof fn lemma_first_free(s: StateView, from: u64)
    ensures
        match s.first_free_from(from) {
            Some(id) => {
                &&& from <= id
                &&& s.id_is_free(id)
                &&& forall|y: u64| from <= y < id ==> !#[trigger] s.id_is_free(y)
            },
            None => forall|y: u64| from <= y ==> !#[trigger] s.id_is_free(y),
        },
    decreases u64::MAX - from,
{
    if !s.id_is_free(from) && from < u64::MAX {
        lemma_first_free(s, (from + 1) as u64);
    }
}

/// An id that is picked is free, and none is picked only where no id is
/// free.
pub proof fn lemma_picked_is_free(s: StateView, now_secs: u64, last: u64)
    ensures
        match s.pick_id(now_secs, last) {
            Some(picked) => s.id_is_free(picked.id),
            None => forall|id: u64| !#[trigger] s.id_is_free(id),
        },
{
    lemma_first_free(s, task_id_for(now_secs, last));
    lemma_first_free(s, 1);
}

/// A store with fewer tasks than there are ids has a free id.
pub proof fn law_free_id_exists(s: StateView)
    requires
        s.has_ids_for(1),
    ensures
        exists|id: u64| s.id_is_free(id),
{
    if forall|id: u64| !#[trigger] s.id_is_free(id) {
        let ids = Seq::new(s.tasks.len(), |i: int| s.tasks[i].id as int);
        let all = set_int_range(1, u64::MAX + 1);
        assert forall|x: int| all.contains(x) implies ids.to_set().contains(x) by {
            let id = x as u64;
            assert(!s.id_is_free(id));
            let i = s.task_pos(id);
            assert(ids[i] == x);
            assert(ids.contains(x));
        }
        vstd::seq_lib::seq_to_set_is_finite(ids);
        ids.lemma_cardinality_of_set();
        lemma_int_range(1, u64::MAX + 1);
        lemma_len_subset(all, ids.to_set());
        assert(false);
    }
}

/// The submission of one task is acknowledged wherever the store has fewer
/// tasks than there are ids: the task is then stored under an id that is
/// not zero and that no task had, and every other task stays.
pub proof fn law_submission_is_accepted(
    s: StateView,
    counters: SubmitCounters,
    now_secs: u64,
    log_dir: Seq<char>,
    command: Seq<char>,
    gpu_require: u8,
    queue_name: Option<Seq<char>>,
    name: Option<Seq<char>>,
    script: bool,
)
    requires
        s.has_ids_for(1),
    ensures
        ({
            let done = s.submit_one(
                counters,
                now_secs,
                log_dir,
                command,
                gpu_require,
                queue_name,
                name,
                script,
            );
            &&& done.reply is Ack
            &&& s.pick_id(now_secs, counters.id_counter) is Some
            &&& s.id_is_free(s.pick_id(now_secs, counters.id_counter).unwrap().id)
            &&& done.state.tasks.len() == s.tasks.len() + 1
            &&& done.state.tasks.last().id == s.pick_id(now_secs, counters.id_counter).unwrap().id
            &&& done.state.tasks.last().state == TaskState::Waiting
            &&& done.state.tasks.drop_last() == s.tasks
        }),
{
    law_free_id_exists(s);
    lemma_picked_is_free(s, now_secs, counters.id_counter);
    let done = s.submit_one(
        counters,
        now_secs,
        log_dir,
        command,
        gpu_require,
        queue_name,
        name,
        script,
    );
    assert(done.state.tasks.drop_last() == s.tasks);
}

/// Every entry of a batch is stored wherever the store has fewer tasks
/// than there are ids, the entries counted in.
pub proof fn law_batch_is_accepted(
    start: Batch,
    entries: Seq<TaskView>,
    default_queue: Seq<char>,
    now_secs: u64,
    log_dir: Seq<char>,
    n: int,
)
    requires
        0 <= n <= entries.len(),
        start.state.has_ids_for(n as nat),
    ensures
        ({
            let done = start.submit_entries(entries, default_queue, now_secs, log_dir, n);
            &&& done.failed == start.failed
            &&& done.submitted == start.submitted + n
            &&& done.state.tasks.len() == start.state.tasks.len() + n
        }),
    decreases n,
{
    if n > 0 {
        law_batch_is_accepted(start, entries, default_queue, now_secs, log_dir, n - 1);
        let earlier = start.submit_entries(entries, default_queue, now_secs, log_dir, n - 1);
        law_free_id_exists(earlier.state);
        lemma_picked_is_free(earlier.state, now_secs, earlier.counters.id_counter);
    }
}

/// A submission is acknowledged, and each of its tasks is stored, wherever
/// the store has fewer tasks than there are ids, those of the submission
/// counted in.
pub proof fn law_submit_is_accepted(
    s: StateView,
    counters: SubmitCounters,
    now_secs: u64,
    log_dir: Seq<char>,
    action: SubmitActionView,
)
    requires
        s.has_ids_for(tasks_in(action)),
    ensures
        s.submit(counters, now_secs, log_dir, action).reply is Ack,
        s.submit(counters, now_secs, log_dir, action).state.tasks.len() == s.tasks.len() + tasks_in(
            action,
        ),
{
    match action {
        SubmitActionView::Command { command, gpu_num_required, queue_name, name } => {
            law_submission_is_accepted(
                s,
                counters,
                now_secs,
                log_dir,
                command,
                gpu_num_required,
                queue_name,
                name,
                false,
            );
        },
        SubmitActionView::Script { script_path, gpu_num_required, queue_name, name } => {
            law_submission_is_accepted(
                s,
                counters,
                now_secs,
                log_dir,
                script_path,
                gpu_num_required,
                queue_name,
                name,
                true,
            );
        },
        SubmitActionView::BatchJson { tasks, default_queue_name } => {
            law_batch_is_accepted(
                Batch { state: s, counters, submitted: 0, failed: 0 },
                tasks,
                match default_queue_name {
                    Some(q) => q,
                    None => DEFAULT_WAITING_QUEUE_NAME@,
                },
                now_secs,
                log_dir,
                tasks.len() as int,
            );
        },
    }
}

/// The ids that are generated one after the other, starting from `last`,
/// in the seconds `times`: the `n`-th of them, and `last` for `n` zero.
pub open spec fn generated_id(times: Seq<u64>, last: u64, n: int) -> u64
    decreases n,
{
    if n <= 0 {
        last
    } else {
        task_id_for(times[n - 1], generated_id(times, last, n - 1))
    }
}

/// Ids that are generated one after the other ascend, and so differ, as
/// long as the largest number has not been reached.
pub proof fn law_generated_ids_ascend(times: Seq<u64>, last: u64, a: int, b: int)
    requires
        0 <= a < b <= times.len(),
        forall|k: int| 0 <= k < b ==> #[trigger] generated_id(times, last, k) < u64::MAX,
    ensures
        generated_id(times, last, a) < generated_id(times, last, b),
        generated_id(times, last, b) != 0,
    decreases b,
{
    assert(generated_id(times, last, b - 1) < u64::MAX);
    if a < b - 1 {
        law_generated_ids_ascend(times, last, a, b - 1);
    }
}

/// A batch keeps the store coherent.
proof fn lemma_batch_coherent(
    start: Batch,
    entries: Seq<TaskView>,
    default_queue: Seq<char>,
    now_secs: u64,
    log_dir: Seq<char>,
    n: int,
)
    requires
        start.state.coherent(),
        n <= entries.len(),
    ensures
        start.submit_entries(entries, default_queue, now_secs, log_dir, n).state.coherent(),
    decreases n,
{
    if n > 0 {
        lemma_batch_coherent(start, entries, default_queue, now_secs, log_dir, n - 1);
        let earlier = start.submit_entries(entries, default_queue, now_secs, log_dir, n - 1);
        lemma_picked_is_free(earlier.state, now_secs, earlier.counters.id_counter);
        match earlier.entry_id(entries[n - 1], now_secs) {
            Some(picked) => {
                let now = earlier.submit_entry(entries[n - 1], default_queue, now_secs, log_dir);
                let task = now.state.tasks.last();
                if earlier.state.has_task(picked.id) {
                } else {
                    assert(now.state.tasks == earlier.state.tasks.push(task));
                    assert(now.state == earlier.state.add_task(task));
                    lemma_add_task_coherent(earlier.state, task);
                }
            },
            None => {},
        }
    }
}

/// A submission keeps the store coherent, and every task it adds is
/// Waiting under an id that was free and is not zero.
pub proof fn law_submit_keeps_coherence(
    s: StateView,
    counters: SubmitCounters,
    now_secs: u64,
    log_dir: Seq<char>,
    action: SubmitActionView,
)
    requires
        s.coherent(),
    ensures
        s.submit(counters, now_secs, log_dir, action).state.coherent(),
{
    lemma_picked_is_free(s, now_secs, counters.id_counter);
    match action {
        SubmitActionView::Command { command, gpu_num_required, queue_name, name } => {
            let done = s.submit_one(
                counters,
                now_secs,
                log_dir,
                command,
                gpu_num_required,
                queue_name,
                name,
                false,
            );
            if s.pick_id(now_secs, counters.id_counter) is Some {
                let task = done.state.tasks.last();
                assert(done.state == s.add_task(task));
                lemma_add_task_coherent(s, task);
            }
        },
        SubmitActionView::Script { script_path, gpu_num_required, queue_name, name } => {
            let done = s.submit_one(
                counters,
                now_secs,
                log_dir,
                script_path,
                gpu_num_required,
                queue_name,
                name,
                true,
            );
            if s.pick_id(now_secs, counters.id_counter) is Some {
                let task = done.state.tasks.last();
                assert(done.state == s.add_task(task));
                lemma_add_task_coherent(s, task);
            }
        },
        SubmitActionView::BatchJson { tasks, default_queue_name } => {
            let default_queue = match default_queue_name {
                Some(q) => q,
                None => DEFAULT_WAITING_QUEUE_NAME@,
            };
            lemma_batch_coherent(
                Batch { state: s, counters, submitted: 0, failed: 0 },
                tasks,
                default_queue,
                now_secs,
                log_dir,
                tasks.len() as int,
            );
        },
    }
}

/// Claiming GPUs keeps what coherence speaks of.
proof fn lemma_claim_skeleton(s: StateView, gpus: Seq<u8>, name: Seq<char>, n: int)
    requires
        s.wf(),
        n <= gpus.len(),
    ensures
        s.same_skeleton(s.claim(gpus, name, n)),
        s.claim(gpus, name, n).gpu_stats.dom().finite(),
        s.claim(gpus, name, n).gpu_allocations.dom().finite(),
        s.claim(gpus, name, n).ignored_gpus.finite(),
        forall|x: Seq<char>| s.claim(gpus, name, n).has_queue(x) <==> s.has_queue(x),
    decreases n,
{
    if n > 0 {
        lemma_claim_skeleton(s, gpus, name, n - 1);
        let earlier = s.claim(gpus, name, n - 1);
        let now = s.claim(gpus, name, n);
        assert(earlier.same_skeleton(now));
        assert(now.queues == earlier.queues);
    }
}

/// Creating the well-known queues keeps the store coherent.
pub proof fn law_default_queues_keep_coherence(s: StateView)
    requires
        s.coherent(),
    ensures
        s.with_default_queues().coherent(),
{
    let parked = s.with_waiting_queue();
    if !s.has_queue(DEFAULT_WAITING_QUEUE_NAME@) {
        lemma_add_queue_coherent(
            s,
            QueueView::empty(DEFAULT_WAITING_QUEUE_NAME@, crate::models::DEFAULT_QUEUE_PRIORITY, 1),
        );
    }
    if !parked.has_queue(crate::models::DEFAULT_RUNNING_QUEUE_NAME@) {
        let gpus = parked.unclaimed_gpus(crate::placement::GPU_INDEX_SPACE as nat);
        let claimed = parked.claim(gpus, crate::models::DEFAULT_RUNNING_QUEUE_NAME@, gpus.len() as int);
        lemma_claim_skeleton(parked, gpus, crate::models::DEFAULT_RUNNING_QUEUE_NAME@, gpus.len() as int);
        lemma_skeleton_coherent(parked, claimed);
        let queue = parked.with_running_queue().queues.last();
        assert(parked.with_running_queue() == claimed.add_queue(queue));
        lemma_add_queue_coherent(claimed, queue);
    }
}

/// The end of a child, a failed start and a reconciliation keep the store
/// coherent: none of them makes a task run.
pub proof fn law_endings_keep_coherence(s: StateView)
    requires
        s.coherent(),
    ensures
        forall|id: u64, exit: ChildExitView| (#[trigger] s.after_exit(id, exit)).coherent(),
        forall|id: u64, reason: Seq<char>| (#[trigger] s.after_launch_failure(id, reason)).coherent(),
        forall|gone: Seq<i32>| (#[trigger] s.after_reconcile(gone)).coherent(),
{
    assert forall|id: u64, exit: ChildExitView| (#[trigger] s.after_exit(id, exit)).coherent() by {
        lemma_update_task_state_coherent(s, id, exit.final_state(), None, exit.reason());
        law_bookkeeping_keeps_coherence(
            s.update_task_state(id, exit.final_state(), None, exit.reason()),
        );
    }
    assert forall|id: u64, reason: Seq<char>|
        (#[trigger] s.after_launch_failure(id, reason)).coherent() by {
        lemma_update_task_state_coherent(s, id, TaskState::Failed, None, Some(reason));
    }
    assert forall|gone: Seq<i32>| (#[trigger] s.after_reconcile(gone)).coherent() by {
        lemma_reconcile_coherent(s, s.tasks, gone, s.tasks.len() as int);
    }
}

/// Reconciling keeps the store coherent.
proof fn lemma_reconcile_coherent(s: StateView, snapshot: Seq<TaskView>, gone: Seq<i32>, n: int)
    requires
        s.coherent(),
        n <= snapshot.len(),
    ensures
        s.reconcile(snapshot, gone, n).coherent(),
    decreases n,
{
    if n > 0 {
        lemma_reconcile_coherent(s, snapshot, gone, n - 1);
        let earlier = s.reconcile(snapshot, gone, n - 1);
        if StateView::orphaned(snapshot[n - 1], gone) {
            lemma_update_task_state_coherent(
                earlier,
                snapshot[n - 1].id,
                TaskState::Failed,
                None,
                Some(StateView::orphan_reason(snapshot[n - 1])),
            );
        }
    }
}

/// Every request keeps the store coherent, unless it moves a task that is
/// not Waiting.
pub proof fn law_requests_keep_coherence(
    s: StateView,
    counters: SubmitCounters,
    now_secs: u64,
    log_dir: Seq<char>,
    message: MessageView,
)
    requires
        s.coherent(),
        s.request_moves_waiting(message),
    ensures
        s.handle(counters, now_secs, log_dir, message).state.coherent(),
{
    match message {
        MessageView::TaskCommand(action) => {
            law_task_command_keeps_coherence(s, action);
        },
        MessageView::GPUCommand(action) => {
            law_gpu_command_keeps_coherence(s, action);
        },
        MessageView::QueueCommand(action) => {
            law_queue_command_keeps_coherence(s, action);
        },
        MessageView::SubmitCommand(action) => {
            law_submit_keeps_coherence(s, counters, now_secs, log_dir, action);
        },
        _ => {},
    }
}

/// While an allocation refuses nothing, every GPU it has dealt with
/// belongs to the queue and is not ignored, and the queues keep their
/// names.
#[verifier::rlimit(50)]
proof fn lemma_granting_owns(s: StateView, gpus: Seq<u8>, queue: Seq<char>, n: int)
    requires
        0 <= n <= gpus.len(),
        s.granting(gpus, queue, n).refused.len() == 0,
    ensures
        forall|k: int|
            0 <= k < n ==> s.granting(gpus, queue, n).state.gpu_owned_by(
                queue,
                (#[trigger] gpus[k]) as u32,
            ) && !s.granting(gpus, queue, n).state.ignored_gpus.contains(gpus[k] as u32),
        s.granting(gpus, queue, n).state.has_queue(queue) <==> s.has_queue(queue),
        s.granting(gpus, queue, n).granted == gpus.take(n),
    decreases n,
{
    if n > 0 {
        let earlier = s.granting(gpus, queue, n - 1);
        let now = s.granting(gpus, queue, n);
        assert(earlier.refused.len() == 0) by {
            if !earlier.state.grantable(gpus[n - 1], queue) {
                assert(now.refused == earlier.refused.push(gpus[n - 1]));
            }
        }
        lemma_granting_owns(s, gpus, queue, n - 1);
        assert(earlier.state.grantable(gpus[n - 1], queue));
        assert(now.state.has_queue(queue) <==> earlier.state.has_queue(queue)) by {
            let mid = earlier.state.set_gpu_allocation(gpus[n - 1] as u32, Some(queue));
            if now.state != earlier.state && mid.has_queue(queue) {
                let j = mid.queue_pos(queue);
                assert(now.state.queues[j].name == queue);
            }
            if now.state.has_queue(queue) && now.state != earlier.state {
                if !mid.has_queue(queue) {
                    assert(now.state == mid);
                }
            }
        }
        assert(now.granted =~= gpus.take(n)) by {
            assert(gpus.take(n - 1).push(gpus[n - 1]) =~= gpus.take(n));
        }
        assert forall|k: int| 0 <= k < n implies now.state.gpu_owned_by(
            queue,
            (#[trigger] gpus[k]) as u32,
        ) && !now.state.ignored_gpus.contains(gpus[k] as u32) by {
            if k < n - 1 {
                assert(earlier.state.gpu_owned_by(queue, gpus[k] as u32));
            }
        }
    } else {
        assert(gpus.take(0) =~= Seq::<u8>::empty());
    }
}

/// An allocation of GPUs that the queue owns already, none of them
/// ignored, changes nothing and refuses nothing.
proof fn lemma_granting_again(s: StateView, gpus: Seq<u8>, queue: Seq<char>, n: int)
    requires
        0 <= n <= gpus.len(),
        forall|k: int|
            0 <= k < gpus.len() ==> s.gpu_owned_by(queue, (#[trigger] gpus[k]) as u32)
                && !s.ignored_gpus.contains(gpus[k] as u32),
    ensures
        s.granting(gpus, queue, n).state == s,
        s.granting(gpus, queue, n).refused.len() == 0,
        s.granting(gpus, queue, n).granted == gpus.take(n),
    decreases n,
{
    if n > 0 {
        lemma_granting_again(s, gpus, queue, n - 1);
        assert(s.gpu_owned_by(queue, gpus[n - 1] as u32));
        assert(gpus.take(n - 1).push(gpus[n - 1]) =~= gpus.take(n));
    } else {
        assert(gpus.take(0) =~= Seq::<u8>::empty());
    }
}

/// Allocating is idempotent: after an allocation that was acknowledged,
/// the same allocation is acknowledged again with the same words and
/// changes nothing.
pub proof fn law_allocate_is_idempotent(s: StateView, gpus: Seq<u8>, queue: Seq<char>)
    requires
        s.gpu_allocate_reply(gpus, queue) is Ack,
    ensures
        s.gpu_allocate_state(gpus, queue).gpu_allocate_reply(gpus, queue) == s.gpu_allocate_reply(
            gpus,
            queue,
        ),
        s.gpu_allocate_state(gpus, queue).gpu_allocate_state(gpus, queue) == s.gpu_allocate_state(
            gpus,
            queue,
        ),
{
    let n = gpus.len() as int;
    let once = s.gpu_allocate_state(gpus, queue);
    lemma_granting_owns(s, gpus, queue, n);
    lemma_granting_again(once, gpus, queue, n);
}

/// Ignoring a GPU and then clearing the ignore set returns the GPU to the
/// free pool: it is no longer ignored, and the ownership table records it
/// as free.
pub proof fn law_ignore_then_reset_frees(s: StateView, gpu: u8)
    requires
        s.can_ignore(gpu),
    ensures
        ({
            let after = s.gpu_ignore_state(gpu).gpu_reset_state();
            &&& !after.ignored_gpus.contains(gpu as u32)
            &&& after.gpu_allocations.contains_key(gpu as u32)
            &&& after.gpu_allocations[gpu as u32] is None
            &&& after.gpu_free(gpu as u32)
        }),
{
}

/// A task that needs no GPU is placed as soon as its queue has a slot,
/// whatever the candidates are, and takes no GPU: the reservations stay as
/// they are.
pub proof fn law_cpu_task_takes_no_gpu(
    plan: crate::placement::Plan,
    task: TaskView,
    candidates: Seq<u8>,
)
    requires
        plan.slots > 0,
        task.gpu_require == 0,
    ensures
        ({
            let after = plan.offer(task, candidates);
            &&& after.placements == plan.placements.push(
                crate::placement::Placement { task_id: task.id, gpus: Seq::empty() },
            )
            &&& after.reserved == plan.reserved
            &&& after.slots == plan.slots - 1
        }),
{
}

} // verus!

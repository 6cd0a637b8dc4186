//! What holds of the GPUs of running tasks, and which operations keep it.

use crate::message::{GPUActionView, MessageView, QueueActionView, SubmitActionView};
use crate::models::{TaskState, TaskView, DEFAULT_WAITING_QUEUE_NAME};
use crate::store::StateView;
use crate::submit_handler::{Batch, SubmitCounters};
use crate::supervise::ChildExitView;
use vstd::prelude::*;

verus! {

impl StateView {
    /// Every Running task holds as many GPUs as it requires, each once,
    /// and none of them is ignored.
    pub open spec fn running_gpus_sound(self) -> bool {
        forall|i: int|
            0 <= i < self.tasks.len() && (#[trigger] self.tasks[i]).state is Running ==> {
                &&& self.tasks[i].gpu_ids.len() == self.tasks[i].gpu_require
                &&& self.tasks[i].gpu_ids.no_duplicates()
                &&& forall|k: int|
                    0 <= k < self.tasks[i].gpu_ids.len() ==> !self.ignored_gpus.contains(
                        (#[trigger] self.tasks[i].gpu_ids[k]) as u32,
                    )
            }
    }

    /// No GPU is held by two Running tasks.
    pub open spec fn running_gpus_exclusive(self) -> bool {
        forall|a: int, b: int, i: int, j: int|
            0 <= a < self.tasks.len() && 0 <= b < self.tasks.len() && a != b
                && self.tasks[a].state is Running && self.tasks[b].state is Running && 0 <= i
                < self.tasks[a].gpu_ids.len() && 0 <= j < self.tasks[b].gpu_ids.len()
                ==> #[trigger] self.tasks[a].gpu_ids[i] != #[trigger] self.tasks[b].gpu_ids[j]
    }

    /// Whether `task` reads as a task that is Running in this state: the
    /// same id, the same GPUs and the same requirement.
    pub open spec fn runs(self, task: TaskView) -> bool {
        exists|i: int|
            0 <= i < self.tasks.len() && (#[trigger] self.tasks[i]).id == task.id
                && self.tasks[i].state is Running && self.tasks[i].gpu_ids == task.gpu_ids
                && self.tasks[i].gpu_require == task.gpu_require
    }

    /// Whether `after` runs nothing that this state does not run in the
    /// same way, and ignores nothing that this state does not ignore.
    pub open spec fn calm(self, after: StateView) -> bool {
        self.quiet(after) && after.ignored_gpus.subset_of(self.ignored_gpus)
    }

    /// Whether `after` runs nothing that this state does not run in the
    /// same way, under ids that are distinct.
    pub open spec fn quiet(self, after: StateView) -> bool {
        &&& forall|j: int|
            0 <= j < after.tasks.len() && (#[trigger] after.tasks[j]).state is Running
                ==> self.runs(after.tasks[j])
        &&& after.ids_distinct()
    }

    /// No task id occurs twice.
    pub open spec fn ids_distinct(self) -> bool {
        forall|a: int, b: int|
            0 <= a < b < self.tasks.len() ==> self.tasks[a].id != self.tasks[b].id
    }

    /// Whether some Running task holds GPU `gpu`.
    pub open spec fn held(self, gpu: u8) -> bool {
        exists|i: int|
            0 <= i < self.tasks.len() && (#[trigger] self.tasks[i]).state is Running
                && self.tasks[i].gpu_ids.contains(gpu)
    }
}

/// In a state that is calm after one in which every Running task holds
/// what it requires, nothing ignored, the same is true.
pub proof fn law_calm_keeps_gpus_sound(s: StateView, after: StateView)
    requires
        s.running_gpus_sound(),
        s.calm(after),
    ensures
        after.running_gpus_sound(),
{
    assert forall|j: int|
        0 <= j < after.tasks.len() && (#[trigger] after.tasks[j]).state is Running implies {
        &&& after.tasks[j].gpu_ids.len() == after.tasks[j].gpu_require
        &&& after.tasks[j].gpu_ids.no_duplicates()
        &&& forall|k: int|
            0 <= k < after.tasks[j].gpu_ids.len() ==> !after.ignored_gpus.contains(
                (#[trigger] after.tasks[j].gpu_ids[k]) as u32,
            )
    } by {
        assert(s.runs(after.tasks[j]));
        let i = choose|i: int|
            0 <= i < s.tasks.len() && (#[trigger] s.tasks[i]).id == after.tasks[j].id
                && s.tasks[i].state is Running && s.tasks[i].gpu_ids == after.tasks[j].gpu_ids
                && s.tasks[i].gpu_require == after.tasks[j].gpu_require;
        assert(s.tasks[i].state is Running);
        assert forall|k: int|
            0 <= k < after.tasks[j].gpu_ids.len() implies !after.ignored_gpus.contains(
            (#[trigger] after.tasks[j].gpu_ids[k]) as u32,
        ) by {
            assert(!s.ignored_gpus.contains(s.tasks[i].gpu_ids[k] as u32));
        }
    }
}

/// In a state that is quiet after one in which no GPU is held by two
/// Running tasks, none is.
#[verifier::rlimit(50)]
pub proof fn law_quiet_keeps_gpus_exclusive(s: StateView, after: StateView)
    requires
        s.running_gpus_exclusive(),
        s.quiet(after),
    ensures
        after.running_gpus_exclusive(),
{
    assert forall|a: int, b: int, i: int, j: int|
        0 <= a < after.tasks.len() && 0 <= b < after.tasks.len() && a != b
            && after.tasks[a].state is Running && after.tasks[b].state is Running && 0 <= i
            < after.tasks[a].gpu_ids.len() && 0 <= j
            < after.tasks[b].gpu_ids.len() implies #[trigger] after.tasks[a].gpu_ids[i]
        != #[trigger] after.tasks[b].gpu_ids[j] by {
        assert(s.runs(after.tasks[a]));
        assert(s.runs(after.tasks[b]));
        let sa = choose|sa: int|
            0 <= sa < s.tasks.len() && (#[trigger] s.tasks[sa]).id == after.tasks[a].id
                && s.tasks[sa].state is Running && s.tasks[sa].gpu_ids == after.tasks[a].gpu_ids
                && s.tasks[sa].gpu_require == after.tasks[a].gpu_require;
        let sb = choose|sb: int|
            0 <= sb < s.tasks.len() && (#[trigger] s.tasks[sb]).id == after.tasks[b].id
                && s.tasks[sb].state is Running && s.tasks[sb].gpu_ids == after.tasks[b].gpu_ids
                && s.tasks[sb].gpu_require == after.tasks[b].gpu_require;
        if a < b {
            assert(after.tasks[a].id != after.tasks[b].id);
        } else {
            assert(after.tasks[b].id != after.tasks[a].id);
        }
        assert(sa != sb);
        assert(s.tasks[sa].gpu_ids[i] != s.tasks[sb].gpu_ids[j]);
    }
}

/// Calm follows calm.
pub proof fn lemma_calm_chain(s: StateView, mid: StateView, after: StateView)
    requires
        s.calm(mid),
        mid.calm(after),
    ensures
        s.calm(after),
{
    assert forall|j: int|
        0 <= j < after.tasks.len() && (#[trigger] after.tasks[j]).state is Running implies s.runs(
        after.tasks[j],
    ) by {
        assert(mid.runs(after.tasks[j]));
        let m = choose|m: int|
            0 <= m < mid.tasks.len() && (#[trigger] mid.tasks[m]).id == after.tasks[j].id
                && mid.tasks[m].state is Running && mid.tasks[m].gpu_ids == after.tasks[j].gpu_ids
                && mid.tasks[m].gpu_require == after.tasks[j].gpu_require;
        assert(s.runs(mid.tasks[m]));
        let i = choose|i: int|
            0 <= i < s.tasks.len() && (#[trigger] s.tasks[i]).id == mid.tasks[m].id
                && s.tasks[i].state is Running && s.tasks[i].gpu_ids == mid.tasks[m].gpu_ids
                && s.tasks[i].gpu_require == mid.tasks[m].gpu_require;
        assert(s.tasks[i].id == after.tasks[j].id);
    }
}

/// A state with the same tasks and the same ignore set is calm.
pub proof fn lemma_calm_same(s: StateView, after: StateView)
    requires
        s.ids_distinct(),
        after.tasks == s.tasks,
        after.ignored_gpus.subset_of(s.ignored_gpus),
    ensures
        s.calm(after),
{
    assert forall|j: int|
        0 <= j < after.tasks.len() && (#[trigger] after.tasks[j]).state is Running implies s.runs(
        after.tasks[j],
    ) by {
        assert(s.tasks[j].id == after.tasks[j].id);
    }
}

/// Replacing the record at one position by one of the same id that does
/// not run, or runs as before, is calm.
pub proof fn lemma_calm_update(s: StateView, p: int, task: TaskView, after: StateView)
    requires
        s.ids_distinct(),
        0 <= p < s.tasks.len(),
        task.id == s.tasks[p].id,
        after.tasks == s.tasks.update(p, task),
        after.ignored_gpus.subset_of(s.ignored_gpus),
        !(task.state is Running) || (s.tasks[p].state is Running && task.gpu_ids
            == s.tasks[p].gpu_ids && task.gpu_require == s.tasks[p].gpu_require),
    ensures
        s.calm(after),
{
    assert forall|a: int, b: int| 0 <= a < b < after.tasks.len() implies after.tasks[a].id
        != after.tasks[b].id by {
        assert(s.tasks[a].id != s.tasks[b].id);
    }
    assert forall|j: int|
        0 <= j < after.tasks.len() && (#[trigger] after.tasks[j]).state is Running implies s.runs(
        after.tasks[j],
    ) by {
        if j == p {
            assert(s.tasks[p].id == task.id);
        } else {
            assert(s.tasks[j].id == after.tasks[j].id);
        }
    }
}

/// The operations of the store that make no task run are calm.
#[verifier::rlimit(50)]
pub proof fn lemma_store_calm(s: StateView)
    requires
        s.ids_distinct(),
    ensures
        forall|task: TaskView|
            !(task.state is Running) ==> s.calm(#[trigger] s.add_task(task)),
        forall|id: u64, pid: Option<i32>| s.calm(#[trigger] s.set_task_pid(id, pid)),
        forall|id: u64, state: TaskState, reason: Option<Seq<char>>|
            !(state is Running) ==> s.calm(#[trigger] s.update_task_state(id, state, None, reason)),
        forall|id: u64, dest: Seq<char>| s.calm(#[trigger] s.update_task_queue(id, dest)),
        forall|id: u64, priority: u8| s.calm(#[trigger] s.update_task_priority(id, priority)),
        forall|id: u64| s.calm(#[trigger] s.remove_task(id)),
{
    assert forall|task: TaskView| !(task.state is Running) implies s.calm(
        #[trigger] s.add_task(task),
    ) by {
        let after = s.add_task(task);
        if s.has_task(task.id) {
            lemma_calm_update(s, s.task_pos(task.id), task, after);
        } else {
            assert forall|j: int|
                0 <= j < after.tasks.len() && (#[trigger] after.tasks[j]).state is Running implies s.runs(
                after.tasks[j],
            ) by {
                assert(s.tasks[j].id == after.tasks[j].id);
            }
            assert forall|a: int, b: int| 0 <= a < b < after.tasks.len() implies after.tasks[a].id
                != after.tasks[b].id by {
                if b < s.tasks.len() {
                    assert(s.tasks[a].id != s.tasks[b].id);
                } else {
                    assert(s.tasks[a].id != task.id);
                }
            }
        }
    }
    assert forall|id: u64, pid: Option<i32>| s.calm(#[trigger] s.set_task_pid(id, pid)) by {
        let after = s.set_task_pid(id, pid);
        if s.has_task(id) {
            lemma_calm_update(s, s.task_pos(id), TaskView { pid, ..s.task(id) }, after);
        } else {
            lemma_calm_same(s, after);
        }
    }
    assert forall|id: u64, state: TaskState, reason: Option<Seq<char>>|
        !(state is Running) implies s.calm(
        #[trigger] s.update_task_state(id, state, None, reason),
    ) by {
        let after = s.update_task_state(id, state, None, reason);
        if s.has_task(id) {
            lemma_calm_update(
                s,
                s.task_pos(id),
                StateView::task_in_state(s.task(id), state, None, reason),
                after,
            );
        } else {
            lemma_calm_same(s, after);
        }
    }
    assert forall|id: u64, dest: Seq<char>| s.calm(#[trigger] s.update_task_queue(id, dest)) by {
        let after = s.update_task_queue(id, dest);
        if s.can_move(id, dest) {
            lemma_calm_update(s, s.task_pos(id), TaskView { queue: dest, ..s.task(id) }, after);
        } else {
            lemma_calm_same(s, after);
        }
    }
    assert forall|id: u64, priority: u8| s.calm(#[trigger] s.update_task_priority(id, priority)) by {
        let after = s.update_task_priority(id, priority);
        if s.has_task(id) {
            lemma_calm_update(s, s.task_pos(id), TaskView { priority, ..s.task(id) }, after);
        } else {
            lemma_calm_same(s, after);
        }
    }
    assert forall|id: u64| s.calm(#[trigger] s.remove_task(id)) by {
        let after = s.remove_task(id);
        if s.has_task(id) {
            let p = s.task_pos(id);
            assert forall|j: int|
                0 <= j < after.tasks.len() && (#[trigger] after.tasks[j]).state is Running implies s.runs(
                after.tasks[j],
            ) by {
                let i = if j < p { j } else { j + 1 };
                assert(s.tasks[i].id == after.tasks[j].id);
            }
            assert forall|a: int, b: int| 0 <= a < b < after.tasks.len() implies after.tasks[a].id
                != after.tasks[b].id by {
                let sa = if a < p { a } else { a + 1 };
                let sb = if b < p { b } else { b + 1 };
                assert(s.tasks[sa].id != s.tasks[sb].id);
            }
        } else {
            lemma_calm_same(s, after);
        }
    }
}

impl StateView {
    /// Whether a request leaves alone the GPUs of running tasks: it does
    /// not ignore a GPU that a Running task holds.
    pub open spec fn request_spares_running(self, message: MessageView) -> bool {
        match message {
            MessageView::GPUCommand(GPUActionView::Ignore { gpu_id }) => self.can_ignore(gpu_id)
                ==> !self.held(gpu_id),
            _ => true,
        }
    }

    /// Whether a round leaves alone the GPUs of running tasks: it places
    /// nothing on a GPU that a Running task holds.
    pub open spec fn round_spares_running(self) -> bool {
        forall|m: int, k: int|
            0 <= m < self.placements().len() && 0 <= k < self.placements()[m].gpus.len()
                ==> !self.held(#[trigger] self.placements()[m].gpus[k])
    }
}

/// An allocation leaves the tasks and the ignore set as they are.
proof fn lemma_granting_calm(s: StateView, gpus: Seq<u8>, queue: Seq<char>, n: int)
    requires
        n <= gpus.len(),
    ensures
        s.granting(gpus, queue, n).state.tasks == s.tasks,
        s.granting(gpus, queue, n).state.ignored_gpus == s.ignored_gpus,
    decreases n,
{
    if n > 0 {
        lemma_granting_calm(s, gpus, queue, n - 1);
    }
}

/// Claiming GPUs leaves the tasks and the ignore set as they are.
proof fn lemma_claim_calm(s: StateView, gpus: Seq<u8>, name: Seq<char>, n: int)
    requires
        n <= gpus.len(),
    ensures
        s.claim(gpus, name, n).tasks == s.tasks,
        s.claim(gpus, name, n).ignored_gpus == s.ignored_gpus,
    decreases n,
{
    if n > 0 {
        lemma_claim_calm(s, gpus, name, n - 1);
    }
}

/// A merge is calm.
proof fn lemma_merging_calm(
    s: StateView,
    snapshot: Seq<TaskView>,
    source: Seq<char>,
    dest: Seq<char>,
    n: int,
)
    requires
        s.ids_distinct(),
        n <= snapshot.len(),
    ensures
        s.calm(s.merging(snapshot, source, dest, n)),
    decreases n,
{
    if n > 0 {
        lemma_merging_calm(s, snapshot, source, dest, n - 1);
        let earlier = s.merging(snapshot, source, dest, n - 1);
        lemma_store_calm(earlier);
        lemma_calm_chain(s, earlier, s.merging(snapshot, source, dest, n));
    } else {
        lemma_calm_same(s, s);
    }
}

/// A reconciliation is calm.
proof fn lemma_reconcile_calm(s: StateView, snapshot: Seq<TaskView>, gone: Seq<i32>, n: int)
    requires
        s.ids_distinct(),
        n <= snapshot.len(),
    ensures
        s.calm(s.reconcile(snapshot, gone, n)),
    decreases n,
{
    if n > 0 {
        lemma_reconcile_calm(s, snapshot, gone, n - 1);
        let earlier = s.reconcile(snapshot, gone, n - 1);
        lemma_store_calm(earlier);
        lemma_calm_chain(s, earlier, s.reconcile(snapshot, gone, n));
    } else {
        lemma_calm_same(s, s);
    }
}

/// A batch is calm.
proof fn lemma_batch_calm(
    start: Batch,
    entries: Seq<TaskView>,
    default_queue: Seq<char>,
    now_secs: u64,
    log_dir: Seq<char>,
    n: int,
)
    requires
        start.state.ids_distinct(),
        n <= entries.len(),
    ensures
        start.state.calm(
            start.submit_entries(entries, default_queue, now_secs, log_dir, n).state,
        ),
    decreases n,
{
    if n > 0 {
        lemma_batch_calm(start, entries, default_queue, now_secs, log_dir, n - 1);
        let earlier = start.submit_entries(entries, default_queue, now_secs, log_dir, n - 1);
        let now = earlier.submit_entry(entries[n - 1], default_queue, now_secs, log_dir);
        lemma_store_calm(earlier.state);
        if earlier.entry_id(entries[n - 1], now_secs) is None {
            lemma_calm_same(earlier.state, now.state);
        }
        lemma_calm_chain(start.state, earlier.state, now.state);
    } else {
        lemma_calm_same(start.state, start.state);
    }
}

impl StateView {
    /// Whether a request is one that ignores a GPU and is granted.
    pub open spec fn ignores_a_gpu(self, message: MessageView) -> bool {
        match message {
            MessageView::GPUCommand(GPUActionView::Ignore { gpu_id }) => self.can_ignore(gpu_id),
            _ => false,
        }
    }
}

/// Every request is calm, except that a granted request to ignore a GPU
/// is quiet and adds that GPU to the ignore set.
#[verifier::rlimit(50)]
pub proof fn lemma_request_effect(
    s: StateView,
    counters: SubmitCounters,
    now_secs: u64,
    log_dir: Seq<char>,
    message: MessageView,
)
    requires
        s.ids_distinct(),
    ensures
        s.quiet(s.handle(counters, now_secs, log_dir, message).state),
        !s.ignores_a_gpu(message) ==> s.calm(s.handle(counters, now_secs, log_dir, message).state),
        s.ignores_a_gpu(message) ==> s.handle(counters, now_secs, log_dir, message).state.tasks
            == s.tasks,
{
    let after = s.handle(counters, now_secs, log_dir, message).state;
    lemma_store_calm(s);
    lemma_calm_same(s, s);
    match message {
        MessageView::TaskCommand(action) => {
            assert(s.calm(after));
        },
        MessageView::GPUCommand(action) => {
            match action {
                GPUActionView::Allocate { gpu_ids, queue } => {
                    lemma_granting_calm(s, gpu_ids, queue, gpu_ids.len() as int);
                    lemma_calm_same(s, after);
                },
                GPUActionView::Ignore { gpu_id } => {
                    if s.can_ignore(gpu_id) {
                        assert(after.tasks == s.tasks);
                        assert forall|j: int|
                            0 <= j < after.tasks.len() && (
                            #[trigger] after.tasks[j]).state is Running implies s.runs(
                            after.tasks[j],
                        ) by {
                            assert(s.tasks[j].id == after.tasks[j].id);
                        }
                    } else {
                        lemma_calm_same(s, after);
                    }
                },
                _ => {
                    lemma_calm_same(s, after);
                },
            }
        },
        MessageView::QueueCommand(action) => {
            match action {
                QueueActionView::Merge { source, dest } => {
                    lemma_merging_calm(s, s.tasks, source, dest, s.tasks.len() as int);
                },
                QueueActionView::Move { task_id, dest_queue } => {},
                QueueActionView::SetPriority { task_id, level } => {},
                _ => {
                    lemma_calm_same(s, after);
                },
            }
        },
        MessageView::SubmitCommand(action) => {
            match action {
                SubmitActionView::BatchJson { tasks, default_queue_name } => {
                    let default_queue = match default_queue_name {
                        Some(q) => q,
                        None => DEFAULT_WAITING_QUEUE_NAME@,
                    };
                    lemma_batch_calm(
                        Batch { state: s, counters, submitted: 0, failed: 0 },
                        tasks,
                        default_queue,
                        now_secs,
                        log_dir,
                        tasks.len() as int,
                    );
                },
                _ => {},
            }
        },
        _ => {},
    }
}

/// No request makes two Running tasks share a GPU.
pub proof fn law_requests_keep_gpus_exclusive(
    s: StateView,
    counters: SubmitCounters,
    now_secs: u64,
    log_dir: Seq<char>,
    message: MessageView,
)
    requires
        s.ids_distinct(),
        s.running_gpus_exclusive(),
    ensures
        s.handle(counters, now_secs, log_dir, message).state.running_gpus_exclusive(),
{
    lemma_request_effect(s, counters, now_secs, log_dir, message);
    law_quiet_keeps_gpus_exclusive(s, s.handle(counters, now_secs, log_dir, message).state);
}

/// Every request leaves every Running task with as many GPUs as it
/// requires, each once and none of them ignored, unless it ignores a GPU
/// that a Running task holds.
pub proof fn law_requests_keep_gpus_sound(
    s: StateView,
    counters: SubmitCounters,
    now_secs: u64,
    log_dir: Seq<char>,
    message: MessageView,
)
    requires
        s.ids_distinct(),
        s.running_gpus_sound(),
        s.request_spares_running(message),
    ensures
        s.handle(counters, now_secs, log_dir, message).state.running_gpus_sound(),
{
    let after = s.handle(counters, now_secs, log_dir, message).state;
    lemma_request_effect(s, counters, now_secs, log_dir, message);
    if s.ignores_a_gpu(message) {
        let gpu = message->GPUCommand_0->Ignore_gpu_id;
        assert forall|i: int|
            0 <= i < after.tasks.len() && (#[trigger] after.tasks[i]).state is Running implies {
            &&& after.tasks[i].gpu_ids.len() == after.tasks[i].gpu_require
            &&& after.tasks[i].gpu_ids.no_duplicates()
            &&& forall|k: int|
                0 <= k < after.tasks[i].gpu_ids.len() ==> !after.ignored_gpus.contains(
                    (#[trigger] after.tasks[i].gpu_ids[k]) as u32,
                )
        } by {
            assert(s.tasks[i].state is Running);
            assert forall|k: int|
                0 <= k < after.tasks[i].gpu_ids.len() implies !after.ignored_gpus.contains(
                (#[trigger] after.tasks[i].gpu_ids[k]) as u32,
            ) by {
                assert(!s.ignored_gpus.contains(s.tasks[i].gpu_ids[k] as u32));
                if s.tasks[i].gpu_ids[k] == gpu {
                    assert(s.tasks[i].gpu_ids.contains(gpu));
                    assert(s.held(gpu));
                }
            }
        }
    } else {
        law_calm_keeps_gpus_sound(s, after);
    }
}

/// The end of a child, a failed start, a reconciliation, a telemetry
/// snapshot and the creation of the well-known queues are calm: they make
/// no task run and ignore no GPU.
pub proof fn law_events_are_calm(s: StateView)
    requires
        s.ids_distinct(),
    ensures
        forall|id: u64, exit: ChildExitView| s.calm(#[trigger] s.after_exit(id, exit)),
        forall|id: u64, reason: Seq<char>| s.calm(#[trigger] s.after_launch_failure(id, reason)),
        forall|gone: Seq<i32>| s.calm(#[trigger] s.after_reconcile(gone)),
        forall|snapshot: Seq<Option<crate::monitor::GpuStats>>|
            s.calm(#[trigger] s.refresh_gpu_stats(snapshot)),
        s.calm(s.with_default_queues()),
{
    lemma_store_calm(s);
    assert forall|id: u64, exit: ChildExitView| s.calm(#[trigger] s.after_exit(id, exit)) by {
        let mid = s.update_task_state(id, exit.final_state(), None, exit.reason());
        lemma_store_calm(mid);
        lemma_calm_chain(s, mid, s.after_exit(id, exit));
    }
    assert forall|gone: Seq<i32>| s.calm(#[trigger] s.after_reconcile(gone)) by {
        lemma_reconcile_calm(s, s.tasks, gone, s.tasks.len() as int);
    }
    assert forall|snapshot: Seq<Option<crate::monitor::GpuStats>>|
        s.calm(#[trigger] s.refresh_gpu_stats(snapshot)) by {
        lemma_calm_same(s, s.refresh_gpu_stats(snapshot));
    }
    let parked = s.with_waiting_queue();
    let gpus = parked.unclaimed_gpus(crate::placement::GPU_INDEX_SPACE as nat);
    lemma_claim_calm(parked, gpus, crate::models::DEFAULT_RUNNING_QUEUE_NAME@, gpus.len() as int);
    lemma_calm_same(s, s.with_default_queues());
}

/// A calm step keeps the GPUs of the running tasks in order.
pub proof fn law_calm_keeps_gpus_in_order(s: StateView, after: StateView)
    requires
        s.calm(after),
    ensures
        s.running_gpus_sound() ==> after.running_gpus_sound(),
        s.running_gpus_exclusive() ==> after.running_gpus_exclusive(),
{
    if s.running_gpus_sound() {
        law_calm_keeps_gpus_sound(s, after);
    }
    if s.running_gpus_exclusive() {
        law_quiet_keeps_gpus_exclusive(s, after);
    }
}

impl StateView {
    /// No ignored GPU has an owner.
    pub open spec fn ignored_gpus_unowned(self) -> bool {
        forall|gpu: u32| #[trigger] self.ignored_gpus.contains(gpu) ==> self.gpu_free(gpu)
    }

    /// Whether `after` has the ownership table and the ignore set of this
    /// state.
    pub open spec fn same_gpu_tables(self, after: StateView) -> bool {
        after.gpu_allocations == self.gpu_allocations && after.ignored_gpus == self.ignored_gpus
    }
}

/// A state with the ownership table and the ignore set of one in which no
/// ignored GPU has an owner is such a state.
proof fn lemma_tables_keep_unowned(s: StateView, after: StateView)
    requires
        s.ignored_gpus_unowned(),
        s.same_gpu_tables(after),
    ensures
        after.ignored_gpus_unowned(),
{
    assert forall|gpu: u32| #[trigger] after.ignored_gpus.contains(gpu) implies after.gpu_free(
        gpu,
    ) by {
        assert(s.ignored_gpus.contains(gpu));
    }
}

/// Giving a GPU that is not ignored an owner leaves no ignored GPU with
/// an owner.
proof fn lemma_owner_keeps_unowned(s: StateView, gpu: u32, owner: Option<Seq<char>>)
    requires
        s.ignored_gpus_unowned(),
        !s.ignored_gpus.contains(gpu) || owner is None,
    ensures
        s.set_gpu_allocation(gpu, owner).ignored_gpus_unowned(),
{
    let after = s.set_gpu_allocation(gpu, owner);
    assert forall|g: u32| #[trigger] after.ignored_gpus.contains(g) implies after.gpu_free(g) by {
        assert(s.ignored_gpus.contains(g));
    }
}

/// A merge leaves the ownership table and the ignore set as they are.
proof fn lemma_merging_tables(
    s: StateView,
    snapshot: Seq<TaskView>,
    source: Seq<char>,
    dest: Seq<char>,
    n: int,
)
    requires
        n <= snapshot.len(),
    ensures
        s.same_gpu_tables(s.merging(snapshot, source, dest, n)),
    decreases n,
{
    if n > 0 {
        lemma_merging_tables(s, snapshot, source, dest, n - 1);
    }
}

/// A reconciliation leaves the ownership table and the ignore set as they
/// are.
proof fn lemma_reconcile_tables(s: StateView, snapshot: Seq<TaskView>, gone: Seq<i32>, n: int)
    requires
        n <= snapshot.len(),
    ensures
        s.same_gpu_tables(s.reconcile(snapshot, gone, n)),
    decreases n,
{
    if n > 0 {
        lemma_reconcile_tables(s, snapshot, gone, n - 1);
    }
}

/// A batch leaves the ownership table and the ignore set as they are.
proof fn lemma_batch_tables(
    start: Batch,
    entries: Seq<TaskView>,
    default_queue: Seq<char>,
    now_secs: u64,
    log_dir: Seq<char>,
    n: int,
)
    requires
        n <= entries.len(),
    ensures
        start.state.same_gpu_tables(
            start.submit_entries(entries, default_queue, now_secs, log_dir, n).state,
        ),
    decreases n,
{
    if n > 0 {
        lemma_batch_tables(start, entries, default_queue, now_secs, log_dir, n - 1);
    }
}

/// Carrying out placements leaves the ownership table and the ignore set
/// as they are.
proof fn lemma_carry_out_tables(s: StateView, placements: Seq<crate::placement::Placement>, n: int)
    requires
        n <= placements.len(),
    ensures
        s.same_gpu_tables(s.carry_out(placements, n)),
    decreases n,
{
    if n > 0 {
        lemma_carry_out_tables(s, placements, n - 1);
    }
}

/// An allocation gives no ignored GPU an owner.
proof fn lemma_granting_spares_ignored(s: StateView, gpus: Seq<u8>, queue: Seq<char>, n: int)
    requires
        s.ignored_gpus_unowned(),
        n <= gpus.len(),
    ensures
        s.granting(gpus, queue, n).state.ignored_gpus_unowned(),
        s.granting(gpus, queue, n).state.ignored_gpus == s.ignored_gpus,
    decreases n,
{
    if n > 0 {
        lemma_granting_spares_ignored(s, gpus, queue, n - 1);
        let earlier = s.granting(gpus, queue, n - 1).state;
        let now = s.granting(gpus, queue, n).state;
        if now != earlier {
            let given = earlier.set_gpu_allocation(gpus[n - 1] as u32, Some(queue));
            lemma_owner_keeps_unowned(earlier, gpus[n - 1] as u32, Some(queue));
            lemma_tables_keep_unowned(given, now);
        }
    }
}

/// The GPUs that the queue for released tasks takes at the start are not
/// ignored.
proof fn lemma_unclaimed_not_ignored(s: StateView, n: nat)
    requires
        n <= crate::placement::GPU_INDEX_SPACE,
    ensures
        forall|k: int|
            0 <= k < s.unclaimed_gpus(n).len() ==> !s.ignored_gpus.contains(
                (#[trigger] s.unclaimed_gpus(n)[k]) as u32,
            ),
    decreases n,
{
    if n > 0 {
        lemma_unclaimed_not_ignored(s, (n - 1) as nat);
        let below = s.unclaimed_gpus((n - 1) as nat);
        let all = s.unclaimed_gpus(n);
        assert forall|k: int| 0 <= k < all.len() implies !s.ignored_gpus.contains(
            (#[trigger] all[k]) as u32,
        ) by {
            if k < below.len() {
                assert(all[k] == below[k]);
            }
        }
    }
}

/// Claiming GPUs that are not ignored gives no ignored GPU an owner.
proof fn lemma_claim_spares_ignored(s: StateView, gpus: Seq<u8>, name: Seq<char>, n: int)
    requires
        s.ignored_gpus_unowned(),
        n <= gpus.len(),
        forall|k: int| 0 <= k < gpus.len() ==> !s.ignored_gpus.contains((#[trigger] gpus[k]) as u32),
    ensures
        s.claim(gpus, name, n).ignored_gpus_unowned(),
        s.claim(gpus, name, n).ignored_gpus == s.ignored_gpus,
    decreases n,
{
    if n > 0 {
        lemma_claim_spares_ignored(s, gpus, name, n - 1);
        assert(!s.ignored_gpus.contains(gpus[n - 1] as u32));
        lemma_owner_keeps_unowned(s.claim(gpus, name, n - 1), gpus[n - 1] as u32, Some(name));
    }
}

/// No request gives an ignored GPU an owner.
pub proof fn law_requests_keep_ignored_unowned(
    s: StateView,
    counters: SubmitCounters,
    now_secs: u64,
    log_dir: Seq<char>,
    message: MessageView,
)
    requires
        s.ignored_gpus_unowned(),
    ensures
        s.handle(counters, now_secs, log_dir, message).state.ignored_gpus_unowned(),
{
    let after = s.handle(counters, now_secs, log_dir, message).state;
    match message {
        MessageView::GPUCommand(action) => {
            match action {
                GPUActionView::Allocate { gpu_ids, queue } => {
                    lemma_granting_spares_ignored(s, gpu_ids, queue, gpu_ids.len() as int);
                },
                GPUActionView::Release { gpu_id } => {
                    lemma_owner_keeps_unowned(s, gpu_id as u32, None);
                    lemma_tables_keep_unowned(s.set_gpu_allocation(gpu_id as u32, None), after);
                },
                GPUActionView::Ignore { gpu_id } => {
                    if s.can_ignore(gpu_id) {
                        assert forall|gpu: u32| #[trigger]
                            after.ignored_gpus.contains(gpu) implies after.gpu_free(gpu) by {
                            if gpu != gpu_id as u32 {
                                assert(s.ignored_gpus.contains(gpu));
                            }
                        }
                    }
                },
                GPUActionView::ResetIgnored => {},
                _ => {
                    lemma_tables_keep_unowned(s, after);
                },
            }
        },
        MessageView::QueueCommand(action) => {
            match action {
                QueueActionView::Merge { source, dest } => {
                    lemma_merging_tables(s, s.tasks, source, dest, s.tasks.len() as int);
                },
                _ => {},
            }
            lemma_tables_keep_unowned(s, after);
        },
        MessageView::SubmitCommand(action) => {
            match action {
                SubmitActionView::BatchJson { tasks, default_queue_name } => {
                    let default_queue = match default_queue_name {
                        Some(q) => q,
                        None => DEFAULT_WAITING_QUEUE_NAME@,
                    };
                    lemma_batch_tables(
                        Batch { state: s, counters, submitted: 0, failed: 0 },
                        tasks,
                        default_queue,
                        now_secs,
                        log_dir,
                        tasks.len() as int,
                    );
                },
                _ => {},
            }
            lemma_tables_keep_unowned(s, after);
        },
        _ => {
            lemma_tables_keep_unowned(s, after);
        },
    }
}

/// Neither the creation of the well-known queues, nor a scheduling round,
/// nor a telemetry snapshot, nor the start or the end of a child, nor a
/// reconciliation gives an ignored GPU an owner.
pub proof fn law_events_keep_ignored_unowned(s: StateView)
    requires
        s.ignored_gpus_unowned(),
    ensures
        s.with_default_queues().ignored_gpus_unowned(),
        s.after_round().ignored_gpus_unowned(),
        forall|snapshot: Seq<Option<crate::monitor::GpuStats>>|
            (#[trigger] s.refresh_gpu_stats(snapshot)).ignored_gpus_unowned(),
        forall|id: u64, pid: Option<i32>| (#[trigger] s.set_task_pid(id, pid)).ignored_gpus_unowned(),
        forall|id: u64, exit: ChildExitView| (#[trigger] s.after_exit(id, exit)).ignored_gpus_unowned(),
        forall|id: u64, reason: Seq<char>|
            (#[trigger] s.after_launch_failure(id, reason)).ignored_gpus_unowned(),
        forall|gone: Seq<i32>| (#[trigger] s.after_reconcile(gone)).ignored_gpus_unowned(),
{
    let parked = s.with_waiting_queue();
    let gpus = parked.unclaimed_gpus(crate::placement::GPU_INDEX_SPACE as nat);
    lemma_tables_keep_unowned(s, parked);
    lemma_unclaimed_not_ignored(parked, crate::placement::GPU_INDEX_SPACE as nat);
    lemma_claim_spares_ignored(
        parked,
        gpus,
        crate::models::DEFAULT_RUNNING_QUEUE_NAME@,
        gpus.len() as int,
    );
    if !parked.has_queue(crate::models::DEFAULT_RUNNING_QUEUE_NAME@) {
        lemma_tables_keep_unowned(
            parked.claim(gpus, crate::models::DEFAULT_RUNNING_QUEUE_NAME@, gpus.len() as int),
            s.with_default_queues(),
        );
    }
    lemma_carry_out_tables(s, s.placements(), s.placements().len() as int);
    lemma_tables_keep_unowned(s, s.after_round());
    assert forall|snapshot: Seq<Option<crate::monitor::GpuStats>>|
        (#[trigger] s.refresh_gpu_stats(snapshot)).ignored_gpus_unowned() by {
        lemma_tables_keep_unowned(s, s.refresh_gpu_stats(snapshot));
    }
    assert forall|id: u64, pid: Option<i32>|
        (#[trigger] s.set_task_pid(id, pid)).ignored_gpus_unowned() by {
        lemma_tables_keep_unowned(s, s.set_task_pid(id, pid));
    }
    assert forall|id: u64, exit: ChildExitView|
        (#[trigger] s.after_exit(id, exit)).ignored_gpus_unowned() by {
        lemma_tables_keep_unowned(s, s.after_exit(id, exit));
    }
    assert forall|id: u64, reason: Seq<char>|
        (#[trigger] s.after_launch_failure(id, reason)).ignored_gpus_unowned() by {
        lemma_tables_keep_unowned(s, s.after_launch_failure(id, reason));
    }
    assert forall|gone: Seq<i32>| (#[trigger] s.after_reconcile(gone)).ignored_gpus_unowned() by {
        lemma_reconcile_tables(s, s.tasks, gone, s.tasks.len() as int);
        lemma_tables_keep_unowned(s, s.after_reconcile(gone));
    }
}

} // verus!

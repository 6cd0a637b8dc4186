//! Every task names a queue that exists: which operations keep that,
//! whatever else is true of the store.

use crate::ended::{
    lemma_bookkeeping_same_lists, lemma_claim_same_lists, lemma_granting_same_lists,
};
use crate::message::{GPUActionView, MessageView, QueueActionView, SubmitActionView};
use crate::models::{
    QueueView, TaskState, TaskView, DEFAULT_RUNNING_QUEUE_NAME, DEFAULT_WAITING_QUEUE_NAME,
};
use crate::monitor::GpuStats;
use crate::placement::Placement;
use crate::store::StateView;
use crate::submit_handler::{Batch, SubmitCounters};
use crate::supervise::ChildExitView;
use vstd::prelude::*;

verus! {

impl StateView {
    /// Whether `after` has a queue of every name under which this store
    /// has one.
    pub open spec fn keeps_queues(self, after: StateView) -> bool {
        forall|name: Seq<char>| #[trigger] self.has_queue(name) ==> after.has_queue(name)
    }
}

/// Queues that keep their places and names are kept.
proof fn lemma_names_kept(s: StateView, after: StateView)
    requires
        s.queues.len() <= after.queues.len(),
        forall|q: int|
            0 <= q < s.queues.len() ==> (#[trigger] after.queues[q]).name == s.queues[q].name,
    ensures
        s.keeps_queues(after),
{
    assert forall|name: Seq<char>| #[trigger] s.has_queue(name) implies after.has_queue(name) by {
        let q = s.queue_pos(name);
        assert(after.queues[q].name == name);
    }
}

/// A step keeps every task in a queue that exists when it keeps the
/// queues and gives every task a queue that was or is there.
proof fn lemma_housed_step(s: StateView, after: StateView)
    requires
        s.tasks_have_queues(),
        s.keeps_queues(after),
        forall|j: int|
            0 <= j < after.tasks.len() ==> s.has_queue((#[trigger] after.tasks[j]).queue)
                || after.has_queue(after.tasks[j].queue),
    ensures
        after.tasks_have_queues(),
{
}

/// A store with the same lists as one in which every task names a queue
/// that exists is such a store.
pub proof fn lemma_same_lists_housed(s: StateView, after: StateView)
    requires
        s.tasks_have_queues(),
        s.same_lists(after),
    ensures
        after.tasks_have_queues(),
{
    lemma_names_kept(s, after);
    assert forall|j: int| 0 <= j < after.tasks.len() implies s.has_queue(
        (#[trigger] after.tasks[j]).queue,
    ) by {
        assert(s.has_queue(s.tasks[j].queue));
    }
    lemma_housed_step(s, after);
}

/// The operations of the store on tasks and queues keep every task in a
/// queue that exists.
pub proof fn lemma_store_housed(s: StateView)
    requires
        s.tasks_have_queues(),
    ensures
        forall|task: TaskView| (#[trigger] s.add_task(task)).tasks_have_queues(),
        forall|id: u64, state: TaskState, gpus: Option<Seq<u8>>, reason: Option<Seq<char>>|
            (#[trigger] s.update_task_state(id, state, gpus, reason)).tasks_have_queues(),
        forall|id: u64, dest: Seq<char>| (#[trigger] s.update_task_queue(id, dest)).tasks_have_queues(),
        forall|id: u64| (#[trigger] s.remove_task(id)).tasks_have_queues(),
        forall|queue: QueueView| (#[trigger] s.add_queue(queue)).tasks_have_queues(),
        forall|after: StateView| #[trigger] s.same_lists(after) ==> after.tasks_have_queues(),
{
    assert forall|task: TaskView| (#[trigger] s.add_task(task)).tasks_have_queues() by {
        let after = s.add_task(task);
        lemma_names_kept(s, after);
        if s.has_queue(task.queue) {
            assert(after.queues[s.queue_pos(task.queue)].name == task.queue);
        } else {
            assert(after.queues[s.queues.len() as int].name == task.queue);
        }
        assert(after.has_queue(task.queue));
        assert forall|j: int| 0 <= j < after.tasks.len() implies s.has_queue(
            (#[trigger] after.tasks[j]).queue,
        ) || after.has_queue(after.tasks[j].queue) by {
            if after.tasks[j] != task {
                assert(s.has_queue(s.tasks[j].queue));
            }
        }
        lemma_housed_step(s, after);
    }
    assert forall|id: u64, state: TaskState, gpus: Option<Seq<u8>>, reason: Option<Seq<char>>|
        (#[trigger] s.update_task_state(id, state, gpus, reason)).tasks_have_queues() by {
        let after = s.update_task_state(id, state, gpus, reason);
        if s.has_task(id) {
            s.lemma_task_pos(id);
            lemma_names_kept(s, after);
            assert forall|j: int| 0 <= j < after.tasks.len() implies s.has_queue(
                (#[trigger] after.tasks[j]).queue,
            ) by {
                assert(s.has_queue(s.tasks[j].queue));
            }
            lemma_housed_step(s, after);
        }
    }
    assert forall|id: u64, dest: Seq<char>|
        (#[trigger] s.update_task_queue(id, dest)).tasks_have_queues() by {
        let after = s.update_task_queue(id, dest);
        if s.can_move(id, dest) {
            s.lemma_task_pos(id);
            lemma_names_kept(s, after);
            assert forall|j: int| 0 <= j < after.tasks.len() implies s.has_queue(
                (#[trigger] after.tasks[j]).queue,
            ) by {
                if j != s.task_pos(id) {
                    assert(s.has_queue(s.tasks[j].queue));
                }
            }
            lemma_housed_step(s, after);
        }
    }
    assert forall|id: u64| (#[trigger] s.remove_task(id)).tasks_have_queues() by {
        let after = s.remove_task(id);
        if s.has_task(id) {
            s.lemma_task_pos(id);
            let p = s.task_pos(id);
            lemma_names_kept(s, after);
            assert forall|j: int| 0 <= j < after.tasks.len() implies s.has_queue(
                (#[trigger] after.tasks[j]).queue,
            ) by {
                let i = if j < p { j } else { j + 1 };
                assert(s.has_queue(s.tasks[i].queue));
            }
            lemma_housed_step(s, after);
        }
    }
    assert forall|queue: QueueView| (#[trigger] s.add_queue(queue)).tasks_have_queues() by {
        let after = s.add_queue(queue);
        lemma_names_kept(s, after);
        assert forall|j: int| 0 <= j < after.tasks.len() implies s.has_queue(
            (#[trigger] after.tasks[j]).queue,
        ) by {
            assert(s.has_queue(s.tasks[j].queue));
        }
        lemma_housed_step(s, after);
    }
    assert forall|after: StateView| #[trigger] s.same_lists(after) implies after.tasks_have_queues() by {
        lemma_same_lists_housed(s, after);
    }
}

/// A merge keeps every task in a queue that exists.
proof fn lemma_merging_housed(
    s: StateView,
    snapshot: Seq<TaskView>,
    source: Seq<char>,
    dest: Seq<char>,
    n: int,
)
    requires
        s.tasks_have_queues(),
        n <= snapshot.len(),
    ensures
        s.merging(snapshot, source, dest, n).tasks_have_queues(),
    decreases n,
{
    if n > 0 {
        lemma_merging_housed(s, snapshot, source, dest, n - 1);
        lemma_store_housed(s.merging(snapshot, source, dest, n - 1));
    }
}

/// A batch keeps every task in a queue that exists.
proof fn lemma_batch_housed(
    start: Batch,
    entries: Seq<TaskView>,
    default_queue: Seq<char>,
    now_secs: u64,
    log_dir: Seq<char>,
    n: int,
)
    requires
        start.state.tasks_have_queues(),
        n <= entries.len(),
    ensures
        start.submit_entries(entries, default_queue, now_secs, log_dir, n).state.tasks_have_queues(),
    decreases n,
{
    if n > 0 {
        lemma_batch_housed(start, entries, default_queue, now_secs, log_dir, n - 1);
        lemma_store_housed(
            start.submit_entries(entries, default_queue, now_secs, log_dir, n - 1).state,
        );
    }
}

/// A reconciliation keeps every task in a queue that exists.
proof fn lemma_reconcile_housed(s: StateView, snapshot: Seq<TaskView>, gone: Seq<i32>, n: int)
    requires
        s.tasks_have_queues(),
        n <= snapshot.len(),
    ensures
        s.reconcile(snapshot, gone, n).tasks_have_queues(),
    decreases n,
{
    if n > 0 {
        lemma_reconcile_housed(s, snapshot, gone, n - 1);
        lemma_store_housed(s.reconcile(snapshot, gone, n - 1));
    }
}

/// Carrying out placements keeps every task in a queue that exists.
proof fn lemma_carry_out_housed(s: StateView, placements: Seq<Placement>, n: int)
    requires
        s.tasks_have_queues(),
        n <= placements.len(),
    ensures
        s.carry_out(placements, n).tasks_have_queues(),
    decreases n,
{
    if n > 0 {
        lemma_carry_out_housed(s, placements, n - 1);
        lemma_store_housed(s.carry_out(placements, n - 1));
    }
}

/// After a request every task names a queue that exists, as before it.
pub proof fn law_requests_keep_tasks_in_queues(
    s: StateView,
    counters: SubmitCounters,
    now_secs: u64,
    log_dir: Seq<char>,
    message: MessageView,
)
    requires
        s.tasks_have_queues(),
    ensures
        s.handle(counters, now_secs, log_dir, message).state.tasks_have_queues(),
{
    let after = s.handle(counters, now_secs, log_dir, message).state;
    lemma_store_housed(s);
    lemma_bookkeeping_same_lists(s);
    match message {
        MessageView::GPUCommand(action) => {
            match action {
                GPUActionView::Allocate { gpu_ids, queue } => {
                    lemma_granting_same_lists(s, gpu_ids, queue, gpu_ids.len() as int);
                },
                GPUActionView::Release { gpu_id } => {
                    lemma_bookkeeping_same_lists(s.set_gpu_allocation(gpu_id as u32, None));
                },
                GPUActionView::Ignore { gpu_id } => {
                    lemma_bookkeeping_same_lists(s.set_gpu_ignore(gpu_id as u32));
                },
                _ => {},
            }
            assert(s.same_lists(after));
        },
        MessageView::QueueCommand(action) => {
            match action {
                QueueActionView::Merge { source, dest } => {
                    lemma_merging_housed(s, s.tasks, source, dest, s.tasks.len() as int);
                },
                _ => {},
            }
        },
        MessageView::SubmitCommand(action) => {
            match action {
                SubmitActionView::BatchJson { tasks, default_queue_name } => {
                    lemma_batch_housed(
                        Batch { state: s, counters, submitted: 0, failed: 0 },
                        tasks,
                        match default_queue_name {
                            Some(q) => q,
                            None => DEFAULT_WAITING_QUEUE_NAME@,
                        },
                        now_secs,
                        log_dir,
                        tasks.len() as int,
                    );
                },
                _ => {},
            }
        },
        _ => {},
    }
}

/// After a scheduling round, the end of a child, a failed start, a
/// reconciliation, a start, a telemetry snapshot and the creation of the
/// well-known queues every task names a queue that exists, as before.
pub proof fn law_events_keep_tasks_in_queues(s: StateView)
    requires
        s.tasks_have_queues(),
    ensures
        s.after_round().tasks_have_queues(),
        s.with_default_queues().tasks_have_queues(),
        forall|id: u64, pid: Option<i32>| (#[trigger] s.set_task_pid(id, pid)).tasks_have_queues(),
        forall|id: u64, exit: ChildExitView| (#[trigger] s.after_exit(id, exit)).tasks_have_queues(),
        forall|id: u64, reason: Seq<char>|
            (#[trigger] s.after_launch_failure(id, reason)).tasks_have_queues(),
        forall|gone: Seq<i32>| (#[trigger] s.after_reconcile(gone)).tasks_have_queues(),
        forall|snapshot: Seq<Option<GpuStats>>|
            (#[trigger] s.refresh_gpu_stats(snapshot)).tasks_have_queues(),
{
    lemma_store_housed(s);
    lemma_bookkeeping_same_lists(s);
    lemma_carry_out_housed(s, s.placements(), s.placements().len() as int);
    assert forall|id: u64, exit: ChildExitView|
        (#[trigger] s.after_exit(id, exit)).tasks_have_queues() by {
        let mid = s.update_task_state(id, exit.final_state(), None, exit.reason());
        lemma_bookkeeping_same_lists(mid);
        lemma_same_lists_housed(mid, s.after_exit(id, exit));
    }
    assert forall|gone: Seq<i32>| (#[trigger] s.after_reconcile(gone)).tasks_have_queues() by {
        lemma_reconcile_housed(s, s.tasks, gone, s.tasks.len() as int);
    }
    let parked = s.with_waiting_queue();
    if !parked.has_queue(DEFAULT_RUNNING_QUEUE_NAME@) {
        let gpus = parked.unclaimed_gpus(crate::placement::GPU_INDEX_SPACE as nat);
        let claimed = parked.claim(gpus, DEFAULT_RUNNING_QUEUE_NAME@, gpus.len() as int);
        lemma_claim_same_lists(parked, gpus, DEFAULT_RUNNING_QUEUE_NAME@, gpus.len() as int);
        lemma_same_lists_housed(parked, claimed);
        lemma_store_housed(claimed);
    }
}

} // verus!

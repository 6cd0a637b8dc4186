//! Finished and failed tasks are in no list of any queue: which
//! operations keep that, whatever else is true of the store.

use crate::idlist::{lemma_with_item, lemma_without_contains};
use crate::message::{
    GPUActionView, MessageView, QueueActionView, SubmitActionView, TaskActionView,
};
use crate::models::{
    QueueView, ResourceLimit, TaskState, TaskView, DEFAULT_RUNNING_QUEUE_NAME,
    DEFAULT_TASK_PRIORITY, DEFAULT_WAITING_QUEUE_NAME,
};
use crate::monitor::GpuStats;
use crate::placement::Placement;
use crate::submit_handler::{submitted_task, Batch, SubmitCounters};
use crate::supervise::ChildExitView;
use crate::store::{strike_everywhere, with_item, without, StateView};
use vstd::prelude::*;

verus! {

impl QueueView {
    /// Whether one of the two lists of the queue holds `id`.
    pub open spec fn lists(self, id: u64) -> bool {
        self.waiting_task_ids.contains(id) || self.running_task_ids.contains(id)
    }
}

impl StateView {
    /// Whether a list of some queue holds `id`.
    pub open spec fn in_lists(self, id: u64) -> bool {
        exists|q: int| 0 <= q < self.queues.len() && (#[trigger] self.queues[q]).lists(id)
    }

    /// Whether a task with id `id` is Finished or Failed.
    pub open spec fn ended(self, id: u64) -> bool {
        exists|i: int|
            0 <= i < self.tasks.len() && (#[trigger] self.tasks[i]).id == id
                && self.tasks[i].state.is_terminal()
    }

    /// No Finished or Failed task is in a list of any queue.
    pub open spec fn ended_unlisted(self) -> bool {
        forall|id: u64| #[trigger] self.ended(id) ==> !self.in_lists(id)
    }

    /// No task id occurs twice, and no Finished or Failed task is in a
    /// list of any queue.
    pub open spec fn tidy(self) -> bool {
        self.ids_distinct() && self.ended_unlisted()
    }
}

/// What the operations on one queue list: nothing but what the queue
/// listed and the task they are for.
pub proof fn lemma_queue_lists(queue: QueueView, id: u64)
    ensures
        forall|y: u64| #[trigger] queue.enqueue(id).lists(y) ==> y == id || queue.lists(y),
        forall|y: u64| #[trigger] queue.park(id).lists(y) ==> y == id || queue.lists(y),
        forall|y: u64| #[trigger] queue.strike(id).lists(y) ==> y != id && queue.lists(y),
        forall|y: u64, to: TaskState| #[trigger]
            queue.transition(id, to).lists(y) ==> y == id || queue.lists(y),
{
    lemma_with_item(queue.waiting_task_ids, id);
    lemma_without_contains(queue.waiting_task_ids, id);
    lemma_without_contains(queue.running_task_ids, id);
    lemma_with_item(without(queue.waiting_task_ids, id), id);
    lemma_with_item(without(queue.running_task_ids, id), id);
    assert forall|y: u64, to: TaskState| #[trigger]
        queue.transition(id, to).lists(y) implies y == id || queue.lists(y) by {
        let left = queue.strike(id);
        let moved = queue.transition(id, to);
        if y != id {
            if moved.waiting_task_ids.contains(y) {
                assert(with_item(left.waiting_task_ids, id).contains(y) || left.waiting_task_ids.contains(y));
                assert(left.waiting_task_ids.contains(y));
                assert(queue.waiting_task_ids.contains(y));
            } else {
                assert(with_item(left.running_task_ids, id).contains(y) || left.running_task_ids.contains(y));
                assert(left.running_task_ids.contains(y));
                assert(queue.running_task_ids.contains(y));
            }
        }
    }
    assert forall|y: u64| #[trigger] queue.park(id).lists(y) implies y == id || queue.lists(y) by {
        if !queue.lists(id) && y != id {
            let grown = queue.waiting_task_ids.push(id);
            if grown.contains(y) {
                let k = choose|k: int| 0 <= k < grown.len() && grown[k] == y;
                assert(queue.waiting_task_ids[k] == y);
            }
        }
    }
}

/// A step keeps the store tidy when, the task `x` apart, it ends no task
/// and lists none, and `x` is not both ended and listed after it.
pub proof fn lemma_tidy_step(s: StateView, after: StateView, x: u64)
    requires
        s.ended_unlisted(),
        after.ids_distinct(),
        forall|y: u64| y != x && #[trigger] after.ended(y) ==> s.ended(y),
        forall|y: u64| y != x && #[trigger] after.in_lists(y) ==> s.in_lists(y),
        !(after.ended(x) && after.in_lists(x)),
    ensures
        after.tidy(),
{
    assert forall|id: u64| #[trigger] after.ended(id) implies !after.in_lists(id) by {
        if id != x && after.in_lists(id) {
            assert(s.ended(id));
            assert(s.in_lists(id));
        }
    }
}

/// A step that ends no task and lists none keeps the store tidy.
pub proof fn lemma_tidy_frame(s: StateView, after: StateView)
    requires
        s.tidy(),
        after.tasks.len() == s.tasks.len(),
        forall|i: int|
            0 <= i < s.tasks.len() ==> (#[trigger] after.tasks[i]).id == s.tasks[i].id
                && after.tasks[i].state == s.tasks[i].state,
        forall|q: int, y: u64|
            0 <= q < after.queues.len() && #[trigger] after.queues[q].lists(y) ==> s.in_lists(y),
    ensures
        after.tidy(),
{
    assert forall|a: int, b: int| 0 <= a < b < after.tasks.len() implies after.tasks[a].id
        != after.tasks[b].id by {
        assert(s.tasks[a].id != s.tasks[b].id);
    }
    assert forall|y: u64| #[trigger] after.ended(y) implies s.ended(y) by {
        let j = choose|j: int|
            0 <= j < after.tasks.len() && (#[trigger] after.tasks[j]).id == y
                && after.tasks[j].state.is_terminal();
        assert(s.tasks[j].id == y);
    }
    assert forall|y: u64| #[trigger] after.in_lists(y) implies s.in_lists(y) by {
        let q = choose|q: int| 0 <= q < after.queues.len() && #[trigger] after.queues[q].lists(y);
        assert(after.queues[q].lists(y));
    }
    lemma_tidy_step(s, after, 0);
}

/// Replacing the record of one task by one of the same id keeps the ids
/// distinct, and ends no other task.
proof fn lemma_record_replaced(s: StateView, p: int, task: TaskView, after: StateView)
    requires
        s.ids_distinct(),
        0 <= p < s.tasks.len(),
        task.id == s.tasks[p].id,
        after.tasks == s.tasks.update(p, task),
    ensures
        after.ids_distinct(),
        forall|y: u64| y != task.id && #[trigger] after.ended(y) ==> s.ended(y),
        after.ended(task.id) ==> task.state.is_terminal(),
{
    assert forall|a: int, b: int| 0 <= a < b < after.tasks.len() implies after.tasks[a].id
        != after.tasks[b].id by {
        assert(s.tasks[a].id != s.tasks[b].id);
    }
    assert forall|y: u64| y != task.id && #[trigger] after.ended(y) implies s.ended(y) by {
        let j = choose|j: int|
            0 <= j < after.tasks.len() && (#[trigger] after.tasks[j]).id == y
                && after.tasks[j].state.is_terminal();
        assert(s.tasks[j].id == y);
    }
    if after.ended(task.id) {
        let j = choose|j: int|
            0 <= j < after.tasks.len() && (#[trigger] after.tasks[j]).id == task.id
                && after.tasks[j].state.is_terminal();
        if j < p {
            assert(s.tasks[j].id != s.tasks[p].id);
        } else if p < j {
            assert(s.tasks[p].id != s.tasks[j].id);
        }
    }
}

/// Changing one queue lists nothing new but what the changed queue lists.
proof fn lemma_queue_replaced(
    queues: Seq<QueueView>,
    j: int,
    queue: QueueView,
    s: StateView,
    x: u64,
)
    requires
        0 <= j < queues.len(),
        forall|q: int, y: u64|
            0 <= q < queues.len() && y != x && #[trigger] queues[q].lists(y) ==> s.in_lists(y),
        forall|y: u64| y != x && #[trigger] queue.lists(y) ==> queues[j].lists(y),
    ensures
        forall|q: int, y: u64|
            0 <= q < queues.len() && y != x && #[trigger] queues.update(j, queue)[q].lists(y)
                ==> s.in_lists(y),
{
    assert forall|q: int, y: u64|
        0 <= q < queues.len() && y != x && #[trigger] queues.update(j, queue)[q].lists(y) implies s.in_lists(y) by {
        if q == j {
            assert(queues[j].lists(y));
        } else {
            assert(queues[q].lists(y));
        }
    }
}

/// What a store lists, the task `x` apart, counts as listed.
proof fn lemma_own_lists(s: StateView, x: u64)
    ensures
        forall|q: int, y: u64|
            0 <= q < s.queues.len() && y != x && #[trigger] s.queues[q].lists(y) ==> s.in_lists(y),
{
}

/// Queues that list nothing new, the task `x` apart, make a store that
/// lists nothing new.
proof fn lemma_listed_from(s: StateView, after: StateView, x: u64)
    requires
        forall|q: int, y: u64|
            0 <= q < after.queues.len() && y != x && #[trigger] after.queues[q].lists(y)
                ==> s.in_lists(y),
    ensures
        forall|y: u64| y != x && #[trigger] after.in_lists(y) ==> s.in_lists(y),
{
    assert forall|y: u64| y != x && #[trigger] after.in_lists(y) implies s.in_lists(y) by {
        let q = choose|q: int| 0 <= q < after.queues.len() && #[trigger] after.queues[q].lists(y);
        assert(after.queues[q].lists(y));
    }
}

/// Striking a task from every queue lists nothing new, and the task
/// nowhere.
proof fn lemma_struck_lists(s: StateView, id: u64)
    ensures
        forall|q: int, y: u64|
            0 <= q < s.queues.len() && #[trigger] strike_everywhere(s.queues, id)[q].lists(y) ==> y
                != id && s.in_lists(y),
{
    assert forall|q: int, y: u64|
        0 <= q < s.queues.len() && #[trigger] strike_everywhere(s.queues, id)[q].lists(
            y,
        ) implies y != id && s.in_lists(y) by {
        lemma_queue_lists(s.queues[q], id);
        assert(s.queues[q].strike(id).lists(y));
        assert(s.queues[q].lists(y));
    }
}

/// A new state of a task keeps the store tidy.
pub proof fn lemma_update_task_state_tidy(
    s: StateView,
    id: u64,
    state: TaskState,
    gpus: Option<Seq<u8>>,
    reason: Option<Seq<char>>,
)
    requires
        s.tidy(),
    ensures
        s.update_task_state(id, state, gpus, reason).tidy(),
{
    let after = s.update_task_state(id, state, gpus, reason);
    if s.has_task(id) {
        s.lemma_task_pos(id);
        let p = s.task_pos(id);
        lemma_record_replaced(s, p, StateView::task_in_state(s.task(id), state, gpus, reason), after);
        if state.is_terminal() {
            lemma_struck_lists(s, id);
            assert forall|q: int, y: u64|
                0 <= q < after.queues.len() && #[trigger] after.queues[q].lists(y) implies y != id
                && s.in_lists(y) by {
                assert(strike_everywhere(s.queues, id)[q].lists(y));
            }
            if after.in_lists(id) {
                let q = choose|q: int|
                    0 <= q < after.queues.len() && (#[trigger] after.queues[q]).lists(id);
                assert(after.queues[q].lists(id));
            }
            lemma_listed_from(s, after, id);
        } else if s.task(id).state != state && s.has_queue(s.task(id).queue) {
            let j = s.queue_pos(s.task(id).queue);
            lemma_queue_lists(s.queues[j], id);
            lemma_own_lists(s, id);
            lemma_queue_replaced(s.queues, j, s.queues[j].transition(id, state), s, id);
            lemma_listed_from(s, after, id);
        } else {
            lemma_own_lists(s, id);
            lemma_listed_from(s, after, id);
        }
        lemma_tidy_step(s, after, id);
    }
}

/// A new task that is not Finished or Failed keeps the store tidy.
pub proof fn lemma_add_task_tidy(s: StateView, task: TaskView)
    requires
        s.tidy(),
        !task.state.is_terminal(),
    ensures
        s.add_task(task).tidy(),
{
    let after = s.add_task(task);
    let id = task.id;
    if s.has_task(id) {
        s.lemma_task_pos(id);
        lemma_record_replaced(s, s.task_pos(id), task, after);
    } else {
        assert forall|a: int, b: int| 0 <= a < b < after.tasks.len() implies after.tasks[a].id
            != after.tasks[b].id by {
            if b < s.tasks.len() {
                assert(s.tasks[a].id != s.tasks[b].id);
            } else {
                assert(s.tasks[a].id != id);
            }
        }
        assert forall|y: u64| y != id && #[trigger] after.ended(y) implies s.ended(y) by {
            let j = choose|j: int|
                0 <= j < after.tasks.len() && (#[trigger] after.tasks[j]).id == y
                    && after.tasks[j].state.is_terminal();
            assert(s.tasks[j].id == y);
        }
        if after.ended(id) {
            let j = choose|j: int|
                0 <= j < after.tasks.len() && (#[trigger] after.tasks[j]).id == id
                    && after.tasks[j].state.is_terminal();
            assert(s.tasks[j].id == id);
        }
    }
    lemma_own_lists(s, id);
    if s.has_queue(task.queue) {
        let j = s.queue_pos(task.queue);
        lemma_queue_lists(s.queues[j], id);
        lemma_queue_replaced(s.queues, j, s.queues[j].enqueue(id), s, id);
    } else {
        let made = QueueView::created_for(task.queue, id);
        assert forall|q: int, y: u64|
            0 <= q < after.queues.len() && y != id && #[trigger] after.queues[q].lists(
                y,
            ) implies s.in_lists(y) by {
            if q < s.queues.len() {
                assert(s.queues[q].lists(y));
            } else {
                assert(made.waiting_task_ids[0] == id);
            }
        }
    }
    lemma_listed_from(s, after, id);
    lemma_tidy_step(s, after, id);
}

/// Moving a task that is not Finished or Failed keeps the store tidy.
pub proof fn lemma_update_task_queue_tidy(s: StateView, id: u64, dest: Seq<char>)
    requires
        s.tidy(),
        s.can_move(id, dest) ==> !s.task(id).state.is_terminal(),
    ensures
        s.update_task_queue(id, dest).tidy(),
{
    let after = s.update_task_queue(id, dest);
    if s.can_move(id, dest) {
        s.lemma_task_pos(id);
        let before = s.task(id);
        lemma_record_replaced(s, s.task_pos(id), TaskView { queue: dest, ..before }, after);
        lemma_own_lists(s, id);
        let left = if s.has_queue(before.queue) {
            s.queues.update(s.queue_pos(before.queue), s.queue(before.queue).strike(id))
        } else {
            s.queues
        };
        if s.has_queue(before.queue) {
            let j = s.queue_pos(before.queue);
            lemma_queue_lists(s.queues[j], id);
            lemma_queue_replaced(s.queues, j, s.queues[j].strike(id), s, id);
        }
        let at = s.queue_pos(dest);
        lemma_queue_lists(left[at], id);
        lemma_queue_replaced(left, at, left[at].park(id), s, id);
        lemma_listed_from(s, after, id);
        lemma_tidy_step(s, after, id);
    }
}

/// Removing a task keeps the store tidy.
pub proof fn lemma_remove_task_tidy(s: StateView, id: u64)
    requires
        s.tidy(),
    ensures
        s.remove_task(id).tidy(),
{
    let after = s.remove_task(id);
    if s.has_task(id) {
        s.lemma_task_pos(id);
        let p = s.task_pos(id);
        assert forall|a: int, b: int| 0 <= a < b < after.tasks.len() implies after.tasks[a].id
            != after.tasks[b].id by {
            let sa = if a < p { a } else { a + 1 };
            let sb = if b < p { b } else { b + 1 };
            assert(s.tasks[sa].id != s.tasks[sb].id);
        }
        assert forall|y: u64| y != id && #[trigger] after.ended(y) implies s.ended(y) by {
            let j = choose|j: int|
                0 <= j < after.tasks.len() && (#[trigger] after.tasks[j]).id == y
                    && after.tasks[j].state.is_terminal();
            let i = if j < p { j } else { j + 1 };
            assert(s.tasks[i].id == y);
        }
        lemma_struck_lists(s, id);
        assert forall|q: int, y: u64|
            0 <= q < after.queues.len() && #[trigger] after.queues[q].lists(y) implies y != id
            && s.in_lists(y) by {
            assert(strike_everywhere(s.queues, id)[q].lists(y));
        }
        if after.in_lists(id) {
            let q = choose|q: int|
                0 <= q < after.queues.len() && (#[trigger] after.queues[q]).lists(id);
            assert(after.queues[q].lists(id));
        }
        lemma_listed_from(s, after, id);
        lemma_tidy_step(s, after, id);
    }
}

/// A queue that comes with empty lists keeps the store tidy.
pub proof fn lemma_add_queue_tidy(s: StateView, queue: QueueView)
    requires
        s.tidy(),
        queue.waiting_task_ids.len() == 0,
        queue.running_task_ids.len() == 0,
    ensures
        s.add_queue(queue).tidy(),
{
    let after = s.add_queue(queue);
    assert forall|q: int, y: u64|
        0 <= q < after.queues.len() && #[trigger] after.queues[q].lists(y) implies s.in_lists(
        y,
    ) by {
        if after.queues[q] != queue {
            assert(s.queues[q].lists(y));
        }
    }
    lemma_tidy_frame(s, after);
}

impl StateView {
    /// Whether `after` has the same tasks as far as id, state and queue go,
    /// and the same queues as far as their names and lists go.
    pub open spec fn same_lists(self, after: StateView) -> bool {
        &&& after.tasks.len() == self.tasks.len()
        &&& forall|i: int|
            0 <= i < self.tasks.len() ==> (#[trigger] after.tasks[i]).id == self.tasks[i].id
                && after.tasks[i].state == self.tasks[i].state && after.tasks[i].queue
                == self.tasks[i].queue
        &&& after.queues.len() == self.queues.len()
        &&& forall|q: int|
            0 <= q < self.queues.len() ==> (#[trigger] after.queues[q]).name == self.queues[q].name
                && after.queues[q].waiting_task_ids == self.queues[q].waiting_task_ids
                && after.queues[q].running_task_ids == self.queues[q].running_task_ids
    }
}

/// A store with the same lists as a tidy one is tidy.
pub proof fn lemma_same_lists_tidy(s: StateView, after: StateView)
    requires
        s.tidy(),
        s.same_lists(after),
    ensures
        after.tidy(),
{
    assert forall|q: int, y: u64|
        0 <= q < after.queues.len() && #[trigger] after.queues[q].lists(y) implies s.in_lists(
        y,
    ) by {
        assert(s.queues[q].lists(y));
    }
    lemma_tidy_frame(s, after);
}

/// Bookkeeping leaves the lists as they are: a process id, a priority, a
/// resource limit, a queue's list of GPUs, telemetry, the ignore set and
/// the ownership table.
pub proof fn lemma_bookkeeping_same_lists(s: StateView)
    ensures
        forall|id: u64, pid: Option<i32>| s.same_lists(#[trigger] s.set_task_pid(id, pid)),
        forall|id: u64, priority: u8| s.same_lists(#[trigger] s.update_task_priority(id, priority)),
        forall|name: Seq<char>, limit: ResourceLimit|
            s.same_lists(#[trigger] s.update_queue_resource_limit(name, limit)),
        forall|name: Seq<char>, gpu: u8| s.same_lists(#[trigger] s.grant_gpu(name, gpu)),
        forall|name: Seq<char>, gpu: u8| s.same_lists(#[trigger] s.revoke_gpu(name, gpu)),
        forall|snapshot: Seq<Option<GpuStats>>| s.same_lists(#[trigger] s.refresh_gpu_stats(snapshot)),
        forall|gpu: u32| s.same_lists(#[trigger] s.set_gpu_ignore(gpu)),
        forall|gpu: u32| s.same_lists(#[trigger] s.unset_gpu_ignore(gpu)),
        forall|gpu: u32, owner: Option<Seq<char>>|
            s.same_lists(#[trigger] s.set_gpu_allocation(gpu, owner)),
        forall|gpu: u32| s.same_lists(#[trigger] s.remove_gpu_allocation(gpu)),
{
    assert forall|id: u64, pid: Option<i32>| s.same_lists(#[trigger] s.set_task_pid(id, pid)) by {
        if s.has_task(id) {
            s.lemma_task_pos(id);
        }
    }
    assert forall|id: u64, priority: u8|
        s.same_lists(#[trigger] s.update_task_priority(id, priority)) by {
        if s.has_task(id) {
            s.lemma_task_pos(id);
        }
    }
}

/// An allocation leaves the lists as they are.
pub proof fn lemma_granting_same_lists(s: StateView, gpus: Seq<u8>, queue: Seq<char>, n: int)
    requires
        n <= gpus.len(),
    ensures
        s.same_lists(s.granting(gpus, queue, n).state),
    decreases n,
{
    if n > 0 {
        lemma_granting_same_lists(s, gpus, queue, n - 1);
        let earlier = s.granting(gpus, queue, n - 1).state;
        lemma_bookkeeping_same_lists(earlier);
        lemma_bookkeeping_same_lists(earlier.set_gpu_allocation(gpus[n - 1] as u32, Some(queue)));
    }
}

/// Claiming GPUs leaves the lists as they are.
pub proof fn lemma_claim_same_lists(s: StateView, gpus: Seq<u8>, name: Seq<char>, n: int)
    requires
        n <= gpus.len(),
    ensures
        s.same_lists(s.claim(gpus, name, n)),
    decreases n,
{
    if n > 0 {
        lemma_claim_same_lists(s, gpus, name, n - 1);
        lemma_bookkeeping_same_lists(s.claim(gpus, name, n - 1));
    }
}

/// A request on GPUs keeps the store tidy.
pub proof fn law_gpu_command_keeps_tidy(s: StateView, action: GPUActionView)
    requires
        s.tidy(),
    ensures
        s.after_gpu_command(action).tidy(),
{
    let after = s.after_gpu_command(action);
    lemma_bookkeeping_same_lists(s);
    match action {
        GPUActionView::Allocate { gpu_ids, queue } => {
            lemma_granting_same_lists(s, gpu_ids, queue, gpu_ids.len() as int);
        },
        GPUActionView::Release { gpu_id } => {
            lemma_bookkeeping_same_lists(s.set_gpu_allocation(gpu_id as u32, None));
        },
        GPUActionView::Ignore { gpu_id } => {
            lemma_bookkeeping_same_lists(s.set_gpu_ignore(gpu_id as u32));
        },
        _ => {},
    }
    assert(s.same_lists(after));
    lemma_same_lists_tidy(s, after);
}

impl StateView {
    /// Whether a request on tasks moves no task that is Finished or
    /// Failed. Only a release moves a task.
    pub open spec fn task_command_moves_live(self, action: TaskActionView) -> bool {
        match action {
            TaskActionView::Run { task_id } => self.can_release(task_id) ==> !self.task(
                task_id,
            ).state.is_terminal(),
            _ => true,
        }
    }

    /// Whether a request on queues moves no task that is Finished or
    /// Failed.
    pub open spec fn queue_command_moves_live(self, action: QueueActionView) -> bool {
        match action {
            QueueActionView::Merge { source, dest } => self.can_merge(source, dest) ==> forall|
                i: int,
            |
                0 <= i < self.tasks.len() && (#[trigger] self.tasks[i]).queue == source
                    ==> !self.tasks[i].state.is_terminal(),
            QueueActionView::Move { task_id, dest_queue } => self.can_move(task_id, dest_queue)
                ==> !self.task(task_id).state.is_terminal(),
            _ => true,
        }
    }

    /// Whether a request moves no task that is Finished or Failed to
    /// another queue.
    pub open spec fn request_moves_live(self, message: MessageView) -> bool {
        match message {
            MessageView::TaskCommand(action) => self.task_command_moves_live(action),
            MessageView::QueueCommand(action) => self.queue_command_moves_live(action),
            _ => true,
        }
    }
}

/// A request on tasks keeps the store tidy, unless it moves a task that is
/// Finished or Failed.
pub proof fn law_task_command_keeps_tidy(s: StateView, action: TaskActionView)
    requires
        s.tidy(),
        s.task_command_moves_live(action),
    ensures
        s.after_task_command(action).tidy(),
{
    match action {
        TaskActionView::Run { task_id } => {
            if s.can_release(task_id) {
                lemma_update_task_queue_tidy(s, task_id, DEFAULT_RUNNING_QUEUE_NAME@);
            }
        },
        TaskActionView::Remove { task_id } => {
            lemma_remove_task_tidy(s, task_id);
        },
        _ => {},
    }
}

/// Merging keeps the store tidy while no task that it moves is Finished
/// or Failed.
proof fn lemma_merging_tidy(s: StateView, source: Seq<char>, dest: Seq<char>, n: int)
    requires
        s.tidy(),
        n <= s.tasks.len(),
        forall|i: int|
            0 <= i < s.tasks.len() && (#[trigger] s.tasks[i]).queue == source
                ==> !s.tasks[i].state.is_terminal(),
    ensures
        s.merging(s.tasks, source, dest, n).tidy(),
        s.merging(s.tasks, source, dest, n).tasks.len() == s.tasks.len(),
        forall|i: int|
            0 <= i < s.tasks.len() ==> (#[trigger] s.merging(s.tasks, source, dest, n).tasks[i]).id
                == s.tasks[i].id && s.merging(s.tasks, source, dest, n).tasks[i].state
                == s.tasks[i].state,
    decreases n,
{
    if n > 0 {
        lemma_merging_tidy(s, source, dest, n - 1);
        let earlier = s.merging(s.tasks, source, dest, n - 1);
        if s.tasks[n - 1].queue == source {
            let id = s.tasks[n - 1].id;
            assert(earlier.tasks[n - 1].id == id);
            lemma_task_found(earlier, n - 1);
            lemma_update_task_queue_tidy(earlier, id, dest);
        }
    }
}

/// In a store with distinct ids a task is found where it stands.
proof fn lemma_task_found(s: StateView, i: int)
    requires
        s.ids_distinct(),
        0 <= i < s.tasks.len(),
    ensures
        s.has_task(s.tasks[i].id),
        s.task_pos(s.tasks[i].id) == i,
        s.task(s.tasks[i].id) == s.tasks[i],
{
    let id = s.tasks[i].id;
    let j = s.task_pos(id);
    if j < i {
        assert(s.tasks[j].id != s.tasks[i].id);
    } else if i < j {
        assert(s.tasks[i].id != s.tasks[j].id);
    }
}

/// A request on queues keeps the store tidy, unless it moves a task that
/// is Finished or Failed.
pub proof fn law_queue_command_keeps_tidy(s: StateView, action: QueueActionView)
    requires
        s.tidy(),
        s.queue_command_moves_live(action),
    ensures
        s.after_queue_command(action).tidy(),
{
    lemma_bookkeeping_same_lists(s);
    match action {
        QueueActionView::Merge { source, dest } => {
            if s.can_merge(source, dest) {
                lemma_merging_tidy(s, source, dest, s.tasks.len() as int);
            }
        },
        QueueActionView::Create { name, priority } => {
            if !s.has_queue(name) {
                lemma_add_queue_tidy(s, QueueView::empty(name, priority, 1));
            }
        },
        QueueActionView::Move { task_id, dest_queue } => {
            lemma_update_task_queue_tidy(s, task_id, dest_queue);
        },
        QueueActionView::SetPriority { task_id, level } => {
            lemma_same_lists_tidy(s, s.after_queue_command(action));
        },
        QueueActionView::SetResourceLimit { queue_name, limit } => {
            lemma_same_lists_tidy(s, s.after_queue_command(action));
        },
        _ => {},
    }
}

/// A batch keeps the store tidy.
proof fn lemma_batch_tidy(
    start: Batch,
    entries: Seq<TaskView>,
    default_queue: Seq<char>,
    now_secs: u64,
    log_dir: Seq<char>,
    n: int,
)
    requires
        start.state.tidy(),
        n <= entries.len(),
    ensures
        start.submit_entries(entries, default_queue, now_secs, log_dir, n).state.tidy(),
    decreases n,
{
    if n > 0 {
        lemma_batch_tidy(start, entries, default_queue, now_secs, log_dir, n - 1);
        let earlier = start.submit_entries(entries, default_queue, now_secs, log_dir, n - 1);
        match earlier.entry_id(entries[n - 1], now_secs) {
            Some(picked) => {
                let now = earlier.submit_entry(entries[n - 1], default_queue, now_secs, log_dir);
                let unnamed = entries[n - 1].name.len() == 0;
                let task = submitted_task(
                    picked.id,
                    if unnamed {
                        crate::replies::default_task_name_text(earlier.counters.name_counter)
                    } else {
                        entries[n - 1].name
                    },
                    entries[n - 1].cmd,
                    entries[n - 1].gpu_require,
                    entries[n - 1].priority,
                    if entries[n - 1].queue.len() == 0 {
                        default_queue
                    } else {
                        entries[n - 1].queue
                    },
                    if entries[n - 1].create_time == 0 {
                        now_secs
                    } else {
                        entries[n - 1].create_time
                    },
                    if entries[n - 1].log_path.len() == 0 {
                        crate::replies::log_path_for_text(log_dir, picked.id)
                    } else {
                        entries[n - 1].log_path
                    },
                );
                assert(now.state == earlier.state.add_task(task));
                lemma_add_task_tidy(earlier.state, task);
            },
            None => {},
        }
    }
}

/// A submission keeps the store tidy.
pub proof fn law_submit_keeps_tidy(
    s: StateView,
    counters: SubmitCounters,
    now_secs: u64,
    log_dir: Seq<char>,
    action: SubmitActionView,
)
    requires
        s.tidy(),
    ensures
        s.submit(counters, now_secs, log_dir, action).state.tidy(),
{
    match action {
        SubmitActionView::Command { command, gpu_num_required, queue_name, name } => {
            lemma_one_tidy(
                s,
                counters,
                now_secs,
                log_dir,
                command,
                gpu_num_required,
                queue_name,
                name,
                false,
            );
        },
        SubmitActionView::Script { script_path, gpu_num_required, queue_name, name } => {
            lemma_one_tidy(
                s,
                counters,
                now_secs,
                log_dir,
                script_path,
                gpu_num_required,
                queue_name,
                name,
                true,
            );
        },
        SubmitActionView::BatchJson { tasks, default_queue_name } => {
            lemma_batch_tidy(
                Batch { state: s, counters, submitted: 0, failed: 0 },
                tasks,
                match default_queue_name {
                    Some(q) => q,
                    None => DEFAULT_WAITING_QUEUE_NAME@,
                },
                now_secs,
                log_dir,
                tasks.len() as int,
            );
        },
    }
}

/// The submission of one task keeps the store tidy.
proof fn lemma_one_tidy(
    s: StateView,
    counters: SubmitCounters,
    now_secs: u64,
    log_dir: Seq<char>,
    command: Seq<char>,
    gpu_require: u8,
    queue_name: Option<Seq<char>>,
    name: Option<Seq<char>>,
    script: bool,
)
    requires
        s.tidy(),
    ensures
        s.submit_one(
            counters,
            now_secs,
            log_dir,
            command,
            gpu_require,
            queue_name,
            name,
            script,
        ).state.tidy(),
{
    match s.pick_id(now_secs, counters.id_counter) {
        Some(picked) => {
            let task = submitted_task(
                picked.id,
                match name {
                    Some(n) => n,
                    None => crate::replies::default_task_name_text(counters.name_counter),
                },
                command,
                gpu_require,
                DEFAULT_TASK_PRIORITY,
                match queue_name {
                    Some(q) => q,
                    None => DEFAULT_WAITING_QUEUE_NAME@,
                },
                now_secs,
                crate::replies::log_path_for_text(log_dir, picked.id),
            );
            lemma_add_task_tidy(s, task);
        },
        None => {},
    }
}

/// A request keeps the store tidy, unless it moves a task that is
/// Finished or Failed.
pub proof fn law_requests_keep_tidy(
    s: StateView,
    counters: SubmitCounters,
    now_secs: u64,
    log_dir: Seq<char>,
    message: MessageView,
)
    requires
        s.tidy(),
        s.request_moves_live(message),
    ensures
        s.handle(counters, now_secs, log_dir, message).state.tidy(),
{
    match message {
        MessageView::TaskCommand(action) => {
            law_task_command_keeps_tidy(s, action);
        },
        MessageView::GPUCommand(action) => {
            law_gpu_command_keeps_tidy(s, action);
        },
        MessageView::QueueCommand(action) => {
            law_queue_command_keeps_tidy(s, action);
        },
        MessageView::SubmitCommand(action) => {
            law_submit_keeps_tidy(s, counters, now_secs, log_dir, action);
        },
        _ => {},
    }
}

/// A reconciliation keeps the store tidy.
proof fn lemma_reconcile_tidy(s: StateView, snapshot: Seq<TaskView>, gone: Seq<i32>, n: int)
    requires
        s.tidy(),
        n <= snapshot.len(),
    ensures
        s.reconcile(snapshot, gone, n).tidy(),
    decreases n,
{
    if n > 0 {
        lemma_reconcile_tidy(s, snapshot, gone, n - 1);
        let earlier = s.reconcile(snapshot, gone, n - 1);
        lemma_update_task_state_tidy(
            earlier,
            snapshot[n - 1].id,
            TaskState::Failed,
            None,
            Some(StateView::orphan_reason(snapshot[n - 1])),
        );
    }
}

/// Carrying out placements keeps the store tidy.
proof fn lemma_carry_out_tidy(s: StateView, placements: Seq<Placement>, n: int)
    requires
        s.tidy(),
        n <= placements.len(),
    ensures
        s.carry_out(placements, n).tidy(),
    decreases n,
{
    if n > 0 {
        lemma_carry_out_tidy(s, placements, n - 1);
        lemma_update_task_state_tidy(
            s.carry_out(placements, n - 1),
            placements[n - 1].task_id,
            TaskState::Running,
            Some(placements[n - 1].gpus),
            None,
        );
    }
}

/// A scheduling round, the end of a child, a failed start, a
/// reconciliation, a start, a telemetry snapshot and the creation of the
/// well-known queues keep the store tidy.
pub proof fn law_events_keep_tidy(s: StateView)
    requires
        s.tidy(),
    ensures
        s.after_round().tidy(),
        s.with_default_queues().tidy(),
        forall|id: u64, pid: Option<i32>| (#[trigger] s.set_task_pid(id, pid)).tidy(),
        forall|id: u64, exit: ChildExitView| (#[trigger] s.after_exit(id, exit)).tidy(),
        forall|id: u64, reason: Seq<char>| (#[trigger] s.after_launch_failure(id, reason)).tidy(),
        forall|gone: Seq<i32>| (#[trigger] s.after_reconcile(gone)).tidy(),
        forall|snapshot: Seq<Option<GpuStats>>| (#[trigger] s.refresh_gpu_stats(snapshot)).tidy(),
{
    lemma_bookkeeping_same_lists(s);
    lemma_carry_out_tidy(s, s.placements(), s.placements().len() as int);
    assert forall|id: u64, pid: Option<i32>| (#[trigger] s.set_task_pid(id, pid)).tidy() by {
        lemma_same_lists_tidy(s, s.set_task_pid(id, pid));
    }
    assert forall|id: u64, exit: ChildExitView| (#[trigger] s.after_exit(id, exit)).tidy() by {
        let mid = s.update_task_state(id, exit.final_state(), None, exit.reason());
        lemma_update_task_state_tidy(s, id, exit.final_state(), None, exit.reason());
        lemma_bookkeeping_same_lists(mid);
        lemma_same_lists_tidy(mid, s.after_exit(id, exit));
    }
    assert forall|id: u64, reason: Seq<char>|
        (#[trigger] s.after_launch_failure(id, reason)).tidy() by {
        lemma_update_task_state_tidy(s, id, TaskState::Failed, None, Some(reason));
    }
    assert forall|gone: Seq<i32>| (#[trigger] s.after_reconcile(gone)).tidy() by {
        lemma_reconcile_tidy(s, s.tasks, gone, s.tasks.len() as int);
    }
    assert forall|snapshot: Seq<Option<GpuStats>>|
        (#[trigger] s.refresh_gpu_stats(snapshot)).tidy() by {
        lemma_same_lists_tidy(s, s.refresh_gpu_stats(snapshot));
    }
    let parked = s.with_waiting_queue();
    if !s.has_queue(DEFAULT_WAITING_QUEUE_NAME@) {
        lemma_add_queue_tidy(
            s,
            QueueView::empty(DEFAULT_WAITING_QUEUE_NAME@, crate::models::DEFAULT_QUEUE_PRIORITY, 1),
        );
    }
    if !parked.has_queue(DEFAULT_RUNNING_QUEUE_NAME@) {
        let gpus = parked.unclaimed_gpus(crate::placement::GPU_INDEX_SPACE as nat);
        let claimed = parked.claim(gpus, DEFAULT_RUNNING_QUEUE_NAME@, gpus.len() as int);
        lemma_claim_same_lists(parked, gpus, DEFAULT_RUNNING_QUEUE_NAME@, gpus.len() as int);
        lemma_same_lists_tidy(parked, claimed);
        let made = QueueView {
            allocated_gpus: gpus,
            ..QueueView::empty(
                DEFAULT_RUNNING_QUEUE_NAME@,
                crate::daemon::RUNNING_QUEUE_PRIORITY,
                if gpus.len() > u8::MAX {
                    u8::MAX
                } else {
                    gpus.len() as u8
                },
            )
        };
        assert(parked.with_running_queue() == claimed.add_queue(made));
        lemma_add_queue_tidy(claimed, made);
    }
}

} // verus!

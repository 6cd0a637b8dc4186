//! Requests on queues: listings, creation, moving tasks between queues,
//! task priority and resource limits.

use crate::message::{Message, MessageView, QueueAction, QueueActionView};
use crate::models::{
    MemoryRequirementType, QueueMeta, QueueView, ResourceLimit, TaskView, MAX_PRIORITY,
};
use crate::replies::{
    bad_absolute, bad_absolute_text, bad_percentage, bad_percentage_text, bad_priority,
    bad_priority_text, limit_updated, limit_updated_text, no_queues, no_queues_text,
    nothing_to_move, nothing_to_move_text, priority_updated, priority_updated_text,
    queue_created, queue_created_text, queue_exists, queue_exists_text, queue_missing,
    queue_missing_text, queue_not_found, queue_not_found_text, same_queue, same_queue_text,
    source_missing, source_missing_text, task_already_there, task_already_there_text, task_moved,
    task_moved_text, task_not_found, task_not_found_text, tasks_moved, tasks_moved_text,
};
use crate::state::DaemonState;
use crate::store::StateView;
use vstd::prelude::*;

verus! {

/// Highest percentage that a memory requirement may ask for.
pub const MAX_PERCENTAGE: u64 = 100;

/// Why a resource limit is not accepted, if it is not: a percentage must
/// lie in 0..=100, and an absolute requirement must be positive.
pub open spec fn limit_fault(limit: ResourceLimit) -> Option<Seq<char>> {
    match limit.memory_requirement_type {
        MemoryRequirementType::Percentage => if limit.memory_requirement_value > MAX_PERCENTAGE {
            Some(bad_percentage_text(limit.memory_requirement_value))
        } else {
            None
        },
        MemoryRequirementType::AbsoluteMb => if limit.memory_requirement_value == 0 {
            Some(bad_absolute_text())
        } else {
            None
        },
        MemoryRequirementType::Ignore => None,
    }
}

/// Checks a resource limit and words the fault where there is one.
pub fn check_limit(limit: &ResourceLimit) -> (fault: Option<String>)
    ensures
        crate::models::opt_chars(fault) == limit_fault(*limit),
{
    match limit.memory_requirement_type {
        MemoryRequirementType::Percentage => if limit.memory_requirement_value > MAX_PERCENTAGE {
            Some(bad_percentage(limit.memory_requirement_value))
        } else {
            None
        },
        MemoryRequirementType::AbsoluteMb => if limit.memory_requirement_value == 0 {
            Some(bad_absolute())
        } else {
            None
        },
        MemoryRequirementType::Ignore => None,
    }
}

impl StateView {
    /// The reply to a listing of all queues.
    pub open spec fn queue_list(self) -> MessageView {
        if self.queues.len() == 0 {
            MessageView::Ack(no_queues_text())
        } else {
            MessageView::QueueStatus(self.queues)
        }
    }

    /// The reply to a request for one queue.
    pub open spec fn queue_status(self, name: Seq<char>) -> MessageView {
        if self.has_queue(name) {
            MessageView::QueueStatus(seq![self.queue(name)])
        } else {
            MessageView::Error(queue_not_found_text(name))
        }
    }

    /// Whether a merge is carried out: both queues exist and differ.
    pub open spec fn can_merge(self, source: Seq<char>, dest: Seq<char>) -> bool {
        self.has_queue(source) && self.has_queue(dest) && source != dest
    }

    /// The state after those of the first `n` tasks of `snapshot` that
    /// belong to `source` were moved to `dest`.
    pub open spec fn merging(
        self,
        snapshot: Seq<TaskView>,
        source: Seq<char>,
        dest: Seq<char>,
        n: int,
    ) -> StateView
        decreases n,
    {
        if n <= 0 {
            self
        } else {
            let earlier = self.merging(snapshot, source, dest, n - 1);
            if snapshot[n - 1].queue == source {
                earlier.update_task_queue(snapshot[n - 1].id, dest)
            } else {
                earlier
            }
        }
    }

    /// How many of the first `n` tasks belong to queue `name`.
    pub open spec fn members(self, name: Seq<char>, n: int) -> nat
        decreases n,
    {
        if n <= 0 {
            0
        } else if self.tasks[n - 1].queue == name {
            self.members(name, n - 1) + 1
        } else {
            self.members(name, n - 1)
        }
    }

    /// The reply to a merge.
    pub open spec fn queue_merge_reply(self, source: Seq<char>, dest: Seq<char>) -> MessageView {
        let moved = self.members(source, self.tasks.len() as int);
        if !self.has_queue(source) {
            MessageView::Error(source_missing_text(source))
        } else if !self.has_queue(dest) {
            MessageView::Error(queue_missing_text(dest))
        } else if source == dest {
            MessageView::Error(same_queue_text())
        } else if moved == 0 {
            MessageView::Ack(nothing_to_move_text(source))
        } else {
            MessageView::Ack(tasks_moved_text(moved as usize, source, dest))
        }
    }

    /// The state after a merge: every task of `source` is moved to `dest`,
    /// oldest first.
    pub open spec fn queue_merge_state(self, source: Seq<char>, dest: Seq<char>) -> StateView {
        if self.can_merge(source, dest) {
            self.merging(self.tasks, source, dest, self.tasks.len() as int)
        } else {
            self
        }
    }

    /// The reply to the creation of a queue.
    pub open spec fn queue_create_reply(self, name: Seq<char>, priority: u8) -> MessageView {
        if self.has_queue(name) {
            MessageView::Error(queue_exists_text(name))
        } else {
            MessageView::Ack(queue_created_text(name, priority))
        }
    }

    /// The state after the creation of a queue: a name that is new gets an
    /// empty queue that runs one task at a time.
    pub open spec fn queue_create_state(self, name: Seq<char>, priority: u8) -> StateView {
        if self.has_queue(name) {
            self
        } else {
            self.add_queue(QueueView::empty(name, priority, 1))
        }
    }

    /// The reply to the move of one task.
    pub open spec fn queue_move_reply(self, id: u64, dest: Seq<char>) -> MessageView {
        if !self.has_task(id) {
            MessageView::Error(task_not_found_text(id))
        } else if !self.has_queue(dest) {
            MessageView::Error(queue_missing_text(dest))
        } else if self.task(id).queue == dest {
            MessageView::Ack(task_already_there_text(id, dest))
        } else {
            MessageView::Ack(task_moved_text(id, self.task(id).queue, dest))
        }
    }

    /// The reply to a change of priority.
    pub open spec fn task_priority_reply(self, id: u64, level: u8) -> MessageView {
        if level > MAX_PRIORITY {
            MessageView::Error(bad_priority_text(level))
        } else if !self.has_task(id) {
            MessageView::Error(task_not_found_text(id))
        } else {
            MessageView::Ack(priority_updated_text(id, self.task(id).priority, level))
        }
    }

    /// The state after a change of priority, which a level above the
    /// highest does not bring about.
    pub open spec fn task_priority_state(self, id: u64, level: u8) -> StateView {
        if level > MAX_PRIORITY {
            self
        } else {
            self.update_task_priority(id, level)
        }
    }

    /// The reply to a new resource limit.
    pub open spec fn queue_limit_reply(self, name: Seq<char>, limit: ResourceLimit) -> MessageView {
        match limit_fault(limit) {
            Some(fault) => MessageView::Error(fault),
            None => if self.has_queue(name) {
                MessageView::Ack(limit_updated_text(name))
            } else {
                MessageView::Error(queue_not_found_text(name))
            },
        }
    }

    /// The state after a new resource limit, which a faulty limit does not
    /// bring about.
    pub open spec fn queue_limit_state(self, name: Seq<char>, limit: ResourceLimit) -> StateView {
        if limit_fault(limit) is None {
            self.update_queue_resource_limit(name, limit)
        } else {
            self
        }
    }

    /// The reply to a request on queues.
    pub open spec fn queue_reply(self, action: QueueActionView) -> MessageView {
        match action {
            QueueActionView::List => self.queue_list(),
            QueueActionView::Status { queue_name } => self.queue_status(queue_name),
            QueueActionView::Merge { source, dest } => self.queue_merge_reply(source, dest),
            QueueActionView::Create { name, priority } => self.queue_create_reply(name, priority),
            QueueActionView::Move { task_id, dest_queue } => self.queue_move_reply(
                task_id,
                dest_queue,
            ),
            QueueActionView::SetPriority { task_id, level } => self.task_priority_reply(
                task_id,
                level,
            ),
            QueueActionView::SetResourceLimit { queue_name, limit } => self.queue_limit_reply(
                queue_name,
                limit,
            ),
        }
    }

    /// The state after a request on queues.
    pub open spec fn after_queue_command(self, action: QueueActionView) -> StateView {
        match action {
            QueueActionView::Merge { source, dest } => self.queue_merge_state(source, dest),
            QueueActionView::Create { name, priority } => self.queue_create_state(name, priority),
            QueueActionView::Move { task_id, dest_queue } => self.update_task_queue(
                task_id,
                dest_queue,
            ),
            QueueActionView::SetPriority { task_id, level } => self.task_priority_state(
                task_id,
                level,
            ),
            QueueActionView::SetResourceLimit { queue_name, limit } => self.queue_limit_state(
                queue_name,
                limit,
            ),
            _ => self,
        }
    }
}

/// Lists all queues, oldest first.
fn handle_queue_list(state: &DaemonState) -> (reply: Message)
    requires
        state.wf(),
    ensures
        reply@ == state@.queue_list(),
{
    let queues = state.get_all_queues();
    assert(queues.deep_view().len() == queues.len());
    if queues.len() == 0 {
        Message::Ack(no_queues())
    } else {
        Message::QueueStatus(queues)
    }
}

/// Shows one queue.
fn handle_queue_status(queue_name: &String, state: &DaemonState) -> (reply: Message)
    requires
        state.wf(),
    ensures
        reply@ == state@.queue_status(queue_name@),
{
    match state.get_queue(queue_name.as_str()) {
        Some(queue) => {
            let mut shown: Vec<QueueMeta> = Vec::new();
            shown.push(queue);
            assert(shown.deep_view() =~= seq![state@.queue(queue_name@)]);
            Message::QueueStatus(shown)
        },
        None => Message::Error(queue_not_found(queue_name.as_str())),
    }
}

/// Moves every task of queue `source` to queue `dest`.
fn handle_queue_merge(source: &String, dest: &String, state: &mut DaemonState) -> (reply: Message)
    requires
        old(state).wf(),
    ensures
        final(state).wf(),
        final(state)@ == old(state)@.queue_merge_state(source@, dest@),
        reply@ == old(state)@.queue_merge_reply(source@, dest@),
{
    if state.get_queue(source.as_str()).is_none() {
        return Message::Error(source_missing(source.as_str()));
    }
    if state.get_queue(dest.as_str()).is_none() {
        return Message::Error(queue_missing(dest.as_str()));
    }
    if *source == *dest {
        return Message::Error(same_queue());
    }
    let tasks = state.get_all_tasks();
    let ghost snapshot = tasks.deep_view();
    let mut moved: usize = 0;
    let mut k: usize = 0;
    while k < tasks.len()
        invariant
            state.wf(),
            k <= tasks.len(),
            snapshot == tasks.deep_view(),
            snapshot == old(state)@.tasks,
            moved == old(state)@.members(source@, k as int),
            moved <= k,
            state@ == old(state)@.merging(snapshot, source@, dest@, k as int),
        decreases tasks.len() - k,
    {
        assert(snapshot[k as int] == tasks@[k as int]@);
        if tasks[k].queue == *source {
            let _ = state.update_task_queue(tasks[k].id, dest.clone());
            moved += 1;
        }
        k += 1;
    }
    assert(snapshot.len() == tasks.len());
    if moved == 0 {
        Message::Ack(nothing_to_move(source.as_str()))
    } else {
        Message::Ack(tasks_moved(moved, source.as_str(), dest.as_str()))
    }
}

/// Creates an empty queue under a name that is not taken.
fn handle_queue_create(name: String, priority: u8, state: &mut DaemonState) -> (reply: Message)
    requires
        old(state).wf(),
    ensures
        final(state).wf(),
        final(state)@ == old(state)@.queue_create_state(name@, priority),
        reply@ == old(state)@.queue_create_reply(name@, priority),
{
    if state.get_queue(name.as_str()).is_some() {
        return Message::Error(queue_exists(name.as_str()));
    }
    let reply = Message::Ack(queue_created(name.as_str(), priority));
    state.add_queue(
        QueueMeta {
            name,
            max_concurrent: 1,
            priority,
            waiting_task_ids: Vec::new(),
            running_task_ids: Vec::new(),
            allocated_gpus: Vec::new(),
            resource_limit: ResourceLimit::default(),
        },
    );
    reply
}

/// Moves one task to another queue, where it is parked in the waiting
/// list whatever its state: the move does not kill a running task.
fn handle_queue_move(task_id: u64, dest_queue: String, state: &mut DaemonState) -> (reply: Message)
    requires
        old(state).wf(),
    ensures
        final(state).wf(),
        final(state)@ == old(state)@.update_task_queue(task_id, dest_queue@),
        reply@ == old(state)@.queue_move_reply(task_id, dest_queue@),
{
    let task = match state.get_task(task_id) {
        Some(task) => task,
        None => {
            return Message::Error(task_not_found(task_id));
        },
    };
    if state.get_queue(dest_queue.as_str()).is_none() {
        return Message::Error(queue_missing(dest_queue.as_str()));
    }
    if task.queue == dest_queue {
        return Message::Ack(task_already_there(task_id, dest_queue.as_str()));
    }
    let reply = Message::Ack(task_moved(task_id, task.queue.as_str(), dest_queue.as_str()));
    let _ = state.update_task_queue(task_id, dest_queue);
    reply
}

/// Sets the priority of a task; a level above the highest is refused.
fn handle_task_priority(task_id: u64, level: u8, state: &mut DaemonState) -> (reply: Message)
    requires
        old(state).wf(),
    ensures
        final(state).wf(),
        final(state)@ == old(state)@.task_priority_state(task_id, level),
        reply@ == old(state)@.task_priority_reply(task_id, level),
{
    if level > MAX_PRIORITY {
        return Message::Error(bad_priority(level));
    }
    let before = match state.get_task(task_id) {
        Some(task) => task.priority,
        None => {
            return Message::Error(task_not_found(task_id));
        },
    };
    let _ = state.update_task_priority(task_id, level);
    Message::Ack(priority_updated(task_id, before, level))
}

/// Replaces the resource limit of a queue after checking the limit.
fn handle_queue_set_limit(queue_name: String, limit: ResourceLimit, state: &mut DaemonState) -> (reply:
    Message)
    requires
        old(state).wf(),
    ensures
        final(state).wf(),
        final(state)@ == old(state)@.queue_limit_state(queue_name@, limit),
        reply@ == old(state)@.queue_limit_reply(queue_name@, limit),
{
    match check_limit(&limit) {
        Some(fault) => {
            return Message::Error(fault);
        },
        None => {},
    }
    let updated = limit_updated(queue_name.as_str());
    let missing = queue_not_found(queue_name.as_str());
    match state.update_queue_resource_limit(queue_name, limit) {
        Ok(_) => Message::Ack(updated),
        Err(_) => Message::Error(missing),
    }
}

/// Handles a request on queues.
pub fn handle_queue_command(action: QueueAction, state: &mut DaemonState) -> (reply: Message)
    requires
        old(state).wf(),
    ensures
        final(state).wf(),
        final(state)@ == old(state)@.after_queue_command(action@),
        reply@ == old(state)@.queue_reply(action@),
        old(state)@.coherent() && old(state)@.queue_command_moves_waiting(action@)
            ==> final(state)@.coherent(),
{
    proof {
        if old(state)@.coherent() && old(state)@.queue_command_moves_waiting(action@) {
            crate::laws::law_queue_command_keeps_coherence(old(state)@, action@);
        }
    }
    match action {
        QueueAction::List => handle_queue_list(state),
        QueueAction::Status { queue_name } => handle_queue_status(&queue_name, state),
        QueueAction::Merge { source, dest } => handle_queue_merge(&source, &dest, state),
        QueueAction::Create { name, priority } => handle_queue_create(name, priority, state),
        QueueAction::Move { task_id, dest_queue } => handle_queue_move(task_id, dest_queue, state),
        QueueAction::SetPriority { task_id, level } => handle_task_priority(task_id, level, state),
        QueueAction::SetResourceLimit { queue_name, limit } => handle_queue_set_limit(
            queue_name,
            limit,
            state,
        ),
    }
}

} // verus!

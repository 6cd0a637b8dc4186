//! The state store as a mathematical value, and each of its operations as a
//! function from state to state.

use crate::models::{QueueView, TaskState, TaskView, ResourceLimit};
use crate::monitor::GpuStats;
use vstd::prelude::*;

verus! {

/// `items` without any occurrence of `x`, the order of the rest kept.
pub open spec fn without<T>(items: Seq<T>, x: T) -> Seq<T>
    decreases items.len(),
{
    if items.len() == 0 {
        items
    } else if items.last() == x {
        without(items.drop_last(), x)
    } else {
        without(items.drop_last(), x).push(items.last())
    }
}

/// `items` with `x` at the end, unless it is already among them.
pub open spec fn with_item<T>(items: Seq<T>, x: T) -> Seq<T> {
    if items.contains(x) {
        items
    } else {
        items.push(x)
    }
}

impl QueueView {
    /// The queue after a task that is submitted to it has been appended to
    /// its waiting list.
    pub open spec fn enqueue(self, id: u64) -> QueueView {
        QueueView { waiting_task_ids: with_item(self.waiting_task_ids, id), ..self }
    }

    /// The queue without task `id` in either of its lists.
    pub open spec fn strike(self, id: u64) -> QueueView {
        QueueView {
            waiting_task_ids: without(self.waiting_task_ids, id),
            running_task_ids: without(self.running_task_ids, id),
            ..self
        }
    }

    /// The queue after a task has been moved into it: the task joins the
    /// waiting list unless one of the two lists already holds it.
    pub open spec fn park(self, id: u64) -> QueueView {
        if self.waiting_task_ids.contains(id) || self.running_task_ids.contains(id) {
            self
        } else {
            QueueView { waiting_task_ids: self.waiting_task_ids.push(id), ..self }
        }
    }

    /// The queue after one of its tasks has come into the state `to`, which
    /// is Waiting or Running: the task is struck from both lists and joins
    /// the end of the list of its new state.
    pub open spec fn transition(self, id: u64, to: TaskState) -> QueueView {
        let left = self.strike(id);
        match to {
            TaskState::Waiting => QueueView {
                waiting_task_ids: with_item(left.waiting_task_ids, id),
                ..left
            },
            TaskState::Running => QueueView {
                running_task_ids: with_item(left.running_task_ids, id),
                ..left
            },
            _ => left,
        }
    }
}

/// `queues` with task `id` struck from both lists of every queue.
pub open spec fn strike_everywhere(queues: Seq<QueueView>, id: u64) -> Seq<QueueView> {
    Seq::new(queues.len(), |q: int| queues[q].strike(id))
}

/// Mathematical value of the state store.
pub struct StateView {
    /// All tasks, in the order in which their ids first appeared.
    pub tasks: Seq<TaskView>,
    /// All queues, in the order in which their names first appeared.
    pub queues: Seq<QueueView>,
    /// Latest telemetry per GPU index.
    pub gpu_stats: Map<u32, GpuStats>,
    /// Owner per GPU index: `Some(queue)` is owned, `None` is free.
    pub gpu_allocations: Map<u32, Option<Seq<char>>>,
    /// GPU indices that are excluded from scheduling.
    pub ignored_gpus: Set<u32>,
}

impl StateView {
    /// No task id and no queue name occurs twice, and the GPU tables are
    /// finite.
    pub open spec fn wf(self) -> bool {
        &&& forall|i: int, j: int|
            0 <= i < j < self.tasks.len() ==> self.tasks[i].id != self.tasks[j].id
        &&& forall|i: int, j: int|
            0 <= i < j < self.queues.len() ==> self.queues[i].name != self.queues[j].name
        &&& self.gpu_stats.dom().finite()
        &&& self.gpu_allocations.dom().finite()
        &&& self.ignored_gpus.finite()
    }

    /// The store that holds nothing.
    pub open spec fn empty() -> StateView {
        StateView {
            tasks: Seq::empty(),
            queues: Seq::empty(),
            gpu_stats: Map::empty(),
            gpu_allocations: Map::empty(),
            ignored_gpus: Set::empty(),
        }
    }

    pub open spec fn has_task(self, id: u64) -> bool {
        exists|i: int| 0 <= i < self.tasks.len() && (#[trigger] self.tasks[i]).id == id
    }

    /// Position of the task with id `id`; meaningful when there is one.
    pub open spec fn task_pos(self, id: u64) -> int {
        choose|i: int| 0 <= i < self.tasks.len() && (#[trigger] self.tasks[i]).id == id
    }

    /// The task with id `id`; meaningful when there is one.
    pub open spec fn task(self, id: u64) -> TaskView {
        self.tasks[self.task_pos(id)]
    }

    pub open spec fn has_queue(self, name: Seq<char>) -> bool {
        exists|i: int| 0 <= i < self.queues.len() && (#[trigger] self.queues[i]).name == name
    }

    /// Position of the queue named `name`; meaningful when there is one.
    pub open spec fn queue_pos(self, name: Seq<char>) -> int {
        choose|i: int| 0 <= i < self.queues.len() && (#[trigger] self.queues[i]).name == name
    }

    /// The queue named `name`; meaningful when there is one.
    pub open spec fn queue(self, name: Seq<char>) -> QueueView {
        self.queues[self.queue_pos(name)]
    }

    /// Inserts `task`, replacing a task of the same id, and appends its id to
    /// the waiting list of its queue, which is created if it does not exist.
    pub open spec fn add_task(self, task: TaskView) -> StateView {
        StateView {
            tasks: if self.has_task(task.id) {
                self.tasks.update(self.task_pos(task.id), task)
            } else {
                self.tasks.push(task)
            },
            queues: if self.has_queue(task.queue) {
                self.queues.update(
                    self.queue_pos(task.queue),
                    self.queue(task.queue).enqueue(task.id),
                )
            } else {
                self.queues.push(QueueView::created_for(task.queue, task.id))
            },
            ..self
        }
    }

    /// Records the process id of task `id`.
    pub open spec fn set_task_pid(self, id: u64, pid: Option<i32>) -> StateView {
        if self.has_task(id) {
            StateView {
                tasks: self.tasks.update(self.task_pos(id), TaskView { pid, ..self.task(id) }),
                ..self
            }
        } else {
            self
        }
    }

    /// The record of task `id` after a change to `state`: the failure reason
    /// is kept only for Failed, and the assigned GPUs are rewritten when
    /// `gpus` gives them.
    pub open spec fn task_in_state(
        task: TaskView,
        state: TaskState,
        gpus: Option<Seq<u8>>,
        reason: Option<Seq<char>>,
    ) -> TaskView {
        TaskView {
            state,
            failure_reason: if state is Failed {
                reason
            } else {
                None
            },
            gpu_ids: match gpus {
                Some(g) => g,
                None => task.gpu_ids,
            },
            ..task
        }
    }

    /// Puts task `id` into `state`. A task that becomes Finished or Failed
    /// leaves every list of every queue. A task that becomes Waiting or
    /// Running from another state moves to the list of its new state in its
    /// queue.
    pub open spec fn update_task_state(
        self,
        id: u64,
        state: TaskState,
        gpus: Option<Seq<u8>>,
        reason: Option<Seq<char>>,
    ) -> StateView {
        if self.has_task(id) {
            let before = self.task(id);
            StateView {
                tasks: self.tasks.update(
                    self.task_pos(id),
                    Self::task_in_state(before, state, gpus, reason),
                ),
                queues: if state.is_terminal() {
                    strike_everywhere(self.queues, id)
                } else if before.state != state && self.has_queue(before.queue) {
                    self.queues.update(
                        self.queue_pos(before.queue),
                        self.queue(before.queue).transition(id, state),
                    )
                } else {
                    self.queues
                },
                ..self
            }
        } else {
            self
        }
    }

    /// Whether moving task `id` to queue `dest` changes anything: both exist
    /// and the task is not there yet.
    pub open spec fn can_move(self, id: u64, dest: Seq<char>) -> bool {
        self.has_queue(dest) && self.has_task(id) && self.task(id).queue != dest
    }

    /// Moves task `id` to queue `dest`: it leaves both lists of its old
    /// queue and is parked in the waiting list of the new one, whatever its
    /// state.
    pub open spec fn update_task_queue(self, id: u64, dest: Seq<char>) -> StateView {
        if self.can_move(id, dest) {
            let before = self.task(id);
            let left = if self.has_queue(before.queue) {
                self.queues.update(
                    self.queue_pos(before.queue),
                    self.queue(before.queue).strike(id),
                )
            } else {
                self.queues
            };
            let at = self.queue_pos(dest);
            StateView {
                tasks: self.tasks.update(self.task_pos(id), TaskView { queue: dest, ..before }),
                queues: left.update(at, left[at].park(id)),
                ..self
            }
        } else {
            self
        }
    }

    /// Sets the priority of task `id`.
    pub open spec fn update_task_priority(self, id: u64, priority: u8) -> StateView {
        if self.has_task(id) {
            StateView {
                tasks: self.tasks.update(self.task_pos(id), TaskView { priority, ..self.task(id) }),
                ..self
            }
        } else {
            self
        }
    }

    /// Removes task `id` and strikes it from every list of every queue.
    pub open spec fn remove_task(self, id: u64) -> StateView {
        if self.has_task(id) {
            StateView {
                tasks: self.tasks.remove(self.task_pos(id)),
                queues: strike_everywhere(self.queues, id),
                ..self
            }
        } else {
            self
        }
    }

    /// Inserts `queue`, replacing a queue of the same name.
    pub open spec fn add_queue(self, queue: QueueView) -> StateView {
        StateView {
            queues: if self.has_queue(queue.name) {
                self.queues.update(self.queue_pos(queue.name), queue)
            } else {
                self.queues.push(queue)
            },
            ..self
        }
    }

    /// Replaces the resource limit of queue `name`.
    pub open spec fn update_queue_resource_limit(
        self,
        name: Seq<char>,
        limit: ResourceLimit,
    ) -> StateView {
        if self.has_queue(name) {
            StateView {
                queues: self.queues.update(
                    self.queue_pos(name),
                    QueueView { resource_limit: limit, ..self.queue(name) },
                ),
                ..self
            }
        } else {
            self
        }
    }

    /// Adds `gpu` to the GPUs that queue `name` lists as its own.
    pub open spec fn grant_gpu(self, name: Seq<char>, gpu: u8) -> StateView {
        if self.has_queue(name) {
            let q = self.queue(name);
            StateView {
                queues: self.queues.update(
                    self.queue_pos(name),
                    QueueView { allocated_gpus: with_item(q.allocated_gpus, gpu), ..q },
                ),
                ..self
            }
        } else {
            self
        }
    }

    /// Strikes `gpu` from the GPUs that queue `name` lists as its own.
    pub open spec fn revoke_gpu(self, name: Seq<char>, gpu: u8) -> StateView {
        if self.has_queue(name) {
            let q = self.queue(name);
            StateView {
                queues: self.queues.update(
                    self.queue_pos(name),
                    QueueView { allocated_gpus: without(q.allocated_gpus, gpu), ..q },
                ),
                ..self
            }
        } else {
            self
        }
    }

    /// Takes in one telemetry snapshot, `snapshot[i]` being the reading of
    /// GPU `i` or `None` where reading it failed. Afterwards exactly the
    /// GPUs that the snapshot covers and that are not ignored can have an
    /// entry: the new reading, or the old one where the new one failed.
    pub open spec fn refresh_gpu_stats(self, snapshot: Seq<Option<GpuStats>>) -> StateView {
        StateView {
            gpu_stats: Map::new(
                |k: u32|
                    k < snapshot.len() && !self.ignored_gpus.contains(k) && (snapshot[k as int]
                        is Some || self.gpu_stats.contains_key(k)),
                |k: u32|
                    match snapshot[k as int] {
                        Some(stats) => stats,
                        None => self.gpu_stats[k],
                    },
            ),
            ..self
        }
    }

    pub open spec fn set_gpu_ignore(self, gpu: u32) -> StateView {
        StateView { ignored_gpus: self.ignored_gpus.insert(gpu), ..self }
    }

    pub open spec fn unset_gpu_ignore(self, gpu: u32) -> StateView {
        StateView { ignored_gpus: self.ignored_gpus.remove(gpu), ..self }
    }

    pub open spec fn set_gpu_allocation(self, gpu: u32, owner: Option<Seq<char>>) -> StateView {
        StateView { gpu_allocations: self.gpu_allocations.insert(gpu, owner), ..self }
    }

    pub open spec fn remove_gpu_allocation(self, gpu: u32) -> StateView {
        StateView { gpu_allocations: self.gpu_allocations.remove(gpu), ..self }
    }

    /// In a well-formed store the task at position `i` is the task of its id.
    pub proof fn lemma_task_at(self, i: int)
        requires
            self.wf(),
            0 <= i < self.tasks.len(),
        ensures
            self.has_task(self.tasks[i].id),
            self.task_pos(self.tasks[i].id) == i,
            self.task(self.tasks[i].id) == self.tasks[i],
    {
        let id = self.tasks[i].id;
        let j = self.task_pos(id);
        if j < i {
            assert(self.tasks[j].id != self.tasks[i].id);
        } else if i < j {
            assert(self.tasks[i].id != self.tasks[j].id);
        }
    }

    /// In a well-formed store the queue at position `i` is the queue of its
    /// name.
    pub proof fn lemma_queue_at(self, i: int)
        requires
            self.wf(),
            0 <= i < self.queues.len(),
        ensures
            self.has_queue(self.queues[i].name),
            self.queue_pos(self.queues[i].name) == i,
            self.queue(self.queues[i].name) == self.queues[i],
    {
        let name = self.queues[i].name;
        let j = self.queue_pos(name);
        if j < i {
            assert(self.queues[j].name != self.queues[i].name);
        } else if i < j {
            assert(self.queues[i].name != self.queues[j].name);
        }
    }

    /// A task that exists sits at its position.
    pub proof fn lemma_task_pos(self, id: u64)
        requires
            self.has_task(id),
        ensures
            0 <= self.task_pos(id) < self.tasks.len(),
            self.task(id).id == id,
    {
    }

}

} // verus!

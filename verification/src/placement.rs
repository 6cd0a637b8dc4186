//! What one scheduling round decides, as a function of the state at its
//! start: which GPUs qualify, in which order queues and tasks are taken,
//! and which task is placed on which GPUs.

use crate::models::{
    MemoryRequirementType, QueueView, ResourceLimit, TaskState, TaskView,
    DEFAULT_WAITING_QUEUE_NAME,
};
use crate::monitor::GpuStats;
use crate::store::StateView;
use vstd::prelude::*;

verus! {

/// Number of bytes in one mebibyte.
pub const BYTES_PER_MB: u64 = 1048576;

/// Number of GPU indices that a task record can name.
pub const GPU_INDEX_SPACE: usize = 256;

/// The memory part of the resource limit: no demand, a demand of free
/// mebibytes, or a demand of a share of the total that must be free, which
/// a GPU that reports no memory at all never meets.
pub open spec fn memory_ok(stats: GpuStats, limit: ResourceLimit) -> bool {
    let free_mb = stats.memory_usage.free as int / BYTES_PER_MB as int;
    let total_mb = stats.memory_usage.total as int / BYTES_PER_MB as int;
    match limit.memory_requirement_type {
        MemoryRequirementType::Ignore => true,
        MemoryRequirementType::AbsoluteMb => free_mb >= limit.memory_requirement_value,
        MemoryRequirementType::Percentage => total_mb > 0 && 100 * free_mb
            >= limit.memory_requirement_value * total_mb,
    }
}

/// The utilization part of the resource limit, which is off where the cap
/// lies outside 0..=100.
pub open spec fn utilization_ok(stats: GpuStats, limit: ResourceLimit) -> bool {
    limit.max_gpu_utilization < 0 || limit.max_gpu_utilization > 100 || stats.core_usage
        <= limit.max_gpu_utilization
}

/// Whether a GPU with telemetry `stats` qualifies under `limit`.
pub open spec fn qualifies(stats: GpuStats, limit: ResourceLimit) -> bool {
    memory_ok(stats, limit) && utilization_ok(stats, limit)
}

/// Whether `a` is placed before `b` whatever their order of arrival: by
/// higher priority, and among equal priorities by earlier creation.
pub open spec fn runs_before(a: TaskView, b: TaskView) -> bool {
    a.priority > b.priority || (a.priority == b.priority && a.create_time < b.create_time)
}

/// Where `task` goes into `sorted`: behind the last member that it does not
/// run before.
pub open spec fn task_slot(sorted: Seq<TaskView>, task: TaskView) -> int
    decreases sorted.len(),
{
    if sorted.len() == 0 {
        0
    } else if runs_before(task, sorted.last()) {
        task_slot(sorted.drop_last(), task)
    } else {
        sorted.len() as int
    }
}

/// `tasks` in placement order: higher priority first, then earlier creation
/// first, and tasks that agree in both in the order in which they stand.
pub open spec fn by_rank(tasks: Seq<TaskView>) -> Seq<TaskView>
    decreases tasks.len(),
{
    if tasks.len() == 0 {
        Seq::empty()
    } else {
        let sorted = by_rank(tasks.drop_last());
        sorted.insert(task_slot(sorted, tasks.last()), tasks.last())
    }
}

/// Where `queue` goes into `sorted`: behind the last member whose priority
/// is not lower.
pub open spec fn queue_slot(sorted: Seq<QueueView>, queue: QueueView) -> int
    decreases sorted.len(),
{
    if sorted.len() == 0 {
        0
    } else if queue.priority > sorted.last().priority {
        queue_slot(sorted.drop_last(), queue)
    } else {
        sorted.len() as int
    }
}

/// `queues` by descending priority, queues of one priority in the order in
/// which they stand.
pub open spec fn by_priority(queues: Seq<QueueView>) -> Seq<QueueView>
    decreases queues.len(),
{
    if queues.len() == 0 {
        Seq::empty()
    } else {
        let sorted = by_priority(queues.drop_last());
        sorted.insert(queue_slot(sorted, queues.last()), queues.last())
    }
}

/// The members of `candidates` that are not in `reserved`, in their order.
pub open spec fn unreserved(candidates: Seq<u8>, reserved: Set<u8>) -> Seq<u8>
    decreases candidates.len(),
{
    if candidates.len() == 0 {
        Seq::empty()
    } else {
        let rest = unreserved(candidates.drop_last(), reserved);
        if reserved.contains(candidates.last()) {
            rest
        } else {
            rest.push(candidates.last())
        }
    }
}

/// One decision of a round: the task and the GPUs it gets.
pub struct Placement {
    pub task_id: u64,
    pub gpus: Seq<u8>,
}

/// The decisions of a round so far, with the GPUs they have taken and the
/// number of tasks that the queue in hand may still start.
pub struct Plan {
    pub placements: Seq<Placement>,
    pub reserved: Set<u8>,
    pub slots: int,
}

impl Plan {
    /// The plan after `task` had its turn. With no slot left nothing is
    /// placed. A task that needs no GPU is placed at once. Any other task
    /// gets the first candidates that are still unreserved, as many as it
    /// needs, and is passed over where they do not suffice.
    pub open spec fn offer(self, task: TaskView, candidates: Seq<u8>) -> Plan {
        let open_gpus = unreserved(candidates, self.reserved);
        if self.slots <= 0 {
            self
        } else if task.gpu_require == 0 {
            Plan {
                placements: self.placements.push(
                    Placement { task_id: task.id, gpus: Seq::empty() },
                ),
                slots: self.slots - 1,
                ..self
            }
        } else if open_gpus.len() >= task.gpu_require {
            let chosen = open_gpus.take(task.gpu_require as int);
            Plan {
                placements: self.placements.push(Placement { task_id: task.id, gpus: chosen }),
                reserved: self.reserved.union(chosen.to_set()),
                slots: self.slots - 1,
            }
        } else {
            self
        }
    }

    /// The plan after the first `n` tasks of `order` had their turn.
    pub open spec fn offer_all(self, order: Seq<TaskView>, candidates: Seq<u8>, n: int) -> Plan
        decreases n,
    {
        if n <= 0 {
            self
        } else {
            self.offer_all(order, candidates, n - 1).offer(order[n - 1], candidates)
        }
    }
}

impl StateView {
    /// Whether GPU `gpu` may be used under `limit` at all: it is not
    /// ignored, has telemetry, and qualifies.
    pub open spec fn gpu_usable(self, limit: ResourceLimit, gpu: u32) -> bool {
        &&& !self.ignored_gpus.contains(gpu)
        &&& self.gpu_stats.contains_key(gpu)
        &&& qualifies(self.gpu_stats[gpu], limit)
    }

    /// Whether the ownership table gives GPU `gpu` to queue `name`.
    pub open spec fn gpu_owned_by(self, name: Seq<char>, gpu: u32) -> bool {
        self.gpu_allocations.contains_key(gpu) && self.gpu_allocations[gpu] == Some(name)
    }

    /// Whether GPU `gpu` has no owner: it is recorded as free or not
    /// recorded.
    pub open spec fn gpu_free(self, gpu: u32) -> bool {
        !self.gpu_allocations.contains_key(gpu) || self.gpu_allocations[gpu] is None
    }

    /// The usable GPUs below index `n` that queue `queue` owns, ascending.
    pub open spec fn owned_candidates(self, queue: QueueView, n: nat) -> Seq<u8>
        decreases n,
    {
        if n == 0 {
            Seq::empty()
        } else {
            let below = self.owned_candidates(queue, (n - 1) as nat);
            let gpu = (n - 1) as u32;
            if self.gpu_owned_by(queue.name, gpu) && self.gpu_usable(queue.resource_limit, gpu) {
                below.push(gpu as u8)
            } else {
                below
            }
        }
    }

    /// The usable GPUs below index `n` that nobody owns, ascending.
    pub open spec fn free_candidates(self, queue: QueueView, n: nat) -> Seq<u8>
        decreases n,
    {
        if n == 0 {
            Seq::empty()
        } else {
            let below = self.free_candidates(queue, (n - 1) as nat);
            let gpu = (n - 1) as u32;
            if self.gpu_free(gpu) && self.gpu_usable(queue.resource_limit, gpu) {
                below.push(gpu as u8)
            } else {
                below
            }
        }
    }

    /// The GPUs on which tasks of `queue` can be placed: first its own, then
    /// the free ones, each group by ascending index.
    pub open spec fn candidates(self, queue: QueueView) -> Seq<u8> {
        self.owned_candidates(queue, GPU_INDEX_SPACE as nat) + self.free_candidates(
            queue,
            GPU_INDEX_SPACE as nat,
        )
    }

    /// The tasks named by `ids` that exist and are waiting, in the order of
    /// `ids`.
    pub open spec fn eligible(self, ids: Seq<u64>) -> Seq<TaskView>
        decreases ids.len(),
    {
        if ids.len() == 0 {
            Seq::empty()
        } else {
            let rest = self.eligible(ids.drop_last());
            let id = ids.last();
            if self.has_task(id) && self.task(id).state is Waiting {
                rest.push(self.task(id))
            } else {
                rest
            }
        }
    }

    /// The round's plan after `queue` had its turn. The parking queue is
    /// never scheduled. Any other queue may start as many tasks as its cap
    /// exceeds its running list, and offers its waiting tasks in placement
    /// order.
    pub open spec fn offer_queue(self, plan: Plan, queue: QueueView) -> Plan {
        if queue.name == DEFAULT_WAITING_QUEUE_NAME@ {
            plan
        } else {
            let order = by_rank(self.eligible(queue.waiting_task_ids));
            let done = Plan {
                slots: queue.max_concurrent as int - queue.running_task_ids.len() as int,
                ..plan
            }.offer_all(order, self.candidates(queue), order.len() as int);
            Plan { slots: plan.slots, ..done }
        }
    }

    /// The round's plan after the first `n` queues of `order` had their
    /// turn. One reservation set serves the whole round.
    pub open spec fn offer_queues(self, order: Seq<QueueView>, n: int) -> Plan
        decreases n,
    {
        if n <= 0 {
            Plan { placements: Seq::empty(), reserved: Set::empty(), slots: 0 }
        } else {
            self.offer_queue(self.offer_queues(order, n - 1), order[n - 1])
        }
    }

    /// Everything one round places, in the order in which it is decided.
    pub open spec fn placements(self) -> Seq<Placement> {
        let order = by_priority(self.queues);
        self.offer_queues(order, order.len() as int).placements
    }

    /// The state after the first `n` of `placements` were carried out: each
    /// puts its task into Running on its GPUs.
    pub open spec fn carry_out(self, placements: Seq<Placement>, n: int) -> StateView
        decreases n,
    {
        if n <= 0 {
            self
        } else {
            self.carry_out(placements, n - 1).update_task_state(
                placements[n - 1].task_id,
                TaskState::Running,
                Some(placements[n - 1].gpus),
                None,
            )
        }
    }

    /// The state after one scheduling round.
    pub open spec fn after_round(self) -> StateView {
        self.carry_out(self.placements(), self.placements().len() as int)
    }

    /// The records of the tasks that the first `n` of `placements` start,
    /// each as it reads right after its own placement was carried out.
    pub open spec fn launched(self, placements: Seq<Placement>, n: int) -> Seq<TaskView>
        decreases n,
    {
        if n <= 0 {
            Seq::empty()
        } else {
            let earlier = self.launched(placements, n - 1);
            let now = self.carry_out(placements, n);
            if now.has_task(placements[n - 1].task_id) {
                earlier.push(now.task(placements[n - 1].task_id))
            } else {
                earlier
            }
        }
    }

    /// The records of the tasks that one scheduling round starts.
    pub open spec fn round_launches(self) -> Seq<TaskView> {
        self.launched(self.placements(), self.placements().len() as int)
    }

    /// Whether a running task has lost its process: it has no process id,
    /// or its process id is among those reported `gone`.
    pub open spec fn orphaned(task: TaskView, gone: Seq<i32>) -> bool {
        task.state is Running && match task.pid {
            Some(pid) => gone.contains(pid),
            None => true,
        }
    }

    /// Why an orphaned task is failed.
    pub open spec fn orphan_reason(task: TaskView) -> Seq<char> {
        match task.pid {
            Some(pid) => "process pid "@ + crate::text::signed_decimal(pid as int)
                + " disappeared"@,
            None => "was Running without a pid"@,
        }
    }

    /// The state after the first `n` of the tasks in `snapshot` were
    /// reconciled with the process ids reported `gone`: each orphaned task
    /// is failed with its reason.
    pub open spec fn reconcile(self, snapshot: Seq<TaskView>, gone: Seq<i32>, n: int) -> StateView
        decreases n,
    {
        if n <= 0 {
            self
        } else {
            let earlier = self.reconcile(snapshot, gone, n - 1);
            let task = snapshot[n - 1];
            if Self::orphaned(task, gone) {
                earlier.update_task_state(
                    task.id,
                    TaskState::Failed,
                    None,
                    Some(Self::orphan_reason(task)),
                )
            } else {
                earlier
            }
        }
    }

    /// The state after every running task was reconciled with the process
    /// ids reported `gone`.
    pub open spec fn after_reconcile(self, gone: Seq<i32>) -> StateView {
        self.reconcile(self.tasks, gone, self.tasks.len() as int)
    }

    /// The process ids of the first `n` tasks that are running with one.
    pub open spec fn live_pids(self, n: int) -> Seq<i32>
        decreases n,
    {
        if n <= 0 {
            Seq::empty()
        } else {
            let earlier = self.live_pids(n - 1);
            let task = self.tasks[n - 1];
            if task.state is Running && task.pid is Some {
                earlier.push(task.pid->0)
            } else {
                earlier
            }
        }
    }
}

} // verus!

//! Tasks, queues and resource limits, with the mathematical view of each.

use vstd::prelude::*;

verus! {

/// Name of the queue in which new tasks are parked until they are released.
pub const DEFAULT_WAITING_QUEUE_NAME: &'static str = "waiting_queue";

/// Name of the queue from which released tasks are placed.
pub const DEFAULT_RUNNING_QUEUE_NAME: &'static str = "running_queue";

/// Highest task priority.
pub const MAX_PRIORITY: u8 = 9;

/// Priority given to a task that names none.
pub const DEFAULT_TASK_PRIORITY: u8 = 5;

/// Priority of a queue that is created on first use.
pub const DEFAULT_QUEUE_PRIORITY: u8 = 10;

/// Life-cycle state of a task.
#[derive(Clone, Copy, Debug, PartialEq, Eq, Structural)]
pub enum TaskState {
    Waiting,
    Running,
    Finished,
    Failed,
}

impl TaskState {
    /// Finished and Failed admit no further transition.
    pub open spec fn is_terminal(self) -> bool {
        self is Finished || self is Failed
    }
}

/// How a queue's memory requirement is read.
#[derive(Clone, Copy, Debug, PartialEq, Eq, Structural)]
pub enum MemoryRequirementType {
    Ignore,
    AbsoluteMb,
    Percentage,
}

/// Which GPUs qualify for a queue.
#[derive(Clone, Copy, Debug, PartialEq, Eq, Structural)]
pub struct ResourceLimit {
    pub memory_requirement_type: MemoryRequirementType,
    /// Mebibytes for `AbsoluteMb`, a percentage for `Percentage`.
    pub memory_requirement_value: u64,
    /// Highest admissible core utilization in whole percent; a value outside
    /// 0..=100 switches the utilization check off.
    pub max_gpu_utilization: i32,
}

impl ResourceLimit {
    /// The limit that admits every GPU.
    pub open spec fn unrestricted() -> ResourceLimit {
        ResourceLimit {
            memory_requirement_type: MemoryRequirementType::Ignore,
            memory_requirement_value: 0,
            max_gpu_utilization: -1i32,
        }
    }
}

impl Default for ResourceLimit {
    fn default() -> (limit: Self)
        ensures
            limit == ResourceLimit::unrestricted(),
    {
        ResourceLimit {
            memory_requirement_type: MemoryRequirementType::Ignore,
            memory_requirement_value: 0,
            max_gpu_utilization: -1,
        }
    }
}

/// The characters of an optional string.
pub open spec fn opt_chars(s: Option<String>) -> Option<Seq<char>> {
    match s {
        Some(s) => Some(s@),
        None => None,
    }
}

/// The items of an optional list of GPU indices.
pub open spec fn opt_gpus(gpus: Option<Vec<u8>>) -> Option<Seq<u8>> {
    match gpus {
        Some(g) => Some(g@),
        None => None,
    }
}

/// The characters of each text of an optional list of texts.
pub open spec fn opt_texts(texts: Option<Vec<String>>) -> Option<Seq<Seq<char>>> {
    match texts {
        Some(t) => Some(t.deep_view()),
        None => None,
    }
}

/// Copies an optional string.
pub fn clone_opt_string(s: &Option<String>) -> (r: Option<String>)
    ensures
        opt_chars(r) == opt_chars(*s),
{
    match s {
        Some(s) => Some(s.clone()),
        None => None,
    }
}

/// A unit of work and its bookkeeping.
#[derive(Debug, PartialEq, Eq)]
pub struct TaskMeta {
    pub pid: Option<i32>,
    pub id: u64,
    pub name: String,
    pub cmd: String,
    pub gpu_require: u8,
    pub state: TaskState,
    pub log_path: String,
    pub priority: u8,
    pub queue: String,
    /// Unix seconds.
    pub create_time: u64,
    pub gpu_ids: Vec<u8>,
    pub failure_reason: Option<String>,
}

/// Mathematical value of a [`TaskMeta`].
pub struct TaskView {
    pub pid: Option<i32>,
    pub id: u64,
    pub name: Seq<char>,
    pub cmd: Seq<char>,
    pub gpu_require: u8,
    pub state: TaskState,
    pub log_path: Seq<char>,
    pub priority: u8,
    pub queue: Seq<char>,
    pub create_time: u64,
    pub gpu_ids: Seq<u8>,
    pub failure_reason: Option<Seq<char>>,
}

impl View for TaskMeta {
    type V = TaskView;

    open spec fn view(&self) -> TaskView {
        TaskView {
            pid: self.pid,
            id: self.id,
            name: self.name@,
            cmd: self.cmd@,
            gpu_require: self.gpu_require,
            state: self.state,
            log_path: self.log_path@,
            priority: self.priority,
            queue: self.queue@,
            create_time: self.create_time,
            gpu_ids: self.gpu_ids@,
            failure_reason: opt_chars(self.failure_reason),
        }
    }
}

impl DeepView for TaskMeta {
    type V = TaskView;

    open spec fn deep_view(&self) -> TaskView {
        self@
    }
}

impl Clone for TaskMeta {
    fn clone(&self) -> (copy: Self)
        ensures
            copy@ == self@,
    {
        TaskMeta {
            pid: self.pid,
            id: self.id,
            name: self.name.clone(),
            cmd: self.cmd.clone(),
            gpu_require: self.gpu_require,
            state: self.state,
            log_path: self.log_path.clone(),
            priority: self.priority,
            queue: self.queue.clone(),
            create_time: self.create_time,
            gpu_ids: self.gpu_ids.clone(),
            failure_reason: clone_opt_string(&self.failure_reason),
        }
    }
}

/// A named group of tasks with its placement rules.
#[derive(Debug, PartialEq, Eq)]
pub struct QueueMeta {
    pub name: String,
    pub max_concurrent: u8,
    pub priority: u8,
    pub waiting_task_ids: Vec<u64>,
    pub running_task_ids: Vec<u64>,
    pub allocated_gpus: Vec<u8>,
    pub resource_limit: ResourceLimit,
}

/// Mathematical value of a [`QueueMeta`].
pub struct QueueView {
    pub name: Seq<char>,
    pub max_concurrent: u8,
    pub priority: u8,
    pub waiting_task_ids: Seq<u64>,
    pub running_task_ids: Seq<u64>,
    pub allocated_gpus: Seq<u8>,
    pub resource_limit: ResourceLimit,
}

impl View for QueueMeta {
    type V = QueueView;

    open spec fn view(&self) -> QueueView {
        QueueView {
            name: self.name@,
            max_concurrent: self.max_concurrent,
            priority: self.priority,
            waiting_task_ids: self.waiting_task_ids@,
            running_task_ids: self.running_task_ids@,
            allocated_gpus: self.allocated_gpus@,
            resource_limit: self.resource_limit,
        }
    }
}

impl DeepView for QueueMeta {
    type V = QueueView;

    open spec fn deep_view(&self) -> QueueView {
        self@
    }
}

impl Clone for QueueMeta {
    fn clone(&self) -> (copy: Self)
        ensures
            copy@ == self@,
    {
        QueueMeta {
            name: self.name.clone(),
            max_concurrent: self.max_concurrent,
            priority: self.priority,
            waiting_task_ids: self.waiting_task_ids.clone(),
            running_task_ids: self.running_task_ids.clone(),
            allocated_gpus: self.allocated_gpus.clone(),
            resource_limit: self.resource_limit,
        }
    }
}

impl QueueView {
    /// The queue that is created when a task names a queue that does not
    /// exist: it holds that task alone, runs one task at a time, owns no GPU
    /// and admits every GPU.
    pub open spec fn created_for(name: Seq<char>, task_id: u64) -> QueueView {
        QueueView {
            name,
            max_concurrent: 1,
            priority: DEFAULT_QUEUE_PRIORITY,
            waiting_task_ids: seq![task_id],
            running_task_ids: Seq::empty(),
            allocated_gpus: Seq::empty(),
            resource_limit: ResourceLimit::unrestricted(),
        }
    }

    /// An empty queue with the given name and priority.
    pub open spec fn empty(name: Seq<char>, priority: u8, max_concurrent: u8) -> QueueView {
        QueueView {
            name,
            max_concurrent,
            priority,
            waiting_task_ids: Seq::empty(),
            running_task_ids: Seq::empty(),
            allocated_gpus: Seq::empty(),
            resource_limit: ResourceLimit::unrestricted(),
        }
    }
}

} // verus!

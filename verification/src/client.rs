//! What the client decides without the daemon: what it sends by default,
//! how it reads a batch entry, and what a reply means for its exit code.

use crate::message::{Message, MessageView, TaskFilter, TaskFilterView};
use crate::models::{
    opt_chars, MemoryRequirementType, TaskMeta, TaskState, TaskView, DEFAULT_TASK_PRIORITY,
    DEFAULT_WAITING_QUEUE_NAME,
};
use crate::text::string_is;
use vstd::prelude::*;

verus! {

/// What the client knows of the daemon.
#[derive(Clone, Copy, Debug, PartialEq, Eq, Structural)]
pub enum DaemonStatus {
    /// A status request was answered.
    Running,
    /// No lock file is there and no answer came.
    Stopped,
    /// A lock file is there but no answer came: the lock is stale or the
    /// daemon does not respond.
    Unknown,
}

impl DaemonStatus {
    /// What a lock file and the outcome of a status request say together.
    pub open spec fn spec_of(lock_file_present: bool, answered: bool) -> DaemonStatus {
        if answered {
            DaemonStatus::Running
        } else if lock_file_present {
            DaemonStatus::Unknown
        } else {
            DaemonStatus::Stopped
        }
    }

    /// Reads the daemon's status off the presence of its lock file and the
    /// outcome of a status request.
    pub fn of(lock_file_present: bool, answered: bool) -> (status: DaemonStatus)
        ensures
            status == Self::spec_of(lock_file_present, answered),
    {
        if answered {
            DaemonStatus::Running
        } else if lock_file_present {
            DaemonStatus::Unknown
        } else {
            DaemonStatus::Stopped
        }
    }
}

/// The filter of a task listing that names none: the tasks of the parking
/// queue.
pub fn default_task_filter() -> (filter: TaskFilter)
    ensures
        filter@ == TaskFilterView::ByQueue(DEFAULT_WAITING_QUEUE_NAME@),
{
    TaskFilter::ByQueue(String::from_str(DEFAULT_WAITING_QUEUE_NAME))
}

/// The filter that the switches of a task listing select: the first of
/// "all", "running" and "finished" that is set, else the named queue, else
/// the default.
pub open spec fn selected_filter(
    all: bool,
    running: bool,
    finished: bool,
    queue: Option<Seq<char>>,
) -> TaskFilterView {
    if all {
        TaskFilterView::All
    } else if running {
        TaskFilterView::Running
    } else if finished {
        TaskFilterView::Finished
    } else {
        match queue {
            Some(name) => TaskFilterView::ByQueue(name),
            None => TaskFilterView::ByQueue(DEFAULT_WAITING_QUEUE_NAME@),
        }
    }
}

/// Picks the filter of a task listing from its switches.
pub fn select_task_filter(all: bool, running: bool, finished: bool, queue: Option<String>) -> (filter:
    TaskFilter)
    ensures
        filter@ == selected_filter(all, running, finished, opt_chars(queue)),
{
    if all {
        TaskFilter::All
    } else if running {
        TaskFilter::Running
    } else if finished {
        TaskFilter::Finished
    } else {
        match queue {
            Some(name) => TaskFilter::ByQueue(name),
            None => default_task_filter(),
        }
    }
}

/// The kind of memory requirement that a word names: "ignore", "absolute"
/// or "percentage", in lower case.
pub open spec fn named_requirement(word: Seq<char>) -> Option<MemoryRequirementType> {
    if word == "ignore"@ {
        Some(MemoryRequirementType::Ignore)
    } else if word == "absolute"@ {
        Some(MemoryRequirementType::AbsoluteMb)
    } else if word == "percentage"@ {
        Some(MemoryRequirementType::Percentage)
    } else {
        None
    }
}

/// Reads the kind of a memory requirement off its lower-case name.
pub fn parse_memory_requirement_type(word: &String) -> (kind: Option<MemoryRequirementType>)
    ensures
        kind == named_requirement(word@),
{
    if string_is(word, "ignore") {
        Some(MemoryRequirementType::Ignore)
    } else if string_is(word, "absolute") {
        Some(MemoryRequirementType::AbsoluteMb)
    } else if string_is(word, "percentage") {
        Some(MemoryRequirementType::Percentage)
    } else {
        None
    }
}

/// The task record that stands for one entry of a batch file: what the
/// entry leaves out is left empty for the daemon to fill in, except the
/// priority, which defaults here.
pub open spec fn batch_entry_view(
    command: Seq<char>,
    gpus_required: u8,
    queue: Option<Seq<char>>,
    priority: Option<u8>,
    name: Option<Seq<char>>,
) -> TaskView {
    TaskView {
        pid: None,
        id: 0,
        name: match name {
            Some(n) => n,
            None => Seq::empty(),
        },
        cmd: command,
        gpu_require: gpus_required,
        state: TaskState::Waiting,
        log_path: Seq::empty(),
        priority: match priority {
            Some(p) => p,
            None => DEFAULT_TASK_PRIORITY,
        },
        queue: match queue {
            Some(q) => q,
            None => Seq::empty(),
        },
        create_time: 0,
        gpu_ids: Seq::empty(),
        failure_reason: None,
    }
}

/// Builds the task record for one entry of a batch file.
pub fn batch_entry(
    command: String,
    gpus_required: u8,
    queue: Option<String>,
    priority: Option<u8>,
    name: Option<String>,
) -> (task: TaskMeta)
    ensures
        task@ == batch_entry_view(
            command@,
            gpus_required,
            opt_chars(queue),
            priority,
            opt_chars(name),
        ),
{
    TaskMeta {
        pid: None,
        id: 0,
        name: match name {
            Some(n) => n,
            None => String::new(),
        },
        cmd: command,
        gpu_require: gpus_required,
        state: TaskState::Waiting,
        log_path: String::new(),
        priority: match priority {
            Some(p) => p,
            None => DEFAULT_TASK_PRIORITY,
        },
        queue: match queue {
            Some(q) => q,
            None => String::new(),
        },
        create_time: 0,
        gpu_ids: Vec::new(),
        failure_reason: None,
    }
}

/// The exit code that a reply stands for: zero for what the daemon
/// acknowledged or listed, one for an error and for a message that is no
/// reply.
pub open spec fn exit_code_of(reply: MessageView) -> i32 {
    match reply {
        MessageView::Ack(_) => 0,
        MessageView::GPUStatus(_) => 0,
        MessageView::TaskStatus(_) => 0,
        MessageView::QueueStatus(_) => 0,
        _ => 1,
    }
}

/// Computes the exit code for a reply.
pub fn exit_code(reply: &Message) -> (code: i32)
    ensures
        code == exit_code_of(reply@),
{
    match reply {
        Message::Ack(_) => 0,
        Message::GPUStatus(_) => 0,
        Message::TaskStatus(_) => 0,
        Message::QueueStatus(_) => 0,
        _ => 1,
    }
}

} // verus!

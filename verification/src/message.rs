//! The messages that client and daemon exchange: one request, one reply.

use crate::models::{opt_chars, QueueMeta, QueueView, ResourceLimit, TaskMeta, TaskView};
use crate::monitor::GpuStats;
use vstd::prelude::*;

verus! {

/// Requests that concern the daemon itself.
#[derive(Clone, Copy, Debug, PartialEq, Eq, Structural)]
pub enum DaemonAction {
    Stop,
    Status,
}

/// Which tasks a listing shows.
#[derive(Debug, PartialEq, Eq)]
pub enum TaskFilter {
    All,
    Running,
    Finished,
    ByQueue(String),
    ByUser(String),
}

/// Mathematical value of a [`TaskFilter`].
pub enum TaskFilterView {
    All,
    Running,
    Finished,
    ByQueue(Seq<char>),
    ByUser(Seq<char>),
}

impl View for TaskFilter {
    type V = TaskFilterView;

    open spec fn view(&self) -> TaskFilterView {
        match self {
            TaskFilter::All => TaskFilterView::All,
            TaskFilter::Running => TaskFilterView::Running,
            TaskFilter::Finished => TaskFilterView::Finished,
            TaskFilter::ByQueue(name) => TaskFilterView::ByQueue(name@),
            TaskFilter::ByUser(name) => TaskFilterView::ByUser(name@),
        }
    }
}

/// Requests on tasks.
#[derive(Debug, PartialEq, Eq)]
pub enum TaskAction {
    List { filter: TaskFilter },
    Info { task_id: u64 },
    Run { task_id: u64 },
    Kill { task_id: u64 },
    Remove { task_id: u64 },
    Logs { task_id: u64, tail: bool },
}

/// Mathematical value of a [`TaskAction`].
pub enum TaskActionView {
    List { filter: TaskFilterView },
    Info { task_id: u64 },
    Run { task_id: u64 },
    Kill { task_id: u64 },
    Remove { task_id: u64 },
    Logs { task_id: u64, tail: bool },
}

impl View for TaskAction {
    type V = TaskActionView;

    open spec fn view(&self) -> TaskActionView {
        match self {
            TaskAction::List { filter } => TaskActionView::List { filter: filter@ },
            TaskAction::Info { task_id } => TaskActionView::Info { task_id: *task_id },
            TaskAction::Run { task_id } => TaskActionView::Run { task_id: *task_id },
            TaskAction::Kill { task_id } => TaskActionView::Kill { task_id: *task_id },
            TaskAction::Remove { task_id } => TaskActionView::Remove { task_id: *task_id },
            TaskAction::Logs { task_id, tail } => TaskActionView::Logs {
                task_id: *task_id,
                tail: *tail,
            },
        }
    }
}

/// Requests on GPUs.
#[allow(inconsistent_fields)]
#[derive(Debug, PartialEq, Eq)]
pub enum GPUAction {
    List,
    Info { gpu_id: Option<u8> },
    Allocate { gpu_ids: Vec<u8>, queue: String },
    Release { gpu_id: u8 },
    Ignore { gpu_id: u8 },
    ResetIgnored,
}

/// Mathematical value of a [`GPUAction`].
#[allow(inconsistent_fields)]
pub enum GPUActionView {
    List,
    Info { gpu_id: Option<u8> },
    Allocate { gpu_ids: Seq<u8>, queue: Seq<char> },
    Release { gpu_id: u8 },
    Ignore { gpu_id: u8 },
    ResetIgnored,
}

impl View for GPUAction {
    type V = GPUActionView;

    open spec fn view(&self) -> GPUActionView {
        match self {
            GPUAction::List => GPUActionView::List,
            GPUAction::Info { gpu_id } => GPUActionView::Info { gpu_id: *gpu_id },
            GPUAction::Allocate { gpu_ids, queue } => GPUActionView::Allocate {
                gpu_ids: gpu_ids@,
                queue: queue@,
            },
            GPUAction::Release { gpu_id } => GPUActionView::Release { gpu_id: *gpu_id },
            GPUAction::Ignore { gpu_id } => GPUActionView::Ignore { gpu_id: *gpu_id },
            GPUAction::ResetIgnored => GPUActionView::ResetIgnored,
        }
    }
}

/// Requests on queues.
#[derive(Debug, PartialEq, Eq)]
pub enum QueueAction {
    List,
    Status { queue_name: String },
    Merge { source: String, dest: String },
    Create { name: String, priority: u8 },
    Move { task_id: u64, dest_queue: String },
    SetPriority { task_id: u64, level: u8 },
    SetResourceLimit { queue_name: String, limit: ResourceLimit },
}

/// Mathematical value of a [`QueueAction`].
pub enum QueueActionView {
    List,
    Status { queue_name: Seq<char> },
    Merge { source: Seq<char>, dest: Seq<char> },
    Create { name: Seq<char>, priority: u8 },
    Move { task_id: u64, dest_queue: Seq<char> },
    SetPriority { task_id: u64, level: u8 },
    SetResourceLimit { queue_name: Seq<char>, limit: ResourceLimit },
}

impl View for QueueAction {
    type V = QueueActionView;

    open spec fn view(&self) -> QueueActionView {
        match self {
            QueueAction::List => QueueActionView::List,
            QueueAction::Status { queue_name } => QueueActionView::Status {
                queue_name: queue_name@,
            },
            QueueAction::Merge { source, dest } => QueueActionView::Merge {
                source: source@,
                dest: dest@,
            },
            QueueAction::Create { name, priority } => QueueActionView::Create {
                name: name@,
                priority: *priority,
            },
            QueueAction::Move { task_id, dest_queue } => QueueActionView::Move {
                task_id: *task_id,
                dest_queue: dest_queue@,
            },
            QueueAction::SetPriority { task_id, level } => QueueActionView::SetPriority {
                task_id: *task_id,
                level: *level,
            },
            QueueAction::SetResourceLimit { queue_name, limit } => QueueActionView::SetResourceLimit {
                queue_name: queue_name@,
                limit: *limit,
            },
        }
    }
}

/// Submissions of new tasks.
#[derive(Debug, PartialEq, Eq)]
pub enum SubmitAction {
    Command {
        command: String,
        gpu_num_required: u8,
        queue_name: Option<String>,
        name: Option<String>,
    },
    Script {
        script_path: String,
        gpu_num_required: u8,
        queue_name: Option<String>,
        name: Option<String>,
    },
    BatchJson { tasks: Vec<TaskMeta>, default_queue_name: Option<String> },
}

/// Mathematical value of a [`SubmitAction`].
pub enum SubmitActionView {
    Command {
        command: Seq<char>,
        gpu_num_required: u8,
        queue_name: Option<Seq<char>>,
        name: Option<Seq<char>>,
    },
    Script {
        script_path: Seq<char>,
        gpu_num_required: u8,
        queue_name: Option<Seq<char>>,
        name: Option<Seq<char>>,
    },
    BatchJson { tasks: Seq<TaskView>, default_queue_name: Option<Seq<char>> },
}

impl View for SubmitAction {
    type V = SubmitActionView;

    open spec fn view(&self) -> SubmitActionView {
        match self {
            SubmitAction::Command {
                command,
                gpu_num_required,
                queue_name,
                name,
            } => SubmitActionView::Command {
                command: command@,
                gpu_num_required: *gpu_num_required,
                queue_name: opt_chars(*queue_name),
                name: opt_chars(*name),
            },
            SubmitAction::Script {
                script_path,
                gpu_num_required,
                queue_name,
                name,
            } => SubmitActionView::Script {
                script_path: script_path@,
                gpu_num_required: *gpu_num_required,
                queue_name: opt_chars(*queue_name),
                name: opt_chars(*name),
            },
            SubmitAction::BatchJson { tasks, default_queue_name } => SubmitActionView::BatchJson {
                tasks: tasks.deep_view(),
                default_queue_name: opt_chars(*default_queue_name),
            },
        }
    }
}

/// Everything that travels over the socket.
#[derive(Debug, PartialEq, Eq)]
pub enum Message {
    DaemonCommand(DaemonAction),
    TaskCommand(TaskAction),
    GPUCommand(GPUAction),
    QueueCommand(QueueAction),
    SubmitCommand(SubmitAction),
    GPUStatus(Vec<GpuStats>),
    TaskStatus(Vec<TaskMeta>),
    QueueStatus(Vec<QueueMeta>),
    Ack(String),
    Error(String),
}

/// Mathematical value of a [`Message`].
pub enum MessageView {
    DaemonCommand(DaemonAction),
    TaskCommand(TaskActionView),
    GPUCommand(GPUActionView),
    QueueCommand(QueueActionView),
    SubmitCommand(SubmitActionView),
    GPUStatus(Seq<GpuStats>),
    TaskStatus(Seq<TaskView>),
    QueueStatus(Seq<QueueView>),
    Ack(Seq<char>),
    Error(Seq<char>),
}

impl View for Message {
    type V = MessageView;

    open spec fn view(&self) -> MessageView {
        match self {
            Message::DaemonCommand(action) => MessageView::DaemonCommand(*action),
            Message::TaskCommand(action) => MessageView::TaskCommand(action@),
            Message::GPUCommand(action) => MessageView::GPUCommand(action@),
            Message::QueueCommand(action) => MessageView::QueueCommand(action@),
            Message::SubmitCommand(action) => MessageView::SubmitCommand(action@),
            Message::GPUStatus(stats) => MessageView::GPUStatus(stats@),
            Message::TaskStatus(tasks) => MessageView::TaskStatus(tasks.deep_view()),
            Message::QueueStatus(queues) => MessageView::QueueStatus(queues.deep_view()),
            Message::Ack(text) => MessageView::Ack(text@),
            Message::Error(text) => MessageView::Error(text@),
        }
    }
}

} // verus!

//! The daemon as a whole: the queues it starts with, its summary, and the
//! routing of one request to its handler.

use crate::gpu_handler::handle_gpu_command;
use crate::message::{DaemonAction, Message, MessageView};
use crate::models::{
    QueueMeta, QueueView, ResourceLimit, TaskState, DEFAULT_QUEUE_PRIORITY,
    DEFAULT_RUNNING_QUEUE_NAME, DEFAULT_WAITING_QUEUE_NAME,
};
use crate::placement::GPU_INDEX_SPACE;
use crate::queue_handler::handle_queue_command;
use crate::replies::{
    shutdown_initiated, shutdown_initiated_text, status_report, status_report_text,
    unexpected_message, unexpected_message_text,
};
use crate::state::{DaemonState, GpuAllocation};
use crate::store::StateView;
use crate::submit_handler::{handle_submit_command, SubmitContext, SubmitCounters};
use crate::table::{ascending, lemma_ascending};
use crate::task_handler::{handle_task_command, TaskStep};
use vstd::prelude::*;

verus! {

/// Priority of the queue from which released tasks are placed.
pub const RUNNING_QUEUE_PRIORITY: u8 = 1;

/// What is to happen next for a request: the reply is ready, possibly with
/// something to do beside it, or something has to be done before it.
#[derive(Debug, PartialEq, Eq)]
pub enum Step {
    /// Send the reply.
    Reply(Message),
    /// Send the reply, then stop accepting connections.
    ReplyAndStop(Message),
    /// Send the reply, and the termination signal to each of `pids`.
    ReplyAndTerminate { reply: Message, pids: Vec<i32> },
    /// Send the termination signal to `pid`, then reply with
    /// [`crate::task_handler::finish_task_kill`].
    SendTerm { task_id: u64, pid: i32 },
    /// Read the lines of `log_path`, then reply with
    /// [`crate::task_handler::finish_task_logs`].
    ReadLog { task_id: u64, log_path: String, tail: bool },
}

/// Mathematical value of a [`Step`].
pub enum StepView {
    Reply(MessageView),
    ReplyAndStop(MessageView),
    ReplyAndTerminate { reply: MessageView, pids: Seq<i32> },
    SendTerm { task_id: u64, pid: i32 },
    ReadLog { task_id: u64, log_path: Seq<char>, tail: bool },
}

impl View for Step {
    type V = StepView;

    open spec fn view(&self) -> StepView {
        match self {
            Step::Reply(message) => StepView::Reply(message@),
            Step::ReplyAndStop(message) => StepView::ReplyAndStop(message@),
            Step::ReplyAndTerminate { reply, pids } => StepView::ReplyAndTerminate {
                reply: reply@,
                pids: pids@,
            },
            Step::SendTerm { task_id, pid } => StepView::SendTerm { task_id: *task_id, pid: *pid },
            Step::ReadLog { task_id, log_path, tail } => StepView::ReadLog {
                task_id: *task_id,
                log_path: log_path@,
                tail: *tail,
            },
        }
    }
}

/// The outcome of one request.
pub struct Handled {
    pub state: StateView,
    pub counters: SubmitCounters,
    pub step: StepView,
}

impl StateView {
    /// How many of the first `n` tasks are in `state`.
    pub open spec fn tasks_in(self, state: TaskState, n: int) -> nat
        decreases n,
    {
        if n <= 0 {
            0
        } else if self.tasks[n - 1].state == state {
            self.tasks_in(state, n - 1) + 1
        } else {
            self.tasks_in(state, n - 1)
        }
    }

    /// How many of the first `n` entries of the ownership table, by
    /// ascending GPU index, have an owner.
    pub open spec fn owned_entries(self, n: int) -> nat
        decreases n,
    {
        if n <= 0 {
            0
        } else if self.gpu_allocations[ascending(self.gpu_allocations.dom())[n - 1]] is Some {
            self.owned_entries(n - 1) + 1
        } else {
            self.owned_entries(n - 1)
        }
    }

    /// The daemon's summary: the number of tasks and of tasks in each
    /// state, the number of queues, and the number of GPUs with telemetry,
    /// of owned and of free entries of the ownership table, and of ignored
    /// GPUs.
    pub open spec fn status_text(self) -> Seq<char> {
        let all = self.tasks.len() as int;
        let entries = self.gpu_allocations.dom().len() as int;
        status_report_text(
            self.tasks.len() as usize,
            self.tasks_in(TaskState::Running, all) as usize,
            self.tasks_in(TaskState::Waiting, all) as usize,
            self.tasks_in(TaskState::Finished, all) as usize,
            self.tasks_in(TaskState::Failed, all) as usize,
            self.queues.len() as usize,
            self.gpu_stats.dom().len() as usize,
            self.owned_entries(entries) as usize,
            (entries - self.owned_entries(entries)) as usize,
            self.ignored_gpus.len() as usize,
        )
    }

    /// The GPUs below index `n` that the queue for released tasks takes at
    /// the start: those with telemetry that are neither ignored nor owned,
    /// ascending.
    pub open spec fn unclaimed_gpus(self, n: nat) -> Seq<u8>
        decreases n,
    {
        if n == 0 {
            Seq::empty()
        } else {
            let below = self.unclaimed_gpus((n - 1) as nat);
            let gpu = (n - 1) as u32;
            if self.gpu_stats.contains_key(gpu) && !self.ignored_gpus.contains(gpu)
                && self.gpu_free(gpu) {
                below.push(gpu as u8)
            } else {
                below
            }
        }
    }

    /// The state after the first `n` of `gpus` were recorded as owned by
    /// queue `name`.
    pub open spec fn claim(self, gpus: Seq<u8>, name: Seq<char>, n: int) -> StateView
        decreases n,
    {
        if n <= 0 {
            self
        } else {
            self.claim(gpus, name, n - 1).set_gpu_allocation(gpus[n - 1] as u32, Some(name))
        }
    }

    /// The state with the parking queue, created empty where it is
    /// missing.
    pub open spec fn with_waiting_queue(self) -> StateView {
        if self.has_queue(DEFAULT_WAITING_QUEUE_NAME@) {
            self
        } else {
            self.add_queue(
                QueueView::empty(DEFAULT_WAITING_QUEUE_NAME@, DEFAULT_QUEUE_PRIORITY, 1),
            )
        }
    }

    /// The state with the queue for released tasks. Where it is missing it
    /// is created as the owner of every unclaimed GPU, and may run as many
    /// tasks at a time as it owns GPUs.
    pub open spec fn with_running_queue(self) -> StateView {
        if self.has_queue(DEFAULT_RUNNING_QUEUE_NAME@) {
            self
        } else {
            let gpus = self.unclaimed_gpus(GPU_INDEX_SPACE as nat);
            self.claim(gpus, DEFAULT_RUNNING_QUEUE_NAME@, gpus.len() as int).add_queue(
                QueueView {
                    allocated_gpus: gpus,
                    ..QueueView::empty(
                        DEFAULT_RUNNING_QUEUE_NAME@,
                        RUNNING_QUEUE_PRIORITY,
                        if gpus.len() > u8::MAX {
                            u8::MAX
                        } else {
                            gpus.len() as u8
                        },
                    )
                },
            )
        }
    }

    /// The state with both well-known queues.
    pub open spec fn with_default_queues(self) -> StateView {
        self.with_waiting_queue().with_running_queue()
    }

    /// The outcome of one request. A message that only the daemon sends is
    /// answered with an error.
    pub open spec fn handle(
        self,
        counters: SubmitCounters,
        now_secs: u64,
        log_dir: Seq<char>,
        message: MessageView,
    ) -> Handled {
        match message {
            MessageView::DaemonCommand(DaemonAction::Stop) => Handled {
                state: self,
                counters,
                step: StepView::ReplyAndStop(MessageView::Ack(shutdown_initiated_text())),
            },
            MessageView::DaemonCommand(DaemonAction::Status) => Handled {
                state: self,
                counters,
                step: StepView::Reply(MessageView::Ack(self.status_text())),
            },
            MessageView::TaskCommand(action) => Handled {
                state: self.after_task_command(action),
                counters,
                step: match self.task_step(action) {
                    crate::task_handler::TaskStepView::Reply(reply) => StepView::Reply(reply),
                    crate::task_handler::TaskStepView::SendTerm {
                        task_id,
                        pid,
                    } => StepView::SendTerm { task_id, pid },
                    crate::task_handler::TaskStepView::ReadLog {
                        task_id,
                        log_path,
                        tail,
                    } => StepView::ReadLog { task_id, log_path, tail },
                },
            },
            MessageView::GPUCommand(action) => Handled {
                state: self.after_gpu_command(action),
                counters,
                step: if self.gpu_outcome(action).terminate.len() == 0 {
                    StepView::Reply(self.gpu_outcome(action).reply)
                } else {
                    StepView::ReplyAndTerminate {
                        reply: self.gpu_outcome(action).reply,
                        pids: self.gpu_outcome(action).terminate,
                    }
                },
            },
            MessageView::QueueCommand(action) => Handled {
                state: self.after_queue_command(action),
                counters,
                step: StepView::Reply(self.queue_reply(action)),
            },
            MessageView::SubmitCommand(action) => {
                let done = self.submit(counters, now_secs, log_dir, action);
                Handled { state: done.state, counters: done.counters, step: StepView::Reply(done.reply) }
            },
            _ => Handled {
                state: self,
                counters,
                step: StepView::Reply(MessageView::Error(unexpected_message_text())),
            },
        }
    }
}

/// Counts the tasks in each state: running, waiting, finished, failed.
fn count_states(state: &DaemonState) -> (counts: (usize, usize, usize, usize))
    ensures
        counts.0 == state@.tasks_in(TaskState::Running, state@.tasks.len() as int),
        counts.1 == state@.tasks_in(TaskState::Waiting, state@.tasks.len() as int),
        counts.2 == state@.tasks_in(TaskState::Finished, state@.tasks.len() as int),
        counts.3 == state@.tasks_in(TaskState::Failed, state@.tasks.len() as int),
{
    let tasks = state.get_all_tasks();
    let mut running: usize = 0;
    let mut waiting: usize = 0;
    let mut finished: usize = 0;
    let mut failed: usize = 0;
    let mut k: usize = 0;
    while k < tasks.len()
        invariant
            k <= tasks.len(),
            tasks.deep_view() == state@.tasks,
            running == state@.tasks_in(TaskState::Running, k as int),
            waiting == state@.tasks_in(TaskState::Waiting, k as int),
            finished == state@.tasks_in(TaskState::Finished, k as int),
            failed == state@.tasks_in(TaskState::Failed, k as int),
            running <= k,
            waiting <= k,
            finished <= k,
            failed <= k,
        decreases tasks.len() - k,
    {
        assert(tasks.deep_view()[k as int] == tasks@[k as int]@);
        match tasks[k].state {
            TaskState::Running => {
                running += 1;
            },
            TaskState::Waiting => {
                waiting += 1;
            },
            TaskState::Finished => {
                finished += 1;
            },
            TaskState::Failed => {
                failed += 1;
            },
        }
        k += 1;
    }
    assert(tasks.deep_view().len() == tasks.len());
    (running, waiting, finished, failed)
}

/// Counts the entries of the ownership table that have an owner, and all
/// of its entries.
fn count_owned(state: &DaemonState) -> (counts: (usize, usize))
    requires
        state.wf(),
    ensures
        counts.0 == state@.owned_entries(state@.gpu_allocations.dom().len() as int),
        counts.1 == state@.gpu_allocations.dom().len(),
        counts.0 <= counts.1,
{
    let entries = state.get_gpu_allocations();
    let ghost keys = entries@.map_values(|e: GpuAllocation| e.gpu_id);
    proof {
        lemma_ascending(keys, state@.gpu_allocations.dom());
        assert(keys.no_duplicates());
        assert(keys.to_set() =~= state@.gpu_allocations.dom());
        keys.unique_seq_to_set();
    }
    let mut owned: usize = 0;
    let mut k: usize = 0;
    while k < entries.len()
        invariant
            k <= entries.len(),
            keys == entries@.map_values(|e: GpuAllocation| e.gpu_id),
            keys == ascending(state@.gpu_allocations.dom()),
            forall|i: int|
                0 <= i < entries.len() ==> crate::models::opt_chars((#[trigger] entries[i]).queue)
                    == state@.gpu_allocations[entries[i].gpu_id],
            owned == state@.owned_entries(k as int),
            owned <= k,
        decreases entries.len() - k,
    {
        assert(keys[k as int] == entries@[k as int].gpu_id);
        if entries[k].queue.is_some() {
            owned += 1;
        }
        k += 1;
    }
    (owned, entries.len())
}

/// Words the daemon's summary of what it holds.
pub fn status(state: &DaemonState) -> (summary: String)
    requires
        state.wf(),
    ensures
        summary@ == state@.status_text(),
{
    let tasks = state.get_all_tasks();
    let queues = state.get_all_queues();
    let (running, waiting, finished, failed) = count_states(state);
    let (owned, entries) = count_owned(state);
    let gpus = state.get_all_gpu_stats();
    let ignored = state.get_ignored_gpus();
    proof {
        assert(tasks.deep_view().len() == tasks.len());
        assert(queues.deep_view().len() == queues.len());
        let gpu_keys = gpus@.map_values(|e: (u32, crate::monitor::GpuStats)| e.0);
        assert(gpu_keys.no_duplicates());
        assert(gpu_keys.to_set() =~= state@.gpu_stats.dom());
        gpu_keys.unique_seq_to_set();
        assert(ignored@.no_duplicates());
        assert(ignored@.to_set() =~= state@.ignored_gpus);
        ignored@.unique_seq_to_set();
    }
    status_report(
        tasks.len(),
        running,
        waiting,
        finished,
        failed,
        queues.len(),
        gpus.len(),
        owned,
        entries - owned,
        ignored.len(),
    )
}

/// The GPUs that the queue for released tasks takes at the start.
fn unclaimed(state: &DaemonState) -> (gpus: Vec<u8>)
    requires
        state.wf(),
    ensures
        gpus@ == state@.unclaimed_gpus(GPU_INDEX_SPACE as nat),
        gpus.len() <= GPU_INDEX_SPACE,
{
    let mut gpus: Vec<u8> = Vec::new();
    let mut g: usize = 0;
    while g < GPU_INDEX_SPACE
        invariant
            state.wf(),
            g <= GPU_INDEX_SPACE,
            gpus.len() <= g,
            gpus@ == state@.unclaimed_gpus(g as nat),
        decreases GPU_INDEX_SPACE - g,
    {
        let gpu = g as u32;
        let seen = state.get_gpu_stats(gpu).is_some();
        let free = match state.get_gpu_allocation(gpu) {
            Some(Some(_)) => false,
            _ => true,
        };
        if seen && !state.is_gpu_ignored(gpu) && free {
            gpus.push(g as u8);
        }
        g += 1;
    }
    gpus
}

/// Creates the two well-known queues where they are missing: the parking
/// queue for new tasks, and the queue for released tasks, which takes
/// every GPU that has telemetry and is neither ignored nor owned.
pub fn ensure_default_queues_exist(state: &mut DaemonState)
    requires
        old(state).wf(),
    ensures
        final(state).wf(),
        final(state)@ == old(state)@.with_default_queues(),
        old(state)@.coherent() ==> final(state)@.coherent(),
        old(state)@.tidy() ==> final(state)@.tidy(),
        old(state)@.tasks_have_queues() ==> final(state)@.tasks_have_queues(),
        old(state)@.running_gpus_sound() ==> final(state)@.running_gpus_sound(),
        old(state)@.running_gpus_exclusive() ==> final(state)@.running_gpus_exclusive(),
{
    proof {
        if old(state)@.tasks_have_queues() {
            crate::housing::law_events_keep_tasks_in_queues(old(state)@);
        }
        if old(state)@.tidy() {
            crate::ended::law_events_keep_tidy(old(state)@);
        }
        if old(state)@.coherent() {
            crate::laws::law_default_queues_keep_coherence(old(state)@);
        }
        crate::gpu_order::law_events_are_calm(old(state)@);
        crate::gpu_order::law_calm_keeps_gpus_in_order(
            old(state)@,
            old(state)@.with_default_queues(),
        );
    }
    if state.get_queue(DEFAULT_WAITING_QUEUE_NAME).is_none() {
        state.add_queue(
            QueueMeta {
                name: String::from_str(DEFAULT_WAITING_QUEUE_NAME),
                max_concurrent: 1,
                priority: DEFAULT_QUEUE_PRIORITY,
                waiting_task_ids: Vec::new(),
                running_task_ids: Vec::new(),
                allocated_gpus: Vec::new(),
                resource_limit: ResourceLimit::default(),
            },
        );
    }
    if state.get_queue(DEFAULT_RUNNING_QUEUE_NAME).is_none() {
        let ghost parked = state@;
        let gpus = unclaimed(state);
        let mut k: usize = 0;
        while k < gpus.len()
            invariant
                state.wf(),
                k <= gpus.len(),
                state@ == parked.claim(gpus@, DEFAULT_RUNNING_QUEUE_NAME@, k as int),
            decreases gpus.len() - k,
        {
            state.set_gpu_allocation(gpus[k] as u32, Some(String::from_str(DEFAULT_RUNNING_QUEUE_NAME)));
            k += 1;
        }
        let max_concurrent: u8 = if gpus.len() > u8::MAX as usize {
            u8::MAX
        } else {
            gpus.len() as u8
        };
        state.add_queue(
            QueueMeta {
                name: String::from_str(DEFAULT_RUNNING_QUEUE_NAME),
                max_concurrent,
                priority: RUNNING_QUEUE_PRIORITY,
                waiting_task_ids: Vec::new(),
                running_task_ids: Vec::new(),
                allocated_gpus: gpus,
                resource_limit: ResourceLimit::default(),
            },
        );
    }
}

/// Routes one request to its handler and says what is to happen next.
pub fn handle_message(
    message: Message,
    state: &mut DaemonState,
    counters: &mut SubmitCounters,
    context: &SubmitContext,
) -> (step: Step)
    requires
        old(state).wf(),
    ensures
        final(state).wf(),
        ({
            let want = old(state)@.handle(*old(counters), context.now_secs, context.log_dir@, message@);
            &&& final(state)@ == want.state
            &&& *final(counters) == want.counters
            &&& step@ == want.step
        }),
        old(state)@.coherent() && old(state)@.request_moves_waiting(message@) ==> final(state)@.coherent(),
        old(state)@.tidy() && old(state)@.request_moves_live(message@) ==> final(state)@.tidy(),
        old(state)@.tasks_have_queues() ==> final(state)@.tasks_have_queues(),
        old(state)@.running_gpus_exclusive() ==> final(state)@.running_gpus_exclusive(),
        old(state)@.running_gpus_sound() && old(state)@.request_spares_running(message@)
            ==> final(state)@.running_gpus_sound(),
{
    proof {
        let s = old(state)@;
        if s.tasks_have_queues() {
            crate::housing::law_requests_keep_tasks_in_queues(
                s,
                *old(counters),
                context.now_secs,
                context.log_dir@,
                message@,
            );
        }
        if s.tidy() && s.request_moves_live(message@) {
            crate::ended::law_requests_keep_tidy(
                s,
                *old(counters),
                context.now_secs,
                context.log_dir@,
                message@,
            );
        }
        if s.coherent() && s.request_moves_waiting(message@) {
            crate::laws::law_requests_keep_coherence(
                s,
                *old(counters),
                context.now_secs,
                context.log_dir@,
                message@,
            );
        }
        if s.running_gpus_exclusive() {
            crate::gpu_order::law_requests_keep_gpus_exclusive(
                s,
                *old(counters),
                context.now_secs,
                context.log_dir@,
                message@,
            );
        }
        if s.running_gpus_sound() && s.request_spares_running(message@) {
            crate::gpu_order::law_requests_keep_gpus_sound(
                s,
                *old(counters),
                context.now_secs,
                context.log_dir@,
                message@,
            );
        }
    }
    match message {
        Message::DaemonCommand(DaemonAction::Stop) => Step::ReplyAndStop(
            Message::Ack(shutdown_initiated()),
        ),
        Message::DaemonCommand(DaemonAction::Status) => Step::Reply(Message::Ack(status(state))),
        Message::TaskCommand(action) => match handle_task_command(action, state) {
            TaskStep::Reply(reply) => Step::Reply(reply),
            TaskStep::SendTerm { task_id, pid } => Step::SendTerm { task_id, pid },
            TaskStep::ReadLog { task_id, log_path, tail } => Step::ReadLog {
                task_id,
                log_path,
                tail,
            },
        },
        Message::GPUCommand(action) => {
            let outcome = handle_gpu_command(action, state);
            if outcome.terminate.len() == 0 {
                Step::Reply(outcome.reply)
            } else {
                Step::ReplyAndTerminate { reply: outcome.reply, pids: outcome.terminate }
            }
        },
        Message::QueueCommand(action) => Step::Reply(handle_queue_command(action, state)),
        Message::SubmitCommand(action) => Step::Reply(
            handle_submit_command(action, state, counters, context),
        ),
        _ => Step::Reply(Message::Error(unexpected_message())),
    }
}

} // verus!

//! Submission of new tasks: ids, default names, log paths, and the
//! records that enter the store.

use crate::message::{Message, MessageView, SubmitAction, SubmitActionView};
use crate::models::{
    opt_chars, TaskMeta, TaskState, TaskView, DEFAULT_TASK_PRIORITY, DEFAULT_WAITING_QUEUE_NAME,
};
use crate::replies::{
    batch_incomplete, batch_incomplete_text, batch_submitted, batch_submitted_text,
    command_submitted, command_submitted_text, default_task_name, default_task_name_text,
    log_path_for, log_path_for_text, no_free_id, no_free_id_text, script_submitted,
    script_submitted_text,
};
use crate::state::DaemonState;
use crate::store::StateView;
use vstd::prelude::*;

verus! {

/// Number of seconds after which the time part of a task id repeats.
pub const ID_SECONDS: u64 = 1000000;

/// Number of task ids that lie between the starting points of two seconds.
pub const IDS_PER_SECOND: u64 = 100;

/// Where the ids of second `now_secs` start: the second within its cycle,
/// followed by two zeros.
pub open spec fn id_seed(now_secs: u64) -> u64 {
    ((now_secs % ID_SECONDS) * IDS_PER_SECOND) as u64
}

/// The task id that is generated in second `now_secs` when `last` was the
/// id generated before (zero where none was): the starting point of the
/// second where that lies above `last`, else the number after `last`. It
/// is 1 after the largest number, and so never zero.
pub open spec fn task_id_for(now_secs: u64, last: u64) -> u64 {
    if last < id_seed(now_secs) {
        id_seed(now_secs)
    } else if last < u64::MAX {
        (last + 1) as u64
    } else {
        1
    }
}

/// Generates the task id that follows `last` in second `now_secs`. It is
/// never zero, and above `last` as long as a number above `last` exists.
pub fn generate_task_id(now_secs: u64, last: u64) -> (id: u64)
    ensures
        id == task_id_for(now_secs, last),
        id != 0,
        last < u64::MAX ==> id > last,
        last == u64::MAX ==> id == 1,
{
    let seed = (now_secs % ID_SECONDS) * IDS_PER_SECOND;
    if last < seed {
        seed
    } else if last < u64::MAX {
        last + 1
    } else {
        1
    }
}

/// Words the name of the `count`-th task that was submitted without one.
pub fn generate_default_task_name(count: u64) -> (name: String)
    ensures
        name@ == default_task_name_text(count),
{
    default_task_name(count)
}

/// Words the log path of task `task_id` under `log_dir`.
pub fn generate_log_path(log_dir: &str, task_id: u64) -> (path: String)
    ensures
        path@ == log_path_for_text(log_dir@, task_id),
{
    log_path_for(log_dir, task_id)
}

/// The counters that last as long as the process: `id_counter` is the
/// task id that was generated last (zero while none was), `name_counter`
/// numbers the default names.
#[derive(Clone, Copy, Debug, PartialEq, Eq, Structural)]
pub struct SubmitCounters {
    pub id_counter: u64,
    pub name_counter: u64,
}

impl SubmitCounters {
    /// The counters of a fresh process: names are numbered from 1.
    pub fn new() -> (counters: Self)
        ensures
            counters == (SubmitCounters { id_counter: 0, name_counter: 1 }),
    {
        SubmitCounters { id_counter: 0, name_counter: 1 }
    }
}

/// What a submission takes from outside the state.
#[derive(Debug, PartialEq, Eq)]
pub struct SubmitContext {
    /// The present time in unix seconds.
    pub now_secs: u64,
    /// Directory of the task logs.
    pub log_dir: String,
}

/// An id and the value that the id counter has after its choice.
pub struct PickedId {
    pub id: u64,
    pub next_counter: u64,
}

/// The outcome of one submission.
pub struct Submitted {
    pub state: StateView,
    pub counters: SubmitCounters,
    pub reply: MessageView,
}

/// How far a batch has come.
pub struct Batch {
    pub state: StateView,
    pub counters: SubmitCounters,
    pub submitted: nat,
    pub failed: nat,
}

/// The record of a task as it is submitted.
pub open spec fn submitted_task(
    id: u64,
    name: Seq<char>,
    cmd: Seq<char>,
    gpu_require: u8,
    priority: u8,
    queue: Seq<char>,
    create_time: u64,
    log_path: Seq<char>,
) -> TaskView {
    TaskView {
        pid: None,
        id,
        name,
        cmd,
        gpu_require,
        state: TaskState::Waiting,
        log_path,
        priority,
        queue,
        create_time,
        gpu_ids: Seq::empty(),
        failure_reason: None,
    }
}

impl StateView {
    /// Whether `id` can be given to a new task: it is not zero and no task
    /// has it.
    pub open spec fn id_is_free(self, id: u64) -> bool {
        id != 0 && !self.has_task(id)
    }

    /// The smallest free id from `from` on, if there is one.
    pub open spec fn first_free_from(self, from: u64) -> Option<u64>
        decreases u64::MAX - from,
    {
        if self.id_is_free(from) {
            Some(from)
        } else if from == u64::MAX {
            None
        } else {
            self.first_free_from((from + 1) as u64)
        }
    }

    /// The id of a new task in second `now_secs`, when `last` was generated
    /// before: the first free id from the generated one on, or, where all
    /// of these are taken, the smallest free id. There is none only where
    /// every id but zero is taken.
    pub open spec fn pick_id(self, now_secs: u64, last: u64) -> Option<PickedId> {
        match self.first_free_from(task_id_for(now_secs, last)) {
            Some(id) => Some(PickedId { id, next_counter: id }),
            None => match self.first_free_from(1) {
                Some(id) => Some(PickedId { id, next_counter: id }),
                None => None,
            },
        }
    }

    /// Whether the store has fewer tasks than there are ids, `more` new
    /// tasks counted in.
    pub open spec fn has_ids_for(self, more: nat) -> bool {
        self.tasks.len() + more <= u64::MAX
    }

    /// The submission of one command, or of one script where `script` is
    /// set: the task gets a free id, the name given or the next default
    /// name, the queue given or the parking queue, the default priority and
    /// the log path of its id. It is refused only where every id is
    /// taken.
    pub open spec fn submit_one(
        self,
        counters: SubmitCounters,
        now_secs: u64,
        log_dir: Seq<char>,
        command: Seq<char>,
        gpu_require: u8,
        queue_name: Option<Seq<char>>,
        name: Option<Seq<char>>,
        script: bool,
    ) -> Submitted {
        match self.pick_id(now_secs, counters.id_counter) {
            None => Submitted {
                state: self,
                counters,
                reply: MessageView::Error(no_free_id_text()),
            },
            Some(picked) => {
                let queue = match queue_name {
                    Some(q) => q,
                    None => DEFAULT_WAITING_QUEUE_NAME@,
                };
                let task_name = match name {
                    Some(n) => n,
                    None => default_task_name_text(counters.name_counter),
                };
                let task = submitted_task(
                    picked.id,
                    task_name,
                    command,
                    gpu_require,
                    DEFAULT_TASK_PRIORITY,
                    queue,
                    now_secs,
                    log_path_for_text(log_dir, picked.id),
                );
                Submitted {
                    state: self.add_task(task),
                    counters: SubmitCounters {
                        id_counter: picked.next_counter,
                        name_counter: if name is None {
                            counters.name_counter.wrapping_add(1)
                        } else {
                            counters.name_counter
                        },
                    },
                    reply: MessageView::Ack(
                        if script {
                            script_submitted_text(picked.id, task_name, command, queue)
                        } else {
                            command_submitted_text(picked.id, task_name, queue)
                        },
                    ),
                }
            },
        }
    }
}

impl Batch {
    /// The id that a batch entry gets: its own where that is free, else a
    /// new one, if any id is free.
    pub open spec fn entry_id(self, entry: TaskView, now_secs: u64) -> Option<PickedId> {
        if self.state.id_is_free(entry.id) {
            Some(PickedId { id: entry.id, next_counter: self.counters.id_counter })
        } else {
            self.state.pick_id(now_secs, self.counters.id_counter)
        }
    }

    /// The batch after `entry` was submitted. What the entry leaves empty
    /// is filled in: its queue with `default_queue`, its name with the next
    /// default name, its log path with that of its id, its creation time
    /// with `now_secs`. It starts Waiting, without process and without
    /// GPUs. An entry that finds every id taken is counted as failed.
    pub open spec fn submit_entry(
        self,
        entry: TaskView,
        default_queue: Seq<char>,
        now_secs: u64,
        log_dir: Seq<char>,
    ) -> Batch {
        match self.entry_id(entry, now_secs) {
            None => Batch { failed: self.failed + 1, ..self },
            Some(picked) => {
                let unnamed = entry.name.len() == 0;
                let task = submitted_task(
                    picked.id,
                    if unnamed {
                        default_task_name_text(self.counters.name_counter)
                    } else {
                        entry.name
                    },
                    entry.cmd,
                    entry.gpu_require,
                    entry.priority,
                    if entry.queue.len() == 0 {
                        default_queue
                    } else {
                        entry.queue
                    },
                    if entry.create_time == 0 {
                        now_secs
                    } else {
                        entry.create_time
                    },
                    if entry.log_path.len() == 0 {
                        log_path_for_text(log_dir, picked.id)
                    } else {
                        entry.log_path
                    },
                );
                Batch {
                    state: self.state.add_task(task),
                    counters: SubmitCounters {
                        id_counter: picked.next_counter,
                        name_counter: if unnamed {
                            self.counters.name_counter.wrapping_add(1)
                        } else {
                            self.counters.name_counter
                        },
                    },
                    submitted: self.submitted + 1,
                    failed: self.failed,
                }
            },
        }
    }

    /// The batch after the first `n` of `entries` were submitted.
    pub open spec fn submit_entries(
        self,
        entries: Seq<TaskView>,
        default_queue: Seq<char>,
        now_secs: u64,
        log_dir: Seq<char>,
        n: int,
    ) -> Batch
        decreases n,
    {
        if n <= 0 {
            self
        } else {
            self.submit_entries(entries, default_queue, now_secs, log_dir, n - 1).submit_entry(
                entries[n - 1],
                default_queue,
                now_secs,
                log_dir,
            )
        }
    }
}

impl StateView {
    /// The submission of a batch.
    pub open spec fn submit_batch(
        self,
        counters: SubmitCounters,
        now_secs: u64,
        log_dir: Seq<char>,
        entries: Seq<TaskView>,
        default_queue: Option<Seq<char>>,
    ) -> Submitted {
        let done = Batch { state: self, counters, submitted: 0, failed: 0 }.submit_entries(
            entries,
            match default_queue {
                Some(q) => q,
                None => DEFAULT_WAITING_QUEUE_NAME@,
            },
            now_secs,
            log_dir,
            entries.len() as int,
        );
        Submitted {
            state: done.state,
            counters: done.counters,
            reply: if done.failed == 0 {
                MessageView::Ack(batch_submitted_text(done.submitted as usize))
            } else {
                MessageView::Error(
                    batch_incomplete_text(done.failed as usize, done.submitted as usize),
                )
            },
        }
    }

    /// The outcome of a submission.
    pub open spec fn submit(
        self,
        counters: SubmitCounters,
        now_secs: u64,
        log_dir: Seq<char>,
        action: SubmitActionView,
    ) -> Submitted {
        match action {
            SubmitActionView::Command {
                command,
                gpu_num_required,
                queue_name,
                name,
            } => self.submit_one(
                counters,
                now_secs,
                log_dir,
                command,
                gpu_num_required,
                queue_name,
                name,
                false,
            ),
            SubmitActionView::Script {
                script_path,
                gpu_num_required,
                queue_name,
                name,
            } => self.submit_one(
                counters,
                now_secs,
                log_dir,
                script_path,
                gpu_num_required,
                queue_name,
                name,
                true,
            ),
            SubmitActionView::BatchJson { tasks, default_queue_name } => self.submit_batch(
                counters,
                now_secs,
                log_dir,
                tasks,
                default_queue_name,
            ),
        }
    }
}

/// Looks for the smallest free id from `from` on.
fn first_free_id(state: &DaemonState, from: u64) -> (found: Option<u64>)
    requires
        state.wf(),
    ensures
        found == state@.first_free_from(from),
{
    let mut at = from;
    while at < u64::MAX
        invariant
            state.wf(),
            state@.first_free_from(from) == state@.first_free_from(at),
        decreases u64::MAX - at,
    {
        if at != 0 && state.get_task(at).is_none() {
            return Some(at);
        }
        at += 1;
    }
    if at != 0 && state.get_task(at).is_none() {
        Some(at)
    } else {
        None
    }
}

/// Picks the id of a new task; returns it with the id counter that
/// follows.
fn pick_task_id(state: &DaemonState, now_secs: u64, last: u64) -> (picked: Option<(u64, u64)>)
    requires
        state.wf(),
    ensures
        match picked {
            Some(p) => state@.pick_id(now_secs, last) == Some(
                PickedId { id: p.0, next_counter: p.1 },
            ),
            None => state@.pick_id(now_secs, last) is None,
        },
{
    let found = match first_free_id(state, generate_task_id(now_secs, last)) {
        Some(id) => Some(id),
        None => first_free_id(state, 1),
    };
    match found {
        Some(id) => Some((id, id)),
        None => None,
    }
}

/// Submits one command or script.
fn submit_task(
    state: &mut DaemonState,
    counters: &mut SubmitCounters,
    context: &SubmitContext,
    command: String,
    gpu_require: u8,
    queue_name: Option<String>,
    name: Option<String>,
    script: bool,
) -> (reply: Message)
    requires
        old(state).wf(),
    ensures
        final(state).wf(),
        ({
            let want = old(state)@.submit_one(
                *old(counters),
                context.now_secs,
                context.log_dir@,
                command@,
                gpu_require,
                opt_chars(queue_name),
                opt_chars(name),
                script,
            );
            &&& final(state)@ == want.state
            &&& *final(counters) == want.counters
            &&& reply@ == want.reply
        }),
{
    let (id, next_counter) = match pick_task_id(state, context.now_secs, counters.id_counter) {
        Some(picked) => picked,
        None => {
            return Message::Error(no_free_id());
        },
    };
    let log_path = generate_log_path(context.log_dir.as_str(), id);
    let queue = match queue_name {
        Some(q) => q,
        None => String::from_str(DEFAULT_WAITING_QUEUE_NAME),
    };
    let task_name = match name {
        Some(n) => n,
        None => {
            let generated = generate_default_task_name(counters.name_counter);
            counters.name_counter = counters.name_counter.wrapping_add(1);
            generated
        },
    };
    counters.id_counter = next_counter;
    let text = if script {
        script_submitted(id, task_name.as_str(), command.as_str(), queue.as_str())
    } else {
        command_submitted(id, task_name.as_str(), queue.as_str())
    };
    state.add_task(
        TaskMeta {
            pid: None,
            id,
            name: task_name,
            cmd: command,
            gpu_require,
            state: TaskState::Waiting,
            log_path,
            priority: DEFAULT_TASK_PRIORITY,
            queue,
            create_time: context.now_secs,
            gpu_ids: Vec::new(),
            failure_reason: None,
        },
    );
    Message::Ack(text)
}

/// Submits one entry of a batch; returns whether it found an id.
fn submit_batch_entry(
    state: &mut DaemonState,
    counters: &mut SubmitCounters,
    context: &SubmitContext,
    entry: &TaskMeta,
    default_queue: &String,
    Ghost(before): Ghost<Batch>,
) -> (done: bool)
    requires
        old(state).wf(),
        before.state == old(state)@,
        before.counters == *old(counters),
    ensures
        final(state).wf(),
        ({
            let want = before.submit_entry(
                entry@,
                default_queue@,
                context.now_secs,
                context.log_dir@,
            );
            &&& final(state)@ == want.state
            &&& *final(counters) == want.counters
            &&& done == (want.failed == before.failed)
            &&& want.submitted == before.submitted + if done { 1nat } else { 0nat }
            &&& want.failed == before.failed + if done { 0nat } else { 1nat }
        }),
{
    let own_is_free = entry.id != 0 && state.get_task(entry.id).is_none();
    let (id, next_counter) = if own_is_free {
        (entry.id, counters.id_counter)
    } else {
        match pick_task_id(state, context.now_secs, counters.id_counter) {
            Some(picked) => picked,
            None => {
                return false;
            },
        }
    };
    let name = if entry.name.as_str().is_empty() {
        let generated = generate_default_task_name(counters.name_counter);
        counters.name_counter = counters.name_counter.wrapping_add(1);
        generated
    } else {
        entry.name.clone()
    };
    let queue = if entry.queue.as_str().is_empty() {
        default_queue.clone()
    } else {
        entry.queue.clone()
    };
    let log_path = if entry.log_path.as_str().is_empty() {
        generate_log_path(context.log_dir.as_str(), id)
    } else {
        entry.log_path.clone()
    };
    let create_time = if entry.create_time == 0 {
        context.now_secs
    } else {
        entry.create_time
    };
    counters.id_counter = next_counter;
    state.add_task(
        TaskMeta {
            pid: None,
            id,
            name,
            cmd: entry.cmd.clone(),
            gpu_require: entry.gpu_require,
            state: TaskState::Waiting,
            log_path,
            priority: entry.priority,
            queue,
            create_time,
            gpu_ids: Vec::new(),
            failure_reason: None,
        },
    );
    true
}

/// The number of tasks that a submission brings.
pub open spec fn tasks_in(action: SubmitActionView) -> nat {
    match action {
        SubmitActionView::BatchJson { tasks, default_queue_name } => tasks.len(),
        _ => 1,
    }
}

/// Handles a submission. `counters` are the counters of the process and
/// are advanced; `context` brings the time and the log directory. Every
/// task of the submission is stored, each under an id that is not zero and
/// that no task holds, unless the store is left without such an id.
pub fn handle_submit_command(
    action: SubmitAction,
    state: &mut DaemonState,
    counters: &mut SubmitCounters,
    context: &SubmitContext,
) -> (reply: Message)
    requires
        old(state).wf(),
    ensures
        final(state).wf(),
        ({
            let want = old(state)@.submit(
                *old(counters),
                context.now_secs,
                context.log_dir@,
                action@,
            );
            &&& final(state)@ == want.state
            &&& *final(counters) == want.counters
            &&& reply@ == want.reply
        }),
        old(state)@.coherent() ==> final(state)@.coherent(),
        old(state)@.has_ids_for(tasks_in(action@)) ==> reply@ is Ack && final(state)@.tasks.len()
            == old(state)@.tasks.len() + tasks_in(action@),
        reply@ is Error && !(action@ is BatchJson) ==> forall|id: u64|
            id != 0 ==> #[trigger] old(state)@.has_task(id),
        old(state)@.tidy() ==> final(state)@.tidy(),
{
    proof {
        crate::laws::lemma_picked_is_free(old(state)@, context.now_secs, old(counters).id_counter);
        if !(action@ is BatchJson) && old(state)@.submit(
            *old(counters),
            context.now_secs,
            context.log_dir@,
            action@,
        ).reply is Error {
            assert forall|id: u64| id != 0 implies #[trigger] old(state)@.has_task(id) by {
                assert(!old(state)@.id_is_free(id));
            }
        }
        if old(state)@.tidy() {
            crate::ended::law_submit_keeps_tidy(
                old(state)@,
                *old(counters),
                context.now_secs,
                context.log_dir@,
                action@,
            );
        }
        if old(state)@.has_ids_for(tasks_in(action@)) {
            crate::laws::law_submit_is_accepted(
                old(state)@,
                *old(counters),
                context.now_secs,
                context.log_dir@,
                action@,
            );
        }
        if old(state)@.coherent() {
            crate::laws::law_submit_keeps_coherence(
                old(state)@,
                *old(counters),
                context.now_secs,
                context.log_dir@,
                action@,
            );
        }
    }
    match action {
        SubmitAction::Command { command, gpu_num_required, queue_name, name } => submit_task(
            state,
            counters,
            context,
            command,
            gpu_num_required,
            queue_name,
            name,
            false,
        ),
        SubmitAction::Script { script_path, gpu_num_required, queue_name, name } => submit_task(
            state,
            counters,
            context,
            script_path,
            gpu_num_required,
            queue_name,
            name,
            true,
        ),
        SubmitAction::BatchJson { tasks, default_queue_name } => {
            let default_queue = match default_queue_name {
                Some(q) => q,
                None => String::from_str(DEFAULT_WAITING_QUEUE_NAME),
            };
            let ghost start = Batch {
                state: old(state)@,
                counters: *old(counters),
                submitted: 0,
                failed: 0,
            };
            let mut submitted: usize = 0;
            let mut failed: usize = 0;
            let mut k: usize = 0;
            while k < tasks.len()
                invariant
                    state.wf(),
                    k <= tasks.len(),
                    submitted + failed == k,
                    ({
                        let reached = start.submit_entries(
                            tasks.deep_view(),
                            default_queue@,
                            context.now_secs,
                            context.log_dir@,
                            k as int,
                        );
                        &&& state@ == reached.state
                        &&& *counters == reached.counters
                        &&& submitted == reached.submitted
                        &&& failed == reached.failed
                    }),
                decreases tasks.len() - k,
            {
                let ghost reached = start.submit_entries(
                    tasks.deep_view(),
                    default_queue@,
                    context.now_secs,
                    context.log_dir@,
                    k as int,
                );
                assert(tasks.deep_view()[k as int] == tasks@[k as int]@);
                if submit_batch_entry(
                    state,
                    counters,
                    context,
                    &tasks[k],
                    &default_queue,
                    Ghost(reached),
                ) {
                    submitted += 1;
                } else {
                    failed += 1;
                }
                k += 1;
            }
            assert(tasks.deep_view().len() == tasks.len());
            if failed == 0 {
                Message::Ack(batch_submitted(submitted))
            } else {
                Message::Error(batch_incomplete(failed, submitted))
            }
        },
    }
}

} // verus!

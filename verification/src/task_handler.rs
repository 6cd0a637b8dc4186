//! Requests on tasks: listing, release from the parking queue, removal, and
//! the decisions that precede a kill and a look at a log.

use crate::message::{
    Message, MessageView, TaskAction, TaskActionView, TaskFilter, TaskFilterView,
};
use crate::models::{
    TaskMeta, TaskState, TaskView, DEFAULT_RUNNING_QUEUE_NAME, DEFAULT_WAITING_QUEUE_NAME,
};
use crate::replies::{
    kill_failed, kill_failed_text, kill_sent, kill_sent_text, log_missing, log_missing_text,
    no_tasks, no_tasks_text, task_not_found, task_not_found_text, task_not_parked,
    task_not_parked_text, task_not_released, task_not_released_text, task_not_running,
    task_not_running_text, task_released, task_released_text, task_removed, task_removed_text,
    task_still_running, task_still_running_text, task_without_pid, task_without_pid_text,
};
use crate::state::DaemonState;
use crate::store::StateView;
use crate::text::string_is;
use vstd::prelude::*;

verus! {

/// Number of lines that the tail of a log shows.
pub const TAIL_LINES: usize = 10;

/// What is to happen next for a request on a task: the reply is ready, or
/// something outside the state has to be done first.
#[derive(Debug, PartialEq, Eq)]
pub enum TaskStep {
    /// The request is answered.
    Reply(Message),
    /// Send the termination signal to process `pid`, then answer with
    /// [`finish_task_kill`].
    SendTerm { task_id: u64, pid: i32 },
    /// Read the lines of the file `log_path`, then answer with
    /// [`finish_task_logs`].
    ReadLog { task_id: u64, log_path: String, tail: bool },
}

/// Mathematical value of a [`TaskStep`].
pub enum TaskStepView {
    Reply(MessageView),
    SendTerm { task_id: u64, pid: i32 },
    ReadLog { task_id: u64, log_path: Seq<char>, tail: bool },
}

impl View for TaskStep {
    type V = TaskStepView;

    open spec fn view(&self) -> TaskStepView {
        match self {
            TaskStep::Reply(message) => TaskStepView::Reply(message@),
            TaskStep::SendTerm { task_id, pid } => TaskStepView::SendTerm {
                task_id: *task_id,
                pid: *pid,
            },
            TaskStep::ReadLog { task_id, log_path, tail } => TaskStepView::ReadLog {
                task_id: *task_id,
                log_path: log_path@,
                tail: *tail,
            },
        }
    }
}

/// Whether a listing under `filter` shows `task`. A filter by user shows
/// every task.
pub open spec fn shows(filter: TaskFilterView, task: TaskView) -> bool {
    match filter {
        TaskFilterView::All => true,
        TaskFilterView::Running => task.state is Running,
        TaskFilterView::Finished => task.state is Finished,
        TaskFilterView::ByQueue(name) => task.queue == name,
        TaskFilterView::ByUser(_) => true,
    }
}

/// `lines` with a line feed between each two.
pub open spec fn lines_joined(lines: Seq<Seq<char>>) -> Seq<char>
    decreases lines.len(),
{
    if lines.len() == 0 {
        Seq::empty()
    } else if lines.len() == 1 {
        lines[0]
    } else {
        lines_joined(lines.drop_last()) + seq!['\n'] + lines.last()
    }
}

/// The part of a log that is shown: all of it, or its last
/// [`TAIL_LINES`] lines where only the tail is asked for.
pub open spec fn log_excerpt(lines: Seq<Seq<char>>, tail: bool) -> Seq<Seq<char>> {
    if tail && lines.len() > TAIL_LINES {
        lines.skip(lines.len() - TAIL_LINES)
    } else {
        lines
    }
}

/// The reply to a kill once the signal was sent or sending it failed with
/// `error`.
pub open spec fn kill_reply(task_id: u64, pid: i32, error: Option<Seq<char>>) -> MessageView {
    match error {
        None => MessageView::Ack(kill_sent_text(task_id, pid)),
        Some(e) => MessageView::Error(kill_failed_text(task_id, pid, e)),
    }
}

/// The reply to a look at a log once its lines were read; `None` stands
/// for a file that does not exist.
pub open spec fn logs_reply(task_id: u64, lines: Option<Seq<Seq<char>>>, tail: bool) -> MessageView {
    match lines {
        None => MessageView::Error(log_missing_text(task_id)),
        Some(l) => MessageView::Ack(lines_joined(log_excerpt(l, tail))),
    }
}

impl StateView {
    /// The first `n` tasks that a listing under `filter` shows.
    pub open spec fn listed(self, filter: TaskFilterView, n: int) -> Seq<TaskView>
        decreases n,
    {
        if n <= 0 {
            Seq::empty()
        } else {
            let earlier = self.listed(filter, n - 1);
            if shows(filter, self.tasks[n - 1]) {
                earlier.push(self.tasks[n - 1])
            } else {
                earlier
            }
        }
    }

    /// The reply to a listing: the tasks shown, or a note that there are
    /// none.
    pub open spec fn task_list(self, filter: TaskFilterView) -> MessageView {
        let shown = self.listed(filter, self.tasks.len() as int);
        if shown.len() == 0 {
            MessageView::Ack(no_tasks_text())
        } else {
            MessageView::TaskStatus(shown)
        }
    }

    /// The reply to a request for one task.
    pub open spec fn task_info(self, id: u64) -> MessageView {
        if self.has_task(id) {
            MessageView::TaskStatus(seq![self.task(id)])
        } else {
            MessageView::Error(task_not_found_text(id))
        }
    }

    /// Whether task `id` can be released: it exists and is in the parking
    /// queue.
    pub open spec fn can_release(self, id: u64) -> bool {
        self.has_task(id) && self.task(id).queue == DEFAULT_WAITING_QUEUE_NAME@
    }

    /// The reply to a release.
    pub open spec fn task_run_reply(self, id: u64) -> MessageView {
        if !self.has_task(id) {
            MessageView::Error(task_not_found_text(id))
        } else if !self.can_release(id) {
            MessageView::Error(task_not_parked_text(id, self.task(id).queue))
        } else if !self.has_queue(DEFAULT_RUNNING_QUEUE_NAME@) {
            MessageView::Error(task_not_released_text(id))
        } else {
            MessageView::Ack(task_released_text(id))
        }
    }

    /// The state after a release: a task that can be released moves to the
    /// queue from which tasks are placed and stays as it is otherwise.
    pub open spec fn task_run_state(self, id: u64) -> StateView {
        if self.can_release(id) {
            self.update_task_queue(id, DEFAULT_RUNNING_QUEUE_NAME@)
        } else {
            self
        }
    }

    /// What a kill leads to: the signal for a running task with a process
    /// id, and a refusal otherwise.
    pub open spec fn task_kill(self, id: u64) -> TaskStepView {
        if !self.has_task(id) {
            TaskStepView::Reply(MessageView::Error(task_not_found_text(id)))
        } else if !(self.task(id).state is Running) {
            TaskStepView::Reply(MessageView::Error(task_not_running_text(id)))
        } else {
            match self.task(id).pid {
                Some(pid) => TaskStepView::SendTerm { task_id: id, pid },
                None => TaskStepView::Reply(MessageView::Error(task_without_pid_text(id))),
            }
        }
    }

    /// Whether task `id` can be removed: it exists and is not running.
    pub open spec fn can_remove(self, id: u64) -> bool {
        self.has_task(id) && !(self.task(id).state is Running)
    }

    /// The reply to a removal.
    pub open spec fn task_remove_reply(self, id: u64) -> MessageView {
        if !self.has_task(id) {
            MessageView::Error(task_not_found_text(id))
        } else if !self.can_remove(id) {
            MessageView::Error(task_still_running_text(id))
        } else {
            MessageView::Ack(task_removed_text(id))
        }
    }

    /// The state after a removal.
    pub open spec fn task_remove_state(self, id: u64) -> StateView {
        if self.can_remove(id) {
            self.remove_task(id)
        } else {
            self
        }
    }

    /// What a look at a log leads to.
    pub open spec fn task_logs(self, id: u64, tail: bool) -> TaskStepView {
        if self.has_task(id) {
            TaskStepView::ReadLog { task_id: id, log_path: self.task(id).log_path, tail }
        } else {
            TaskStepView::Reply(MessageView::Error(task_not_found_text(id)))
        }
    }

    /// What a request on a task leads to.
    pub open spec fn task_step(self, action: TaskActionView) -> TaskStepView {
        match action {
            TaskActionView::List { filter } => TaskStepView::Reply(self.task_list(filter)),
            TaskActionView::Info { task_id } => TaskStepView::Reply(self.task_info(task_id)),
            TaskActionView::Run { task_id } => TaskStepView::Reply(self.task_run_reply(task_id)),
            TaskActionView::Kill { task_id } => self.task_kill(task_id),
            TaskActionView::Remove { task_id } => TaskStepView::Reply(
                self.task_remove_reply(task_id),
            ),
            TaskActionView::Logs { task_id, tail } => self.task_logs(task_id, tail),
        }
    }

    /// The state after a request on a task: only a release and a removal
    /// change it.
    pub open spec fn after_task_command(self, action: TaskActionView) -> StateView {
        match action {
            TaskActionView::Run { task_id } => self.task_run_state(task_id),
            TaskActionView::Remove { task_id } => self.task_remove_state(task_id),
            _ => self,
        }
    }
}

/// Whether a listing under `filter` shows `task`.
fn filter_shows(filter: &TaskFilter, task: &TaskMeta) -> (shown: bool)
    ensures
        shown == shows(filter@, task@),
{
    match filter {
        TaskFilter::All => true,
        TaskFilter::Running => task.state == TaskState::Running,
        TaskFilter::Finished => task.state == TaskState::Finished,
        TaskFilter::ByQueue(name) => task.queue == *name,
        TaskFilter::ByUser(_) => true,
    }
}

/// Lists the tasks that `filter` shows, oldest first.
fn handle_task_list(filter: &TaskFilter, state: &DaemonState) -> (reply: Message)
    requires
        state.wf(),
    ensures
        reply@ == state@.task_list(filter@),
{
    let tasks = state.get_all_tasks();
    let mut shown: Vec<TaskMeta> = Vec::new();
    let mut k: usize = 0;
    assert(shown.deep_view() =~= Seq::<TaskView>::empty());
    while k < tasks.len()
        invariant
            k <= tasks.len(),
            tasks.deep_view() == state@.tasks,
            shown.deep_view() == state@.listed(filter@, k as int),
        decreases tasks.len() - k,
    {
        let ghost so_far = shown.deep_view();
        assert(tasks.deep_view()[k as int] == tasks@[k as int]@);
        if filter_shows(filter, &tasks[k]) {
            shown.push(tasks[k].clone());
            assert(shown.deep_view() =~= so_far.push(tasks@[k as int]@));
        }
        k += 1;
    }
    assert(tasks.deep_view().len() == tasks.len());
    if shown.len() == 0 {
        Message::Ack(no_tasks())
    } else {
        Message::TaskStatus(shown)
    }
}

/// Shows one task.
fn handle_task_info(task_id: u64, state: &DaemonState) -> (reply: Message)
    requires
        state.wf(),
    ensures
        reply@ == state@.task_info(task_id),
{
    match state.get_task(task_id) {
        Some(task) => {
            let mut shown: Vec<TaskMeta> = Vec::new();
            shown.push(task);
            assert(shown.deep_view() =~= seq![state@.task(task_id)]);
            Message::TaskStatus(shown)
        },
        None => Message::Error(task_not_found(task_id)),
    }
}

/// Releases a task from the parking queue to the queue from which tasks
/// are placed. The task stays Waiting; a task in any other queue is
/// refused.
fn handle_task_run(task_id: u64, state: &mut DaemonState) -> (reply: Message)
    requires
        old(state).wf(),
    ensures
        final(state).wf(),
        final(state)@ == old(state)@.task_run_state(task_id),
        reply@ == old(state)@.task_run_reply(task_id),
{
    let task = match state.get_task(task_id) {
        Some(task) => task,
        None => {
            return Message::Error(task_not_found(task_id));
        },
    };
    if !string_is(&task.queue, DEFAULT_WAITING_QUEUE_NAME) {
        return Message::Error(task_not_parked(task_id, task.queue.as_str()));
    }
    match state.update_task_queue(task_id, String::from_str(DEFAULT_RUNNING_QUEUE_NAME)) {
        Ok(_) => Message::Ack(task_released(task_id)),
        Err(_) => Message::Error(task_not_released(task_id)),
    }
}

/// Decides a kill: a running task with a process id gets the termination
/// signal, which the caller sends; the state is not touched, since the end
/// of the child is recorded when it is observed.
pub fn handle_task_kill(task_id: u64, state: &DaemonState) -> (step: TaskStep)
    requires
        state.wf(),
    ensures
        step@ == state@.task_kill(task_id),
{
    let task = match state.get_task(task_id) {
        Some(task) => task,
        None => {
            return TaskStep::Reply(Message::Error(task_not_found(task_id)));
        },
    };
    if task.state != TaskState::Running {
        return TaskStep::Reply(Message::Error(task_not_running(task_id)));
    }
    match task.pid {
        Some(pid) => TaskStep::SendTerm { task_id, pid },
        None => TaskStep::Reply(Message::Error(task_without_pid(task_id))),
    }
}

/// Removes a task that is not running.
fn handle_task_remove(task_id: u64, state: &mut DaemonState) -> (reply: Message)
    requires
        old(state).wf(),
    ensures
        final(state).wf(),
        final(state)@ == old(state)@.task_remove_state(task_id),
        reply@ == old(state)@.task_remove_reply(task_id),
{
    let task = match state.get_task(task_id) {
        Some(task) => task,
        None => {
            return Message::Error(task_not_found(task_id));
        },
    };
    if task.state == TaskState::Running {
        return Message::Error(task_still_running(task_id));
    }
    let _ = state.remove_task(task_id);
    Message::Ack(task_removed(task_id))
}

/// Decides a look at a log: the caller reads the file of an existing task.
fn handle_task_logs(task_id: u64, tail: bool, state: &DaemonState) -> (step: TaskStep)
    requires
        state.wf(),
    ensures
        step@ == state@.task_logs(task_id, tail),
{
    match state.get_task(task_id) {
        Some(task) => TaskStep::ReadLog { task_id, log_path: task.log_path, tail },
        None => TaskStep::Reply(Message::Error(task_not_found(task_id))),
    }
}

/// Handles a request on a task.
pub fn handle_task_command(action: TaskAction, state: &mut DaemonState) -> (step: TaskStep)
    requires
        old(state).wf(),
    ensures
        final(state).wf(),
        final(state)@ == old(state)@.after_task_command(action@),
        step@ == old(state)@.task_step(action@),
        old(state)@.coherent() && old(state)@.task_command_moves_waiting(action@)
            ==> final(state)@.coherent(),
{
    proof {
        if old(state)@.coherent() && old(state)@.task_command_moves_waiting(action@) {
            crate::laws::law_task_command_keeps_coherence(old(state)@, action@);
        }
    }
    match action {
        TaskAction::List { filter } => TaskStep::Reply(handle_task_list(&filter, state)),
        TaskAction::Info { task_id } => TaskStep::Reply(handle_task_info(task_id, state)),
        TaskAction::Run { task_id } => TaskStep::Reply(handle_task_run(task_id, state)),
        TaskAction::Kill { task_id } => handle_task_kill(task_id, state),
        TaskAction::Remove { task_id } => TaskStep::Reply(handle_task_remove(task_id, state)),
        TaskAction::Logs { task_id, tail } => handle_task_logs(task_id, tail, state),
    }
}

/// Answers a kill after the signal was sent (`error` is `None`) or sending
/// it failed.
pub fn finish_task_kill(task_id: u64, pid: i32, error: Option<String>) -> (reply: Message)
    ensures
        reply@ == kill_reply(task_id, pid, crate::models::opt_chars(error)),
{
    match error {
        None => Message::Ack(kill_sent(task_id, pid)),
        Some(e) => Message::Error(kill_failed(task_id, pid, e.as_str())),
    }
}

/// Joins `lines[from..]` with line feeds.
fn join_lines(lines: &Vec<String>, from: usize) -> (text: String)
    requires
        from <= lines.len(),
    ensures
        text@ == lines_joined(lines.deep_view().skip(from as int)),
{
    let ghost shown = lines.deep_view().skip(from as int);
    let mut text = String::new();
    let mut k: usize = from;
    assert(shown.take(0) =~= Seq::<Seq<char>>::empty());
    while k < lines.len()
        invariant
            from <= k <= lines.len(),
            shown == lines.deep_view().skip(from as int),
            text@ == lines_joined(shown.take(k - from)),
        decreases lines.len() - k,
    {
        if k > from {
            text.append("\n");
        }
        text.append(lines[k].as_str());
        proof {
            reveal_strlit("\n");
            assert("\n"@ =~= seq!['\n']);
            let next = shown.take(k - from + 1);
            assert(next.drop_last() =~= shown.take(k - from));
            assert(next.last() == lines@[k as int]@);
            if k > from {
                assert(next.len() > 1);
            } else {
                assert(next[0] == lines@[k as int]@);
            }
            assert(text@ =~= lines_joined(next));
        }
        k += 1;
    }
    assert(shown.take(k - from) =~= shown);
    text
}

/// Answers a look at a log after its file was read: `lines` holds the
/// lines of the file, or `None` where the file does not exist.
pub fn finish_task_logs(task_id: u64, lines: Option<Vec<String>>, tail: bool) -> (reply: Message)
    ensures
        reply@ == logs_reply(task_id, crate::models::opt_texts(lines), tail),
{
    match lines {
        None => Message::Error(log_missing(task_id)),
        Some(l) => {
            let from = if tail && l.len() > TAIL_LINES {
                l.len() - TAIL_LINES
            } else {
                0
            };
            assert(l.deep_view().skip(0) =~= l.deep_view());
            Message::Ack(join_lines(&l, from))
        },
    }
}

} // verus!

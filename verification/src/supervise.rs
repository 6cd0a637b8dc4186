//! Supervision of child processes, as far as it is decided rather than
//! done: what to run for a placed task, and what the end of a child means
//! for its task.

use crate::models::{opt_texts, TaskMeta, TaskState, TaskView};
use crate::state::DaemonState;
use crate::store::StateView;
use crate::text::{comma_joined, join_with_commas};
use vstd::prelude::*;

verus! {

/// The words into which a POSIX shell splits `cmd`, or `None` where `cmd`
/// ends inside a quotation or behind a lone backslash.
pub uninterp spec fn shell_words(cmd: Seq<char>) -> Option<Seq<Seq<char>>>;

/// Calls `shlex::split`, which splits a string into words by the quoting
/// rules of the POSIX shell and reports an unfinished quotation or escape
/// with `None`. Its result depends on the string alone; the contract gives
/// it the name `shell_words` and says nothing else about it.
#[verifier::external_body]
fn split_command(cmd: &str) -> (words: Option<Vec<String>>)
    ensures
        opt_texts(words) == shell_words(cmd@),
{
    shlex::split(cmd)
}

/// What to hand to the operating system to start a task.
#[derive(Debug, PartialEq, Eq)]
pub struct LaunchPlan {
    /// The program to run.
    pub program: String,
    /// Its arguments.
    pub args: Vec<String>,
    /// Value for the variable `CUDA_VISIBLE_DEVICES`; `None` leaves the
    /// variable unset.
    pub cuda_visible_devices: Option<String>,
    /// File that receives the child's standard output and standard error.
    pub log_path: String,
}

/// Mathematical value of a [`LaunchPlan`].
pub struct LaunchPlanView {
    pub program: Seq<char>,
    pub args: Seq<Seq<char>>,
    pub cuda_visible_devices: Option<Seq<char>>,
    pub log_path: Seq<char>,
}

impl View for LaunchPlan {
    type V = LaunchPlanView;

    open spec fn view(&self) -> LaunchPlanView {
        LaunchPlanView {
            program: self.program@,
            args: self.args.deep_view(),
            cuda_visible_devices: crate::models::opt_chars(self.cuda_visible_devices),
            log_path: self.log_path@,
        }
    }
}

/// Why a task cannot be started.
#[derive(Clone, Copy, Debug, PartialEq, Eq, Structural)]
pub enum LaunchError {
    /// The command does not split into words, or into none.
    BadCommand,
}

/// The launch plan of `task` when its command splits into `words`: the
/// first word is the program and the rest are its arguments, and the
/// assigned GPUs, if any, are named to the child by their comma-separated
/// indices. There is no plan where the split failed or gave no word.
pub open spec fn launch_plan(task: TaskView, words: Option<Seq<Seq<char>>>) -> Option<
    LaunchPlanView,
> {
    match words {
        Some(w) => if w.len() == 0 {
            None
        } else {
            Some(
                LaunchPlanView {
                    program: w[0],
                    args: w.skip(1),
                    cuda_visible_devices: if task.gpu_ids.len() == 0 {
                        None
                    } else {
                        Some(comma_joined(task.gpu_ids))
                    },
                    log_path: task.log_path,
                },
            )
        },
        None => None,
    }
}

/// Builds the launch plan of `task` from the words of its command.
pub fn plan_launch(task: &TaskMeta, words: Option<Vec<String>>) -> (plan: Result<
    LaunchPlan,
    LaunchError,
>)
    ensures
        match launch_plan(task@, opt_texts(words)) {
            Some(p) => plan is Ok && plan->Ok_0@ == p,
            None => plan == Err::<LaunchPlan, LaunchError>(LaunchError::BadCommand),
        },
{
    let mut args = match words {
        Some(w) => w,
        None => {
            return Err(LaunchError::BadCommand);
        },
    };
    if args.len() == 0 {
        return Err(LaunchError::BadCommand);
    }
    let ghost all = args.deep_view();
    let program = args.remove(0);
    assert(args.deep_view() =~= all.skip(1));
    assert(program@ == all[0]);
    let cuda_visible_devices = if task.gpu_ids.len() == 0 {
        None
    } else {
        Some(join_with_commas(&task.gpu_ids))
    };
    Ok(LaunchPlan { program, args, cuda_visible_devices, log_path: task.log_path.clone() })
}

/// Splits the command of `task` by shell rules and builds its launch plan.
pub fn launch_task_process(task: &TaskMeta) -> (plan: Result<LaunchPlan, LaunchError>)
    ensures
        match launch_plan(task@, shell_words(task@.cmd)) {
            Some(p) => plan is Ok && plan->Ok_0@ == p,
            None => plan == Err::<LaunchPlan, LaunchError>(LaunchError::BadCommand),
        },
{
    let words = split_command(task.cmd.as_str());
    plan_launch(task, words)
}

/// How a child process ended.
#[derive(Debug, PartialEq, Eq)]
pub enum ChildExit {
    /// It exited with success.
    Succeeded,
    /// It exited otherwise; the text describes the exit status.
    Failed(String),
    /// Waiting for it failed; the text is the error.
    WaitFailed(String),
}

/// Mathematical value of a [`ChildExit`].
pub enum ChildExitView {
    Succeeded,
    Failed(Seq<char>),
    WaitFailed(Seq<char>),
}

impl View for ChildExit {
    type V = ChildExitView;

    open spec fn view(&self) -> ChildExitView {
        match self {
            ChildExit::Succeeded => ChildExitView::Succeeded,
            ChildExit::Failed(status) => ChildExitView::Failed(status@),
            ChildExit::WaitFailed(error) => ChildExitView::WaitFailed(error@),
        }
    }
}

impl ChildExitView {
    /// The state in which the task ends.
    pub open spec fn final_state(self) -> TaskState {
        match self {
            ChildExitView::Succeeded => TaskState::Finished,
            _ => TaskState::Failed,
        }
    }

    /// The failure reason that the task gets.
    pub open spec fn reason(self) -> Option<Seq<char>> {
        match self {
            ChildExitView::Succeeded => None,
            ChildExitView::Failed(status) => Some("Process exited with status: "@ + status),
            ChildExitView::WaitFailed(error) => Some(error),
        }
    }
}

impl StateView {
    /// The state after the child of task `id` ended: the task is Finished
    /// or Failed with the reason, and no longer has a process id.
    pub open spec fn after_exit(self, id: u64, exit: ChildExitView) -> StateView {
        self.update_task_state(id, exit.final_state(), None, exit.reason()).set_task_pid(id, None)
    }

    /// The state after starting task `id` failed for `reason`.
    pub open spec fn after_launch_failure(self, id: u64, reason: Seq<char>) -> StateView {
        self.update_task_state(id, TaskState::Failed, None, Some(reason))
    }
}

/// Records that the child of task `id` ended.
pub fn record_child_exit(state: &mut DaemonState, id: u64, exit: ChildExit)
    requires
        old(state).wf(),
    ensures
        final(state).wf(),
        final(state)@ == old(state)@.after_exit(id, exit@),
        old(state)@.coherent() ==> final(state)@.coherent(),
        old(state)@.tidy() ==> final(state)@.tidy(),
        old(state)@.tasks_have_queues() ==> final(state)@.tasks_have_queues(),
        old(state)@.running_gpus_sound() ==> final(state)@.running_gpus_sound(),
        old(state)@.running_gpus_exclusive() ==> final(state)@.running_gpus_exclusive(),
{
    proof {
        if old(state)@.tasks_have_queues() {
            crate::housing::law_events_keep_tasks_in_queues(old(state)@);
        }
        if old(state)@.tidy() {
            crate::ended::law_events_keep_tidy(old(state)@);
        }
        if old(state)@.coherent() {
            crate::laws::law_endings_keep_coherence(old(state)@);
            assert(old(state)@.after_exit(id, exit@).coherent());
        }
        crate::gpu_order::law_events_are_calm(old(state)@);
        crate::gpu_order::law_calm_keeps_gpus_in_order(
            old(state)@,
            old(state)@.after_exit(id, exit@),
        );
    }
    match exit {
        ChildExit::Succeeded => {
            let _ = state.update_task_state(id, TaskState::Finished, None, None);
        },
        ChildExit::Failed(status) => {
            let mut reason = String::from_str("Process exited with status: ");
            reason.append(status.as_str());
            let _ = state.update_task_state(id, TaskState::Failed, None, Some(reason));
        },
        ChildExit::WaitFailed(error) => {
            let _ = state.update_task_state(id, TaskState::Failed, None, Some(error));
        },
    }
    let _ = state.set_task_pid(id, None);
}

/// Records that task `id` could not be started.
pub fn record_launch_failure(state: &mut DaemonState, id: u64, reason: String)
    requires
        old(state).wf(),
    ensures
        final(state).wf(),
        final(state)@ == old(state)@.after_launch_failure(id, reason@),
        old(state)@.coherent() ==> final(state)@.coherent(),
        old(state)@.tidy() ==> final(state)@.tidy(),
        old(state)@.tasks_have_queues() ==> final(state)@.tasks_have_queues(),
        old(state)@.running_gpus_sound() ==> final(state)@.running_gpus_sound(),
        old(state)@.running_gpus_exclusive() ==> final(state)@.running_gpus_exclusive(),
{
    proof {
        if old(state)@.tasks_have_queues() {
            crate::housing::law_events_keep_tasks_in_queues(old(state)@);
        }
        if old(state)@.tidy() {
            crate::ended::law_events_keep_tidy(old(state)@);
        }
        if old(state)@.coherent() {
            crate::laws::law_endings_keep_coherence(old(state)@);
            assert(old(state)@.after_launch_failure(id, reason@).coherent());
        }
        crate::gpu_order::law_events_are_calm(old(state)@);
        crate::gpu_order::law_calm_keeps_gpus_in_order(
            old(state)@,
            old(state)@.after_launch_failure(id, reason@),
        );
    }
    let _ = state.update_task_state(id, TaskState::Failed, None, Some(reason));
}

} // verus!

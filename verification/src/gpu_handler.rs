//! Requests on GPUs: telemetry listings, ownership, and the ignore set.

use crate::idlist::contains_gpu;
use crate::message::{GPUAction, GPUActionView, Message, MessageView};
use crate::models::TaskState;
use crate::monitor::GpuStats;
use crate::replies::{
    gpu_ignored, gpu_ignored_text, gpu_not_found, gpu_not_found_text, gpu_owned, gpu_owned_text,
    gpu_released, gpu_released_text, gpus_allocated, gpus_allocated_text, gpus_refused,
    gpus_refused_text, gpus_unignored, gpus_unignored_text, no_gpu_ids, no_gpu_ids_text, no_gpus,
    no_gpus_text, none_ignored, none_ignored_text, queue_missing, queue_missing_text,
};
use crate::state::DaemonState;
use crate::store::StateView;
use crate::table::{ascending, ascending_listing, lemma_ascending};
use vstd::prelude::*;

verus! {

/// The answer to a request on GPUs, with the processes that are to get the
/// termination signal on its account.
#[derive(Debug, PartialEq, Eq)]
pub struct GpuOutcome {
    pub reply: Message,
    /// Process ids to send the termination signal to, in task order.
    pub terminate: Vec<i32>,
}

/// Mathematical value of a [`GpuOutcome`].
pub struct GpuOutcomeView {
    pub reply: MessageView,
    pub terminate: Seq<i32>,
}

impl View for GpuOutcome {
    type V = GpuOutcomeView;

    open spec fn view(&self) -> GpuOutcomeView {
        GpuOutcomeView { reply: self.reply@, terminate: self.terminate@ }
    }
}

/// How far an allocation has come: the state, the GPUs that now belong to
/// the queue, and the GPUs that were refused.
pub struct Granting {
    pub state: StateView,
    pub granted: Seq<u8>,
    pub refused: Seq<u8>,
}

impl StateView {
    /// The telemetry of every GPU that has any, by ascending GPU index.
    pub open spec fn all_gpu_stats(self) -> Seq<GpuStats> {
        ascending(self.gpu_stats.dom()).map_values(|gpu: u32| self.gpu_stats[gpu])
    }

    /// The reply to a listing of all GPUs.
    pub open spec fn gpu_list(self) -> MessageView {
        if self.all_gpu_stats().len() == 0 {
            MessageView::Ack(no_gpus_text())
        } else {
            MessageView::GPUStatus(self.all_gpu_stats())
        }
    }

    /// The reply to a request for one GPU, or for all where none is named.
    pub open spec fn gpu_info(self, gpu: Option<u8>) -> MessageView {
        match gpu {
            Some(g) => if self.gpu_stats.contains_key(g as u32) {
                MessageView::GPUStatus(seq![self.gpu_stats[g as u32]])
            } else {
                MessageView::Error(gpu_not_found_text(g))
            },
            None => self.gpu_list(),
        }
    }

    /// Whether GPU `gpu` may be given to queue `queue`: it is not ignored
    /// and no other queue owns it.
    pub open spec fn grantable(self, gpu: u8, queue: Seq<char>) -> bool {
        &&& !self.ignored_gpus.contains(gpu as u32)
        &&& (self.gpu_free(gpu as u32) || self.gpu_owned_by(queue, gpu as u32))
    }

    /// The state after GPU `gpu` was given to queue `queue`, which changes
    /// nothing where the queue owns it already.
    pub open spec fn grant(self, gpu: u8, queue: Seq<char>) -> StateView {
        if self.gpu_owned_by(queue, gpu as u32) {
            self
        } else {
            self.set_gpu_allocation(gpu as u32, Some(queue)).grant_gpu(queue, gpu)
        }
    }

    /// The allocation of the first `n` of `gpus` to `queue`.
    pub open spec fn granting(self, gpus: Seq<u8>, queue: Seq<char>, n: int) -> Granting
        decreases n,
    {
        if n <= 0 {
            Granting { state: self, granted: Seq::empty(), refused: Seq::empty() }
        } else {
            let earlier = self.granting(gpus, queue, n - 1);
            let gpu = gpus[n - 1];
            if earlier.state.grantable(gpu, queue) {
                Granting {
                    state: earlier.state.grant(gpu, queue),
                    granted: earlier.granted.push(gpu),
                    ..earlier
                }
            } else {
                Granting { refused: earlier.refused.push(gpu), ..earlier }
            }
        }
    }

    /// Whether an allocation is carried out at all: it names a GPU and an
    /// existing queue.
    pub open spec fn can_allocate(self, gpus: Seq<u8>, queue: Seq<char>) -> bool {
        gpus.len() > 0 && self.has_queue(queue)
    }

    /// The reply to an allocation: an acknowledgement where every GPU was
    /// given, an error that names the refused ones otherwise.
    pub open spec fn gpu_allocate_reply(self, gpus: Seq<u8>, queue: Seq<char>) -> MessageView {
        let done = self.granting(gpus, queue, gpus.len() as int);
        if gpus.len() == 0 {
            MessageView::Error(no_gpu_ids_text())
        } else if !self.has_queue(queue) {
            MessageView::Error(queue_missing_text(queue))
        } else if done.refused.len() == 0 {
            MessageView::Ack(gpus_allocated_text(done.granted, queue))
        } else {
            MessageView::Error(gpus_refused_text(done.refused, queue, done.granted))
        }
    }

    /// The state after an allocation.
    pub open spec fn gpu_allocate_state(self, gpus: Seq<u8>, queue: Seq<char>) -> StateView {
        if self.can_allocate(gpus, queue) {
            self.granting(gpus, queue, gpus.len() as int).state
        } else {
            self
        }
    }

    /// The process ids of the first `n` tasks that run on GPU `gpu` and
    /// have one.
    pub open spec fn holders(self, gpu: u8, n: int) -> Seq<i32>
        decreases n,
    {
        if n <= 0 {
            Seq::empty()
        } else {
            let earlier = self.holders(gpu, n - 1);
            let task = self.tasks[n - 1];
            if task.state is Running && task.gpu_ids.contains(gpu) && task.pid is Some {
                earlier.push(task.pid->0)
            } else {
                earlier
            }
        }
    }

    /// The state after GPU `gpu` was released: it is recorded as free, and
    /// the queue that owned it no longer lists it.
    pub open spec fn gpu_release_state(self, gpu: u8) -> StateView {
        let freed = self.set_gpu_allocation(gpu as u32, None);
        if self.gpu_allocations.contains_key(gpu as u32) {
            match self.gpu_allocations[gpu as u32] {
                Some(owner) => freed.revoke_gpu(owner, gpu),
                None => freed,
            }
        } else {
            freed
        }
    }

    /// Whether GPU `gpu` can be ignored: no queue owns it.
    pub open spec fn can_ignore(self, gpu: u8) -> bool {
        self.gpu_free(gpu as u32)
    }

    /// The reply to a request to ignore a GPU.
    pub open spec fn gpu_ignore_reply(self, gpu: u8) -> MessageView {
        if self.can_ignore(gpu) {
            MessageView::Ack(gpu_ignored_text(gpu))
        } else {
            MessageView::Error(gpu_owned_text(gpu, self.gpu_allocations[gpu as u32]->0))
        }
    }

    /// The state after a request to ignore a GPU: a GPU that no queue owns
    /// joins the ignore set and leaves the ownership table.
    pub open spec fn gpu_ignore_state(self, gpu: u8) -> StateView {
        if self.can_ignore(gpu) {
            self.set_gpu_ignore(gpu as u32).remove_gpu_allocation(gpu as u32)
        } else {
            self
        }
    }

    /// The reply to a reset of the ignore set.
    pub open spec fn gpu_reset_reply(self) -> MessageView {
        if self.ignored_gpus.len() == 0 {
            MessageView::Ack(none_ignored_text())
        } else {
            MessageView::Ack(gpus_unignored_text(self.ignored_gpus.len() as usize))
        }
    }

    /// The state after a reset of the ignore set: the set is empty, and
    /// every GPU that was in it is recorded as free.
    pub open spec fn gpu_reset_state(self) -> StateView {
        StateView {
            ignored_gpus: Set::empty(),
            gpu_allocations: Map::new(
                |gpu: u32| self.gpu_allocations.contains_key(gpu) || self.ignored_gpus.contains(gpu),
                |gpu: u32|
                    if self.ignored_gpus.contains(gpu) {
                        None
                    } else {
                        self.gpu_allocations[gpu]
                    },
            ),
            ..self
        }
    }

    /// What a request on GPUs is answered with.
    pub open spec fn gpu_outcome(self, action: GPUActionView) -> GpuOutcomeView {
        match action {
            GPUActionView::List => GpuOutcomeView { reply: self.gpu_list(), terminate: Seq::empty() },
            GPUActionView::Info { gpu_id } => GpuOutcomeView {
                reply: self.gpu_info(gpu_id),
                terminate: Seq::empty(),
            },
            GPUActionView::Allocate { gpu_ids, queue } => GpuOutcomeView {
                reply: self.gpu_allocate_reply(gpu_ids, queue),
                terminate: Seq::empty(),
            },
            GPUActionView::Release { gpu_id } => GpuOutcomeView {
                reply: MessageView::Ack(gpu_released_text(gpu_id)),
                terminate: self.holders(gpu_id, self.tasks.len() as int),
            },
            GPUActionView::Ignore { gpu_id } => GpuOutcomeView {
                reply: self.gpu_ignore_reply(gpu_id),
                terminate: Seq::empty(),
            },
            GPUActionView::ResetIgnored => GpuOutcomeView {
                reply: self.gpu_reset_reply(),
                terminate: Seq::empty(),
            },
        }
    }

    /// The state after a request on GPUs.
    pub open spec fn after_gpu_command(self, action: GPUActionView) -> StateView {
        match action {
            GPUActionView::Allocate { gpu_ids, queue } => self.gpu_allocate_state(gpu_ids, queue),
            GPUActionView::Release { gpu_id } => self.gpu_release_state(gpu_id),
            GPUActionView::Ignore { gpu_id } => self.gpu_ignore_state(gpu_id),
            GPUActionView::ResetIgnored => self.gpu_reset_state(),
            _ => self,
        }
    }
}

/// Lists the telemetry of all GPUs by ascending index.
fn handle_gpu_list(state: &DaemonState) -> (reply: Message)
    requires
        state.wf(),
    ensures
        reply@ == state@.gpu_list(),
{
    let all = state.get_all_gpu_stats();
    let mut stats: Vec<GpuStats> = Vec::new();
    let mut k: usize = 0;
    while k < all.len()
        invariant
            k <= all.len(),
            stats.len() == k,
            forall|i: int| 0 <= i < k ==> stats@[i] == (#[trigger] all@[i]).1,
        decreases all.len() - k,
    {
        stats.push(all[k].1);
        k += 1;
    }
    proof {
        let keys = all@.map_values(|e: (u32, GpuStats)| e.0);
        lemma_ascending(keys, state@.gpu_stats.dom());
        assert(stats@ =~= state@.all_gpu_stats());
    }
    if stats.len() == 0 {
        Message::Ack(no_gpus())
    } else {
        Message::GPUStatus(stats)
    }
}

/// Shows the telemetry of one GPU, or of all where none is named.
fn handle_gpu_info(gpu_id: Option<u8>, state: &DaemonState) -> (reply: Message)
    requires
        state.wf(),
    ensures
        reply@ == state@.gpu_info(gpu_id),
{
    match gpu_id {
        Some(gpu) => match state.get_gpu_stats(gpu as u32) {
            Some(stats) => {
                let mut shown: Vec<GpuStats> = Vec::new();
                shown.push(stats);
                assert(shown@ =~= seq![stats]);
                Message::GPUStatus(shown)
            },
            None => Message::Error(gpu_not_found(gpu)),
        },
        None => handle_gpu_list(state),
    }
}

/// Gives GPUs to a queue. An ignored GPU and a GPU of another queue are
/// refused; a GPU that the queue owns already counts as given, and the
/// queue's own list of GPUs follows the ownership table. Once it was
/// acknowledged, the same request is acknowledged again in the same words
/// and changes nothing.
pub fn handle_gpu_allocate(gpu_ids: &Vec<u8>, queue: &String, state: &mut DaemonState) -> (reply:
    Message)
    requires
        old(state).wf(),
    ensures
        final(state).wf(),
        final(state)@ == old(state)@.gpu_allocate_state(gpu_ids@, queue@),
        reply@ == old(state)@.gpu_allocate_reply(gpu_ids@, queue@),
        reply@ is Ack ==> final(state)@.gpu_allocate_reply(gpu_ids@, queue@) == reply@,
        reply@ is Ack ==> final(state)@.gpu_allocate_state(gpu_ids@, queue@) == final(state)@,
{
    proof {
        if old(state)@.gpu_allocate_reply(gpu_ids@, queue@) is Ack {
            crate::laws::law_allocate_is_idempotent(old(state)@, gpu_ids@, queue@);
        }
    }
    if gpu_ids.len() == 0 {
        return Message::Error(no_gpu_ids());
    }
    if state.get_queue(queue.as_str()).is_none() {
        return Message::Error(queue_missing(queue.as_str()));
    }
    let mut granted: Vec<u8> = Vec::new();
    let mut refused: Vec<u8> = Vec::new();
    let mut k: usize = 0;
    while k < gpu_ids.len()
        invariant
            state.wf(),
            k <= gpu_ids.len(),
            ({
                let reached = old(state)@.granting(gpu_ids@, queue@, k as int);
                &&& state@ == reached.state
                &&& granted@ == reached.granted
                &&& refused@ == reached.refused
            }),
        decreases gpu_ids.len() - k,
    {
        let gpu = gpu_ids[k];
        let ignored = state.is_gpu_ignored(gpu as u32);
        let owner = state.get_gpu_allocation(gpu as u32);
        let (free, own) = match owner {
            Some(Some(name)) => (false, name == *queue),
            _ => (true, false),
        };
        if !ignored && (free || own) {
            if !own {
                state.set_gpu_allocation(gpu as u32, Some(queue.clone()));
                let _ = state.grant_gpu(queue, gpu);
            }
            granted.push(gpu);
        } else {
            refused.push(gpu);
        }
        k += 1;
    }
    if refused.len() == 0 {
        Message::Ack(gpus_allocated(&granted, queue.as_str()))
    } else {
        Message::Error(gpus_refused(&refused, queue.as_str(), &granted))
    }
}

/// The process ids of the running tasks that use GPU `gpu`.
fn holders_of(gpu: u8, state: &DaemonState) -> (pids: Vec<i32>)
    requires
        state.wf(),
    ensures
        pids@ == state@.holders(gpu, state@.tasks.len() as int),
{
    let tasks = state.get_all_tasks();
    let mut pids: Vec<i32> = Vec::new();
    let mut k: usize = 0;
    while k < tasks.len()
        invariant
            k <= tasks.len(),
            tasks.deep_view() == state@.tasks,
            pids@ == state@.holders(gpu, k as int),
        decreases tasks.len() - k,
    {
        assert(tasks.deep_view()[k as int] == tasks@[k as int]@);
        if tasks[k].state == TaskState::Running && contains_gpu(&tasks[k].gpu_ids, gpu) {
            match tasks[k].pid {
                Some(pid) => {
                    pids.push(pid);
                },
                None => {},
            }
        }
        k += 1;
    }
    assert(tasks.deep_view().len() == tasks.len());
    pids
}

/// Releases a GPU: the running tasks that use it are to be terminated,
/// and the GPU is recorded as free.
fn handle_gpu_release(gpu_id: u8, state: &mut DaemonState) -> (outcome: GpuOutcome)
    requires
        old(state).wf(),
    ensures
        final(state).wf(),
        final(state)@ == old(state)@.gpu_release_state(gpu_id),
        outcome@ == old(state)@.gpu_outcome(GPUActionView::Release { gpu_id }),
{
    let terminate = holders_of(gpu_id, state);
    let owner = state.get_gpu_allocation(gpu_id as u32);
    state.set_gpu_allocation(gpu_id as u32, None);
    match owner {
        Some(Some(name)) => {
            let _ = state.revoke_gpu(&name, gpu_id);
        },
        _ => {},
    }
    GpuOutcome { reply: Message::Ack(gpu_released(gpu_id)), terminate }
}

/// Ignores a GPU that no queue owns.
fn handle_gpu_ignore(gpu_id: u8, state: &mut DaemonState) -> (reply: Message)
    requires
        old(state).wf(),
    ensures
        final(state).wf(),
        final(state)@ == old(state)@.gpu_ignore_state(gpu_id),
        reply@ == old(state)@.gpu_ignore_reply(gpu_id),
{
    match state.get_gpu_allocation(gpu_id as u32) {
        Some(Some(name)) => {
            return Message::Error(gpu_owned(gpu_id, name.as_str()));
        },
        _ => {},
    }
    state.set_gpu_ignore(gpu_id as u32);
    state.remove_gpu_allocation(gpu_id as u32);
    Message::Ack(gpu_ignored(gpu_id))
}

/// Clears the ignore set; every GPU that was in it is free afterwards.
fn handle_gpu_reset_ignored(state: &mut DaemonState) -> (reply: Message)
    requires
        old(state).wf(),
    ensures
        final(state).wf(),
        final(state)@ == old(state)@.gpu_reset_state(),
        reply@ == old(state)@.gpu_reset_reply(),
{
    let ignored = state.get_ignored_gpus();
    proof {
        let domain = old(state)@.ignored_gpus;
        assert(ignored@.no_duplicates());
        assert(ignored@.to_set() =~= domain);
        ignored@.unique_seq_to_set();
    }
    if ignored.len() == 0 {
        assert(state@.gpu_allocations =~= old(state)@.gpu_reset_state().gpu_allocations);
        assert(state@.ignored_gpus =~= Set::<u32>::empty());
        return Message::Ack(none_ignored());
    }
    let mut k: usize = 0;
    while k < ignored.len()
        invariant
            state.wf(),
            k <= ignored.len(),
            ascending_listing(ignored@, old(state)@.ignored_gpus),
            state@.tasks == old(state)@.tasks,
            state@.queues == old(state)@.queues,
            state@.gpu_stats == old(state)@.gpu_stats,
            forall|gpu: u32|
                state@.ignored_gpus.contains(gpu) <==> (old(state)@.ignored_gpus.contains(gpu)
                    && !ignored@.take(k as int).contains(gpu)),
            forall|gpu: u32|
                state@.gpu_allocations.contains_key(gpu) <==> (old(state)@.gpu_allocations.contains_key(
                    gpu,
                ) || ignored@.take(k as int).contains(gpu)),
            forall|gpu: u32|
                state@.gpu_allocations.contains_key(gpu) ==> state@.gpu_allocations[gpu] == if ignored@.take(
                    k as int,
                ).contains(gpu) {
                    None::<Seq<char>>
                } else {
                    old(state)@.gpu_allocations[gpu]
                },
        decreases ignored.len() - k,
    {
        let gpu = ignored[k];
        proof {
            let shorter = ignored@.take(k as int);
            let longer = ignored@.take(k as int + 1);
            assert(longer =~= shorter.push(gpu));
            assert forall|g: u32| longer.contains(g) <==> (shorter.contains(g) || g == gpu) by {
                if shorter.contains(g) {
                    let i = choose|i: int| 0 <= i < shorter.len() && shorter[i] == g;
                    assert(longer[i] == g);
                }
                if longer.contains(g) && g != gpu {
                    let i = choose|i: int| 0 <= i < longer.len() && longer[i] == g;
                    assert(shorter[i] == g);
                }
                if g == gpu {
                    assert(longer[k as int] == g);
                }
            }
        }
        state.unset_gpu_ignore(gpu);
        state.set_gpu_allocation(gpu, None);
        k += 1;
    }
    proof {
        assert(ignored@.take(k as int) =~= ignored@);
        let want = old(state)@.gpu_reset_state();
        assert forall|gpu: u32| old(state)@.ignored_gpus.contains(gpu) implies ignored@.contains(
            gpu,
        ) by {}
        assert forall|gpu: u32| ignored@.contains(gpu) implies old(state)@.ignored_gpus.contains(
            gpu,
        ) by {
            let i = choose|i: int| 0 <= i < ignored@.len() && ignored@[i] == gpu;
            assert(old(state)@.ignored_gpus.contains(ignored@[i]));
        }
        assert(state@.ignored_gpus =~= want.ignored_gpus);
        assert(state@.gpu_allocations =~= want.gpu_allocations);
    }
    Message::Ack(gpus_unignored(ignored.len()))
}

/// Handles a request on GPUs.
pub fn handle_gpu_command(action: GPUAction, state: &mut DaemonState) -> (outcome: GpuOutcome)
    requires
        old(state).wf(),
    ensures
        final(state).wf(),
        final(state)@ == old(state)@.after_gpu_command(action@),
        outcome@ == old(state)@.gpu_outcome(action@),
        old(state)@.coherent() ==> final(state)@.coherent(),
{
    proof {
        if old(state)@.coherent() {
            crate::laws::law_gpu_command_keeps_coherence(old(state)@, action@);
        }
    }
    match action {
        GPUAction::List => GpuOutcome { reply: handle_gpu_list(state), terminate: Vec::new() },
        GPUAction::Info { gpu_id } => GpuOutcome {
            reply: handle_gpu_info(gpu_id, state),
            terminate: Vec::new(),
        },
        GPUAction::Allocate { gpu_ids, queue } => GpuOutcome {
            reply: handle_gpu_allocate(&gpu_ids, &queue, state),
            terminate: Vec::new(),
        },
        GPUAction::Release { gpu_id } => handle_gpu_release(gpu_id, state),
        GPUAction::Ignore { gpu_id } => GpuOutcome {
            reply: handle_gpu_ignore(gpu_id, state),
            terminate: Vec::new(),
        },
        GPUAction::ResetIgnored => GpuOutcome {
            reply: handle_gpu_reset_ignored(state),
            terminate: Vec::new(),
        },
    }
}

} // verus!

//! The state store: tasks, queues, GPU telemetry, GPU ownership and the
//! ignore set, behind operations that each realise one function of the
//! mathematical store.

use crate::idlist::{
    contains_id, push_gpu_if_absent, push_if_absent, retain_other, retain_other_gpus,
};
use crate::models::{
    clone_opt_string, opt_chars, opt_gpus, QueueMeta, QueueView, ResourceLimit, TaskMeta, TaskState,
    TaskView, DEFAULT_QUEUE_PRIORITY,
};
use crate::monitor::GpuStats;
use crate::store::{strike_everywhere, StateView};
use crate::table::{ascending_listing, GpuTable};
use vstd::prelude::*;

verus! {

/// Why a store operation changed nothing.
#[derive(Clone, Copy, Debug, PartialEq, Eq, Structural)]
pub enum StateError {
    /// No task has the given id.
    TaskNotFound,
    /// No queue has the given name.
    QueueNotFound,
}

/// One entry of the GPU ownership table.
#[derive(Debug, PartialEq, Eq)]
pub struct GpuAllocation {
    pub gpu_id: u32,
    /// The owning queue, or `None` for a free GPU.
    pub queue: Option<String>,
}

/// The ownership table with every owner taken by its characters.
pub open spec fn owners_view(owners: Map<u32, Option<String>>) -> Map<u32, Option<Seq<char>>> {
    Map::new(|k: u32| owners.contains_key(k), |k: u32| opt_chars(owners[k]))
}

/// Strikes task `id` from both lists of every queue.
fn strike_from_all(queues: &mut Vec<QueueMeta>, id: u64)
    ensures
        final(queues).deep_view() == strike_everywhere(old(queues).deep_view(), id),
{
    let mut k: usize = 0;
    while k < queues.len()
        invariant
            k <= queues.len(),
            queues.len() == old(queues).len(),
            forall|q: int| 0 <= q < k ==> (#[trigger] queues@[q])@ == old(queues)@[q]@.strike(id),
            forall|q: int| k <= q < queues.len() ==> (#[trigger] queues@[q])@ == old(queues)@[q]@,
        decreases queues.len() - k,
    {
        retain_other(&mut queues[k].waiting_task_ids, id);
        retain_other(&mut queues[k].running_task_ids, id);
        k += 1;
    }
    assert(queues.deep_view() =~= strike_everywhere(old(queues).deep_view(), id));
}

/// The daemon's whole state.
pub struct DaemonState {
    tasks: Vec<TaskMeta>,
    queues: Vec<QueueMeta>,
    gpu_stats: GpuTable<GpuStats>,
    gpu_allocations: GpuTable<Option<String>>,
    ignored_gpus: GpuTable<()>,
}

impl View for DaemonState {
    type V = StateView;

    closed spec fn view(&self) -> StateView {
        StateView {
            tasks: self.tasks.deep_view(),
            queues: self.queues.deep_view(),
            gpu_stats: self.gpu_stats@,
            gpu_allocations: owners_view(self.gpu_allocations@),
            ignored_gpus: self.ignored_gpus@.dom(),
        }
    }
}

impl DaemonState {
    /// The tables are stored in their canonical order.
    pub closed spec fn stored_in_order(&self) -> bool {
        &&& self.gpu_stats.wf()
        &&& self.gpu_allocations.wf()
        &&& self.ignored_gpus.wf()
    }

    /// Validity of a store: no task id and no queue name occurs twice.
    pub open spec fn wf(&self) -> bool {
        &&& self@.wf()
        &&& self.stored_in_order()
    }

    proof fn lemma_tables_finite(&self)
        requires
            self.stored_in_order(),
        ensures
            self@.gpu_stats.dom().finite(),
            self@.gpu_allocations.dom().finite(),
            self@.ignored_gpus.finite(),
    {
        self.gpu_stats.lemma_keys();
        self.gpu_allocations.lemma_keys();
        self.ignored_gpus.lemma_keys();
        assert(owners_view(self.gpu_allocations@).dom() =~= self.gpu_allocations@.dom());
    }

    /// The store that holds nothing.
    pub fn new() -> (state: Self)
        ensures
            state.wf(),
            state@ == StateView::empty(),
            state@.coherent(),
            state@.running_gpus_sound(),
            state@.running_gpus_exclusive(),
    {
        let state = DaemonState {
            tasks: Vec::new(),
            queues: Vec::new(),
            gpu_stats: GpuTable::new(),
            gpu_allocations: GpuTable::new(),
            ignored_gpus: GpuTable::new(),
        };
        proof {
            state.lemma_tables_finite();
            assert(state@.tasks =~= Seq::<TaskView>::empty());
            assert(state@.queues =~= Seq::<QueueView>::empty());
            assert(state@.gpu_allocations =~= Map::<u32, Option<Seq<char>>>::empty());
            assert(state@.ignored_gpus =~= Set::<u32>::empty());
        }
        state
    }

    fn find_task(&self, id: u64) -> (found: Option<usize>)
        requires
            self.wf(),
        ensures
            match found {
                Some(i) => self@.has_task(id) && i == self@.task_pos(id) && i < self.tasks.len(),
                None => !self@.has_task(id),
            },
    {
        let mut k: usize = 0;
        while k < self.tasks.len()
            invariant
                self.wf(),
                k <= self.tasks.len(),
                forall|i: int| 0 <= i < k ==> self@.tasks[i].id != id,
            decreases self.tasks.len() - k,
        {
            if self.tasks[k].id == id {
                proof {
                    assert(self@.tasks[k as int].id == id);
                    self@.lemma_task_at(k as int);
                }
                return Some(k);
            }
            k += 1;
        }
        None
    }

    fn find_queue(&self, name: &String) -> (found: Option<usize>)
        requires
            self.wf(),
        ensures
            match found {
                Some(i) => self@.has_queue(name@) && i == self@.queue_pos(name@) && i
                    < self.queues.len(),
                None => !self@.has_queue(name@),
            },
    {
        let mut k: usize = 0;
        while k < self.queues.len()
            invariant
                self.wf(),
                k <= self.queues.len(),
                forall|i: int| 0 <= i < k ==> self@.queues[i].name != name@,
            decreases self.queues.len() - k,
        {
            if self.queues[k].name == *name {
                proof {
                    assert(self@.queues[k as int].name == name@);
                    self@.lemma_queue_at(k as int);
                }
                return Some(k);
            }
            k += 1;
        }
        None
    }

    /// Inserts `task`, replacing a task of the same id, and appends its id
    /// to the waiting list of its queue; a queue that does not exist yet is
    /// created for it.
    pub fn add_task(&mut self, task: TaskMeta)
        requires
            old(self).wf(),
        ensures
            final(self).wf(),
            final(self)@ == old(self)@.add_task(task@),
            old(self)@.coherent() && !old(self)@.has_task(task.id) && task.state is Waiting
                ==> final(self)@.coherent(),
            old(self)@.tidy() && !task.state.is_terminal() ==> final(self)@.tidy(),
    {
        proof {
            if old(self)@.tidy() && !task.state.is_terminal() {
                crate::ended::lemma_add_task_tidy(old(self)@, task@);
            }
            if old(self)@.coherent() && !old(self)@.has_task(task.id) && task.state is Waiting {
                crate::invariants::lemma_add_task_coherent(old(self)@, task@);
            }
        }
        let id = task.id;
        let name = task.queue.clone();
        let at_queue = self.find_queue(&name);
        let ghost t = task@;
        match self.find_task(id) {
            Some(i) => {
                self.tasks[i] = task;
            },
            None => {
                self.tasks.push(task);
            },
        }
        match at_queue {
            Some(j) => {
                push_if_absent(&mut self.queues[j].waiting_task_ids, id);
            },
            None => {
                let mut waiting: Vec<u64> = Vec::new();
                waiting.push(id);
                self.queues.push(
                    QueueMeta {
                        name,
                        max_concurrent: 1,
                        priority: DEFAULT_QUEUE_PRIORITY,
                        waiting_task_ids: waiting,
                        running_task_ids: Vec::new(),
                        allocated_gpus: Vec::new(),
                        resource_limit: ResourceLimit::default(),
                    },
                );
            },
        }
        proof {
            let want = old(self)@.add_task(t);
            assert(self@.tasks =~= want.tasks);
            assert(self@.queues =~= want.queues);
            self.lemma_tables_finite();
        }
    }

    /// The task with id `id`, if there is one.
    pub fn get_task(&self, id: u64) -> (found: Option<TaskMeta>)
        requires
            self.wf(),
        ensures
            match found {
                Some(task) => self@.has_task(id) && task@ == self@.task(id),
                None => !self@.has_task(id),
            },
    {
        match self.find_task(id) {
            Some(i) => Some(self.tasks[i].clone()),
            None => None,
        }
    }

    /// All tasks, oldest id first.
    pub fn get_all_tasks(&self) -> (all: Vec<TaskMeta>)
        ensures
            all.deep_view() == self@.tasks,
    {
        let mut all: Vec<TaskMeta> = Vec::new();
        let mut k: usize = 0;
        while k < self.tasks.len()
            invariant
                k <= self.tasks.len(),
                all.len() == k,
                forall|i: int| 0 <= i < k ==> (#[trigger] all@[i])@ == self@.tasks[i],
            decreases self.tasks.len() - k,
        {
            all.push(self.tasks[k].clone());
            k += 1;
        }
        assert(all.deep_view() =~= self@.tasks);
        all
    }

    /// Records the process id of task `id`.
    pub fn set_task_pid(&mut self, id: u64, pid: Option<i32>) -> (done: Result<(), StateError>)
        requires
            old(self).wf(),
        ensures
            final(self).wf(),
            final(self)@ == old(self)@.set_task_pid(id, pid),
            done is Ok <==> old(self)@.has_task(id),
            done is Err ==> done == Err::<(), StateError>(StateError::TaskNotFound),
    {
        match self.find_task(id) {
            Some(i) => {
                self.tasks[i].pid = pid;
                proof {
                    assert(self@.tasks =~= old(self)@.set_task_pid(id, pid).tasks);
                    assert(self@.queues =~= old(self)@.queues);
                }
                Ok(())
            },
            None => Err(StateError::TaskNotFound),
        }
    }

    /// Puts task `id` into `state`. The failure reason is stored only for
    /// Failed and cleared otherwise, and the assigned GPUs are rewritten when
    /// `gpus` gives them. A task that becomes Finished or Failed is struck
    /// from every list of every queue; a task that becomes Waiting or
    /// Running from another state moves to the end of the list of its new
    /// state in its queue.
    pub fn update_task_state(
        &mut self,
        id: u64,
        state: TaskState,
        gpus: Option<Vec<u8>>,
        reason: Option<String>,
    ) -> (done: Result<(), StateError>)
        requires
            old(self).wf(),
        ensures
            final(self).wf(),
            final(self)@ == old(self)@.update_task_state(
                id,
                state,
                opt_gpus(gpus),
                opt_chars(reason),
            ),
            done is Ok <==> old(self)@.has_task(id),
            done is Err ==> done == Err::<(), StateError>(StateError::TaskNotFound),
            state.is_terminal() && old(self)@.has_task(id) ==> final(self)@.lists_nowhere(id),
            old(self)@.moves_between_lists(id, state) ==> final(self)@.listed_by_state(
                old(self)@.task(id).queue,
                id,
                state,
            ),
            old(self)@.lists_agree() ==> final(self)@.lists_agree(),
            old(self)@.lists_agree() && old(self)@.has_task(id) && !state.is_terminal()
                ==> final(self)@.listed_by_state(old(self)@.task(id).queue, id, state),
            old(self)@.coherent() && old(self)@.has_room_for(id, state) ==> final(self)@.coherent(),
            old(self)@.tidy() ==> final(self)@.tidy(),
    {
        proof {
            if old(self)@.lists_agree() && old(self)@.has_task(id) && !state.is_terminal() {
                let s = old(self)@;
                let after = s.update_task_state(id, state, opt_gpus(gpus), opt_chars(reason));
                crate::invariants::lemma_update_task_state_agrees(
                    s,
                    id,
                    state,
                    opt_gpus(gpus),
                    opt_chars(reason),
                );
                s.lemma_task_pos(id);
                let p = s.task_pos(id);
                assert(after.tasks[p].id == id);
                after.lemma_task_at(p);
                crate::invariants::law_agreeing_lists_by_state(after, id);
            }
            if old(self)@.tidy() {
                crate::ended::lemma_update_task_state_tidy(
                    old(self)@,
                    id,
                    state,
                    opt_gpus(gpus),
                    opt_chars(reason),
                );
            }
            crate::invariants::lemma_update_task_state_lists(
                old(self)@,
                id,
                state,
                opt_gpus(gpus),
                opt_chars(reason),
            );
            if old(self)@.lists_agree() {
                crate::invariants::lemma_update_task_state_agrees(
                    old(self)@,
                    id,
                    state,
                    opt_gpus(gpus),
                    opt_chars(reason),
                );
            }
            if old(self)@.coherent() && old(self)@.has_room_for(id, state) {
                crate::invariants::lemma_update_task_state_coherent(
                    old(self)@,
                    id,
                    state,
                    opt_gpus(gpus),
                    opt_chars(reason),
                );
            }
        }
        let ghost want = old(self)@.update_task_state(id, state, opt_gpus(gpus), opt_chars(reason));
        match self.find_task(id) {
            Some(i) => {
                let before = self.tasks[i].state;
                let name = self.tasks[i].queue.clone();
                let at_queue = self.find_queue(&name);
                self.tasks[i].state = state;
                self.tasks[i].failure_reason = match state {
                    TaskState::Failed => reason,
                    _ => None,
                };
                match gpus {
                    Some(g) => {
                        self.tasks[i].gpu_ids = g;
                    },
                    None => {},
                }
                let ends = match state {
                    TaskState::Finished => true,
                    TaskState::Failed => true,
                    _ => false,
                };
                if ends {
                    strike_from_all(&mut self.queues, id);
                } else if before != state {
                    match at_queue {
                        Some(j) => {
                            retain_other(&mut self.queues[j].waiting_task_ids, id);
                            retain_other(&mut self.queues[j].running_task_ids, id);
                            match state {
                                TaskState::Waiting => {
                                    push_if_absent(&mut self.queues[j].waiting_task_ids, id);
                                },
                                TaskState::Running => {
                                    push_if_absent(&mut self.queues[j].running_task_ids, id);
                                },
                                _ => {},
                            }
                        },
                        None => {},
                    }
                }
                proof {
                    assert(self@.tasks =~= want.tasks);
                    assert(self@.queues =~= want.queues);
                }
                Ok(())
            },
            None => Err(StateError::TaskNotFound),
        }
    }

    /// Moves task `id` to queue `dest`. The task leaves the lists of its old
    /// queue and is parked in the waiting list of `dest`, whatever its
    /// state; a running task keeps running. Nothing changes where `dest` or
    /// the task does not exist, or the task is in `dest` already.
    pub fn update_task_queue(&mut self, id: u64, dest: String) -> (done: Result<(), StateError>)
        requires
            old(self).wf(),
        ensures
            final(self).wf(),
            final(self)@ == old(self)@.update_task_queue(id, dest@),
            done == if !old(self)@.has_queue(dest@) {
                Err::<(), StateError>(StateError::QueueNotFound)
            } else if !old(self)@.has_task(id) {
                Err::<(), StateError>(StateError::TaskNotFound)
            } else {
                Ok::<(), StateError>(())
            },
            old(self)@.coherent() && (old(self)@.can_move(id, dest@) ==> old(self)@.task(
                id,
            ).state is Waiting) ==> final(self)@.coherent(),
            old(self)@.tidy() && (old(self)@.can_move(id, dest@) ==> !old(self)@.task(
                id,
            ).state.is_terminal()) ==> final(self)@.tidy(),
    {
        proof {
            if old(self)@.tidy() && (old(self)@.can_move(id, dest@) ==> !old(self)@.task(
                id,
            ).state.is_terminal()) {
                crate::ended::lemma_update_task_queue_tidy(old(self)@, id, dest@);
            }
            if old(self)@.coherent() && (old(self)@.can_move(id, dest@) ==> old(self)@.task(
                id,
            ).state is Waiting) {
                crate::invariants::lemma_update_task_queue_coherent(old(self)@, id, dest@);
            }
        }
        let ghost want = old(self)@.update_task_queue(id, dest@);
        let at_dest = match self.find_queue(&dest) {
            Some(j) => j,
            None => {
                return Err(StateError::QueueNotFound);
            },
        };
        let i = match self.find_task(id) {
            Some(i) => i,
            None => {
                return Err(StateError::TaskNotFound);
            },
        };
        if self.tasks[i].queue == dest {
            return Ok(());
        }
        let source = self.tasks[i].queue.clone();
        let at_source = self.find_queue(&source);
        self.tasks[i].queue = dest;
        match at_source {
            Some(j) => {
                retain_other(&mut self.queues[j].waiting_task_ids, id);
                retain_other(&mut self.queues[j].running_task_ids, id);
            },
            None => {},
        }
        if !contains_id(&self.queues[at_dest].waiting_task_ids, id) && !contains_id(
            &self.queues[at_dest].running_task_ids,
            id,
        ) {
            self.queues[at_dest].waiting_task_ids.push(id);
        }
        proof {
            assert(self@.tasks =~= want.tasks);
            assert(self@.queues =~= want.queues);
        }
        Ok(())
    }

    /// Sets the priority of task `id`.
    pub fn update_task_priority(&mut self, id: u64, priority: u8) -> (done: Result<(), StateError>)
        requires
            old(self).wf(),
        ensures
            final(self).wf(),
            final(self)@ == old(self)@.update_task_priority(id, priority),
            done is Ok <==> old(self)@.has_task(id),
            done is Err ==> done == Err::<(), StateError>(StateError::TaskNotFound),
    {
        match self.find_task(id) {
            Some(i) => {
                self.tasks[i].priority = priority;
                proof {
                    assert(self@.tasks =~= old(self)@.update_task_priority(id, priority).tasks);
                    assert(self@.queues =~= old(self)@.queues);
                }
                Ok(())
            },
            None => Err(StateError::TaskNotFound),
        }
    }

    /// Removes task `id`, strikes it from every list of every queue and
    /// hands its last record back.
    pub fn remove_task(&mut self, id: u64) -> (removed: Option<TaskMeta>)
        requires
            old(self).wf(),
        ensures
            final(self).wf(),
            final(self)@ == old(self)@.remove_task(id),
            match removed {
                Some(task) => old(self)@.has_task(id) && task@ == old(self)@.task(id),
                None => !old(self)@.has_task(id),
            },
            removed is Some ==> final(self)@.lists_nowhere(id),
            old(self)@.tidy() ==> final(self)@.tidy(),
            old(self)@.coherent() ==> final(self)@.coherent(),
    {
        proof {
            if old(self)@.tidy() {
                crate::ended::lemma_remove_task_tidy(old(self)@, id);
            }
            crate::invariants::lemma_struck_nowhere(old(self)@.queues, id);
            if old(self)@.coherent() {
                crate::invariants::lemma_remove_task_coherent(old(self)@, id);
            }
        }
        let ghost want = old(self)@.remove_task(id);
        match self.find_task(id) {
            Some(i) => {
                let task = self.tasks.remove(i);
                strike_from_all(&mut self.queues, id);
                proof {
                    assert(self@.tasks =~= want.tasks);
                    assert(self@.queues =~= want.queues);
                }
                Some(task)
            },
            None => None,
        }
    }

    /// Inserts `queue`, replacing a queue of the same name.
    pub fn add_queue(&mut self, queue: QueueMeta)
        requires
            old(self).wf(),
        ensures
            final(self).wf(),
            final(self)@ == old(self)@.add_queue(queue@),
            old(self)@.coherent() && !old(self)@.has_queue(queue.name@)
                && queue.waiting_task_ids.len() == 0 && queue.running_task_ids.len() == 0
                ==> final(self)@.coherent(),
    {
        proof {
            if old(self)@.coherent() && !old(self)@.has_queue(queue.name@)
                && queue.waiting_task_ids.len() == 0 && queue.running_task_ids.len() == 0 {
                crate::invariants::lemma_add_queue_coherent(old(self)@, queue@);
            }
        }
        let ghost want = old(self)@.add_queue(queue@);
        match self.find_queue(&queue.name) {
            Some(j) => {
                self.queues[j] = queue;
            },
            None => {
                self.queues.push(queue);
            },
        }
        proof {
            assert(self@.tasks =~= want.tasks);
            assert(self@.queues =~= want.queues);
        }
    }

    /// The queue named `name`, if there is one.
    pub fn get_queue(&self, name: &str) -> (found: Option<QueueMeta>)
        requires
            self.wf(),
        ensures
            match found {
                Some(queue) => self@.has_queue(name@) && queue@ == self@.queue(name@),
                None => !self@.has_queue(name@),
            },
    {
        let owned = String::from_str(name);
        match self.find_queue(&owned) {
            Some(j) => Some(self.queues[j].clone()),
            None => None,
        }
    }

    /// All queues, oldest name first.
    pub fn get_all_queues(&self) -> (all: Vec<QueueMeta>)
        ensures
            all.deep_view() == self@.queues,
    {
        let mut all: Vec<QueueMeta> = Vec::new();
        let mut k: usize = 0;
        while k < self.queues.len()
            invariant
                k <= self.queues.len(),
                all.len() == k,
                forall|i: int| 0 <= i < k ==> (#[trigger] all@[i])@ == self@.queues[i],
            decreases self.queues.len() - k,
        {
            all.push(self.queues[k].clone());
            k += 1;
        }
        assert(all.deep_view() =~= self@.queues);
        all
    }

    /// Replaces the resource limit of queue `name`.
    pub fn update_queue_resource_limit(&mut self, name: String, limit: ResourceLimit) -> (done:
        Result<(), StateError>)
        requires
            old(self).wf(),
        ensures
            final(self).wf(),
            final(self)@ == old(self)@.update_queue_resource_limit(name@, limit),
            done is Ok <==> old(self)@.has_queue(name@),
            done is Err ==> done == Err::<(), StateError>(StateError::QueueNotFound),
    {
        let ghost want = old(self)@.update_queue_resource_limit(name@, limit);
        match self.find_queue(&name) {
            Some(j) => {
                self.queues[j].resource_limit = limit;
                proof {
                    assert(self@.tasks =~= want.tasks);
                    assert(self@.queues =~= want.queues);
                }
                Ok(())
            },
            None => Err(StateError::QueueNotFound),
        }
    }

    /// Adds `gpu` to the GPUs that queue `name` lists as its own.
    pub fn grant_gpu(&mut self, name: &String, gpu: u8) -> (done: Result<(), StateError>)
        requires
            old(self).wf(),
        ensures
            final(self).wf(),
            final(self)@ == old(self)@.grant_gpu(name@, gpu),
            done is Ok <==> old(self)@.has_queue(name@),
            done is Err ==> done == Err::<(), StateError>(StateError::QueueNotFound),
    {
        let ghost want = old(self)@.grant_gpu(name@, gpu);
        match self.find_queue(name) {
            Some(j) => {
                push_gpu_if_absent(&mut self.queues[j].allocated_gpus, gpu);
                proof {
                    assert(self@.tasks =~= want.tasks);
                    assert(self@.queues =~= want.queues);
                }
                Ok(())
            },
            None => Err(StateError::QueueNotFound),
        }
    }

    /// Strikes `gpu` from the GPUs that queue `name` lists as its own.
    pub fn revoke_gpu(&mut self, name: &String, gpu: u8) -> (done: Result<(), StateError>)
        requires
            old(self).wf(),
        ensures
            final(self).wf(),
            final(self)@ == old(self)@.revoke_gpu(name@, gpu),
            done is Ok <==> old(self)@.has_queue(name@),
            done is Err ==> done == Err::<(), StateError>(StateError::QueueNotFound),
    {
        let ghost want = old(self)@.revoke_gpu(name@, gpu);
        match self.find_queue(name) {
            Some(j) => {
                retain_other_gpus(&mut self.queues[j].allocated_gpus, gpu);
                proof {
                    assert(self@.tasks =~= want.tasks);
                    assert(self@.queues =~= want.queues);
                }
                Ok(())
            },
            None => Err(StateError::QueueNotFound),
        }
    }

    /// Takes in one telemetry snapshot, `snapshot[i]` being the reading of
    /// GPU `i`, or `None` where reading it failed.
    pub fn update_all_gpu_stats(&mut self, snapshot: &Vec<Option<GpuStats>>)
        requires
            old(self).wf(),
        ensures
            final(self).wf(),
            final(self)@ == old(self)@.refresh_gpu_stats(snapshot@),
            old(self)@.coherent() ==> final(self)@.coherent(),
            old(self)@.running_gpus_sound() ==> final(self)@.running_gpus_sound(),
            old(self)@.running_gpus_exclusive() ==> final(self)@.running_gpus_exclusive(),
    {
        proof {
            if old(self)@.coherent() {
                crate::laws::law_bookkeeping_keeps_coherence(old(self)@);
                assert(old(self)@.refresh_gpu_stats(snapshot@).coherent());
            }
            crate::gpu_order::law_events_are_calm(old(self)@);
            crate::gpu_order::law_calm_keeps_gpus_in_order(
                old(self)@,
                old(self)@.refresh_gpu_stats(snapshot@),
            );
        }
        let ghost want = old(self)@.refresh_gpu_stats(snapshot@);
        let mut fresh: GpuTable<GpuStats> = GpuTable::new();
        let mut k: usize = 0;
        while k < snapshot.len() && k <= u32::MAX as usize
            invariant
                self.wf(),
                fresh.wf(),
                want == self@.refresh_gpu_stats(snapshot@),
                k <= snapshot.len(),
                k <= u32::MAX as usize + 1,
                forall|g: u32| #[trigger]
                    fresh@.contains_key(g) <==> (g < k && want.gpu_stats.contains_key(g)),
                forall|g: u32| fresh@.contains_key(g) ==> #[trigger] fresh@[g] == want.gpu_stats[g],
            decreases snapshot.len() - k,
        {
            let gpu = k as u32;
            if !self.ignored_gpus.contains_key(gpu) {
                match snapshot[k] {
                    Some(stats) => {
                        fresh.insert(gpu, stats);
                    },
                    None => {
                        match self.gpu_stats.get(gpu) {
                            Some(stats) => {
                                fresh.insert(gpu, *stats);
                            },
                            None => {},
                        }
                    },
                }
            }
            k += 1;
        }
        self.gpu_stats = fresh;
        proof {
            assert(self@.gpu_stats =~= want.gpu_stats);
            assert(self@.tasks =~= want.tasks);
            assert(self@.queues =~= want.queues);
            self.lemma_tables_finite();
        }
    }

    /// The latest reading of GPU `gpu`, if there is one.
    pub fn get_gpu_stats(&self, gpu: u32) -> (found: Option<GpuStats>)
        requires
            self.wf(),
        ensures
            match found {
                Some(stats) => self@.gpu_stats.contains_key(gpu) && stats == self@.gpu_stats[gpu],
                None => !self@.gpu_stats.contains_key(gpu),
            },
    {
        match self.gpu_stats.get(gpu) {
            Some(stats) => Some(*stats),
            None => None,
        }
    }

    /// The latest reading of every GPU that has one, by ascending GPU index.
    pub fn get_all_gpu_stats(&self) -> (all: Vec<(u32, GpuStats)>)
        requires
            self.wf(),
        ensures
            ascending_listing(all@.map_values(|e: (u32, GpuStats)| e.0), self@.gpu_stats.dom()),
            forall|i: int| 0 <= i < all.len() ==> (#[trigger] all[i]).1 == self@.gpu_stats[all[i].0],
    {
        let mut all: Vec<(u32, GpuStats)> = Vec::new();
        let mut k: usize = 0;
        proof {
            self.gpu_stats.lemma_keys();
        }
        while k < self.gpu_stats.len()
            invariant
                self.wf(),
                k <= self.gpu_stats.keys().len(),
                all.len() == k,
                forall|i: int| 0 <= i < k ==> (#[trigger] all[i]).0 == self.gpu_stats.keys()[i],
                forall|i: int| 0 <= i < k ==> (#[trigger] all[i]).1 == self@.gpu_stats[all[i].0],
            decreases self.gpu_stats.keys().len() - k,
        {
            let gpu = self.gpu_stats.key_at(k);
            let stats = *self.gpu_stats.value_at(k);
            all.push((gpu, stats));
            k += 1;
        }
        proof {
            assert(all@.map_values(|e: (u32, GpuStats)| e.0) =~= self.gpu_stats.keys());
        }
        all
    }

    /// Excludes GPU `gpu` from scheduling.
    pub fn set_gpu_ignore(&mut self, gpu: u32)
        requires
            old(self).wf(),
        ensures
            final(self).wf(),
            final(self)@ == old(self)@.set_gpu_ignore(gpu),
    {
        self.ignored_gpus.insert(gpu, ());
        proof {
            let want = old(self)@.set_gpu_ignore(gpu);
            assert(self@.ignored_gpus =~= want.ignored_gpus);
            assert(self@.tasks =~= want.tasks);
            assert(self@.queues =~= want.queues);
            self.lemma_tables_finite();
        }
    }

    /// Readmits GPU `gpu` to scheduling.
    pub fn unset_gpu_ignore(&mut self, gpu: u32)
        requires
            old(self).wf(),
        ensures
            final(self).wf(),
            final(self)@ == old(self)@.unset_gpu_ignore(gpu),
    {
        self.ignored_gpus.remove(gpu);
        proof {
            let want = old(self)@.unset_gpu_ignore(gpu);
            assert(self@.ignored_gpus =~= want.ignored_gpus);
            assert(self@.tasks =~= want.tasks);
            assert(self@.queues =~= want.queues);
            self.lemma_tables_finite();
        }
    }

    /// Whether GPU `gpu` is excluded from scheduling.
    pub fn is_gpu_ignored(&self, gpu: u32) -> (ignored: bool)
        requires
            self.wf(),
        ensures
            ignored == self@.ignored_gpus.contains(gpu),
    {
        self.ignored_gpus.contains_key(gpu)
    }

    /// The excluded GPUs by ascending index.
    pub fn get_ignored_gpus(&self) -> (all: Vec<u32>)
        requires
            self.wf(),
        ensures
            ascending_listing(all@, self@.ignored_gpus),
    {
        let mut all: Vec<u32> = Vec::new();
        let mut k: usize = 0;
        proof {
            self.ignored_gpus.lemma_keys();
        }
        while k < self.ignored_gpus.len()
            invariant
                self.wf(),
                k <= self.ignored_gpus.keys().len(),
                all@ == self.ignored_gpus.keys().take(k as int),
            decreases self.ignored_gpus.keys().len() - k,
        {
            let gpu = self.ignored_gpus.key_at(k);
            all.push(gpu);
            assert(all@ =~= self.ignored_gpus.keys().take(k as int + 1));
            k += 1;
        }
        assert(self.ignored_gpus.keys().take(k as int) =~= self.ignored_gpus.keys());
        all
    }

    /// Records `owner` as the owner of GPU `gpu`; `None` records it as free.
    pub fn set_gpu_allocation(&mut self, gpu: u32, owner: Option<String>)
        requires
            old(self).wf(),
        ensures
            final(self).wf(),
            final(self)@ == old(self)@.set_gpu_allocation(gpu, opt_chars(owner)),
    {
        let ghost want = old(self)@.set_gpu_allocation(gpu, opt_chars(owner));
        self.gpu_allocations.insert(gpu, owner);
        proof {
            assert(self@.gpu_allocations =~= want.gpu_allocations);
            assert(self@.tasks =~= want.tasks);
            assert(self@.queues =~= want.queues);
            self.lemma_tables_finite();
        }
    }

    /// Forgets GPU `gpu` in the ownership table.
    pub fn remove_gpu_allocation(&mut self, gpu: u32)
        requires
            old(self).wf(),
        ensures
            final(self).wf(),
            final(self)@ == old(self)@.remove_gpu_allocation(gpu),
    {
        let ghost want = old(self)@.remove_gpu_allocation(gpu);
        self.gpu_allocations.remove(gpu);
        proof {
            assert(self@.gpu_allocations =~= want.gpu_allocations);
            assert(self@.tasks =~= want.tasks);
            assert(self@.queues =~= want.queues);
            self.lemma_tables_finite();
        }
    }

    /// What the ownership table holds for GPU `gpu`: nothing, free
    /// (`Some(None)`) or its owner.
    pub fn get_gpu_allocation(&self, gpu: u32) -> (found: Option<Option<String>>)
        requires
            self.wf(),
        ensures
            match found {
                Some(owner) => self@.gpu_allocations.contains_key(gpu) && opt_chars(owner)
                    == self@.gpu_allocations[gpu],
                None => !self@.gpu_allocations.contains_key(gpu),
            },
    {
        match self.gpu_allocations.get(gpu) {
            Some(owner) => Some(clone_opt_string(owner)),
            None => None,
        }
    }

    /// The whole ownership table by ascending GPU index.
    pub fn get_gpu_allocations(&self) -> (all: Vec<GpuAllocation>)
        requires
            self.wf(),
        ensures
            ascending_listing(
                all@.map_values(|e: GpuAllocation| e.gpu_id),
                self@.gpu_allocations.dom(),
            ),
            forall|i: int|
                0 <= i < all.len() ==> opt_chars((#[trigger] all[i]).queue)
                    == self@.gpu_allocations[all[i].gpu_id],
    {
        let mut all: Vec<GpuAllocation> = Vec::new();
        let mut k: usize = 0;
        proof {
            self.gpu_allocations.lemma_keys();
            assert(owners_view(self.gpu_allocations@).dom() =~= self.gpu_allocations@.dom());
        }
        while k < self.gpu_allocations.len()
            invariant
                self.wf(),
                k <= self.gpu_allocations.keys().len(),
                all.len() == k,
                forall|i: int|
                    0 <= i < k ==> (#[trigger] all[i]).gpu_id == self.gpu_allocations.keys()[i],
                forall|i: int|
                    0 <= i < k ==> opt_chars((#[trigger] all[i]).queue)
                        == self@.gpu_allocations[all[i].gpu_id],
            decreases self.gpu_allocations.keys().len() - k,
        {
            let gpu_id = self.gpu_allocations.key_at(k);
            let queue = clone_opt_string(self.gpu_allocations.value_at(k));
            all.push(GpuAllocation { gpu_id, queue });
            k += 1;
        }
        proof {
            assert(all@.map_values(|e: GpuAllocation| e.gpu_id) =~= self.gpu_allocations.keys());
        }
        all
    }
}

} // verus!

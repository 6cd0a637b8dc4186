//! One scheduling round on the state store: the round's decisions are
//! computed from the state at its start and then carried out.

use crate::models::{
    MemoryRequirementType, QueueMeta, QueueView, ResourceLimit, TaskMeta, TaskState, TaskView,
    DEFAULT_WAITING_QUEUE_NAME,
};
use crate::monitor::GpuStats;
use crate::placement::{
    by_priority, by_rank, qualifies, queue_slot, runs_before, task_slot, unreserved, Placement,
    Plan, BYTES_PER_MB, GPU_INDEX_SPACE,
};
use crate::state::DaemonState;
use crate::store::StateView;
use crate::text::string_is;
use vstd::prelude::*;

verus! {

/// One decision of a round: the task and the GPUs it gets.
#[derive(Debug, PartialEq, Eq)]
pub struct Assignment {
    pub task_id: u64,
    pub gpus: Vec<u8>,
}

impl View for Assignment {
    type V = Placement;

    open spec fn view(&self) -> Placement {
        Placement { task_id: self.task_id, gpus: self.gpus@ }
    }
}

impl DeepView for Assignment {
    type V = Placement;

    open spec fn deep_view(&self) -> Placement {
        self@
    }
}

/// Whether the GPU with telemetry `gpu_stat` qualifies under `limit`. Both
/// the memory check and the utilization check must pass; `gpu_id` names the
/// GPU and does not enter the decision.
pub fn is_gpu_qualifying_for_queue(gpu_id: u32, gpu_stat: &GpuStats, limit: &ResourceLimit) -> (ok:
    bool)
    ensures
        ok == qualifies(*gpu_stat, *limit),
{
    let free_mb: u64 = gpu_stat.memory_usage.free / BYTES_PER_MB;
    let total_mb: u64 = gpu_stat.memory_usage.total / BYTES_PER_MB;
    let memory_fits = match limit.memory_requirement_type {
        MemoryRequirementType::Ignore => true,
        MemoryRequirementType::AbsoluteMb => free_mb >= limit.memory_requirement_value,
        MemoryRequirementType::Percentage => {
            if total_mb == 0 {
                false
            } else {
                let have: u128 = 100u128 * (free_mb as u128);
                assert(limit.memory_requirement_value as u128 * (total_mb as u128)
                    <= 0xffff_ffff_ffff_ffffu128 * 0xffff_ffff_ffff_ffffu128) by (nonlinear_arith)
                    requires
                        limit.memory_requirement_value as u128 <= 0xffff_ffff_ffff_ffffu128,
                        total_mb as u128 <= 0xffff_ffff_ffff_ffffu128,
                ;
                let need: u128 = (limit.memory_requirement_value as u128) * (total_mb as u128);
                have >= need
            }
        },
    };
    let cap = limit.max_gpu_utilization;
    let utilization_fits = cap < 0 || cap > 100 || (gpu_stat.core_usage as i64) <= (cap as i64);
    memory_fits && utilization_fits
}

/// Whether `a` is placed before `b` whatever their order of arrival.
fn ranks_before(a: &TaskMeta, b: &TaskMeta) -> (before: bool)
    ensures
        before == runs_before(a@, b@),
{
    a.priority > b.priority || (a.priority == b.priority && a.create_time < b.create_time)
}

/// Sorts `tasks` into placement order.
pub fn sort_by_rank(tasks: &Vec<TaskMeta>) -> (sorted: Vec<TaskMeta>)
    ensures
        sorted.deep_view() == by_rank(tasks.deep_view()),
{
    let mut sorted: Vec<TaskMeta> = Vec::new();
    let mut k: usize = 0;
    assert(tasks.deep_view().take(0) =~= Seq::<TaskView>::empty());
    assert(sorted.deep_view() =~= Seq::<TaskView>::empty());
    while k < tasks.len()
        invariant
            k <= tasks.len(),
            sorted.deep_view() == by_rank(tasks.deep_view().take(k as int)),
        decreases tasks.len() - k,
    {
        let task = tasks[k].clone();
        let ghost placed = sorted.deep_view();
        let mut p: usize = sorted.len();
        assert(placed.take(p as int) =~= placed);
        while p > 0 && ranks_before(&task, &sorted[p - 1])
            invariant
                p <= sorted.len(),
                placed == sorted.deep_view(),
                task_slot(placed, task@) == task_slot(placed.take(p as int), task@),
            decreases p,
        {
            assert(placed.take(p as int).drop_last() =~= placed.take(p as int - 1));
            assert(placed.take(p as int).last() == sorted@[p as int - 1]@);
            p -= 1;
        }
        proof {
            if p > 0 {
                assert(placed.take(p as int).last() == sorted@[p as int - 1]@);
            }
            let next = tasks.deep_view().take(k as int + 1);
            assert(next.drop_last() =~= tasks.deep_view().take(k as int));
            assert(next.last() == task@);
        }
        sorted.insert(p, task);
        assert(sorted.deep_view() =~= placed.insert(p as int, task@));
        k += 1;
    }
    assert(tasks.deep_view().take(k as int) =~= tasks.deep_view());
    sorted
}

/// Sorts `queues` by descending priority, keeping the order of queues of
/// one priority.
pub fn sort_by_priority(queues: &Vec<QueueMeta>) -> (sorted: Vec<QueueMeta>)
    ensures
        sorted.deep_view() == by_priority(queues.deep_view()),
{
    let mut sorted: Vec<QueueMeta> = Vec::new();
    let mut k: usize = 0;
    assert(queues.deep_view().take(0) =~= Seq::<QueueView>::empty());
    assert(sorted.deep_view() =~= Seq::<QueueView>::empty());
    while k < queues.len()
        invariant
            k <= queues.len(),
            sorted.deep_view() == by_priority(queues.deep_view().take(k as int)),
        decreases queues.len() - k,
    {
        let queue = queues[k].clone();
        let ghost placed = sorted.deep_view();
        let mut p: usize = sorted.len();
        assert(placed.take(p as int) =~= placed);
        while p > 0 && queue.priority > sorted[p - 1].priority
            invariant
                p <= sorted.len(),
                placed == sorted.deep_view(),
                queue_slot(placed, queue@) == queue_slot(placed.take(p as int), queue@),
            decreases p,
        {
            assert(placed.take(p as int).drop_last() =~= placed.take(p as int - 1));
            assert(placed.take(p as int).last() == sorted@[p as int - 1]@);
            p -= 1;
        }
        proof {
            if p > 0 {
                assert(placed.take(p as int).last() == sorted@[p as int - 1]@);
            }
            let next = queues.deep_view().take(k as int + 1);
            assert(next.drop_last() =~= queues.deep_view().take(k as int));
            assert(next.last() == queue@);
        }
        sorted.insert(p, queue);
        assert(sorted.deep_view() =~= placed.insert(p as int, queue@));
        k += 1;
    }
    assert(queues.deep_view().take(k as int) =~= queues.deep_view());
    sorted
}

/// Whether GPU `gpu` is not ignored, has telemetry and qualifies under
/// `limit`.
fn gpu_is_usable(state: &DaemonState, limit: &ResourceLimit, gpu: u32) -> (usable: bool)
    requires
        state.wf(),
    ensures
        usable == state@.gpu_usable(*limit, gpu),
{
    if state.is_gpu_ignored(gpu) {
        return false;
    }
    match state.get_gpu_stats(gpu) {
        Some(stats) => is_gpu_qualifying_for_queue(gpu, &stats, limit),
        None => false,
    }
}

/// The GPUs on which tasks of `queue` can be placed: first its own, then
/// the free ones, each group by ascending index.
pub fn candidate_gpus(state: &DaemonState, queue: &QueueMeta) -> (found: Vec<u8>)
    requires
        state.wf(),
    ensures
        found@ == state@.candidates(queue@),
{
    let mut owned: Vec<u8> = Vec::new();
    let mut free: Vec<u8> = Vec::new();
    let mut g: usize = 0;
    while g < GPU_INDEX_SPACE
        invariant
            state.wf(),
            g <= GPU_INDEX_SPACE,
            owned@ == state@.owned_candidates(queue@, g as nat),
            free@ == state@.free_candidates(queue@, g as nat),
        decreases GPU_INDEX_SPACE - g,
    {
        let gpu = g as u32;
        let usable = gpu_is_usable(state, &queue.resource_limit, gpu);
        match state.get_gpu_allocation(gpu) {
            Some(Some(owner)) => {
                if usable && owner == queue.name {
                    owned.push(g as u8);
                }
            },
            _ => {
                if usable {
                    free.push(g as u8);
                }
            },
        }
        g += 1;
    }
    let ghost owned_part = owned@;
    let mut k: usize = 0;
    while k < free.len()
        invariant
            k <= free.len(),
            owned@ == owned_part + free@.take(k as int),
        decreases free.len() - k,
    {
        owned.push(free[k]);
        assert(owned@ =~= owned_part + free@.take(k as int + 1));
        k += 1;
    }
    assert(free@.take(k as int) =~= free@);
    owned
}

/// The tasks named by `ids` that exist and are waiting, in the order of
/// `ids`.
pub fn eligible_tasks(state: &DaemonState, ids: &Vec<u64>) -> (found: Vec<TaskMeta>)
    requires
        state.wf(),
    ensures
        found.deep_view() == state@.eligible(ids@),
{
    let mut found: Vec<TaskMeta> = Vec::new();
    let mut k: usize = 0;
    assert(ids@.take(0) =~= Seq::<u64>::empty());
    assert(found.deep_view() =~= Seq::<TaskView>::empty());
    while k < ids.len()
        invariant
            state.wf(),
            k <= ids.len(),
            found.deep_view() == state@.eligible(ids@.take(k as int)),
        decreases ids.len() - k,
    {
        let ghost so_far = found.deep_view();
        proof {
            let next = ids@.take(k as int + 1);
            assert(next.drop_last() =~= ids@.take(k as int));
            assert(next.last() == ids@[k as int]);
        }
        match state.get_task(ids[k]) {
            Some(task) => {
                if task.state == TaskState::Waiting {
                    found.push(task);
                    assert(found.deep_view() =~= so_far.push(task@));
                }
            },
            None => {},
        }
        k += 1;
    }
    assert(ids@.take(k as int) =~= ids@);
    found
}

/// The members of `candidates` whose flag in `reserved` is down, in their
/// order.
fn open_candidates(candidates: &Vec<u8>, reserved: &Vec<bool>, Ghost(taken): Ghost<Set<u8>>) -> (open:
    Vec<u8>)
    requires
        reserved.len() == GPU_INDEX_SPACE,
        forall|g: u8| reserved@[g as int] == taken.contains(g),
    ensures
        open@ == unreserved(candidates@, taken),
{
    let mut open: Vec<u8> = Vec::new();
    let mut k: usize = 0;
    assert(candidates@.take(0) =~= Seq::<u8>::empty());
    while k < candidates.len()
        invariant
            k <= candidates.len(),
            reserved.len() == GPU_INDEX_SPACE,
            forall|g: u8| reserved@[g as int] == taken.contains(g),
            open@ == unreserved(candidates@.take(k as int), taken),
        decreases candidates.len() - k,
    {
        let gpu = candidates[k];
        proof {
            let next = candidates@.take(k as int + 1);
            assert(next.drop_last() =~= candidates@.take(k as int));
            assert(next.last() == gpu);
        }
        if !reserved[gpu as usize] {
            open.push(gpu);
        }
        k += 1;
    }
    assert(candidates@.take(k as int) =~= candidates@);
    open
}

/// What a round has decided so far.
struct Draft {
    assignments: Vec<Assignment>,
    reserved: Vec<bool>,
    taken: Ghost<Set<u8>>,
}

impl Draft {
    spec fn wf(&self) -> bool {
        &&& self.reserved.len() == GPU_INDEX_SPACE
        &&& forall|g: u8| self.reserved@[g as int] == self.taken@.contains(g)
    }

    spec fn plan(&self, slots: int) -> Plan {
        Plan { placements: self.assignments.deep_view(), reserved: self.taken@, slots }
    }
}

/// Gives `task` its turn.
fn offer_task(draft: &mut Draft, slots: &mut usize, task: &TaskMeta, candidates: &Vec<u8>)
    requires
        old(draft).wf(),
    ensures
        final(draft).wf(),
        final(draft).plan(*final(slots) as int) == old(draft).plan(*old(slots) as int).offer(
            task@,
            candidates@,
        ),
{
    let ghost before = draft.plan(*slots as int);
    let ghost placed = draft.assignments.deep_view();
    if *slots == 0 {
        return ;
    }
    if task.gpu_require == 0 {
        draft.assignments.push(Assignment { task_id: task.id, gpus: Vec::new() });
        *slots = *slots - 1;
        assert(draft.assignments.deep_view() =~= placed.push(
            Placement { task_id: task.id, gpus: Seq::empty() },
        ));
        return ;
    }
    let mut open = open_candidates(candidates, &draft.reserved, Ghost(draft.taken@));
    let need = task.gpu_require as usize;
    if open.len() >= need {
        open.truncate(need);
        let ghost chosen = open@;
        assert(chosen =~= unreserved(candidates@, before.reserved).take(need as int));
        let mut k: usize = 0;
        while k < open.len()
            invariant
                k <= open.len(),
                open@ == chosen,
                draft.reserved.len() == GPU_INDEX_SPACE,
                draft.assignments == old(draft).assignments,
                forall|g: u8|
                    (#[trigger] draft.reserved@[g as int]) <==> (before.reserved.contains(g)
                        || chosen.take(k as int).contains(g)),
            decreases open.len() - k,
        {
            let gpu = open[k];
            let ghost flags = draft.reserved@;
            draft.reserved[gpu as usize] = true;
            proof {
                assert forall|g: u8|
                    (#[trigger] draft.reserved@[g as int]) <==> (before.reserved.contains(g)
                        || chosen.take(k as int + 1).contains(g)) by {
                    assert(draft.reserved@[g as int] == if g == gpu {
                        true
                    } else {
                        flags[g as int]
                    });
                    let shorter = chosen.take(k as int);
                    let longer = chosen.take(k as int + 1);
                    assert(flags[g as int] == (before.reserved.contains(g) || shorter.contains(g)));
                    if shorter.contains(g) {
                        let i = choose|i: int| 0 <= i < shorter.len() && shorter[i] == g;
                        assert(longer[i] == g);
                    }
                    if longer.contains(g) && g != gpu {
                        let i = choose|i: int| 0 <= i < longer.len() && longer[i] == g;
                        assert(shorter[i] == g);
                    }
                    if g == gpu {
                        assert(longer[k as int] == g);
                    }
                }
            }
            k += 1;
        }
        proof {
            assert(chosen.take(k as int) =~= chosen);
            draft.taken = Ghost(before.reserved.union(chosen.to_set()));
        }
        draft.assignments.push(Assignment { task_id: task.id, gpus: open });
        *slots = *slots - 1;
        assert(draft.assignments.deep_view() =~= placed.push(
            Placement { task_id: task.id, gpus: chosen },
        ));
    }
}

/// Gives `queue` its turn.
fn offer_queue(state: &DaemonState, draft: &mut Draft, queue: &QueueMeta)
    requires
        state.wf(),
        old(draft).wf(),
    ensures
        final(draft).wf(),
        final(draft).plan(0) == state@.offer_queue(old(draft).plan(0), queue@),
{
    if string_is(&queue.name, DEFAULT_WAITING_QUEUE_NAME) {
        return ;
    }
    let eligible = eligible_tasks(state, &queue.waiting_task_ids);
    let order = sort_by_rank(&eligible);
    let candidates = candidate_gpus(state, queue);
    let cap = queue.max_concurrent as usize;
    let running = queue.running_task_ids.len();
    let ghost start = Plan {
        slots: queue.max_concurrent as int - queue.running_task_ids.len() as int,
        ..draft.plan(0)
    };
    let mut slots: usize = if cap > running {
        cap - running
    } else {
        0
    };
    let mut k: usize = 0;
    while k < order.len()
        invariant
            k <= order.len(),
            draft.wf(),
            ({
                let reached = start.offer_all(order.deep_view(), candidates@, k as int);
                &&& draft.plan(0) == (Plan { slots: 0, ..reached })
                &&& slots == if reached.slots > 0 { reached.slots } else { 0 }
            }),
        decreases order.len() - k,
    {
        assert(order.deep_view()[k as int] == order@[k as int]@);
        offer_task(draft, &mut slots, &order[k], &candidates);
        k += 1;
    }
}

/// Everything one round places, in the order in which it is decided. The
/// state is only read.
pub fn plan_round(state: &DaemonState) -> (assignments: Vec<Assignment>)
    requires
        state.wf(),
    ensures
        assignments.deep_view() == state@.placements(),
        state@.coherent() ==> forall|i: int|
            0 <= i < state@.placements().len() ==> state@.placement_sound(
                #[trigger] state@.placements()[i],
            ),
{
    proof {
        if state@.coherent() {
            crate::round::law_round_places_soundly(state@);
        }
    }
    let queues = state.get_all_queues();
    let order = sort_by_priority(&queues);
    let mut reserved: Vec<bool> = Vec::new();
    while reserved.len() < GPU_INDEX_SPACE
        invariant
            reserved.len() <= GPU_INDEX_SPACE,
            forall|i: int| 0 <= i < reserved.len() ==> !reserved@[i],
        decreases GPU_INDEX_SPACE - reserved.len(),
    {
        reserved.push(false);
    }
    let mut draft = Draft { assignments: Vec::new(), reserved, taken: Ghost(Set::empty()) };
    assert(draft.assignments.deep_view() =~= Seq::<Placement>::empty());
    let mut k: usize = 0;
    while k < order.len()
        invariant
            state.wf(),
            k <= order.len(),
            draft.wf(),
            draft.plan(0) == state@.offer_queues(order.deep_view(), k as int),
        decreases order.len() - k,
    {
        assert(order.deep_view()[k as int] == order@[k as int]@);
        offer_queue(state, &mut draft, &order[k]);
        k += 1;
    }
    draft.assignments
}

/// Runs one scheduling round: decides the placements from the state as it
/// is, puts every placed task into Running on its GPUs, and returns the
/// records of the tasks to start, each as it reads after its placement.
/// Whatever the store, only Waiting tasks are touched, and a task that is
/// started holds as many GPUs as it requires, each once, none of them
/// ignored.
pub fn schedule_tasks(state: &mut DaemonState) -> (launches: Vec<TaskMeta>)
    requires
        old(state).wf(),
    ensures
        final(state).wf(),
        final(state)@ == old(state)@.after_round(),
        launches.deep_view() == old(state)@.round_launches(),
        crate::serving::round_served(old(state)@, final(state)@),
        forall|i: int|
            0 <= i < old(state)@.placements().len() ==> old(state)@.placement_served(
                #[trigger] old(state)@.placements()[i],
            ),
        old(state)@.lists_agree() ==> forall|i: int|
            0 <= i < old(state)@.placements().len() ==> old(state)@.placement_sound(
                #[trigger] old(state)@.placements()[i],
            ),
        old(state)@.lists_agree() ==> final(state)@.lists_agree(),
        old(state)@.lists_agree() ==> crate::round::round_done(old(state)@, final(state)@),
        old(state)@.coherent() ==> final(state)@.coherent(),
        old(state)@.tidy() ==> final(state)@.tidy(),
        old(state)@.tasks_have_queues() ==> final(state)@.tasks_have_queues(),
        old(state)@.running_gpus_sound() ==> final(state)@.running_gpus_sound(),
        old(state)@.running_gpus_exclusive() && old(state)@.round_spares_running()
            ==> final(state)@.running_gpus_exclusive(),
{
    proof {
        if old(state)@.tasks_have_queues() {
            crate::housing::law_events_keep_tasks_in_queues(old(state)@);
        }
        let s = old(state)@;
        crate::serving::law_round_serves(s);
        crate::serving::law_round_starts_served(s);
        if s.tidy() {
            crate::ended::law_events_keep_tidy(s);
        }
        if s.coherent() {
            crate::round::law_round_keeps_coherence(s);
        }
        if s.running_gpus_sound() {
            crate::serving::law_round_keeps_gpus_counted(s);
        }
        if s.running_gpus_exclusive() && s.round_spares_running() {
            crate::serving::law_round_keeps_gpus_apart(s);
        }
        if s.lists_agree() {
            crate::round::law_round_places_soundly(s);
            crate::round::law_round_keeps_lists_agreeing(s);
            crate::round::law_round_records_placements(s);
        }
    }
    let assignments = plan_round(state);
    let ghost placements = assignments.deep_view();
    let mut launches: Vec<TaskMeta> = Vec::new();
    let mut k: usize = 0;
    assert(launches.deep_view() =~= Seq::<TaskView>::empty());
    while k < assignments.len()
        invariant
            state.wf(),
            k <= assignments.len(),
            placements == assignments.deep_view(),
            state@ == old(state)@.carry_out(placements, k as int),
            launches.deep_view() == old(state)@.launched(placements, k as int),
        decreases assignments.len() - k,
    {
        let ghost so_far = launches.deep_view();
        assert(placements[k as int] == assignments@[k as int]@);
        let gpus = assignments[k].gpus.clone();
        let _ = state.update_task_state(assignments[k].task_id, TaskState::Running, Some(gpus), None);
        match state.get_task(assignments[k].task_id) {
            Some(task) => {
                launches.push(task);
                assert(launches.deep_view() =~= so_far.push(task@));
            },
            None => {},
        }
        k += 1;
    }
    launches
}

/// The process ids whose existence a reconciliation has to probe: those of
/// the running tasks that have one, by task order.
pub fn pids_to_probe(state: &DaemonState) -> (pids: Vec<i32>)
    requires
        state.wf(),
    ensures
        pids@ == state@.live_pids(state@.tasks.len() as int),
{
    let tasks = state.get_all_tasks();
    let mut pids: Vec<i32> = Vec::new();
    let mut k: usize = 0;
    while k < tasks.len()
        invariant
            k <= tasks.len(),
            tasks.deep_view() == state@.tasks,
            pids@ == state@.live_pids(k as int),
        decreases tasks.len() - k,
    {
        assert(tasks.deep_view()[k as int] == tasks@[k as int]@);
        if tasks[k].state == TaskState::Running {
            match tasks[k].pid {
                Some(pid) => {
                    pids.push(pid);
                },
                None => {},
            }
        }
        k += 1;
    }
    assert(tasks.deep_view().len() == tasks.len());
    pids
}

/// Whether `pid` occurs in `pids`.
fn contains_pid(pids: &Vec<i32>, pid: i32) -> (found: bool)
    ensures
        found == pids@.contains(pid),
{
    let mut k: usize = 0;
    while k < pids.len()
        invariant
            k <= pids.len(),
            forall|i: int| 0 <= i < k ==> pids@[i] != pid,
        decreases pids.len() - k,
    {
        if pids[k] == pid {
            return true;
        }
        k += 1;
    }
    false
}

/// The failure reason of an orphaned task.
fn orphan_reason_text(task: &TaskMeta) -> (reason: String)
    ensures
        reason@ == StateView::orphan_reason(task@),
{
    match task.pid {
        Some(pid) => {
            let mut reason = String::from_str("process pid ");
            let digits = crate::text::i32_to_string(pid);
            reason.append(digits.as_str());
            reason.append(" disappeared");
            assert(reason@ =~= StateView::orphan_reason(task@));
            reason
        },
        None => String::from_str("was Running without a pid"),
    }
}

/// Reconciles the running tasks with the process ids reported `gone`:
/// a running task without a process id, or whose process id is gone, is
/// put into Failed with the reason.
pub fn update_tasks(state: &mut DaemonState, gone: &Vec<i32>)
    requires
        old(state).wf(),
    ensures
        final(state).wf(),
        final(state)@ == old(state)@.after_reconcile(gone@),
        old(state)@.coherent() ==> final(state)@.coherent(),
        old(state)@.tidy() ==> final(state)@.tidy(),
        old(state)@.tasks_have_queues() ==> final(state)@.tasks_have_queues(),
        old(state)@.running_gpus_sound() ==> final(state)@.running_gpus_sound(),
        old(state)@.running_gpus_exclusive() ==> final(state)@.running_gpus_exclusive(),
{
    proof {
        if old(state)@.tasks_have_queues() {
            crate::housing::law_events_keep_tasks_in_queues(old(state)@);
        }
        if old(state)@.tidy() {
            crate::ended::law_events_keep_tidy(old(state)@);
        }
        if old(state)@.coherent() {
            crate::laws::law_endings_keep_coherence(old(state)@);
            assert(old(state)@.after_reconcile(gone@).coherent());
        }
        crate::gpu_order::law_events_are_calm(old(state)@);
        crate::gpu_order::law_calm_keeps_gpus_in_order(
            old(state)@,
            old(state)@.after_reconcile(gone@),
        );
    }
    let tasks = state.get_all_tasks();
    let ghost snapshot = tasks.deep_view();
    let mut k: usize = 0;
    while k < tasks.len()
        invariant
            state.wf(),
            k <= tasks.len(),
            snapshot == tasks.deep_view(),
            state@ == old(state)@.reconcile(snapshot, gone@, k as int),
        decreases tasks.len() - k,
    {
        assert(snapshot[k as int] == tasks@[k as int]@);
        let lost = tasks[k].state == TaskState::Running && match tasks[k].pid {
            Some(pid) => contains_pid(gone, pid),
            None => true,
        };
        if lost {
            let reason = orphan_reason_text(&tasks[k]);
            let _ = state.update_task_state(tasks[k].id, TaskState::Failed, None, Some(reason));
        }
        k += 1;
    }
    assert(snapshot.len() == tasks.len());
}

} // verus!

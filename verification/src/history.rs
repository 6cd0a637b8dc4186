//! Histories: everything that can happen to the daemon, one event after
//! the other, and what holds after all of them.

use crate::message::MessageView;
use crate::monitor::GpuStats;
use crate::store::StateView;
use crate::submit_handler::SubmitCounters;
use crate::supervise::ChildExitView;
use vstd::prelude::*;

verus! {

/// One thing that happens to the daemon.
pub enum Event {
    /// The daemon starts: the well-known queues are created.
    Booted,
    /// A request arrives at the given time.
    Request { now_secs: u64, log_dir: Seq<char>, message: MessageView },
    /// A telemetry snapshot is taken in.
    Telemetry { snapshot: Seq<Option<GpuStats>> },
    /// A scheduling round places tasks.
    Round,
    /// The child of a placed task was started with process id `pid`.
    Started { id: u64, pid: i32 },
    /// A placed task could not be started.
    LaunchFailed { id: u64, reason: Seq<char> },
    /// The child of a task ended.
    Exited { id: u64, exit: ChildExitView },
    /// The running tasks were reconciled with the processes that are gone.
    Reconciled { gone: Seq<i32> },
}

/// The daemon's state and the counters of its process.
pub struct World {
    pub state: StateView,
    pub counters: SubmitCounters,
}

impl World {
    /// The world in which a daemon starts.
    pub open spec fn fresh() -> World {
        World {
            state: StateView::empty(),
            counters: SubmitCounters { id_counter: 0, name_counter: 1 },
        }
    }

    /// The world after `event`.
    pub open spec fn after(self, event: Event) -> World {
        match event {
            Event::Booted => World { state: self.state.with_default_queues(), ..self },
            Event::Request { now_secs, log_dir, message } => {
                let handled = self.state.handle(self.counters, now_secs, log_dir, message);
                World { state: handled.state, counters: handled.counters }
            },
            Event::Telemetry { snapshot } => World {
                state: self.state.refresh_gpu_stats(snapshot),
                ..self
            },
            Event::Round => World { state: self.state.after_round(), ..self },
            Event::Started { id, pid } => World {
                state: self.state.set_task_pid(id, Some(pid)),
                ..self
            },
            Event::LaunchFailed { id, reason } => World {
                state: self.state.after_launch_failure(id, reason),
                ..self
            },
            Event::Exited { id, exit } => World { state: self.state.after_exit(id, exit), ..self },
            Event::Reconciled { gone } => World { state: self.state.after_reconcile(gone), ..self },
        }
    }

    /// Whether `event` moves no task that is not Waiting to another queue.
    pub open spec fn moves_waiting_only(self, event: Event) -> bool {
        match event {
            Event::Request { now_secs, log_dir, message } => self.state.request_moves_waiting(
                message,
            ),
            _ => true,
        }
    }

    /// Whether `event` moves no task that is Finished or Failed to another
    /// queue.
    pub open spec fn moves_live_only(self, event: Event) -> bool {
        match event {
            Event::Request { now_secs, log_dir, message } => self.state.request_moves_live(message),
            _ => true,
        }
    }

    /// Whether `event` leaves alone the GPUs that Running tasks hold: as a
    /// request it does not ignore one of them, and as a round it places
    /// nothing on one of them.
    pub open spec fn spares_running(self, event: Event) -> bool {
        match event {
            Event::Request { now_secs, log_dir, message } => self.state.request_spares_running(
                message,
            ),
            Event::Round => self.state.round_spares_running(),
            _ => true,
        }
    }

    /// The world after the first `n` of `events`.
    pub open spec fn after_all(self, events: Seq<Event>, n: int) -> World
        decreases n,
    {
        if n <= 0 {
            self
        } else {
            self.after_all(events, n - 1).after(events[n - 1])
        }
    }

    /// Whether none of the first `n` of `events` moves a task that is not
    /// Waiting at its time.
    pub open spec fn moving_waiting_only(self, events: Seq<Event>, n: int) -> bool
        decreases n,
    {
        n <= 0 || (self.moving_waiting_only(events, n - 1) && self.after_all(
            events,
            n - 1,
        ).moves_waiting_only(events[n - 1]))
    }

    /// Whether none of the first `n` of `events` moves a task that is
    /// Finished or Failed at its time.
    pub open spec fn moving_live_only(self, events: Seq<Event>, n: int) -> bool
        decreases n,
    {
        n <= 0 || (self.moving_live_only(events, n - 1) && self.after_all(
            events,
            n - 1,
        ).moves_live_only(events[n - 1]))
    }

    /// Whether each of the first `n` of `events` leaves alone the GPUs
    /// that Running tasks hold at its time.
    pub open spec fn sparing_running(self, events: Seq<Event>, n: int) -> bool
        decreases n,
    {
        n <= 0 || (self.sparing_running(events, n - 1) && self.after_all(
            events,
            n - 1,
        ).spares_running(events[n - 1]))
    }
}

/// One event keeps the store coherent, unless it moves a task that is not
/// Waiting.
pub proof fn law_event_keeps_coherence(world: World, event: Event)
    requires
        world.state.coherent(),
        world.moves_waiting_only(event),
    ensures
        world.after(event).state.coherent(),
{
    let s = world.state;
    crate::laws::law_bookkeeping_keeps_coherence(s);
    crate::laws::law_endings_keep_coherence(s);
    match event {
        Event::Booted => {
            crate::laws::law_default_queues_keep_coherence(s);
        },
        Event::Request { now_secs, log_dir, message } => {
            crate::laws::law_requests_keep_coherence(s, world.counters, now_secs, log_dir, message);
        },
        Event::Round => {
            crate::round::law_round_keeps_coherence(s);
        },
        _ => {},
    }
}

/// One event leaves every Running task with as many GPUs as it requires,
/// each once and none of them ignored, and makes no two Running tasks
/// share a GPU, provided that the event leaves alone the GPUs that Running
/// tasks hold.
pub proof fn law_event_keeps_gpus_in_order(world: World, event: Event)
    requires
        world.state.ids_distinct(),
        world.state.running_gpus_sound(),
        world.state.running_gpus_exclusive(),
        world.spares_running(event),
    ensures
        world.after(event).state.ids_distinct(),
        world.after(event).state.running_gpus_sound(),
        world.after(event).state.running_gpus_exclusive(),
{
    let s = world.state;
    let after = world.after(event).state;
    crate::gpu_order::law_events_are_calm(s);
    match event {
        Event::Request { now_secs, log_dir, message } => {
            crate::gpu_order::lemma_request_effect(s, world.counters, now_secs, log_dir, message);
            crate::gpu_order::law_requests_keep_gpus_sound(
                s,
                world.counters,
                now_secs,
                log_dir,
                message,
            );
            crate::gpu_order::law_requests_keep_gpus_exclusive(
                s,
                world.counters,
                now_secs,
                log_dir,
                message,
            );
        },
        Event::Round => {
            crate::serving::law_round_starts_served(s);
            crate::serving::law_round_keeps_gpus_counted(s);
            crate::serving::law_round_keeps_gpus_apart(s);
        },
        Event::Started { id, pid } => {
            crate::gpu_order::lemma_store_calm(s);
            crate::gpu_order::law_calm_keeps_gpus_in_order(s, after);
        },
        _ => {
            crate::gpu_order::law_calm_keeps_gpus_in_order(s, after);
        },
    }
}

/// Whatever happens to a daemon, in whatever order: as long as no task is
/// moved to another queue while it is not Waiting, every task names an
/// existing queue, the lists of every queue name exactly its Waiting and
/// its Running tasks, finished and failed tasks are in no list, and no
/// queue runs more tasks than its cap allows.
pub proof fn law_histories_keep_coherence(events: Seq<Event>, n: int)
    requires
        0 <= n <= events.len(),
        World::fresh().moving_waiting_only(events, n),
    ensures
        ({
            let s = World::fresh().after_all(events, n).state;
            &&& s.coherent()
            &&& forall|i: int, q: int|
                0 <= i < s.tasks.len() && 0 <= q < s.queues.len() && (
                #[trigger] s.tasks[i]).state.is_terminal() ==> !(
                #[trigger] s.queues[q]).waiting_task_ids.contains(s.tasks[i].id)
                    && !s.queues[q].running_task_ids.contains(s.tasks[i].id)
            &&& forall|q: int|
                0 <= q < s.queues.len() ==> s.running_ids((#[trigger] s.queues[q]).name).finite()
                    && s.running_ids(s.queues[q].name).len() <= s.queues[q].max_concurrent
        }),
    decreases n,
{
    if n > 0 {
        law_histories_keep_coherence(events, n - 1);
        law_event_keeps_coherence(World::fresh().after_all(events, n - 1), events[n - 1]);
    }
    let s = World::fresh().after_all(events, n).state;
    crate::laws::law_lists_and_records_agree(s);
    assert forall|q: int| 0 <= q < s.queues.len() implies s.running_ids(
        (#[trigger] s.queues[q]).name,
    ).finite() && s.running_ids(s.queues[q].name).len() <= s.queues[q].max_concurrent by {
        crate::laws::law_running_within_cap(s, q);
    }
}

/// Whatever happens to a daemon, in whatever order: every task names a
/// queue that exists.
pub proof fn law_histories_keep_tasks_in_queues(events: Seq<Event>, n: int)
    requires
        0 <= n <= events.len(),
    ensures
        ({
            let s = World::fresh().after_all(events, n).state;
            forall|i: int| 0 <= i < s.tasks.len() ==> s.has_queue((#[trigger] s.tasks[i]).queue)
        }),
    decreases n,
{
    if n > 0 {
        law_histories_keep_tasks_in_queues(events, n - 1);
        let world = World::fresh().after_all(events, n - 1);
        assert(world.state.tasks_have_queues());
        crate::housing::law_events_keep_tasks_in_queues(world.state);
        match events[n - 1] {
            Event::Request { now_secs, log_dir, message } => {
                crate::housing::law_requests_keep_tasks_in_queues(
                    world.state,
                    world.counters,
                    now_secs,
                    log_dir,
                    message,
                );
            },
            _ => {},
        }
        assert(world.after(events[n - 1]).state.tasks_have_queues());
    }
}

/// One event leaves every Finished and every Failed task out of the lists
/// of every queue, unless it moves such a task to another queue.
pub proof fn law_event_keeps_ended_unlisted(world: World, event: Event)
    requires
        world.state.tidy(),
        world.moves_live_only(event),
    ensures
        world.after(event).state.tidy(),
{
    let s = world.state;
    crate::ended::law_events_keep_tidy(s);
    match event {
        Event::Request { now_secs, log_dir, message } => {
            crate::ended::law_requests_keep_tidy(s, world.counters, now_secs, log_dir, message);
        },
        _ => {},
    }
}

/// Whatever happens to a daemon, in whatever order: as long as no task is
/// moved to another queue after it has Finished or Failed, no task id
/// occurs twice, and no Finished or Failed task is in the waiting list or
/// the running list of any queue. A move is left out because it parks the
/// task in the waiting list of its new queue whatever the state of the
/// task.
pub proof fn law_histories_keep_ended_unlisted(events: Seq<Event>, n: int)
    requires
        0 <= n <= events.len(),
        World::fresh().moving_live_only(events, n),
    ensures
        ({
            let s = World::fresh().after_all(events, n).state;
            &&& s.tidy()
            &&& forall|i: int, j: int| 0 <= i < j < s.tasks.len() ==> s.tasks[i].id != s.tasks[j].id
            &&& forall|i: int, q: int|
                0 <= i < s.tasks.len() && 0 <= q < s.queues.len() && (
                #[trigger] s.tasks[i]).state.is_terminal() ==> !(
                #[trigger] s.queues[q]).waiting_task_ids.contains(s.tasks[i].id)
                    && !s.queues[q].running_task_ids.contains(s.tasks[i].id)
        }),
    decreases n,
{
    if n > 0 {
        law_histories_keep_ended_unlisted(events, n - 1);
        law_event_keeps_ended_unlisted(World::fresh().after_all(events, n - 1), events[n - 1]);
    }
    let s = World::fresh().after_all(events, n).state;
    assert forall|i: int, q: int|
        0 <= i < s.tasks.len() && 0 <= q < s.queues.len() && (
        #[trigger] s.tasks[i]).state.is_terminal() implies !(
    #[trigger] s.queues[q]).waiting_task_ids.contains(s.tasks[i].id)
        && !s.queues[q].running_task_ids.contains(s.tasks[i].id) by {
        assert(s.ended(s.tasks[i].id));
        if s.queues[q].lists(s.tasks[i].id) {
            assert(s.in_lists(s.tasks[i].id));
        }
    }
}

/// Whatever happens to a daemon, in whatever order: as long as no GPU is
/// ignored while a Running task holds it, and no round places a task on a
/// GPU that a Running task holds, every Running task holds as many GPUs as
/// it requires, each once and none of them ignored, and no two Running
/// tasks share a GPU.
pub proof fn law_histories_keep_gpus_in_order(events: Seq<Event>, n: int)
    requires
        0 <= n <= events.len(),
        World::fresh().sparing_running(events, n),
    ensures
        World::fresh().after_all(events, n).state.ids_distinct(),
        World::fresh().after_all(events, n).state.running_gpus_sound(),
        World::fresh().after_all(events, n).state.running_gpus_exclusive(),
    decreases n,
{
    if n > 0 {
        law_histories_keep_gpus_in_order(events, n - 1);
        law_event_keeps_gpus_in_order(World::fresh().after_all(events, n - 1), events[n - 1]);
    }
}

/// Whatever happens to a daemon, in whatever order: no ignored GPU has an
/// owner.
pub proof fn law_histories_keep_ignored_unowned(events: Seq<Event>, n: int)
    requires
        0 <= n <= events.len(),
    ensures
        World::fresh().after_all(events, n).state.ignored_gpus_unowned(),
    decreases n,
{
    if n > 0 {
        law_histories_keep_ignored_unowned(events, n - 1);
        let world = World::fresh().after_all(events, n - 1);
        crate::gpu_order::law_events_keep_ignored_unowned(world.state);
        match events[n - 1] {
            Event::Request { now_secs, log_dir, message } => {
                crate::gpu_order::law_requests_keep_ignored_unowned(
                    world.state,
                    world.counters,
                    now_secs,
                    log_dir,
                    message,
                );
            },
            _ => {},
        }
    }
}

} // verus!

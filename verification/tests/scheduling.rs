use gavel::daemon::ensure_default_queues_exist;
use gavel::gpu_handler::handle_gpu_command;
use gavel::message::{GPUAction, Message, QueueAction, SubmitAction, TaskAction};
use gavel::models::{
    MemoryRequirementType, QueueMeta, ResourceLimit, TaskMeta, TaskState,
};
use gavel::monitor::{GpuStats, MemoryInfo};
use gavel::queue_handler::handle_queue_command;
use gavel::scheduler::{
    candidate_gpus, eligible_tasks, is_gpu_qualifying_for_queue, pids_to_probe, plan_round,
    schedule_tasks, sort_by_priority, sort_by_rank, update_tasks, Assignment,
};
use gavel::state::DaemonState;
use gavel::submit_handler::{handle_submit_command, SubmitContext, SubmitCounters};
use gavel::supervise::{record_child_exit, record_launch_failure, ChildExit};
use gavel::task_handler::{handle_task_command, TaskStep};

const MB: u64 = 1024 * 1024;

fn gpu(free_mb: u64, total_mb: u64, core_usage: u32) -> GpuStats {
    GpuStats {
        temperature: 50,
        core_usage,
        memory_usage: MemoryInfo {
            total: total_mb * MB,
            used: (total_mb - free_mb) * MB,
            free: free_mb * MB,
        },
        power_usage: 150_000,
    }
}

fn limit(kind: MemoryRequirementType, value: u64, max_util: i32) -> ResourceLimit {
    ResourceLimit {
        memory_requirement_type: kind,
        memory_requirement_value: value,
        max_gpu_utilization: max_util,
    }
}

fn task(id: u64, queue: &str, gpus: u8, priority: u8, create_time: u64) -> TaskMeta {
    TaskMeta {
        pid: None,
        id,
        name: format!("t{}", id),
        cmd: String::from("true"),
        gpu_require: gpus,
        state: TaskState::Waiting,
        log_path: format!("/logs/{}.log", id),
        priority,
        queue: String::from(queue),
        create_time,
        gpu_ids: Vec::new(),
        failure_reason: None,
    }
}

fn queue(name: &str, priority: u8, max_concurrent: u8) -> QueueMeta {
    QueueMeta {
        name: String::from(name),
        max_concurrent,
        priority,
        waiting_task_ids: Vec::new(),
        running_task_ids: Vec::new(),
        allocated_gpus: Vec::new(),
        resource_limit: ResourceLimit::default(),
    }
}

fn context(now_secs: u64) -> SubmitContext {
    SubmitContext { now_secs, log_dir: String::from("/tmp/gavel_logs") }
}

fn booted(gpus: usize) -> DaemonState {
    let mut state = DaemonState::new();
    let snapshot: Vec<Option<GpuStats>> = (0..gpus).map(|_| Some(gpu(8000, 10000, 0))).collect();
    state.update_all_gpu_stats(&snapshot);
    ensure_default_queues_exist(&mut state);
    state
}

fn submit(state: &mut DaemonState, counters: &mut SubmitCounters, now: u64, cmd: &str, gpus: u8, queue: Option<&str>) -> u64 {
    let before: Vec<u64> = state.get_all_tasks().iter().map(|t| t.id).collect();
    let reply = handle_submit_command(
        SubmitAction::Command {
            command: String::from(cmd),
            gpu_num_required: gpus,
            queue_name: queue.map(String::from),
            name: None,
        },
        state,
        counters,
        &context(now),
    );
    assert!(matches!(reply, Message::Ack(_)), "{:?}", reply);
    let after = state.get_all_tasks();
    let fresh: Vec<u64> = after.iter().map(|t| t.id).filter(|id| !before.contains(id)).collect();
    assert_eq!(fresh.len(), 1);
    fresh[0]
}

fn run(state: &mut DaemonState, id: u64) {
    let step = handle_task_command(TaskAction::Run { task_id: id }, state);
    assert!(matches!(step, TaskStep::Reply(Message::Ack(_))), "{:?}", step);
}

#[test]
fn memory_is_ignored_by_default() {
    let none = ResourceLimit::default();
    assert!(is_gpu_qualifying_for_queue(0, &gpu(0, 0, 100), &none));
    assert!(is_gpu_qualifying_for_queue(0, &gpu(1, 10, 250), &none));
}

#[test]
fn absolute_memory_compares_whole_mebibytes() {
    let need = limit(MemoryRequirementType::AbsoluteMb, 1000, -1);
    assert!(is_gpu_qualifying_for_queue(0, &gpu(1000, 10000, 0), &need));
    assert!(!is_gpu_qualifying_for_queue(0, &gpu(999, 10000, 0), &need));
    let mut almost = gpu(999, 10000, 0);
    almost.memory_usage.free = 1000 * MB - 1;
    assert!(!is_gpu_qualifying_for_queue(0, &almost, &need));
}

#[test]
fn percentage_memory_compares_free_with_a_share_of_total() {
    let half = limit(MemoryRequirementType::Percentage, 50, -1);
    let twentieth = limit(MemoryRequirementType::Percentage, 5, -1);
    let stats = gpu(1000, 10000, 0);
    assert!(!is_gpu_qualifying_for_queue(0, &stats, &half));
    assert!(is_gpu_qualifying_for_queue(0, &stats, &twentieth));
    assert!(is_gpu_qualifying_for_queue(0, &gpu(5000, 10000, 0), &half));
    assert!(!is_gpu_qualifying_for_queue(0, &gpu(4999, 10000, 0), &half));
    assert!(is_gpu_qualifying_for_queue(0, &gpu(0, 10000, 0), &limit(MemoryRequirementType::Percentage, 0, -1)));
    assert!(is_gpu_qualifying_for_queue(0, &gpu(10000, 10000, 0), &limit(MemoryRequirementType::Percentage, 100, -1)));
    assert!(!is_gpu_qualifying_for_queue(0, &gpu(9999, 10000, 0), &limit(MemoryRequirementType::Percentage, 100, -1)));
}

#[test]
fn percentage_memory_fails_without_total_memory() {
    let any = limit(MemoryRequirementType::Percentage, 0, -1);
    assert!(!is_gpu_qualifying_for_queue(0, &gpu(0, 0, 0), &any));
    let mut tiny = gpu(0, 0, 0);
    tiny.memory_usage.total = MB - 1;
    tiny.memory_usage.free = MB - 1;
    assert!(!is_gpu_qualifying_for_queue(0, &tiny, &any));
}

#[test]
fn percentage_memory_does_not_overflow() {
    let huge = limit(MemoryRequirementType::Percentage, u64::MAX, -1);
    let mut stats = gpu(0, 0, 0);
    stats.memory_usage.total = u64::MAX;
    stats.memory_usage.free = u64::MAX;
    assert!(!is_gpu_qualifying_for_queue(0, &stats, &huge));
    assert!(is_gpu_qualifying_for_queue(0, &stats, &limit(MemoryRequirementType::Percentage, 100, -1)));
}

#[test]
fn utilization_cap_applies_only_within_zero_to_hundred() {
    let stats = gpu(100, 100, 60);
    assert!(is_gpu_qualifying_for_queue(0, &stats, &limit(MemoryRequirementType::Ignore, 0, 60)));
    assert!(!is_gpu_qualifying_for_queue(0, &stats, &limit(MemoryRequirementType::Ignore, 0, 59)));
    assert!(is_gpu_qualifying_for_queue(0, &stats, &limit(MemoryRequirementType::Ignore, 0, -1)));
    assert!(is_gpu_qualifying_for_queue(0, &stats, &limit(MemoryRequirementType::Ignore, 0, 101)));
    assert!(is_gpu_qualifying_for_queue(0, &gpu(1, 1, 0), &limit(MemoryRequirementType::Ignore, 0, 0)));
    assert!(!is_gpu_qualifying_for_queue(0, &gpu(1, 1, 1), &limit(MemoryRequirementType::Ignore, 0, 0)));
    assert!(is_gpu_qualifying_for_queue(0, &gpu(1, 1, 100), &limit(MemoryRequirementType::Ignore, 0, 100)));
    assert!(!is_gpu_qualifying_for_queue(0, &gpu(1, 1, 4_000_000_000), &limit(MemoryRequirementType::Ignore, 0, 100)));
}

#[test]
fn both_checks_must_pass() {
    let both = limit(MemoryRequirementType::AbsoluteMb, 10, 50);
    assert!(is_gpu_qualifying_for_queue(0, &gpu(10, 100, 50), &both));
    assert!(!is_gpu_qualifying_for_queue(0, &gpu(9, 100, 50), &both));
    assert!(!is_gpu_qualifying_for_queue(0, &gpu(10, 100, 51), &both));
}

#[test]
fn tasks_are_sorted_by_priority_then_age_then_position() {
    let tasks = vec![
        task(1, "q", 1, 5, 30),
        task(2, "q", 1, 9, 40),
        task(3, "q", 1, 5, 10),
        task(4, "q", 1, 5, 30),
        task(5, "q", 1, 0, 1),
        task(6, "q", 1, 9, 40),
    ];
    let sorted: Vec<u64> = sort_by_rank(&tasks).iter().map(|t| t.id).collect();
    assert_eq!(sorted, vec![2, 6, 3, 1, 4, 5]);
    assert!(sort_by_rank(&Vec::new()).is_empty());
}

#[test]
fn queues_are_sorted_by_descending_priority_keeping_ties() {
    let queues = vec![queue("a", 1, 1), queue("b", 10, 1), queue("c", 1, 1), queue("d", 5, 1), queue("e", 10, 1)];
    let sorted: Vec<String> = sort_by_priority(&queues).iter().map(|q| q.name.clone()).collect();
    assert_eq!(sorted, vec!["b", "e", "d", "a", "c"]);
}

#[test]
fn default_queues_take_the_gpus_at_boot() {
    let state = booted(2);
    let waiting = state.get_queue("waiting_queue").unwrap();
    assert_eq!(waiting.priority, 10);
    assert_eq!(waiting.max_concurrent, 1);
    assert!(waiting.allocated_gpus.is_empty());
    let running = state.get_queue("running_queue").unwrap();
    assert_eq!(running.priority, 1);
    assert_eq!(running.max_concurrent, 2);
    assert_eq!(running.allocated_gpus, vec![0, 1]);
    assert_eq!(state.get_gpu_allocation(0), Some(Some(String::from("running_queue"))));
    assert_eq!(state.get_gpu_allocation(1), Some(Some(String::from("running_queue"))));
}

#[test]
fn default_queues_are_created_only_once() {
    let mut state = booted(1);
    let mut counters = SubmitCounters::new();
    let id = submit(&mut state, &mut counters, 1000, "true", 1, None);
    state.update_all_gpu_stats(&vec![Some(gpu(1, 2, 3)), Some(gpu(1, 2, 3))]);
    ensure_default_queues_exist(&mut state);
    assert_eq!(state.get_all_queues().len(), 2);
    assert_eq!(state.get_queue("waiting_queue").unwrap().waiting_task_ids, vec![id]);
    assert_eq!(state.get_queue("running_queue").unwrap().max_concurrent, 1);
    assert_eq!(state.get_gpu_allocation(1), None);
}

#[test]
fn default_queues_skip_ignored_gpus() {
    let mut state = DaemonState::new();
    state.update_all_gpu_stats(&vec![Some(gpu(1, 2, 0)), Some(gpu(1, 2, 0)), Some(gpu(1, 2, 0))]);
    state.set_gpu_ignore(1);
    ensure_default_queues_exist(&mut state);
    let running = state.get_queue("running_queue").unwrap();
    assert_eq!(running.allocated_gpus, vec![0, 2]);
    assert_eq!(running.max_concurrent, 2);
    assert_eq!(state.get_gpu_allocation(1), None);
}

#[test]
fn submit_run_place_and_finish() {
    let mut state = booted(1);
    let mut counters = SubmitCounters::new();
    let id = submit(&mut state, &mut counters, 1_700_000_123, "true", 1, None);
    let parked = state.get_task(id).unwrap();
    assert_eq!(parked.queue, "waiting_queue");
    assert_eq!(parked.state, TaskState::Waiting);
    assert!(schedule_tasks(&mut state).is_empty());
    assert_eq!(state.get_task(id).unwrap().state, TaskState::Waiting);
    run(&mut state, id);
    let released = state.get_task(id).unwrap();
    assert_eq!(released.queue, "running_queue");
    assert_eq!(released.state, TaskState::Waiting);
    let launches = schedule_tasks(&mut state);
    assert_eq!(launches.len(), 1);
    assert_eq!(launches[0].id, id);
    assert_eq!(launches[0].state, TaskState::Running);
    assert_eq!(launches[0].gpu_ids, vec![0]);
    assert_eq!(state.get_task(id).unwrap(), launches[0]);
    assert_eq!(state.get_queue("running_queue").unwrap().running_task_ids, vec![id]);
    assert!(state.get_queue("running_queue").unwrap().waiting_task_ids.is_empty());
    state.set_task_pid(id, Some(4242)).unwrap();
    assert_eq!(state.get_task(id).unwrap().pid, Some(4242));
    record_child_exit(&mut state, id, ChildExit::Succeeded);
    let done = state.get_task(id).unwrap();
    assert_eq!(done.state, TaskState::Finished);
    assert_eq!(done.pid, None);
    assert_eq!(done.gpu_ids, vec![0]);
    assert_eq!(done.failure_reason, None);
    assert!(state.get_queue("running_queue").unwrap().running_task_ids.is_empty());
    assert!(schedule_tasks(&mut state).is_empty());
}

#[test]
fn kill_path_ends_in_failed_with_the_exit_status() {
    let mut state = booted(1);
    let mut counters = SubmitCounters::new();
    let id = submit(&mut state, &mut counters, 500, "sleep 100", 1, None);
    run(&mut state, id);
    assert_eq!(schedule_tasks(&mut state).len(), 1);
    state.set_task_pid(id, Some(900)).unwrap();
    assert_eq!(
        handle_task_command(TaskAction::Kill { task_id: id }, &mut state),
        TaskStep::SendTerm { task_id: id, pid: 900 }
    );
    assert_eq!(state.get_task(id).unwrap().state, TaskState::Running);
    record_child_exit(&mut state, id, ChildExit::Failed(String::from("signal: 15 (SIGTERM)")));
    let killed = state.get_task(id).unwrap();
    assert_eq!(killed.state, TaskState::Failed);
    assert_eq!(killed.pid, None);
    assert_eq!(
        killed.failure_reason,
        Some(String::from("Process exited with status: signal: 15 (SIGTERM)"))
    );
}

#[test]
fn wait_error_becomes_the_failure_reason() {
    let mut state = booted(1);
    let mut counters = SubmitCounters::new();
    let id = submit(&mut state, &mut counters, 500, "true", 0, Some("running_queue"));
    assert_eq!(schedule_tasks(&mut state).len(), 1);
    state.set_task_pid(id, Some(1)).unwrap();
    record_child_exit(&mut state, id, ChildExit::WaitFailed(String::from("No child processes")));
    let failed = state.get_task(id).unwrap();
    assert_eq!(failed.state, TaskState::Failed);
    assert_eq!(failed.failure_reason, Some(String::from("No child processes")));
    assert_eq!(failed.pid, None);
}

#[test]
fn spawn_failure_fails_the_task() {
    let mut state = booted(1);
    let mut counters = SubmitCounters::new();
    let id = submit(&mut state, &mut counters, 500, "nonexistent", 1, Some("running_queue"));
    assert_eq!(schedule_tasks(&mut state).len(), 1);
    record_launch_failure(&mut state, id, String::from("No such file or directory"));
    let failed = state.get_task(id).unwrap();
    assert_eq!(failed.state, TaskState::Failed);
    assert_eq!(failed.failure_reason, Some(String::from("No such file or directory")));
    assert_eq!(failed.gpu_ids, vec![0]);
    assert!(state.get_queue("running_queue").unwrap().running_task_ids.is_empty());
}

#[test]
fn memory_limit_holds_a_task_back_until_it_is_relaxed() {
    let mut state = DaemonState::new();
    state.update_all_gpu_stats(&vec![Some(gpu(1000, 10000, 0))]);
    handle_queue_command(QueueAction::Create { name: String::from("q"), priority: 5 }, &mut state);
    handle_gpu_command(GPUAction::Allocate { gpu_ids: vec![0], queue: String::from("q") }, &mut state);
    handle_queue_command(
        QueueAction::SetResourceLimit {
            queue_name: String::from("q"),
            limit: limit(MemoryRequirementType::Percentage, 50, -1),
        },
        &mut state,
    );
    let mut counters = SubmitCounters::new();
    let id = submit(&mut state, &mut counters, 77, "true", 1, Some("q"));
    for _ in 0..5 {
        assert!(schedule_tasks(&mut state).is_empty());
        assert_eq!(state.get_task(id).unwrap().state, TaskState::Waiting);
    }
    handle_queue_command(
        QueueAction::SetResourceLimit {
            queue_name: String::from("q"),
            limit: limit(MemoryRequirementType::Percentage, 5, -1),
        },
        &mut state,
    );
    let launches = schedule_tasks(&mut state);
    assert_eq!(launches.len(), 1);
    assert_eq!(launches[0].id, id);
    assert_eq!(launches[0].gpu_ids, vec![0]);
    assert_eq!(state.get_task(id).unwrap().state, TaskState::Running);
}

#[test]
fn ignoring_a_gpu_blocks_placement_until_it_is_unignored() {
    let mut state = booted(1);
    let mut counters = SubmitCounters::new();
    let id = submit(&mut state, &mut counters, 10, "true", 1, None);
    run(&mut state, id);
    let refused = handle_gpu_command(GPUAction::Ignore { gpu_id: 0 }, &mut state);
    assert!(matches!(refused.reply, Message::Error(_)));
    let released = handle_gpu_command(GPUAction::Release { gpu_id: 0 }, &mut state);
    assert!(matches!(released.reply, Message::Ack(_)));
    assert!(released.terminate.is_empty());
    let ignored = handle_gpu_command(GPUAction::Ignore { gpu_id: 0 }, &mut state);
    assert!(matches!(ignored.reply, Message::Ack(_)));
    for _ in 0..3 {
        state.update_all_gpu_stats(&vec![Some(gpu(8000, 10000, 0))]);
        assert!(schedule_tasks(&mut state).is_empty());
        assert_eq!(state.get_task(id).unwrap().state, TaskState::Waiting);
    }
    let reset = handle_gpu_command(GPUAction::ResetIgnored, &mut state);
    assert!(matches!(reset.reply, Message::Ack(_)));
    state.update_all_gpu_stats(&vec![Some(gpu(8000, 10000, 0))]);
    let launches = schedule_tasks(&mut state);
    assert_eq!(launches.len(), 1);
    assert_eq!(launches[0].gpu_ids, vec![0]);
}

#[test]
fn equal_priority_runs_in_order_of_creation() {
    let mut state = booted(1);
    let mut counters = SubmitCounters::new();
    let a = submit(&mut state, &mut counters, 2000, "true", 1, Some("running_queue"));
    let b = submit(&mut state, &mut counters, 2001, "true", 1, Some("running_queue"));
    let first = schedule_tasks(&mut state);
    assert_eq!(first.iter().map(|t| t.id).collect::<Vec<u64>>(), vec![a]);
    assert_eq!(state.get_task(b).unwrap().state, TaskState::Waiting);
    assert!(schedule_tasks(&mut state).is_empty());
    record_child_exit(&mut state, a, ChildExit::Succeeded);
    let second = schedule_tasks(&mut state);
    assert_eq!(second.iter().map(|t| t.id).collect::<Vec<u64>>(), vec![b]);
    assert_eq!(second[0].gpu_ids, vec![0]);
}

#[test]
fn higher_priority_runs_first_whatever_the_age() {
    let mut state = DaemonState::new();
    state.update_all_gpu_stats(&vec![Some(gpu(1, 1, 0))]);
    state.add_queue(queue("q", 5, 1));
    state.add_task(task(1, "q", 1, 3, 10));
    state.add_task(task(2, "q", 1, 8, 20));
    let launches = schedule_tasks(&mut state);
    assert_eq!(launches.iter().map(|t| t.id).collect::<Vec<u64>>(), vec![2]);
}

#[test]
fn cpu_only_task_is_placed_without_a_gpu() {
    let mut state = DaemonState::new();
    state.add_queue(queue("q", 5, 1));
    state.add_task(task(1, "q", 0, 5, 10));
    assert_eq!(plan_round(&state), vec![Assignment { task_id: 1, gpus: vec![] }]);
    let launches = schedule_tasks(&mut state);
    assert_eq!(launches.len(), 1);
    assert_eq!(launches[0].state, TaskState::Running);
    assert!(launches[0].gpu_ids.is_empty());
}

#[test]
fn cpu_only_task_leaves_the_gpus_to_others() {
    let mut state = DaemonState::new();
    state.update_all_gpu_stats(&vec![Some(gpu(1, 1, 0))]);
    state.add_queue(queue("q", 5, 2));
    state.add_task(task(1, "q", 0, 9, 10));
    state.add_task(task(2, "q", 1, 5, 10));
    assert_eq!(
        plan_round(&state),
        vec![
            Assignment { task_id: 1, gpus: vec![] },
            Assignment { task_id: 2, gpus: vec![0] },
        ]
    );
}

#[test]
fn one_round_gives_no_gpu_twice() {
    let mut state = DaemonState::new();
    state.update_all_gpu_stats(&vec![Some(gpu(1, 1, 0)), Some(gpu(1, 1, 0)), Some(gpu(1, 1, 0))]);
    state.add_queue(queue("q", 5, 3));
    state.add_queue(queue("p", 4, 3));
    state.add_task(task(1, "q", 1, 5, 10));
    state.add_task(task(2, "q", 1, 5, 11));
    state.add_task(task(3, "p", 1, 5, 12));
    state.add_task(task(4, "p", 1, 5, 13));
    assert_eq!(
        plan_round(&state),
        vec![
            Assignment { task_id: 1, gpus: vec![0] },
            Assignment { task_id: 2, gpus: vec![1] },
            Assignment { task_id: 3, gpus: vec![2] },
        ]
    );
    let launches = schedule_tasks(&mut state);
    assert_eq!(launches.len(), 3);
    assert_eq!(state.get_task(4).unwrap().state, TaskState::Waiting);
}

#[test]
fn task_that_does_not_fit_is_passed_over() {
    let mut state = DaemonState::new();
    state.update_all_gpu_stats(&vec![Some(gpu(1, 1, 0))]);
    state.add_queue(queue("q", 5, 2));
    state.add_task(task(1, "q", 2, 9, 10));
    state.add_task(task(2, "q", 1, 1, 20));
    assert_eq!(plan_round(&state), vec![Assignment { task_id: 2, gpus: vec![0] }]);
}

#[test]
fn cap_limits_what_one_round_starts() {
    let mut state = DaemonState::new();
    state.update_all_gpu_stats(&vec![Some(gpu(1, 1, 0)), Some(gpu(1, 1, 0)), Some(gpu(1, 1, 0))]);
    state.add_queue(queue("q", 5, 2));
    state.add_task(task(1, "q", 1, 5, 10));
    state.add_task(task(2, "q", 1, 5, 11));
    state.add_task(task(3, "q", 1, 5, 12));
    let launches = schedule_tasks(&mut state);
    assert_eq!(launches.iter().map(|t| t.id).collect::<Vec<u64>>(), vec![1, 2]);
    assert!(schedule_tasks(&mut state).is_empty());
    assert_eq!(state.get_queue("q").unwrap().running_task_ids, vec![1, 2]);
    assert_eq!(state.get_queue("q").unwrap().waiting_task_ids, vec![3]);
}

#[test]
fn queue_without_room_starts_nothing() {
    let mut state = DaemonState::new();
    state.add_queue(queue("q", 5, 0));
    state.add_task(task(1, "q", 0, 5, 10));
    assert!(plan_round(&state).is_empty());
}

#[test]
fn parking_queue_is_never_scheduled() {
    let mut state = DaemonState::new();
    state.update_all_gpu_stats(&vec![Some(gpu(1, 1, 0))]);
    state.add_queue(queue("waiting_queue", 10, 5));
    state.add_task(task(1, "waiting_queue", 0, 9, 1));
    state.add_task(task(2, "waiting_queue", 1, 9, 1));
    assert!(schedule_tasks(&mut state).is_empty());
    assert_eq!(state.get_queue("waiting_queue").unwrap().waiting_task_ids, vec![1, 2]);
}

#[test]
fn queue_of_higher_priority_gets_the_free_gpu() {
    let mut state = DaemonState::new();
    state.update_all_gpu_stats(&vec![Some(gpu(1, 1, 0))]);
    state.add_queue(queue("low", 1, 1));
    state.add_queue(queue("high", 9, 1));
    state.add_task(task(1, "low", 1, 9, 1));
    state.add_task(task(2, "high", 1, 0, 2));
    assert_eq!(plan_round(&state), vec![Assignment { task_id: 2, gpus: vec![0] }]);
}

#[test]
fn candidates_are_own_gpus_first_then_free_ones() {
    let mut state = DaemonState::new();
    state.update_all_gpu_stats(&vec![
        Some(gpu(1, 1, 0)),
        Some(gpu(1, 1, 0)),
        Some(gpu(1, 1, 0)),
        Some(gpu(1, 1, 0)),
        None,
        Some(gpu(1, 1, 90)),
    ]);
    let mut q = queue("q", 5, 4);
    q.resource_limit = limit(MemoryRequirementType::Ignore, 0, 50);
    state.add_queue(q.clone());
    state.set_gpu_allocation(2, Some(String::from("q")));
    state.set_gpu_allocation(3, Some(String::from("other")));
    state.set_gpu_allocation(1, None);
    state.set_gpu_allocation(4, Some(String::from("q")));
    state.set_gpu_ignore(0);
    assert_eq!(candidate_gpus(&state, &q), vec![2, 1]);
    state.unset_gpu_ignore(0);
    assert_eq!(candidate_gpus(&state, &q), vec![2, 0, 1]);
}

#[test]
fn eligible_tasks_are_the_waiting_ones_of_the_list() {
    let mut state = DaemonState::new();
    state.add_queue(queue("q", 5, 4));
    state.add_task(task(1, "q", 1, 5, 1));
    state.add_task(task(2, "q", 1, 5, 1));
    state.update_task_state(2, TaskState::Finished, None, None).unwrap();
    let found = eligible_tasks(&state, &vec![2, 9, 1]);
    assert_eq!(found.iter().map(|t| t.id).collect::<Vec<u64>>(), vec![1]);
}

#[test]
fn moved_running_task_is_not_placed_again() {
    let mut state = DaemonState::new();
    state.update_all_gpu_stats(&vec![Some(gpu(1, 1, 0)), Some(gpu(1, 1, 0))]);
    state.add_queue(queue("x", 5, 1));
    state.add_queue(queue("y", 5, 1));
    state.add_task(task(1, "x", 1, 5, 1));
    assert_eq!(schedule_tasks(&mut state).len(), 1);
    state.update_task_queue(1, String::from("y")).unwrap();
    assert!(schedule_tasks(&mut state).is_empty());
    assert_eq!(state.get_task(1).unwrap().state, TaskState::Running);
}

#[test]
fn reconciliation_fails_orphaned_tasks() {
    let mut state = DaemonState::new();
    state.add_queue(queue("q", 5, 4));
    for id in 1..=4 {
        state.add_task(task(id, "q", 0, 5, id));
    }
    assert_eq!(schedule_tasks(&mut state).len(), 4);
    state.set_task_pid(1, Some(101)).unwrap();
    state.set_task_pid(2, Some(102)).unwrap();
    state.set_task_pid(3, Some(-7)).unwrap();
    assert_eq!(pids_to_probe(&state), vec![101, 102, -7]);
    update_tasks(&mut state, &vec![102, -7, 555]);
    assert_eq!(state.get_task(1).unwrap().state, TaskState::Running);
    let gone = state.get_task(2).unwrap();
    assert_eq!(gone.state, TaskState::Failed);
    assert_eq!(gone.failure_reason, Some(String::from("process pid 102 disappeared")));
    let negative = state.get_task(3).unwrap();
    assert_eq!(negative.failure_reason, Some(String::from("process pid -7 disappeared")));
    let no_pid = state.get_task(4).unwrap();
    assert_eq!(no_pid.state, TaskState::Failed);
    assert_eq!(no_pid.failure_reason, Some(String::from("was Running without a pid")));
    assert_eq!(state.get_queue("q").unwrap().running_task_ids, vec![1]);
    assert_eq!(pids_to_probe(&state), vec![101]);
}

#[test]
fn reconciliation_leaves_waiting_tasks_alone() {
    let mut state = DaemonState::new();
    state.add_queue(queue("waiting_queue", 5, 4));
    state.add_task(task(1, "waiting_queue", 0, 5, 1));
    update_tasks(&mut state, &vec![]);
    assert_eq!(state.get_task(1).unwrap().state, TaskState::Waiting);
    assert!(pids_to_probe(&state).is_empty());
}

#[test]
fn a_round_serves_what_it_starts_in_a_store_that_has_come_apart() {
    let mut state = DaemonState::new();
    state.update_all_gpu_stats(&vec![
        Some(gpu(8000, 10000, 0)),
        Some(gpu(8000, 10000, 0)),
        Some(gpu(8000, 10000, 0)),
        Some(gpu(8000, 10000, 0)),
    ]);
    state.set_gpu_ignore(3);
    let mut odd = queue("odd", 9, 4);
    odd.waiting_task_ids = vec![1, 77, 2, 1];
    odd.running_task_ids = vec![5];
    state.add_queue(odd);
    let mut even = queue("even", 5, 4);
    even.waiting_task_ids = vec![1, 3];
    state.add_queue(even);
    state.add_task(task(1, "home", 1, 5, 10));
    state.add_task(task(2, "home", 2, 5, 11));
    state.add_task(task(3, "home", 1, 5, 12));
    state.add_task(task(4, "home", 0, 5, 13));
    let mut done = task(9, "home", 1, 5, 14);
    done.state = TaskState::Finished;
    done.gpu_ids = vec![0];
    state.add_task(done.clone());
    let before = state.get_all_tasks();
    let ignored = state.get_ignored_gpus();

    schedule_tasks(&mut state);

    let after = state.get_all_tasks();
    assert_eq!(after.len(), before.len());
    assert_eq!(state.get_ignored_gpus(), ignored);
    let mut started = 0;
    for (old, new) in before.iter().zip(after.iter()) {
        assert_eq!(old.id, new.id);
        assert_eq!(old.gpu_require, new.gpu_require);
        if old.state != TaskState::Waiting {
            assert_eq!(old, new);
        }
        if old.state == TaskState::Waiting && new.state == TaskState::Running {
            started += 1;
            assert_eq!(new.gpu_ids.len(), new.gpu_require as usize);
            let mut once = new.gpu_ids.clone();
            once.sort();
            once.dedup();
            assert_eq!(once.len(), new.gpu_ids.len());
            for g in &new.gpu_ids {
                assert!(!ignored.contains(&(*g as u32)));
                assert!(*g < 3);
            }
        }
    }
    assert_eq!(started, 1);
    assert_eq!(state.get_task(9), Some(done));
    assert_eq!(state.get_task(1).unwrap().state, TaskState::Running);
    assert_eq!(state.get_task(1).unwrap().gpu_ids, vec![2]);
    assert_eq!(state.get_task(2).unwrap().state, TaskState::Waiting);
    assert_eq!(state.get_task(4).unwrap().state, TaskState::Waiting);
}

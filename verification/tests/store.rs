use gavel::models::{
    MemoryRequirementType, QueueMeta, ResourceLimit, TaskMeta, TaskState,
};
use gavel::monitor::{GpuStats, MemoryInfo};
use gavel::state::{DaemonState, GpuAllocation, StateError};

fn waiting_task(id: u64, queue: &str) -> TaskMeta {
    TaskMeta {
        pid: None,
        id,
        name: format!("t{}", id),
        cmd: String::from("true"),
        gpu_require: 1,
        state: TaskState::Waiting,
        log_path: format!("/tmp/{}.log", id),
        priority: 5,
        queue: String::from(queue),
        create_time: 100,
        gpu_ids: Vec::new(),
        failure_reason: None,
    }
}

fn empty_queue(name: &str, max_concurrent: u8) -> QueueMeta {
    QueueMeta {
        name: String::from(name),
        max_concurrent,
        priority: 5,
        waiting_task_ids: Vec::new(),
        running_task_ids: Vec::new(),
        allocated_gpus: Vec::new(),
        resource_limit: ResourceLimit::default(),
    }
}

fn stats(free_mb: u64, total_mb: u64, core_usage: u32) -> GpuStats {
    GpuStats {
        temperature: 40,
        core_usage,
        memory_usage: MemoryInfo {
            total: total_mb * 1024 * 1024,
            used: (total_mb - free_mb) * 1024 * 1024,
            free: free_mb * 1024 * 1024,
        },
        power_usage: 100_000,
    }
}

#[test]
fn new_state_is_empty() {
    let state = DaemonState::new();
    assert!(state.get_all_tasks().is_empty());
    assert!(state.get_all_queues().is_empty());
    assert!(state.get_all_gpu_stats().is_empty());
    assert!(state.get_gpu_allocations().is_empty());
    assert!(state.get_ignored_gpus().is_empty());
    assert_eq!(state.get_task(1), None);
    assert_eq!(state.get_queue("q"), None);
}

#[test]
fn default_limit_admits_everything() {
    let limit = ResourceLimit::default();
    assert_eq!(limit.memory_requirement_type, MemoryRequirementType::Ignore);
    assert_eq!(limit.memory_requirement_value, 0);
    assert_eq!(limit.max_gpu_utilization, -1);
}

#[test]
fn add_task_creates_the_queue_it_names() {
    let mut state = DaemonState::new();
    state.add_task(waiting_task(7, "fresh"));
    let queue = state.get_queue("fresh").unwrap();
    assert_eq!(queue.name, "fresh");
    assert_eq!(queue.priority, 10);
    assert_eq!(queue.max_concurrent, 1);
    assert_eq!(queue.waiting_task_ids, vec![7]);
    assert!(queue.running_task_ids.is_empty());
    assert!(queue.allocated_gpus.is_empty());
    assert_eq!(queue.resource_limit, ResourceLimit::default());
    assert_eq!(state.get_task(7), Some(waiting_task(7, "fresh")));
}

#[test]
fn add_task_appends_to_an_existing_queue_once() {
    let mut state = DaemonState::new();
    state.add_queue(empty_queue("q", 2));
    state.add_task(waiting_task(1, "q"));
    state.add_task(waiting_task(2, "q"));
    state.add_task(waiting_task(1, "q"));
    assert_eq!(state.get_queue("q").unwrap().waiting_task_ids, vec![1, 2]);
    assert_eq!(state.get_all_tasks().len(), 2);
    assert_eq!(state.get_all_queues().len(), 1);
}

#[test]
fn tasks_are_listed_in_order_of_arrival() {
    let mut state = DaemonState::new();
    state.add_task(waiting_task(30, "q"));
    state.add_task(waiting_task(10, "q"));
    state.add_task(waiting_task(20, "p"));
    let ids: Vec<u64> = state.get_all_tasks().iter().map(|t| t.id).collect();
    assert_eq!(ids, vec![30, 10, 20]);
    let names: Vec<String> = state.get_all_queues().iter().map(|q| q.name.clone()).collect();
    assert_eq!(names, vec![String::from("q"), String::from("p")]);
}

#[test]
fn set_task_pid_needs_the_task() {
    let mut state = DaemonState::new();
    state.add_task(waiting_task(1, "q"));
    assert_eq!(state.set_task_pid(1, Some(4321)), Ok(()));
    assert_eq!(state.get_task(1).unwrap().pid, Some(4321));
    assert_eq!(state.set_task_pid(1, None), Ok(()));
    assert_eq!(state.get_task(1).unwrap().pid, None);
    assert_eq!(state.set_task_pid(2, Some(1)), Err(StateError::TaskNotFound));
}

#[test]
fn waiting_to_running_moves_the_id_between_lists() {
    let mut state = DaemonState::new();
    state.add_queue(empty_queue("q", 2));
    state.add_task(waiting_task(1, "q"));
    assert_eq!(state.update_task_state(1, TaskState::Running, Some(vec![0]), None), Ok(()));
    let queue = state.get_queue("q").unwrap();
    assert!(queue.waiting_task_ids.is_empty());
    assert_eq!(queue.running_task_ids, vec![1]);
    let task = state.get_task(1).unwrap();
    assert_eq!(task.state, TaskState::Running);
    assert_eq!(task.gpu_ids, vec![0]);
    assert_eq!(task.failure_reason, None);
}

#[test]
fn running_to_finished_leaves_both_lists_and_keeps_the_gpus() {
    let mut state = DaemonState::new();
    state.add_task(waiting_task(1, "q"));
    state.update_task_state(1, TaskState::Running, Some(vec![2, 3]), None).unwrap();
    state.update_task_state(1, TaskState::Finished, None, Some(String::from("ignored"))).unwrap();
    let queue = state.get_queue("q").unwrap();
    assert!(queue.waiting_task_ids.is_empty());
    assert!(queue.running_task_ids.is_empty());
    let task = state.get_task(1).unwrap();
    assert_eq!(task.state, TaskState::Finished);
    assert_eq!(task.gpu_ids, vec![2, 3]);
    assert_eq!(task.failure_reason, None);
}

#[test]
fn failure_reason_is_kept_only_for_failed() {
    let mut state = DaemonState::new();
    state.add_task(waiting_task(1, "q"));
    state.update_task_state(1, TaskState::Failed, None, Some(String::from("spawn failed"))).unwrap();
    assert_eq!(state.get_task(1).unwrap().failure_reason, Some(String::from("spawn failed")));
    assert!(state.get_queue("q").unwrap().waiting_task_ids.is_empty());
    state.update_task_state(1, TaskState::Waiting, None, Some(String::from("x"))).unwrap();
    assert_eq!(state.get_task(1).unwrap().failure_reason, None);
    assert_eq!(state.get_queue("q").unwrap().waiting_task_ids, vec![1]);
}

#[test]
fn update_task_state_of_unknown_task_is_an_error() {
    let mut state = DaemonState::new();
    assert_eq!(
        state.update_task_state(5, TaskState::Running, None, None),
        Err(StateError::TaskNotFound)
    );
}

#[test]
fn moving_a_waiting_task_changes_both_queues() {
    let mut state = DaemonState::new();
    state.add_queue(empty_queue("x", 1));
    state.add_queue(empty_queue("y", 1));
    state.add_task(waiting_task(1, "x"));
    state.add_task(waiting_task(2, "x"));
    assert_eq!(state.update_task_queue(1, String::from("y")), Ok(()));
    assert_eq!(state.get_task(1).unwrap().queue, "y");
    assert_eq!(state.get_queue("x").unwrap().waiting_task_ids, vec![2]);
    assert_eq!(state.get_queue("y").unwrap().waiting_task_ids, vec![1]);
}

#[test]
fn moving_a_running_task_parks_it_and_does_not_kill_it() {
    let mut state = DaemonState::new();
    state.add_queue(empty_queue("x", 1));
    state.add_queue(empty_queue("y", 1));
    state.add_task(waiting_task(1, "x"));
    state.update_task_state(1, TaskState::Running, Some(vec![0]), None).unwrap();
    state.set_task_pid(1, Some(777)).unwrap();
    assert_eq!(state.update_task_queue(1, String::from("y")), Ok(()));
    let task = state.get_task(1).unwrap();
    assert_eq!(task.queue, "y");
    assert_eq!(task.state, TaskState::Running);
    assert_eq!(task.pid, Some(777));
    assert_eq!(task.id, 1);
    assert!(state.get_queue("x").unwrap().running_task_ids.is_empty());
    assert_eq!(state.get_queue("y").unwrap().waiting_task_ids, vec![1]);
    assert!(state.get_queue("y").unwrap().running_task_ids.is_empty());
}

#[test]
fn moving_reports_what_is_missing() {
    let mut state = DaemonState::new();
    state.add_task(waiting_task(1, "x"));
    assert_eq!(state.update_task_queue(1, String::from("nowhere")), Err(StateError::QueueNotFound));
    assert_eq!(state.update_task_queue(9, String::from("nowhere")), Err(StateError::QueueNotFound));
    assert_eq!(state.update_task_queue(9, String::from("x")), Err(StateError::TaskNotFound));
    assert_eq!(state.update_task_queue(1, String::from("x")), Ok(()));
    assert_eq!(state.get_queue("x").unwrap().waiting_task_ids, vec![1]);
}

#[test]
fn priority_is_stored_as_given() {
    let mut state = DaemonState::new();
    state.add_task(waiting_task(1, "x"));
    assert_eq!(state.update_task_priority(1, 9), Ok(()));
    assert_eq!(state.get_task(1).unwrap().priority, 9);
    assert_eq!(state.update_task_priority(2, 1), Err(StateError::TaskNotFound));
}

#[test]
fn remove_task_scrubs_the_queue() {
    let mut state = DaemonState::new();
    state.add_task(waiting_task(1, "x"));
    state.add_task(waiting_task(2, "x"));
    let removed = state.remove_task(1);
    assert_eq!(removed, Some(waiting_task(1, "x")));
    assert_eq!(state.get_task(1), None);
    assert_eq!(state.get_queue("x").unwrap().waiting_task_ids, vec![2]);
    assert_eq!(state.remove_task(1), None);
}

#[test]
fn add_queue_replaces_a_queue_of_the_same_name() {
    let mut state = DaemonState::new();
    state.add_queue(empty_queue("x", 1));
    state.add_queue(empty_queue("y", 1));
    state.add_queue(empty_queue("x", 4));
    assert_eq!(state.get_all_queues().len(), 2);
    assert_eq!(state.get_queue("x").unwrap().max_concurrent, 4);
    assert_eq!(state.get_all_queues()[0].name, "x");
}

#[test]
fn resource_limit_of_a_queue_is_replaced() {
    let mut state = DaemonState::new();
    state.add_queue(empty_queue("x", 1));
    let limit = ResourceLimit {
        memory_requirement_type: MemoryRequirementType::Percentage,
        memory_requirement_value: 50,
        max_gpu_utilization: 80,
    };
    assert_eq!(state.update_queue_resource_limit(String::from("x"), limit), Ok(()));
    assert_eq!(state.get_queue("x").unwrap().resource_limit, limit);
    assert_eq!(
        state.update_queue_resource_limit(String::from("z"), limit),
        Err(StateError::QueueNotFound)
    );
}

#[test]
fn queue_gpu_list_grows_and_shrinks() {
    let mut state = DaemonState::new();
    state.add_queue(empty_queue("x", 1));
    assert_eq!(state.grant_gpu(&String::from("x"), 3), Ok(()));
    assert_eq!(state.grant_gpu(&String::from("x"), 1), Ok(()));
    assert_eq!(state.grant_gpu(&String::from("x"), 3), Ok(()));
    assert_eq!(state.get_queue("x").unwrap().allocated_gpus, vec![3, 1]);
    assert_eq!(state.revoke_gpu(&String::from("x"), 3), Ok(()));
    assert_eq!(state.get_queue("x").unwrap().allocated_gpus, vec![1]);
    assert_eq!(state.grant_gpu(&String::from("z"), 3), Err(StateError::QueueNotFound));
}

#[test]
fn telemetry_snapshot_replaces_the_table() {
    let mut state = DaemonState::new();
    state.update_all_gpu_stats(&vec![Some(stats(10, 100, 1)), None, Some(stats(30, 100, 3))]);
    assert_eq!(
        state.get_all_gpu_stats(),
        vec![(0, stats(10, 100, 1)), (2, stats(30, 100, 3))]
    );
    state.update_all_gpu_stats(&vec![None, Some(stats(20, 100, 2))]);
    assert_eq!(
        state.get_all_gpu_stats(),
        vec![(0, stats(10, 100, 1)), (1, stats(20, 100, 2))]
    );
    assert_eq!(state.get_gpu_stats(2), None);
    assert_eq!(state.get_gpu_stats(1), Some(stats(20, 100, 2)));
}

#[test]
fn telemetry_skips_ignored_gpus() {
    let mut state = DaemonState::new();
    state.update_all_gpu_stats(&vec![Some(stats(10, 100, 1)), Some(stats(20, 100, 2))]);
    state.set_gpu_ignore(1);
    state.update_all_gpu_stats(&vec![Some(stats(11, 100, 1)), Some(stats(21, 100, 2))]);
    assert_eq!(state.get_all_gpu_stats(), vec![(0, stats(11, 100, 1))]);
    state.unset_gpu_ignore(1);
    state.update_all_gpu_stats(&vec![Some(stats(12, 100, 1)), Some(stats(22, 100, 2))]);
    assert_eq!(state.get_all_gpu_stats().len(), 2);
}

#[test]
fn ignore_set_is_listed_ascending() {
    let mut state = DaemonState::new();
    state.set_gpu_ignore(5);
    state.set_gpu_ignore(2);
    state.set_gpu_ignore(9);
    state.set_gpu_ignore(2);
    assert_eq!(state.get_ignored_gpus(), vec![2, 5, 9]);
    assert!(state.is_gpu_ignored(5));
    state.unset_gpu_ignore(5);
    assert!(!state.is_gpu_ignored(5));
    assert_eq!(state.get_ignored_gpus(), vec![2, 9]);
}

#[test]
fn ownership_table_tells_owned_free_and_unknown_apart() {
    let mut state = DaemonState::new();
    assert_eq!(state.get_gpu_allocation(0), None);
    state.set_gpu_allocation(0, None);
    assert_eq!(state.get_gpu_allocation(0), Some(None));
    state.set_gpu_allocation(0, Some(String::from("q")));
    assert_eq!(state.get_gpu_allocation(0), Some(Some(String::from("q"))));
    state.set_gpu_allocation(3, None);
    state.set_gpu_allocation(1, Some(String::from("p")));
    assert_eq!(
        state.get_gpu_allocations(),
        vec![
            GpuAllocation { gpu_id: 0, queue: Some(String::from("q")) },
            GpuAllocation { gpu_id: 1, queue: Some(String::from("p")) },
            GpuAllocation { gpu_id: 3, queue: None },
        ]
    );
    state.remove_gpu_allocation(0);
    assert_eq!(state.get_gpu_allocation(0), None);
    assert_eq!(state.get_gpu_allocations().len(), 2);
}

#[test]
fn a_moved_running_task_that_ends_is_in_no_list() {
    for ending in [TaskState::Finished, TaskState::Failed] {
        let mut state = DaemonState::new();
        state.add_queue(empty_queue("x", 1));
        state.add_queue(empty_queue("y", 1));
        state.add_task(waiting_task(1, "x"));
        state.add_task(waiting_task(2, "y"));
        state.update_task_state(1, TaskState::Running, Some(vec![0]), None).unwrap();
        state.update_task_queue(1, String::from("y")).unwrap();
        assert_eq!(state.get_queue("y").unwrap().waiting_task_ids, vec![2, 1]);
        let reason = if ending == TaskState::Failed { Some(String::from("exit 1")) } else { None };
        state.update_task_state(1, ending, None, reason).unwrap();
        for queue in state.get_all_queues() {
            assert!(!queue.waiting_task_ids.contains(&1));
            assert!(!queue.running_task_ids.contains(&1));
        }
        assert_eq!(state.get_queue("y").unwrap().waiting_task_ids, vec![2]);
        assert_eq!(state.get_task(1).unwrap().state, ending);
        assert_eq!(state.get_task(1).unwrap().gpu_ids, vec![0]);
    }
}

#[test]
fn an_ended_task_leaves_the_lists_of_every_queue() {
    let mut state = DaemonState::new();
    let mut stray = empty_queue("stray", 1);
    stray.waiting_task_ids = vec![9, 1];
    stray.running_task_ids = vec![1, 8];
    state.add_queue(stray);
    state.add_task(waiting_task(1, "home"));
    state.update_task_state(1, TaskState::Finished, None, None).unwrap();
    assert_eq!(state.get_queue("stray").unwrap().waiting_task_ids, vec![9]);
    assert_eq!(state.get_queue("stray").unwrap().running_task_ids, vec![8]);
    assert!(state.get_queue("home").unwrap().waiting_task_ids.is_empty());
}

#[test]
fn a_moved_running_task_that_waits_again_is_listed_once() {
    let mut state = DaemonState::new();
    state.add_queue(empty_queue("x", 1));
    state.add_queue(empty_queue("y", 1));
    state.add_task(waiting_task(1, "x"));
    state.update_task_state(1, TaskState::Running, Some(vec![0]), None).unwrap();
    state.update_task_queue(1, String::from("y")).unwrap();
    state.update_task_state(1, TaskState::Waiting, None, None).unwrap();
    assert_eq!(state.get_queue("y").unwrap().waiting_task_ids, vec![1]);
    assert!(state.get_queue("y").unwrap().running_task_ids.is_empty());
    assert!(state.get_queue("x").unwrap().waiting_task_ids.is_empty());
}

#[test]
fn removing_a_task_strikes_it_from_every_queue() {
    let mut state = DaemonState::new();
    let mut stray = empty_queue("stray", 1);
    stray.waiting_task_ids = vec![1];
    state.add_queue(stray);
    state.add_task(waiting_task(1, "home"));
    assert!(state.remove_task(1).is_some());
    for queue in state.get_all_queues() {
        assert!(!queue.waiting_task_ids.contains(&1));
        assert!(!queue.running_task_ids.contains(&1));
    }
}

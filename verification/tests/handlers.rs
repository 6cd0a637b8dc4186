use gavel::gpu_handler::{handle_gpu_allocate, handle_gpu_command, GpuOutcome};
use gavel::message::{GPUAction, Message, QueueAction, TaskAction, TaskFilter};
use gavel::models::{
    MemoryRequirementType, QueueMeta, ResourceLimit, TaskMeta, TaskState,
};
use gavel::monitor::{GpuStats, MemoryInfo};
use gavel::queue_handler::{check_limit, handle_queue_command};
use gavel::state::DaemonState;
use gavel::task_handler::{
    finish_task_kill, finish_task_logs, handle_task_command, handle_task_kill, TaskStep,
};

fn task(id: u64, queue: &str, state: TaskState) -> TaskMeta {
    TaskMeta {
        pid: None,
        id,
        name: format!("t{}", id),
        cmd: String::from("true"),
        gpu_require: 1,
        state,
        log_path: format!("/logs/{}.log", id),
        priority: 5,
        queue: String::from(queue),
        create_time: 100,
        gpu_ids: Vec::new(),
        failure_reason: None,
    }
}

fn queue(name: &str) -> QueueMeta {
    QueueMeta {
        name: String::from(name),
        max_concurrent: 1,
        priority: 5,
        waiting_task_ids: Vec::new(),
        running_task_ids: Vec::new(),
        allocated_gpus: Vec::new(),
        resource_limit: ResourceLimit::default(),
    }
}

fn stats(n: u32) -> GpuStats {
    GpuStats {
        temperature: n,
        core_usage: n,
        memory_usage: MemoryInfo { total: 100, used: 50, free: 50 },
        power_usage: n,
    }
}

fn ack(text: &str) -> Message {
    Message::Ack(String::from(text))
}

fn error(text: &str) -> Message {
    Message::Error(String::from(text))
}

fn state_with_tasks() -> DaemonState {
    let mut state = DaemonState::new();
    state.add_queue(queue("waiting_queue"));
    state.add_queue(queue("running_queue"));
    state.add_task(task(1, "waiting_queue", TaskState::Waiting));
    state.add_task(task(2, "running_queue", TaskState::Waiting));
    state.add_task(task(3, "running_queue", TaskState::Waiting));
    state.update_task_state(3, TaskState::Running, Some(vec![0]), None).unwrap();
    state.set_task_pid(3, Some(333)).unwrap();
    state
}

fn only_reply(outcome: GpuOutcome) -> Message {
    assert!(outcome.terminate.is_empty());
    outcome.reply
}

#[test]
fn task_list_filters() {
    let mut state = state_with_tasks();
    let all = handle_task_command(TaskAction::List { filter: TaskFilter::All }, &mut state);
    match all {
        TaskStep::Reply(Message::TaskStatus(tasks)) => {
            assert_eq!(tasks.iter().map(|t| t.id).collect::<Vec<u64>>(), vec![1, 2, 3]);
        }
        other => panic!("unexpected {:?}", other),
    }
    let running = handle_task_command(TaskAction::List { filter: TaskFilter::Running }, &mut state);
    match running {
        TaskStep::Reply(Message::TaskStatus(tasks)) => {
            assert_eq!(tasks.iter().map(|t| t.id).collect::<Vec<u64>>(), vec![3]);
        }
        other => panic!("unexpected {:?}", other),
    }
    let by_queue = handle_task_command(
        TaskAction::List { filter: TaskFilter::ByQueue(String::from("running_queue")) },
        &mut state,
    );
    match by_queue {
        TaskStep::Reply(Message::TaskStatus(tasks)) => {
            assert_eq!(tasks.iter().map(|t| t.id).collect::<Vec<u64>>(), vec![2, 3]);
        }
        other => panic!("unexpected {:?}", other),
    }
    let by_user = handle_task_command(
        TaskAction::List { filter: TaskFilter::ByUser(String::from("anyone")) },
        &mut state,
    );
    match by_user {
        TaskStep::Reply(Message::TaskStatus(tasks)) => assert_eq!(tasks.len(), 3),
        other => panic!("unexpected {:?}", other),
    }
    let finished = handle_task_command(TaskAction::List { filter: TaskFilter::Finished }, &mut state);
    assert_eq!(finished, TaskStep::Reply(ack("No tasks found matching the criteria")));
}

#[test]
fn task_info_of_known_and_unknown_task() {
    let mut state = state_with_tasks();
    assert_eq!(
        handle_task_command(TaskAction::Info { task_id: 2 }, &mut state),
        TaskStep::Reply(Message::TaskStatus(vec![task(2, "running_queue", TaskState::Waiting)]))
    );
    assert_eq!(
        handle_task_command(TaskAction::Info { task_id: 9 }, &mut state),
        TaskStep::Reply(error("Task with ID 9 not found"))
    );
}

#[test]
fn task_run_releases_a_parked_task() {
    let mut state = state_with_tasks();
    assert_eq!(
        handle_task_command(TaskAction::Run { task_id: 1 }, &mut state),
        TaskStep::Reply(ack("Task 1 moved to queue 'running_queue', it will run soon"))
    );
    let moved = state.get_task(1).unwrap();
    assert_eq!(moved.queue, "running_queue");
    assert_eq!(moved.state, TaskState::Waiting);
    assert!(state.get_queue("waiting_queue").unwrap().waiting_task_ids.is_empty());
    assert_eq!(state.get_queue("running_queue").unwrap().waiting_task_ids, vec![2, 1]);
}

#[test]
fn task_run_refuses_what_is_not_parked() {
    let mut state = state_with_tasks();
    assert_eq!(
        handle_task_command(TaskAction::Run { task_id: 2 }, &mut state),
        TaskStep::Reply(error(
            "Task 2 cannot be run: it is in queue 'running_queue', not in 'waiting_queue'"
        ))
    );
    assert_eq!(
        handle_task_command(TaskAction::Run { task_id: 8 }, &mut state),
        TaskStep::Reply(error("Task with ID 8 not found"))
    );
    assert_eq!(state.get_queue("running_queue").unwrap().waiting_task_ids, vec![2]);
}

#[test]
fn task_run_without_running_queue_is_an_error() {
    let mut state = DaemonState::new();
    state.add_task(task(1, "waiting_queue", TaskState::Waiting));
    assert_eq!(
        handle_task_command(TaskAction::Run { task_id: 1 }, &mut state),
        TaskStep::Reply(error(
            "Could not move task 1 to queue 'running_queue': the queue does not exist"
        ))
    );
    assert_eq!(state.get_task(1).unwrap().queue, "waiting_queue");
}

#[test]
fn task_kill_is_decided_by_state_and_pid() {
    let mut state = state_with_tasks();
    assert_eq!(
        handle_task_command(TaskAction::Kill { task_id: 3 }, &mut state),
        TaskStep::SendTerm { task_id: 3, pid: 333 }
    );
    assert_eq!(state.get_task(3).unwrap().state, TaskState::Running);
    assert_eq!(
        handle_task_kill(2, &state),
        TaskStep::Reply(error("Task 2 is not in Running state, cannot kill"))
    );
    assert_eq!(handle_task_kill(9, &state), TaskStep::Reply(error("Task with ID 9 not found")));
    state.set_task_pid(3, None).unwrap();
    assert_eq!(
        handle_task_kill(3, &state),
        TaskStep::Reply(error("Task 3 has no associated process ID, cannot kill"))
    );
}

#[test]
fn kill_reply_tells_success_from_failure() {
    assert_eq!(finish_task_kill(3, 333, None), ack("Sent kill signal to task 3 (PID: 333)"));
    assert_eq!(
        finish_task_kill(3, 333, Some(String::from("ESRCH"))),
        error("Failed to kill task 3 (PID: 333): ESRCH")
    );
}

#[test]
fn task_remove_spares_running_tasks() {
    let mut state = state_with_tasks();
    assert_eq!(
        handle_task_command(TaskAction::Remove { task_id: 3 }, &mut state),
        TaskStep::Reply(error("Task 3 is currently running. Please kill it before removing."))
    );
    assert!(state.get_task(3).is_some());
    assert_eq!(
        handle_task_command(TaskAction::Remove { task_id: 2 }, &mut state),
        TaskStep::Reply(ack("Task 2 removed successfully"))
    );
    assert!(state.get_task(2).is_none());
    assert!(state.get_queue("running_queue").unwrap().waiting_task_ids.is_empty());
    assert_eq!(
        handle_task_command(TaskAction::Remove { task_id: 2 }, &mut state),
        TaskStep::Reply(error("Task with ID 2 not found"))
    );
}

#[test]
fn task_logs_asks_for_the_file() {
    let mut state = state_with_tasks();
    assert_eq!(
        handle_task_command(TaskAction::Logs { task_id: 1, tail: true }, &mut state),
        TaskStep::ReadLog { task_id: 1, log_path: String::from("/logs/1.log"), tail: true }
    );
    assert_eq!(
        handle_task_command(TaskAction::Logs { task_id: 7, tail: false }, &mut state),
        TaskStep::Reply(error("Task with ID 7 not found"))
    );
}

#[test]
fn log_reply_shows_all_or_the_last_ten_lines() {
    let lines: Vec<String> = (1..=12).map(|n| format!("line {}", n)).collect();
    let all = (1..=12).map(|n| format!("line {}", n)).collect::<Vec<String>>().join("\n");
    let tail = (3..=12).map(|n| format!("line {}", n)).collect::<Vec<String>>().join("\n");
    assert_eq!(finish_task_logs(1, Some(lines.clone()), false), Message::Ack(all));
    assert_eq!(finish_task_logs(1, Some(lines), true), Message::Ack(tail));
    let short: Vec<String> = vec![String::from("a"), String::from("b")];
    assert_eq!(finish_task_logs(1, Some(short), true), ack("a\nb"));
    assert_eq!(finish_task_logs(1, Some(Vec::new()), true), ack(""));
    assert_eq!(finish_task_logs(4, None, true), error("Log file for task 4 does not exist"));
}

#[test]
fn queue_list_and_status() {
    let mut state = DaemonState::new();
    assert_eq!(handle_queue_command(QueueAction::List, &mut state), ack("No queues found"));
    state.add_queue(queue("a"));
    state.add_queue(queue("b"));
    assert_eq!(
        handle_queue_command(QueueAction::List, &mut state),
        Message::QueueStatus(vec![queue("a"), queue("b")])
    );
    assert_eq!(
        handle_queue_command(QueueAction::Status { queue_name: String::from("b") }, &mut state),
        Message::QueueStatus(vec![queue("b")])
    );
    assert_eq!(
        handle_queue_command(QueueAction::Status { queue_name: String::from("c") }, &mut state),
        error("Queue with name 'c' not found")
    );
}

#[test]
fn queue_create_rejects_a_duplicate() {
    let mut state = DaemonState::new();
    assert_eq!(
        handle_queue_command(
            QueueAction::Create { name: String::from("fast"), priority: 7 },
            &mut state
        ),
        ack("Successfully created queue 'fast' with priority 7")
    );
    let created = state.get_queue("fast").unwrap();
    assert_eq!(created.priority, 7);
    assert_eq!(created.max_concurrent, 1);
    assert!(created.waiting_task_ids.is_empty());
    assert_eq!(
        handle_queue_command(
            QueueAction::Create { name: String::from("fast"), priority: 2 },
            &mut state
        ),
        error("Queue 'fast' already exists")
    );
    assert_eq!(state.get_queue("fast").unwrap().priority, 7);
    assert_eq!(state.get_all_queues().len(), 1);
}

#[test]
fn queue_merge_moves_every_task_of_the_source() {
    let mut state = DaemonState::new();
    state.add_queue(queue("src"));
    state.add_queue(queue("dst"));
    state.add_task(task(1, "src", TaskState::Waiting));
    state.add_task(task(2, "dst", TaskState::Waiting));
    state.add_task(task(3, "src", TaskState::Waiting));
    assert_eq!(
        handle_queue_command(
            QueueAction::Merge { source: String::from("src"), dest: String::from("dst") },
            &mut state
        ),
        ack("Successfully moved 2 tasks from queue 'src' to queue 'dst'")
    );
    assert!(state.get_queue("src").unwrap().waiting_task_ids.is_empty());
    assert_eq!(state.get_queue("dst").unwrap().waiting_task_ids, vec![2, 1, 3]);
    assert_eq!(state.get_task(3).unwrap().queue, "dst");
    assert_eq!(
        handle_queue_command(
            QueueAction::Merge { source: String::from("src"), dest: String::from("dst") },
            &mut state
        ),
        ack("No tasks needed to be moved from queue 'src'")
    );
}

#[test]
fn queue_merge_needs_two_different_existing_queues() {
    let mut state = DaemonState::new();
    state.add_queue(queue("a"));
    assert_eq!(
        handle_queue_command(
            QueueAction::Merge { source: String::from("x"), dest: String::from("a") },
            &mut state
        ),
        error("Source queue 'x' does not exist")
    );
    assert_eq!(
        handle_queue_command(
            QueueAction::Merge { source: String::from("a"), dest: String::from("y") },
            &mut state
        ),
        error("Destination queue 'y' does not exist")
    );
    assert_eq!(
        handle_queue_command(
            QueueAction::Merge { source: String::from("a"), dest: String::from("a") },
            &mut state
        ),
        error("Source and destination queues cannot be the same")
    );
}

#[test]
fn queue_move_of_one_task() {
    let mut state = DaemonState::new();
    state.add_queue(queue("x"));
    state.add_queue(queue("y"));
    state.add_task(task(1, "x", TaskState::Waiting));
    assert_eq!(
        handle_queue_command(
            QueueAction::Move { task_id: 1, dest_queue: String::from("y") },
            &mut state
        ),
        ack("Successfully moved task 1 from queue 'x' to queue 'y'")
    );
    assert_eq!(
        handle_queue_command(
            QueueAction::Move { task_id: 1, dest_queue: String::from("y") },
            &mut state
        ),
        ack("Task 1 is already in queue 'y'")
    );
    assert_eq!(
        handle_queue_command(
            QueueAction::Move { task_id: 1, dest_queue: String::from("z") },
            &mut state
        ),
        error("Destination queue 'z' does not exist")
    );
    assert_eq!(
        handle_queue_command(
            QueueAction::Move { task_id: 5, dest_queue: String::from("y") },
            &mut state
        ),
        error("Task with ID 5 not found")
    );
}

#[test]
fn queue_move_parks_a_running_task_without_killing_it() {
    let mut state = DaemonState::new();
    state.add_queue(queue("x"));
    state.add_queue(queue("y"));
    state.add_task(task(1, "x", TaskState::Waiting));
    state.update_task_state(1, TaskState::Running, Some(vec![0]), None).unwrap();
    state.set_task_pid(1, Some(55)).unwrap();
    let reply = handle_queue_command(
        QueueAction::Move { task_id: 1, dest_queue: String::from("y") },
        &mut state,
    );
    assert!(matches!(reply, Message::Ack(_)));
    let moved = state.get_task(1).unwrap();
    assert_eq!(moved.queue, "y");
    assert_eq!(moved.state, TaskState::Running);
    assert_eq!(moved.pid, Some(55));
    assert_eq!(state.get_queue("y").unwrap().waiting_task_ids, vec![1]);
}

#[test]
fn priority_nine_is_accepted_and_ten_rejected() {
    let mut state = DaemonState::new();
    state.add_task(task(1, "x", TaskState::Waiting));
    assert_eq!(
        handle_queue_command(QueueAction::SetPriority { task_id: 1, level: 9 }, &mut state),
        ack("Successfully updated priority for task 1 from 5 to 9")
    );
    assert_eq!(state.get_task(1).unwrap().priority, 9);
    assert_eq!(
        handle_queue_command(QueueAction::SetPriority { task_id: 1, level: 10 }, &mut state),
        error("Invalid priority level 10, must be 0-9")
    );
    assert_eq!(state.get_task(1).unwrap().priority, 9);
    assert_eq!(
        handle_queue_command(QueueAction::SetPriority { task_id: 1, level: 0 }, &mut state),
        ack("Successfully updated priority for task 1 from 9 to 0")
    );
    assert_eq!(
        handle_queue_command(QueueAction::SetPriority { task_id: 4, level: 3 }, &mut state),
        error("Task with ID 4 not found")
    );
}

fn limit(kind: MemoryRequirementType, value: u64) -> ResourceLimit {
    ResourceLimit {
        memory_requirement_type: kind,
        memory_requirement_value: value,
        max_gpu_utilization: -1,
    }
}

#[test]
fn percentage_zero_and_hundred_are_accepted_and_hundred_one_rejected() {
    let mut state = DaemonState::new();
    state.add_queue(queue("q"));
    for value in [0u64, 100] {
        let reply = handle_queue_command(
            QueueAction::SetResourceLimit {
                queue_name: String::from("q"),
                limit: limit(MemoryRequirementType::Percentage, value),
            },
            &mut state,
        );
        assert_eq!(reply, ack("Successfully updated resource limit for queue 'q'"));
        assert_eq!(state.get_queue("q").unwrap().resource_limit.memory_requirement_value, value);
    }
    let reply = handle_queue_command(
        QueueAction::SetResourceLimit {
            queue_name: String::from("q"),
            limit: limit(MemoryRequirementType::Percentage, 101),
        },
        &mut state,
    );
    assert_eq!(
        reply,
        error("Invalid memory value for percentage type: 101. Must be between 0 and 100")
    );
    assert_eq!(state.get_queue("q").unwrap().resource_limit.memory_requirement_value, 100);
}

#[test]
fn absolute_zero_is_rejected() {
    let mut state = DaemonState::new();
    state.add_queue(queue("q"));
    let reply = handle_queue_command(
        QueueAction::SetResourceLimit {
            queue_name: String::from("q"),
            limit: limit(MemoryRequirementType::AbsoluteMb, 0),
        },
        &mut state,
    );
    assert_eq!(
        reply,
        error("Invalid memory value for absolute type: 0. Must be a positive number")
    );
    assert_eq!(state.get_queue("q").unwrap().resource_limit, ResourceLimit::default());
    let reply = handle_queue_command(
        QueueAction::SetResourceLimit {
            queue_name: String::from("q"),
            limit: limit(MemoryRequirementType::AbsoluteMb, 1),
        },
        &mut state,
    );
    assert!(matches!(reply, Message::Ack(_)));
    assert_eq!(check_limit(&limit(MemoryRequirementType::Ignore, 0)), None);
    assert_eq!(check_limit(&limit(MemoryRequirementType::Ignore, 1000)), None);
}

#[test]
fn limit_for_unknown_queue_is_an_error() {
    let mut state = DaemonState::new();
    let reply = handle_queue_command(
        QueueAction::SetResourceLimit {
            queue_name: String::from("nope"),
            limit: limit(MemoryRequirementType::Ignore, 0),
        },
        &mut state,
    );
    assert_eq!(reply, error("Queue with name 'nope' not found"));
}

#[test]
fn gpu_list_and_info() {
    let mut state = DaemonState::new();
    assert_eq!(only_reply(handle_gpu_command(GPUAction::List, &mut state)), ack("No GPUs detected"));
    state.update_all_gpu_stats(&vec![Some(stats(1)), Some(stats(2))]);
    assert_eq!(
        only_reply(handle_gpu_command(GPUAction::List, &mut state)),
        Message::GPUStatus(vec![stats(1), stats(2)])
    );
    assert_eq!(
        only_reply(handle_gpu_command(GPUAction::Info { gpu_id: None }, &mut state)),
        Message::GPUStatus(vec![stats(1), stats(2)])
    );
    assert_eq!(
        only_reply(handle_gpu_command(GPUAction::Info { gpu_id: Some(1) }, &mut state)),
        Message::GPUStatus(vec![stats(2)])
    );
    assert_eq!(
        only_reply(handle_gpu_command(GPUAction::Info { gpu_id: Some(5) }, &mut state)),
        error("GPU with ID 5 not found or status unavailable")
    );
}

#[test]
fn gpu_allocate_twice_is_acknowledged_twice() {
    let mut state = DaemonState::new();
    state.add_queue(queue("q"));
    let first = only_reply(handle_gpu_command(
        GPUAction::Allocate { gpu_ids: vec![0], queue: String::from("q") },
        &mut state,
    ));
    assert_eq!(first, ack("Successfully allocated GPU(s) 0 to queue 'q'"));
    let allocations = state.get_gpu_allocations();
    let queues = state.get_all_queues();
    assert_eq!(state.get_gpu_allocation(0), Some(Some(String::from("q"))));
    assert_eq!(state.get_queue("q").unwrap().allocated_gpus, vec![0]);
    let second = only_reply(handle_gpu_command(
        GPUAction::Allocate { gpu_ids: vec![0], queue: String::from("q") },
        &mut state,
    ));
    assert_eq!(second, ack("Successfully allocated GPU(s) 0 to queue 'q'"));
    assert_eq!(state.get_gpu_allocations(), allocations);
    assert_eq!(state.get_all_queues(), queues);
}

#[test]
fn gpu_allocate_refuses_ignored_and_foreign_gpus() {
    let mut state = DaemonState::new();
    state.add_queue(queue("q"));
    state.add_queue(queue("other"));
    state.set_gpu_ignore(1);
    state.set_gpu_allocation(2, Some(String::from("other")));
    state.set_gpu_allocation(3, None);
    let reply = only_reply(handle_gpu_command(
        GPUAction::Allocate { gpu_ids: vec![0, 1, 2, 3], queue: String::from("q") },
        &mut state,
    ));
    assert_eq!(
        reply,
        error(
            "Failed to allocate GPU(s) 1,2 to queue 'q': ignored or owned by another queue. Successfully allocated: 0,3"
        )
    );
    assert_eq!(state.get_gpu_allocation(0), Some(Some(String::from("q"))));
    assert_eq!(state.get_gpu_allocation(1), None);
    assert_eq!(state.get_gpu_allocation(2), Some(Some(String::from("other"))));
    assert_eq!(state.get_gpu_allocation(3), Some(Some(String::from("q"))));
    assert_eq!(state.get_queue("q").unwrap().allocated_gpus, vec![0, 3]);
}

#[test]
fn gpu_allocate_needs_ids_and_a_queue() {
    let mut state = DaemonState::new();
    assert_eq!(
        only_reply(handle_gpu_command(
            GPUAction::Allocate { gpu_ids: vec![], queue: String::from("q") },
            &mut state
        )),
        error("No GPU IDs provided for allocation")
    );
    assert_eq!(
        only_reply(handle_gpu_command(
            GPUAction::Allocate { gpu_ids: vec![0], queue: String::from("q") },
            &mut state
        )),
        error("Destination queue 'q' does not exist")
    );
    assert!(state.get_gpu_allocations().is_empty());
}

#[test]
fn gpu_release_frees_the_gpu_and_names_the_processes_to_end() {
    let mut state = DaemonState::new();
    state.add_queue(queue("q"));
    only_reply(handle_gpu_command(
        GPUAction::Allocate { gpu_ids: vec![0, 1], queue: String::from("q") },
        &mut state,
    ));
    state.add_task(task(1, "q", TaskState::Waiting));
    state.add_task(task(2, "q", TaskState::Waiting));
    state.add_task(task(3, "q", TaskState::Waiting));
    state.update_task_state(1, TaskState::Running, Some(vec![0]), None).unwrap();
    state.set_task_pid(1, Some(11)).unwrap();
    state.update_task_state(2, TaskState::Running, Some(vec![1]), None).unwrap();
    state.set_task_pid(2, Some(22)).unwrap();
    state.update_task_state(3, TaskState::Finished, Some(vec![0]), None).unwrap();
    let outcome = handle_gpu_command(GPUAction::Release { gpu_id: 0 }, &mut state);
    assert_eq!(outcome.reply, ack("Successfully released GPU 0"));
    assert_eq!(outcome.terminate, vec![11]);
    assert_eq!(state.get_gpu_allocation(0), Some(None));
    assert_eq!(state.get_gpu_allocation(1), Some(Some(String::from("q"))));
    assert_eq!(state.get_queue("q").unwrap().allocated_gpus, vec![1]);
    assert_eq!(state.get_task(1).unwrap().state, TaskState::Running);
}

#[test]
fn gpu_ignore_is_refused_while_a_queue_owns_the_gpu() {
    let mut state = DaemonState::new();
    state.add_queue(queue("running_queue"));
    only_reply(handle_gpu_command(
        GPUAction::Allocate { gpu_ids: vec![0], queue: String::from("running_queue") },
        &mut state,
    ));
    assert_eq!(
        only_reply(handle_gpu_command(GPUAction::Ignore { gpu_id: 0 }, &mut state)),
        error("GPU 0 is allocated to queue 'running_queue' and must be released before ignoring.")
    );
    assert!(state.get_ignored_gpus().is_empty());
    only_reply(handle_gpu_command(GPUAction::Release { gpu_id: 0 }, &mut state));
    assert_eq!(
        only_reply(handle_gpu_command(GPUAction::Ignore { gpu_id: 0 }, &mut state)),
        ack("GPU 0 has been set to ignored state")
    );
    assert_eq!(state.get_ignored_gpus(), vec![0]);
    assert_eq!(state.get_gpu_allocation(0), None);
    assert_eq!(
        only_reply(handle_gpu_command(
            GPUAction::Allocate { gpu_ids: vec![0], queue: String::from("running_queue") },
            &mut state,
        )),
        error(
            "Failed to allocate GPU(s) 0 to queue 'running_queue': ignored or owned by another queue. Successfully allocated: "
        )
    );
}

#[test]
fn ignore_then_reset_returns_the_gpu_to_the_free_pool() {
    let mut state = DaemonState::new();
    assert_eq!(
        only_reply(handle_gpu_command(GPUAction::ResetIgnored, &mut state)),
        ack("No GPUs are currently ignored")
    );
    only_reply(handle_gpu_command(GPUAction::Ignore { gpu_id: 4 }, &mut state));
    only_reply(handle_gpu_command(GPUAction::Ignore { gpu_id: 2 }, &mut state));
    assert_eq!(state.get_ignored_gpus(), vec![2, 4]);
    assert_eq!(
        only_reply(handle_gpu_command(GPUAction::ResetIgnored, &mut state)),
        ack("Successfully unignored 2 GPU(s)")
    );
    assert!(state.get_ignored_gpus().is_empty());
    assert_eq!(state.get_gpu_allocation(2), Some(None));
    assert_eq!(state.get_gpu_allocation(4), Some(None));
}

#[test]
fn allocating_again_changes_nothing() {
    let mut state = DaemonState::new();
    state.add_queue(queue("q"));
    state.add_queue(queue("other"));
    let gpus = vec![2, 0, 2];
    let name = String::from("q");
    let first = handle_gpu_allocate(&gpus, &name, &mut state);
    assert_eq!(first, ack("Successfully allocated GPU(s) 2,0,2 to queue 'q'"));
    let allocations = state.get_gpu_allocations();
    let queues = state.get_all_queues();
    let second = handle_gpu_allocate(&gpus, &name, &mut state);
    assert_eq!(second, first);
    assert_eq!(state.get_gpu_allocations(), allocations);
    assert_eq!(state.get_all_queues(), queues);
    let refused = handle_gpu_allocate(&vec![0], &String::from("other"), &mut state);
    assert!(matches!(refused, Message::Error(_)));
    assert_eq!(state.get_gpu_allocations(), allocations);
}

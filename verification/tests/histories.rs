use gavel::daemon::{ensure_default_queues_exist, handle_message, Step};
use gavel::message::{GPUAction, Message, QueueAction, SubmitAction, TaskAction};
use gavel::models::{QueueMeta, ResourceLimit, TaskMeta, TaskState};
use gavel::monitor::{GpuStats, MemoryInfo};
use gavel::scheduler::{schedule_tasks, update_tasks};
use gavel::state::DaemonState;
use gavel::submit_handler::{SubmitContext, SubmitCounters};
use gavel::supervise::{record_child_exit, record_launch_failure, ChildExit};

fn gpu() -> GpuStats {
    GpuStats {
        temperature: 30,
        core_usage: 0,
        memory_usage: MemoryInfo { total: 1 << 34, used: 0, free: 1 << 34 },
        power_usage: 50_000,
    }
}

fn context(now_secs: u64) -> SubmitContext {
    SubmitContext { now_secs, log_dir: String::from("/logs") }
}

fn lists_and_records_agree(state: &DaemonState) {
    let tasks = state.get_all_tasks();
    let queues = state.get_all_queues();
    for task in &tasks {
        assert!(queues.iter().any(|q| q.name == task.queue), "task {} has no queue", task.id);
    }
    for queue in &queues {
        for id in &queue.waiting_task_ids {
            let task = tasks.iter().find(|t| t.id == *id).expect("listed task exists");
            assert_eq!(task.state, TaskState::Waiting);
            assert_eq!(task.queue, queue.name);
        }
        for id in &queue.running_task_ids {
            let task = tasks.iter().find(|t| t.id == *id).expect("listed task exists");
            assert_eq!(task.state, TaskState::Running);
            assert_eq!(task.queue, queue.name);
        }
        let running = tasks
            .iter()
            .filter(|t| t.state == TaskState::Running && t.queue == queue.name)
            .count();
        assert!(running <= queue.max_concurrent as usize);
        assert_eq!(running, queue.running_task_ids.len());
    }
    for task in &tasks {
        if task.state == TaskState::Finished || task.state == TaskState::Failed {
            for queue in &queues {
                assert!(!queue.waiting_task_ids.contains(&task.id));
                assert!(!queue.running_task_ids.contains(&task.id));
            }
        }
    }
}

fn gpus_in_order(state: &DaemonState) {
    let tasks = state.get_all_tasks();
    let ignored = state.get_ignored_gpus();
    let running: Vec<&TaskMeta> = tasks.iter().filter(|t| t.state == TaskState::Running).collect();
    for task in &running {
        assert_eq!(task.gpu_ids.len(), task.gpu_require as usize);
        for g in &task.gpu_ids {
            assert!(!ignored.contains(&(*g as u32)));
        }
    }
    for (a, first) in running.iter().enumerate() {
        for second in running.iter().skip(a + 1) {
            for g in &first.gpu_ids {
                assert!(!second.gpu_ids.contains(g), "GPU {} is held twice", g);
            }
        }
    }
}

fn request(state: &mut DaemonState, counters: &mut SubmitCounters, now: u64, message: Message) -> Step {
    let step = handle_message(message, state, counters, &context(now));
    lists_and_records_agree(state);
    gpus_in_order(state);
    step
}

#[test]
fn a_history_keeps_lists_records_and_gpus_in_order() {
    let mut state = DaemonState::new();
    let mut counters = SubmitCounters::new();
    state.update_all_gpu_stats(&vec![Some(gpu()), Some(gpu()), Some(gpu())]);
    ensure_default_queues_exist(&mut state);
    lists_and_records_agree(&state);

    for n in 0..6u8 {
        request(
            &mut state,
            &mut counters,
            1000 + n as u64,
            Message::SubmitCommand(SubmitAction::Command {
                command: format!("job {}", n),
                gpu_num_required: n % 3,
                queue_name: None,
                name: None,
            }),
        );
    }
    let ids: Vec<u64> = state.get_all_tasks().iter().map(|t| t.id).collect();
    assert_eq!(ids.len(), 6);
    request(&mut state, &mut counters, 1010, Message::QueueCommand(QueueAction::Create { name: String::from("side"), priority: 7 }));
    request(&mut state, &mut counters, 1010, Message::QueueCommand(QueueAction::Move { task_id: ids[5], dest_queue: String::from("side") }));
    for id in &ids[0..5] {
        request(&mut state, &mut counters, 1011, Message::TaskCommand(TaskAction::Run { task_id: *id }));
    }
    request(&mut state, &mut counters, 1012, Message::QueueCommand(QueueAction::SetPriority { task_id: ids[3], level: 9 }));

    let mut pid = 100;
    for round in 0..6 {
        let launches = schedule_tasks(&mut state);
        lists_and_records_agree(&state);
        gpus_in_order(&state);
        for task in &launches {
            if round == 1 {
                record_launch_failure(&mut state, task.id, String::from("spawn failed"));
            } else {
                pid += 1;
                state.set_task_pid(task.id, Some(pid)).unwrap();
            }
        }
        lists_and_records_agree(&state);
        let running: Vec<u64> = state
            .get_all_tasks()
            .iter()
            .filter(|t| t.state == TaskState::Running)
            .map(|t| t.id)
            .collect();
        for id in running {
            let exit = if id % 2 == 0 { ChildExit::Succeeded } else { ChildExit::Failed(String::from("exit status: 1")) };
            record_child_exit(&mut state, id, exit);
            lists_and_records_agree(&state);
            gpus_in_order(&state);
        }
        update_tasks(&mut state, &vec![]);
        lists_and_records_agree(&state);
    }
    let tasks = state.get_all_tasks();
    for task in &tasks {
        if task.queue == "running_queue" {
            assert!(task.state == TaskState::Finished || task.state == TaskState::Failed);
        } else {
            assert_eq!(task.queue, "side");
            assert_eq!(task.state, TaskState::Waiting);
        }
    }
    request(&mut state, &mut counters, 1020, Message::QueueCommand(QueueAction::Merge { source: String::from("side"), dest: String::from("running_queue") }));
    for id in ids {
        request(&mut state, &mut counters, 1021, Message::TaskCommand(TaskAction::Remove { task_id: id }));
    }
    assert!(state.get_all_tasks().is_empty());
    request(&mut state, &mut counters, 1022, Message::GPUCommand(GPUAction::Release { gpu_id: 1 }));
    request(&mut state, &mut counters, 1022, Message::GPUCommand(GPUAction::Ignore { gpu_id: 1 }));
    request(&mut state, &mut counters, 1022, Message::GPUCommand(GPUAction::ResetIgnored));
}

#[test]
fn busy_gpu_stays_a_candidate_while_its_queue_has_room() {
    let mut state = DaemonState::new();
    state.update_all_gpu_stats(&vec![Some(gpu())]);
    state.add_queue(QueueMeta {
        name: String::from("q"),
        max_concurrent: 2,
        priority: 5,
        waiting_task_ids: Vec::new(),
        running_task_ids: Vec::new(),
        allocated_gpus: Vec::new(),
        resource_limit: ResourceLimit::default(),
    });
    let mut counters = SubmitCounters::new();
    for now in [1u64, 2] {
        handle_message(
            Message::SubmitCommand(SubmitAction::Command {
                command: String::from("true"),
                gpu_num_required: 1,
                queue_name: Some(String::from("q")),
                name: None,
            }),
            &mut state,
            &mut counters,
            &context(now),
        );
        let launches = schedule_tasks(&mut state);
        assert_eq!(launches.len(), 1);
        assert_eq!(launches[0].gpu_ids, vec![0]);
    }
    assert_eq!(state.get_queue("q").unwrap().running_task_ids.len(), 2);
}

#[test]
fn ignoring_a_free_gpu_is_allowed_while_a_task_runs_on_it() {
    let mut state = DaemonState::new();
    state.update_all_gpu_stats(&vec![Some(gpu())]);
    state.add_queue(QueueMeta {
        name: String::from("q"),
        max_concurrent: 1,
        priority: 5,
        waiting_task_ids: Vec::new(),
        running_task_ids: Vec::new(),
        allocated_gpus: Vec::new(),
        resource_limit: ResourceLimit::default(),
    });
    let mut counters = SubmitCounters::new();
    handle_message(
        Message::SubmitCommand(SubmitAction::Command {
            command: String::from("true"),
            gpu_num_required: 1,
            queue_name: Some(String::from("q")),
            name: None,
        }),
        &mut state,
        &mut counters,
        &context(1),
    );
    assert_eq!(schedule_tasks(&mut state).len(), 1);
    let step = handle_message(
        Message::GPUCommand(GPUAction::Ignore { gpu_id: 0 }),
        &mut state,
        &mut counters,
        &context(2),
    );
    assert!(matches!(step, Step::Reply(Message::Ack(_))));
    assert_eq!(state.get_ignored_gpus(), vec![0]);
    assert_eq!(state.get_all_tasks()[0].state, TaskState::Running);
}

fn ended_are_unlisted(state: &DaemonState) {
    let tasks = state.get_all_tasks();
    let mut ids: Vec<u64> = tasks.iter().map(|t| t.id).collect();
    ids.sort();
    ids.dedup();
    assert_eq!(ids.len(), tasks.len());
    assert!(!ids.contains(&0));
    for task in &tasks {
        assert!(state.get_queue(task.queue.as_str()).is_some(), "task {} has no queue", task.id);
    }
    for task in &tasks {
        if task.state == TaskState::Finished || task.state == TaskState::Failed {
            for queue in state.get_all_queues() {
                assert!(!queue.waiting_task_ids.contains(&task.id), "task {} waits in {}", task.id, queue.name);
                assert!(!queue.running_task_ids.contains(&task.id), "task {} runs in {}", task.id, queue.name);
            }
        }
    }
}

#[test]
fn ended_tasks_are_unlisted_even_after_running_tasks_were_moved() {
    let mut state = DaemonState::new();
    let mut counters = SubmitCounters::new();
    state.update_all_gpu_stats(&vec![Some(gpu()), Some(gpu())]);
    ensure_default_queues_exist(&mut state);
    for n in 0..4u8 {
        handle_message(
            Message::SubmitCommand(SubmitAction::Command {
                command: format!("job {}", n),
                gpu_num_required: 1,
                queue_name: None,
                name: None,
            }),
            &mut state,
            &mut counters,
            &context(20),
        );
        ended_are_unlisted(&state);
    }
    let ids: Vec<u64> = state.get_all_tasks().iter().map(|t| t.id).collect();
    assert_eq!(ids, vec![2000, 2001, 2002, 2003]);
    handle_message(
        Message::QueueCommand(QueueAction::Create { name: String::from("side"), priority: 3 }),
        &mut state,
        &mut counters,
        &context(21),
    );
    for id in &ids {
        handle_message(Message::TaskCommand(TaskAction::Run { task_id: *id }), &mut state, &mut counters, &context(21));
    }
    let launches = schedule_tasks(&mut state);
    assert_eq!(launches.len(), 2);
    let mut pid = 40;
    for task in &launches {
        pid += 1;
        state.set_task_pid(task.id, Some(pid)).unwrap();
    }
    ended_are_unlisted(&state);
    let moved = launches[0].id;
    let merged = launches[1].id;
    handle_message(
        Message::QueueCommand(QueueAction::Move { task_id: moved, dest_queue: String::from("side") }),
        &mut state,
        &mut counters,
        &context(22),
    );
    assert_eq!(state.get_task(moved).unwrap().state, TaskState::Running);
    assert_eq!(state.get_queue("side").unwrap().waiting_task_ids, vec![moved]);
    ended_are_unlisted(&state);
    record_child_exit(&mut state, moved, ChildExit::Succeeded);
    assert_eq!(state.get_task(moved).unwrap().state, TaskState::Finished);
    assert!(state.get_queue("side").unwrap().waiting_task_ids.is_empty());
    ended_are_unlisted(&state);
    handle_message(
        Message::QueueCommand(QueueAction::Merge {
            source: String::from("running_queue"),
            dest: String::from("waiting_queue"),
        }),
        &mut state,
        &mut counters,
        &context(23),
    );
    assert_eq!(state.get_task(merged).unwrap().state, TaskState::Running);
    assert!(state.get_queue("waiting_queue").unwrap().waiting_task_ids.contains(&merged));
    ended_are_unlisted(&state);
    update_tasks(&mut state, &vec![pid]);
    assert_eq!(state.get_task(merged).unwrap().state, TaskState::Failed);
    ended_are_unlisted(&state);
    record_launch_failure(&mut state, ids[3], String::from("no such file"));
    ended_are_unlisted(&state);
    schedule_tasks(&mut state);
    ended_are_unlisted(&state);
    for id in &ids {
        if state.get_task(*id).unwrap().state != TaskState::Running {
            handle_message(Message::TaskCommand(TaskAction::Remove { task_id: *id }), &mut state, &mut counters, &context(24));
            ended_are_unlisted(&state);
        }
    }
}

#[test]
fn moving_an_ended_task_parks_it() {
    let mut state = DaemonState::new();
    let mut counters = SubmitCounters::new();
    ensure_default_queues_exist(&mut state);
    handle_message(
        Message::SubmitCommand(SubmitAction::Command {
            command: String::from("true"),
            gpu_num_required: 0,
            queue_name: None,
            name: None,
        }),
        &mut state,
        &mut counters,
        &context(3),
    );
    record_launch_failure(&mut state, 300, String::from("gone"));
    ended_are_unlisted(&state);
    handle_message(
        Message::QueueCommand(QueueAction::Move { task_id: 300, dest_queue: String::from("running_queue") }),
        &mut state,
        &mut counters,
        &context(4),
    );
    assert_eq!(state.get_task(300).unwrap().state, TaskState::Failed);
    assert_eq!(state.get_task(300).unwrap().queue, "running_queue");
    assert_eq!(state.get_queue("running_queue").unwrap().waiting_task_ids, vec![300]);
}

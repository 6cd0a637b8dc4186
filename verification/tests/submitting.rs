use gavel::client::{
    batch_entry, default_task_filter, exit_code, parse_memory_requirement_type,
    select_task_filter, DaemonStatus,
};
use gavel::models::MemoryRequirementType;
use gavel::daemon::{handle_message, status, Step};
use gavel::message::{DaemonAction, Message, SubmitAction, TaskAction, TaskFilter};
use gavel::models::{TaskMeta, TaskState};
use gavel::monitor::{GpuStats, MemoryInfo};
use gavel::state::DaemonState;
use gavel::submit_handler::{
    generate_default_task_name, generate_log_path, generate_task_id, handle_submit_command,
    SubmitContext, SubmitCounters,
};
use gavel::supervise::{launch_task_process, plan_launch, LaunchError, LaunchPlan};

fn context(now_secs: u64) -> SubmitContext {
    SubmitContext { now_secs, log_dir: String::from("/var/log/gavel") }
}

fn command(cmd: &str, gpus: u8, queue: Option<&str>, name: Option<&str>) -> SubmitAction {
    SubmitAction::Command {
        command: String::from(cmd),
        gpu_num_required: gpus,
        queue_name: queue.map(String::from),
        name: name.map(String::from),
    }
}

fn task_with_command(cmd: &str, gpu_ids: Vec<u8>) -> TaskMeta {
    TaskMeta {
        pid: None,
        id: 12,
        name: String::from("t"),
        cmd: String::from(cmd),
        gpu_require: gpu_ids.len() as u8,
        state: TaskState::Running,
        log_path: String::from("/logs/12.log"),
        priority: 5,
        queue: String::from("q"),
        create_time: 1,
        gpu_ids,
        failure_reason: None,
    }
}

#[test]
fn task_id_starts_at_the_second_and_ascends() {
    assert_eq!(generate_task_id(1, 0), 100);
    assert_eq!(generate_task_id(1_700_000_123, 7), 12300);
    assert_eq!(generate_task_id(1_700_000_123, 12300), 12301);
    assert_eq!(generate_task_id(1_700_000_123, 12399), 12400);
    assert_eq!(generate_task_id(5, 12300), 12301);
    assert_eq!(generate_task_id(999_999, 0), 99_999_900);
    assert_eq!(generate_task_id(999_999, 99_999_900), 99_999_901);
    assert_eq!(generate_task_id(u64::MAX, 3), (u64::MAX % 1_000_000) * 100);
}

#[test]
fn task_id_is_never_zero() {
    assert_eq!(generate_task_id(0, 0), 1);
    assert_eq!(generate_task_id(1_000_000, 0), 1);
    assert_eq!(generate_task_id(2_000_000, 41), 42);
    assert_eq!(generate_task_id(0, u64::MAX - 1), u64::MAX);
    assert_eq!(generate_task_id(0, u64::MAX), 1);
    assert_eq!(generate_task_id(77, u64::MAX), 1);
}

#[test]
fn generated_ids_ascend_through_the_seconds() {
    let seconds = [0u64, 0, 3, 3, 2, 1_000_000, 999_999, 999_999, 4];
    let mut last = 0u64;
    let mut seen: Vec<u64> = Vec::new();
    for now in seconds {
        let id = generate_task_id(now, last);
        assert!(id > last);
        assert!(!seen.contains(&id));
        seen.push(id);
        last = id;
    }
    assert_eq!(seen, vec![1, 2, 300, 301, 302, 303, 99_999_900, 99_999_901, 99_999_902]);
}

#[test]
fn default_names_and_log_paths() {
    assert_eq!(generate_default_task_name(1), "task_1");
    assert_eq!(generate_default_task_name(120), "task_120");
    assert_eq!(generate_log_path("/tmp/gavel_logs", 12307), "/tmp/gavel_logs/12307.log");
}

#[test]
fn counters_start_at_zero_and_one() {
    assert_eq!(SubmitCounters::new(), SubmitCounters { id_counter: 0, name_counter: 1 });
}

#[test]
fn command_submission_fills_the_defaults() {
    let mut state = DaemonState::new();
    let mut counters = SubmitCounters::new();
    let reply = handle_submit_command(command("python train.py", 2, None, None), &mut state, &mut counters, &context(1_700_000_123));
    assert_eq!(
        reply,
        Message::Ack(String::from("Command task 12300 ('task_1') submitted to queue 'waiting_queue'"))
    );
    assert_eq!(counters, SubmitCounters { id_counter: 12300, name_counter: 2 });
    assert_eq!(
        state.get_task(12300),
        Some(TaskMeta {
            pid: None,
            id: 12300,
            name: String::from("task_1"),
            cmd: String::from("python train.py"),
            gpu_require: 2,
            state: TaskState::Waiting,
            log_path: String::from("/var/log/gavel/12300.log"),
            priority: 5,
            queue: String::from("waiting_queue"),
            create_time: 1_700_000_123,
            gpu_ids: vec![],
            failure_reason: None,
        })
    );
    assert_eq!(state.get_queue("waiting_queue").unwrap().waiting_task_ids, vec![12300]);
}

#[test]
fn named_submission_to_a_named_queue() {
    let mut state = DaemonState::new();
    let mut counters = SubmitCounters::new();
    let reply = handle_submit_command(command("true", 0, Some("batch"), Some("mine")), &mut state, &mut counters, &context(5));
    assert_eq!(
        reply,
        Message::Ack(String::from("Command task 500 ('mine') submitted to queue 'batch'"))
    );
    assert_eq!(counters, SubmitCounters { id_counter: 500, name_counter: 1 });
    let queue = state.get_queue("batch").unwrap();
    assert_eq!(queue.priority, 10);
    assert_eq!(queue.max_concurrent, 1);
    assert_eq!(queue.waiting_task_ids, vec![500]);
}

#[test]
fn script_submission_runs_the_path() {
    let mut state = DaemonState::new();
    let mut counters = SubmitCounters::new();
    let reply = handle_submit_command(
        SubmitAction::Script {
            script_path: String::from("/home/me/job.sh"),
            gpu_num_required: 1,
            queue_name: None,
            name: None,
        },
        &mut state,
        &mut counters,
        &context(9),
    );
    assert_eq!(
        reply,
        Message::Ack(String::from(
            "Script task 900 ('task_1') submitted from path '/home/me/job.sh' to queue 'waiting_queue'"
        ))
    );
    assert_eq!(state.get_task(900).unwrap().cmd, "/home/me/job.sh");
}

#[test]
fn ids_of_one_second_are_distinct_and_never_zero() {
    let mut state = DaemonState::new();
    let mut counters = SubmitCounters::new();
    for _ in 0..250 {
        let reply = handle_submit_command(command("true", 0, None, None), &mut state, &mut counters, &context(0));
        assert!(matches!(reply, Message::Ack(_)));
    }
    let ids: Vec<u64> = state.get_all_tasks().iter().map(|t| t.id).collect();
    assert!(!ids.contains(&0));
    assert_eq!(ids, (1..=250).collect::<Vec<u64>>());
    assert_eq!(counters.id_counter, 250);
    assert_eq!(state.get_queue("waiting_queue").unwrap().waiting_task_ids, ids);
    let later = handle_submit_command(command("true", 0, None, None), &mut state, &mut counters, &context(1));
    assert_eq!(
        later,
        Message::Ack(String::from("Command task 251 ('task_251') submitted to queue 'waiting_queue'"))
    );
    assert_eq!(state.get_all_tasks().len(), 251);
}

#[test]
fn a_removed_id_is_not_given_again() {
    let mut state = DaemonState::new();
    let mut counters = SubmitCounters::new();
    handle_submit_command(command("true", 0, None, None), &mut state, &mut counters, &context(3));
    assert!(state.remove_task(300).is_some());
    let reply = handle_submit_command(command("true", 0, None, None), &mut state, &mut counters, &context(3));
    assert_eq!(
        reply,
        Message::Ack(String::from("Command task 301 ('task_2') submitted to queue 'waiting_queue'"))
    );
    assert!(state.get_task(300).is_none());
}

#[test]
fn taken_id_is_stepped_over() {
    let mut state = DaemonState::new();
    let mut counters = SubmitCounters::new();
    handle_submit_command(command("true", 0, None, None), &mut state, &mut counters, &context(3));
    let mut again = SubmitCounters::new();
    let reply = handle_submit_command(command("true", 0, None, None), &mut state, &mut again, &context(3));
    assert_eq!(
        reply,
        Message::Ack(String::from("Command task 301 ('task_1') submitted to queue 'waiting_queue'"))
    );
    assert_eq!(again.id_counter, 301);
    assert!(state.get_task(300).is_some());
    assert!(state.get_task(301).is_some());
}

#[test]
fn search_for_an_id_goes_round_past_the_largest() {
    let mut state = DaemonState::new();
    let mut held = batch_entry(String::from("a"), 0, None, None, None);
    held.id = u64::MAX;
    let mut low = batch_entry(String::from("b"), 0, None, None, None);
    low.id = 1;
    let mut counters = SubmitCounters { id_counter: u64::MAX - 1, name_counter: 1 };
    handle_submit_command(
        SubmitAction::BatchJson { tasks: vec![held, low], default_queue_name: None },
        &mut state,
        &mut counters,
        &context(0),
    );
    assert_eq!(counters.id_counter, u64::MAX - 1);
    let reply = handle_submit_command(command("true", 0, None, None), &mut state, &mut counters, &context(0));
    assert_eq!(
        reply,
        Message::Ack(String::from("Command task 2 ('task_3') submitted to queue 'waiting_queue'"))
    );
    assert_eq!(counters.id_counter, 2);
}

#[test]
fn large_batch_is_stored_whole() {
    let mut state = DaemonState::new();
    let mut counters = SubmitCounters::new();
    let entries: Vec<TaskMeta> =
        (0..150).map(|_| batch_entry(String::from("true"), 0, None, None, None)).collect();
    let reply = handle_submit_command(
        SubmitAction::BatchJson { tasks: entries, default_queue_name: None },
        &mut state,
        &mut counters,
        &context(7),
    );
    assert_eq!(reply, Message::Ack(String::from("Batch JSON tasks submitted: 150 tasks successfully")));
    let ids: Vec<u64> = state.get_all_tasks().iter().map(|t| t.id).collect();
    assert_eq!(ids, (700..850).collect::<Vec<u64>>());
}

#[test]
fn batch_submission_fills_what_is_left_empty() {
    let mut state = DaemonState::new();
    let mut counters = SubmitCounters::new();
    let mut kept = batch_entry(String::from("b"), 0, Some(String::from("own")), Some(9), Some(String::from("named")));
    kept.id = 77;
    kept.log_path = String::from("/own.log");
    kept.create_time = 5;
    kept.state = TaskState::Running;
    kept.pid = Some(3);
    kept.gpu_ids = vec![1];
    let entries = vec![batch_entry(String::from("a"), 2, None, None, None), kept];
    let reply = handle_submit_command(
        SubmitAction::BatchJson { tasks: entries, default_queue_name: Some(String::from("bulk")) },
        &mut state,
        &mut counters,
        &context(40),
    );
    assert_eq!(reply, Message::Ack(String::from("Batch JSON tasks submitted: 2 tasks successfully")));
    assert_eq!(
        state.get_all_tasks(),
        vec![
            TaskMeta {
                pid: None,
                id: 4000,
                name: String::from("task_1"),
                cmd: String::from("a"),
                gpu_require: 2,
                state: TaskState::Waiting,
                log_path: String::from("/var/log/gavel/4000.log"),
                priority: 5,
                queue: String::from("bulk"),
                create_time: 40,
                gpu_ids: vec![],
                failure_reason: None,
            },
            TaskMeta {
                pid: None,
                id: 77,
                name: String::from("named"),
                cmd: String::from("b"),
                gpu_require: 0,
                state: TaskState::Waiting,
                log_path: String::from("/own.log"),
                priority: 9,
                queue: String::from("own"),
                create_time: 5,
                gpu_ids: vec![],
                failure_reason: None,
            },
        ]
    );
    assert_eq!(counters, SubmitCounters { id_counter: 4000, name_counter: 2 });
}

#[test]
fn batch_entry_with_a_taken_id_gets_a_fresh_one() {
    let mut state = DaemonState::new();
    let mut counters = SubmitCounters::new();
    let mut first = batch_entry(String::from("a"), 0, None, None, None);
    first.id = 5;
    let mut second = batch_entry(String::from("b"), 0, None, None, None);
    second.id = 5;
    let reply = handle_submit_command(
        SubmitAction::BatchJson { tasks: vec![first, second], default_queue_name: None },
        &mut state,
        &mut counters,
        &context(2),
    );
    assert!(matches!(reply, Message::Ack(_)));
    let ids: Vec<u64> = state.get_all_tasks().iter().map(|t| t.id).collect();
    assert_eq!(ids, vec![5, 200]);
    assert_eq!(state.get_queue("waiting_queue").unwrap().waiting_task_ids, vec![5, 200]);
    let empty = handle_submit_command(
        SubmitAction::BatchJson { tasks: vec![], default_queue_name: None },
        &mut state,
        &mut counters,
        &context(2),
    );
    assert_eq!(empty, Message::Ack(String::from("Batch JSON tasks submitted: 0 tasks successfully")));
}

#[test]
fn batch_entry_defaults() {
    let entry = batch_entry(String::from("run"), 3, None, None, None);
    assert_eq!(entry.id, 0);
    assert_eq!(entry.name, "");
    assert_eq!(entry.queue, "");
    assert_eq!(entry.log_path, "");
    assert_eq!(entry.priority, 5);
    assert_eq!(entry.gpu_require, 3);
    assert_eq!(entry.create_time, 0);
    assert_eq!(entry.state, TaskState::Waiting);
    assert_eq!(entry.cmd, "run");
}

#[test]
fn command_is_split_by_shell_rules() {
    let plan = launch_task_process(&task_with_command("python 'my script.py' --lr 0.1 \"a b\"\\ c", vec![])).unwrap();
    assert_eq!(
        plan,
        LaunchPlan {
            program: String::from("python"),
            args: vec![String::from("my script.py"), String::from("--lr"), String::from("0.1"), String::from("a b c")],
            cuda_visible_devices: None,
            log_path: String::from("/logs/12.log"),
        }
    );
}

#[test]
fn assigned_gpus_are_named_to_the_child() {
    let plan = launch_task_process(&task_with_command("train", vec![2, 0, 11])).unwrap();
    assert_eq!(plan.program, "train");
    assert!(plan.args.is_empty());
    assert_eq!(plan.cuda_visible_devices, Some(String::from("2,0,11")));
    let single = launch_task_process(&task_with_command("train", vec![7])).unwrap();
    assert_eq!(single.cuda_visible_devices, Some(String::from("7")));
}

#[test]
fn command_that_does_not_split_is_rejected() {
    assert_eq!(launch_task_process(&task_with_command("echo 'unterminated", vec![])), Err(LaunchError::BadCommand));
    assert_eq!(launch_task_process(&task_with_command("trailing \\", vec![])), Err(LaunchError::BadCommand));
    assert_eq!(launch_task_process(&task_with_command("", vec![])), Err(LaunchError::BadCommand));
    assert_eq!(launch_task_process(&task_with_command("   ", vec![0])), Err(LaunchError::BadCommand));
}

#[test]
fn launch_plan_from_given_words() {
    let task = task_with_command("ignored here", vec![1]);
    assert_eq!(plan_launch(&task, None), Err(LaunchError::BadCommand));
    assert_eq!(plan_launch(&task, Some(vec![])), Err(LaunchError::BadCommand));
    assert_eq!(
        plan_launch(&task, Some(vec![String::from("prog"), String::from("x")])),
        Ok(LaunchPlan {
            program: String::from("prog"),
            args: vec![String::from("x")],
            cuda_visible_devices: Some(String::from("1")),
            log_path: String::from("/logs/12.log"),
        })
    );
}

#[test]
fn stop_request_is_acknowledged_and_stops_the_daemon() {
    let mut state = DaemonState::new();
    let mut counters = SubmitCounters::new();
    let step = handle_message(Message::DaemonCommand(DaemonAction::Stop), &mut state, &mut counters, &context(1));
    assert_eq!(step, Step::ReplyAndStop(Message::Ack(String::from("Shutdown initiated"))));
}

#[test]
fn status_counts_what_the_daemon_holds() {
    let mut state = DaemonState::new();
    let mut counters = SubmitCounters::new();
    assert_eq!(
        status(&state),
        "Daemon status: tasks 0 (running 0, waiting 0, finished 0, failed 0); queues 0; GPUs 0 (owned 0, free 0, ignored 0)"
    );
    state.update_all_gpu_stats(&vec![
        Some(GpuStats { temperature: 1, core_usage: 1, memory_usage: MemoryInfo { total: 1, used: 0, free: 1 }, power_usage: 1 }),
        Some(GpuStats { temperature: 1, core_usage: 1, memory_usage: MemoryInfo { total: 1, used: 0, free: 1 }, power_usage: 1 }),
    ]);
    state.set_gpu_allocation(0, Some(String::from("q")));
    state.set_gpu_allocation(1, None);
    state.set_gpu_allocation(2, None);
    state.set_gpu_ignore(7);
    for _ in 0..4 {
        handle_submit_command(command("true", 0, Some("q"), None), &mut state, &mut counters, &context(1));
    }
    state.update_task_state(100, TaskState::Running, None, None).unwrap();
    state.update_task_state(101, TaskState::Finished, None, None).unwrap();
    state.update_task_state(102, TaskState::Failed, None, Some(String::from("x"))).unwrap();
    let step = handle_message(Message::DaemonCommand(DaemonAction::Status), &mut state, &mut counters, &context(1));
    assert_eq!(
        step,
        Step::Reply(Message::Ack(String::from(
            "Daemon status: tasks 4 (running 1, waiting 1, finished 1, failed 1); queues 1; GPUs 2 (owned 1, free 2, ignored 1)"
        )))
    );
}

#[test]
fn reply_sent_as_request_is_an_error() {
    let mut state = DaemonState::new();
    let mut counters = SubmitCounters::new();
    for message in [
        Message::Ack(String::from("x")),
        Message::Error(String::from("x")),
        Message::GPUStatus(vec![]),
        Message::TaskStatus(vec![]),
        Message::QueueStatus(vec![]),
    ] {
        assert_eq!(
            handle_message(message, &mut state, &mut counters, &context(1)),
            Step::Reply(Message::Error(String::from(
                "Daemon received unexpected status/ack/error message type"
            )))
        );
    }
}

#[test]
fn requests_are_routed_to_their_handlers() {
    let mut state = DaemonState::new();
    let mut counters = SubmitCounters::new();
    let submitted = handle_message(
        Message::SubmitCommand(command("sleep 1", 0, None, None)),
        &mut state,
        &mut counters,
        &context(8),
    );
    assert_eq!(
        submitted,
        Step::Reply(Message::Ack(String::from(
            "Command task 800 ('task_1') submitted to queue 'waiting_queue'"
        )))
    );
    let logs = handle_message(
        Message::TaskCommand(TaskAction::Logs { task_id: 800, tail: false }),
        &mut state,
        &mut counters,
        &context(8),
    );
    assert_eq!(
        logs,
        Step::ReadLog { task_id: 800, log_path: String::from("/var/log/gavel/800.log"), tail: false }
    );
    state.update_task_state(800, TaskState::Running, Some(vec![3]), None).unwrap();
    state.set_task_pid(800, Some(31)).unwrap();
    let kill = handle_message(
        Message::TaskCommand(TaskAction::Kill { task_id: 800 }),
        &mut state,
        &mut counters,
        &context(8),
    );
    assert_eq!(kill, Step::SendTerm { task_id: 800, pid: 31 });
    let release = handle_message(
        Message::GPUCommand(gavel::message::GPUAction::Release { gpu_id: 3 }),
        &mut state,
        &mut counters,
        &context(8),
    );
    assert_eq!(
        release,
        Step::ReplyAndTerminate {
            reply: Message::Ack(String::from("Successfully released GPU 3")),
            pids: vec![31],
        }
    );
    let queues = handle_message(
        Message::QueueCommand(gavel::message::QueueAction::List),
        &mut state,
        &mut counters,
        &context(8),
    );
    assert!(matches!(queues, Step::Reply(Message::QueueStatus(_))));
}

#[test]
fn client_reads_the_daemon_status() {
    assert_eq!(DaemonStatus::of(true, true), DaemonStatus::Running);
    assert_eq!(DaemonStatus::of(false, true), DaemonStatus::Running);
    assert_eq!(DaemonStatus::of(true, false), DaemonStatus::Unknown);
    assert_eq!(DaemonStatus::of(false, false), DaemonStatus::Stopped);
}

#[test]
fn client_defaults_and_exit_codes() {
    assert_eq!(default_task_filter(), TaskFilter::ByQueue(String::from("waiting_queue")));
    assert_eq!(exit_code(&Message::Ack(String::from("ok"))), 0);
    assert_eq!(exit_code(&Message::TaskStatus(vec![])), 0);
    assert_eq!(exit_code(&Message::GPUStatus(vec![])), 0);
    assert_eq!(exit_code(&Message::QueueStatus(vec![])), 0);
    assert_eq!(exit_code(&Message::Error(String::from("no"))), 1);
    assert_eq!(exit_code(&Message::DaemonCommand(DaemonAction::Stop)), 1);
}

#[test]
fn task_filter_follows_the_switches() {
    assert_eq!(select_task_filter(true, true, true, Some(String::from("q"))), TaskFilter::All);
    assert_eq!(select_task_filter(false, true, true, None), TaskFilter::Running);
    assert_eq!(select_task_filter(false, false, true, None), TaskFilter::Finished);
    assert_eq!(
        select_task_filter(false, false, false, Some(String::from("q"))),
        TaskFilter::ByQueue(String::from("q"))
    );
    assert_eq!(
        select_task_filter(false, false, false, None),
        TaskFilter::ByQueue(String::from("waiting_queue"))
    );
}

#[test]
fn memory_requirement_is_read_off_its_name() {
    assert_eq!(
        parse_memory_requirement_type(&String::from("ignore")),
        Some(MemoryRequirementType::Ignore)
    );
    assert_eq!(
        parse_memory_requirement_type(&String::from("absolute")),
        Some(MemoryRequirementType::AbsoluteMb)
    );
    assert_eq!(
        parse_memory_requirement_type(&String::from("percentage")),
        Some(MemoryRequirementType::Percentage)
    );
    assert_eq!(parse_memory_requirement_type(&String::from("Percentage")), None);
    assert_eq!(parse_memory_requirement_type(&String::from("")), None);
}

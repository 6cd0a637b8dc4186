//! The wording of every reply and of every generated name.

use crate::text::{
    comma_joined, decimal, i32_to_string, join_with_commas, signed_decimal, u64_to_string,
};
use vstd::prelude::*;

verus! {

/// The task that a request names does not exist.
///
/// Reads `Task with ID {id} not found`.
pub open spec fn task_not_found_text(id: u64) -> Seq<char> {
    "Task with ID "@ + decimal(id as nat) + " not found"@
}

/// Writes [`task_not_found_text`].
pub fn task_not_found(id: u64) -> (text: String)
    ensures
        text@ == task_not_found_text(id),
{
    let mut text = String::from_str("Task with ID ");
    let part0 = u64_to_string(id);
    text.append(part0.as_str());
    text.append(" not found");
    assert(text@ =~= task_not_found_text(id));
    text
}

/// Only a task in the parking queue can be released.
///
/// Reads `Task {id} cannot be run: it is in queue '{queue}', not in
/// 'waiting_queue'`.
pub open spec fn task_not_parked_text(id: u64, queue: Seq<char>) -> Seq<char> {
    "Task "@
        + decimal(id as nat)
        + " cannot be run: it is in queue '"@
        + queue
        + "', not in 'waiting_queue'"@
}

/// Writes [`task_not_parked_text`].
pub fn task_not_parked(id: u64, queue: &str) -> (text: String)
    ensures
        text@ == task_not_parked_text(id, queue@),
{
    let mut text = String::from_str("Task ");
    let part0 = u64_to_string(id);
    text.append(part0.as_str());
    text.append(" cannot be run: it is in queue '");
    text.append(queue);
    text.append("', not in 'waiting_queue'");
    assert(text@ =~= task_not_parked_text(id, queue@));
    text
}

/// A task was released to the queue from which tasks are placed.
///
/// Reads `Task {id} moved to queue 'running_queue', it will run soon`.
pub open spec fn task_released_text(id: u64) -> Seq<char> {
    "Task "@ + decimal(id as nat) + " moved to queue 'running_queue', it will run soon"@
}

/// Writes [`task_released_text`].
pub fn task_released(id: u64) -> (text: String)
    ensures
        text@ == task_released_text(id),
{
    let mut text = String::from_str("Task ");
    let part0 = u64_to_string(id);
    text.append(part0.as_str());
    text.append(" moved to queue 'running_queue', it will run soon");
    assert(text@ =~= task_released_text(id));
    text
}

/// A task could not be released because the queue for released tasks does not exist.
///
/// Reads `Could not move task {id} to queue 'running_queue': the queue does
/// not exist`.
pub open spec fn task_not_released_text(id: u64) -> Seq<char> {
    "Could not move task "@
        + decimal(id as nat)
        + " to queue 'running_queue': the queue does not exist"@
}

/// Writes [`task_not_released_text`].
pub fn task_not_released(id: u64) -> (text: String)
    ensures
        text@ == task_not_released_text(id),
{
    let mut text = String::from_str("Could not move task ");
    let part0 = u64_to_string(id);
    text.append(part0.as_str());
    text.append(" to queue 'running_queue': the queue does not exist");
    assert(text@ =~= task_not_released_text(id));
    text
}

/// Only a running task can be killed.
///
/// Reads `Task {id} is not in Running state, cannot kill`.
pub open spec fn task_not_running_text(id: u64) -> Seq<char> {
    "Task "@ + decimal(id as nat) + " is not in Running state, cannot kill"@
}

/// Writes [`task_not_running_text`].
pub fn task_not_running(id: u64) -> (text: String)
    ensures
        text@ == task_not_running_text(id),
{
    let mut text = String::from_str("Task ");
    let part0 = u64_to_string(id);
    text.append(part0.as_str());
    text.append(" is not in Running state, cannot kill");
    assert(text@ =~= task_not_running_text(id));
    text
}

/// A running task without a process id cannot be killed.
///
/// Reads `Task {id} has no associated process ID, cannot kill`.
pub open spec fn task_without_pid_text(id: u64) -> Seq<char> {
    "Task "@ + decimal(id as nat) + " has no associated process ID, cannot kill"@
}

/// Writes [`task_without_pid_text`].
pub fn task_without_pid(id: u64) -> (text: String)
    ensures
        text@ == task_without_pid_text(id),
{
    let mut text = String::from_str("Task ");
    let part0 = u64_to_string(id);
    text.append(part0.as_str());
    text.append(" has no associated process ID, cannot kill");
    assert(text@ =~= task_without_pid_text(id));
    text
}

/// The termination signal was sent.
///
/// Reads `Sent kill signal to task {id} (PID: {pid})`.
pub open spec fn kill_sent_text(id: u64, pid: i32) -> Seq<char> {
    "Sent kill signal to task "@
        + decimal(id as nat)
        + " (PID: "@
        + signed_decimal(pid as int)
        + ")"@
}

/// Writes [`kill_sent_text`].
pub fn kill_sent(id: u64, pid: i32) -> (text: String)
    ensures
        text@ == kill_sent_text(id, pid),
{
    let mut text = String::from_str("Sent kill signal to task ");
    let part0 = u64_to_string(id);
    text.append(part0.as_str());
    text.append(" (PID: ");
    let part1 = i32_to_string(pid);
    text.append(part1.as_str());
    text.append(")");
    assert(text@ =~= kill_sent_text(id, pid));
    text
}

/// Sending the termination signal failed.
///
/// Reads `Failed to kill task {id} (PID: {pid}): {error}`.
pub open spec fn kill_failed_text(id: u64, pid: i32, error: Seq<char>) -> Seq<char> {
    "Failed to kill task "@
        + decimal(id as nat)
        + " (PID: "@
        + signed_decimal(pid as int)
        + "): "@
        + error
}

/// Writes [`kill_failed_text`].
pub fn kill_failed(id: u64, pid: i32, error: &str) -> (text: String)
    ensures
        text@ == kill_failed_text(id, pid, error@),
{
    let mut text = String::from_str("Failed to kill task ");
    let part0 = u64_to_string(id);
    text.append(part0.as_str());
    text.append(" (PID: ");
    let part1 = i32_to_string(pid);
    text.append(part1.as_str());
    text.append("): ");
    text.append(error);
    assert(text@ =~= kill_failed_text(id, pid, error@));
    text
}

/// A running task cannot be removed.
///
/// Reads `Task {id} is currently running. Please kill it before removing.`.
pub open spec fn task_still_running_text(id: u64) -> Seq<char> {
    "Task "@ + decimal(id as nat) + " is currently running. Please kill it before removing."@
}

/// Writes [`task_still_running_text`].
pub fn task_still_running(id: u64) -> (text: String)
    ensures
        text@ == task_still_running_text(id),
{
    let mut text = String::from_str("Task ");
    let part0 = u64_to_string(id);
    text.append(part0.as_str());
    text.append(" is currently running. Please kill it before removing.");
    assert(text@ =~= task_still_running_text(id));
    text
}

/// A task was removed.
///
/// Reads `Task {id} removed successfully`.
pub open spec fn task_removed_text(id: u64) -> Seq<char> {
    "Task "@ + decimal(id as nat) + " removed successfully"@
}

/// Writes [`task_removed_text`].
pub fn task_removed(id: u64) -> (text: String)
    ensures
        text@ == task_removed_text(id),
{
    let mut text = String::from_str("Task ");
    let part0 = u64_to_string(id);
    text.append(part0.as_str());
    text.append(" removed successfully");
    assert(text@ =~= task_removed_text(id));
    text
}

/// The log file of a task does not exist.
///
/// Reads `Log file for task {id} does not exist`.
pub open spec fn log_missing_text(id: u64) -> Seq<char> {
    "Log file for task "@ + decimal(id as nat) + " does not exist"@
}

/// Writes [`log_missing_text`].
pub fn log_missing(id: u64) -> (text: String)
    ensures
        text@ == log_missing_text(id),
{
    let mut text = String::from_str("Log file for task ");
    let part0 = u64_to_string(id);
    text.append(part0.as_str());
    text.append(" does not exist");
    assert(text@ =~= log_missing_text(id));
    text
}

/// A listing matched no task.
///
/// Reads `No tasks found matching the criteria`.
pub open spec fn no_tasks_text() -> Seq<char> {
    "No tasks found matching the criteria"@
}

/// Writes [`no_tasks_text`].
pub fn no_tasks() -> (text: String)
    ensures
        text@ == no_tasks_text(),
{
    let mut text = String::from_str("No tasks found matching the criteria");
    assert(text@ =~= no_tasks_text());
    text
}

/// No GPU has telemetry.
///
/// Reads `No GPUs detected`.
pub open spec fn no_gpus_text() -> Seq<char> {
    "No GPUs detected"@
}

/// Writes [`no_gpus_text`].
pub fn no_gpus() -> (text: String)
    ensures
        text@ == no_gpus_text(),
{
    let mut text = String::from_str("No GPUs detected");
    assert(text@ =~= no_gpus_text());
    text
}

/// The GPU that a request names has no telemetry.
///
/// Reads `GPU with ID {gpu} not found or status unavailable`.
pub open spec fn gpu_not_found_text(gpu: u8) -> Seq<char> {
    "GPU with ID "@ + decimal(gpu as nat) + " not found or status unavailable"@
}

/// Writes [`gpu_not_found_text`].
pub fn gpu_not_found(gpu: u8) -> (text: String)
    ensures
        text@ == gpu_not_found_text(gpu),
{
    let mut text = String::from_str("GPU with ID ");
    let part0 = u64_to_string(gpu as u64);
    text.append(part0.as_str());
    text.append(" not found or status unavailable");
    assert(text@ =~= gpu_not_found_text(gpu));
    text
}

/// An allocation named no GPU.
///
/// Reads `No GPU IDs provided for allocation`.
pub open spec fn no_gpu_ids_text() -> Seq<char> {
    "No GPU IDs provided for allocation"@
}

/// Writes [`no_gpu_ids_text`].
pub fn no_gpu_ids() -> (text: String)
    ensures
        text@ == no_gpu_ids_text(),
{
    let mut text = String::from_str("No GPU IDs provided for allocation");
    assert(text@ =~= no_gpu_ids_text());
    text
}

/// The queue that is to receive something does not exist.
///
/// Reads `Destination queue '{queue}' does not exist`.
pub open spec fn queue_missing_text(queue: Seq<char>) -> Seq<char> {
    "Destination queue '"@ + queue + "' does not exist"@
}

/// Writes [`queue_missing_text`].
pub fn queue_missing(queue: &str) -> (text: String)
    ensures
        text@ == queue_missing_text(queue@),
{
    let mut text = String::from_str("Destination queue '");
    text.append(queue);
    text.append("' does not exist");
    assert(text@ =~= queue_missing_text(queue@));
    text
}

/// Every GPU of an allocation now belongs to the queue.
///
/// Reads `Successfully allocated GPU(s) {granted} to queue '{queue}'`.
pub open spec fn gpus_allocated_text(granted: Seq<u8>, queue: Seq<char>) -> Seq<char> {
    "Successfully allocated GPU(s) "@ + comma_joined(granted) + " to queue '"@ + queue + "'"@
}

/// Writes [`gpus_allocated_text`].
pub fn gpus_allocated(granted: &Vec<u8>, queue: &str) -> (text: String)
    ensures
        text@ == gpus_allocated_text(granted@, queue@),
{
    let mut text = String::from_str("Successfully allocated GPU(s) ");
    let part0 = join_with_commas(granted);
    text.append(part0.as_str());
    text.append(" to queue '");
    text.append(queue);
    text.append("'");
    assert(text@ =~= gpus_allocated_text(granted@, queue@));
    text
}

/// Some GPUs of an allocation are ignored or belong to another queue.
///
/// Reads `Failed to allocate GPU(s) {refused} to queue '{queue}': ignored
/// or owned by another queue. Successfully allocated: {granted}`.
pub open spec fn gpus_refused_text(refused: Seq<u8>, queue: Seq<char>, granted: Seq<u8>) -> Seq<char> {
    "Failed to allocate GPU(s) "@
        + comma_joined(refused)
        + " to queue '"@
        + queue
        + "': ignored or owned by another queue. Successfully allocated: "@
        + comma_joined(granted)
}

/// Writes [`gpus_refused_text`].
pub fn gpus_refused(refused: &Vec<u8>, queue: &str, granted: &Vec<u8>) -> (text: String)
    ensures
        text@ == gpus_refused_text(refused@, queue@, granted@),
{
    let mut text = String::from_str("Failed to allocate GPU(s) ");
    let part0 = join_with_commas(refused);
    text.append(part0.as_str());
    text.append(" to queue '");
    text.append(queue);
    text.append("': ignored or owned by another queue. Successfully allocated: ");
    let part1 = join_with_commas(granted);
    text.append(part1.as_str());
    assert(text@ =~= gpus_refused_text(refused@, queue@, granted@));
    text
}

/// A GPU was released.
///
/// Reads `Successfully released GPU {gpu}`.
pub open spec fn gpu_released_text(gpu: u8) -> Seq<char> {
    "Successfully released GPU "@ + decimal(gpu as nat)
}

/// Writes [`gpu_released_text`].
pub fn gpu_released(gpu: u8) -> (text: String)
    ensures
        text@ == gpu_released_text(gpu),
{
    let mut text = String::from_str("Successfully released GPU ");
    let part0 = u64_to_string(gpu as u64);
    text.append(part0.as_str());
    assert(text@ =~= gpu_released_text(gpu));
    text
}

/// A GPU that a queue owns cannot be ignored.
///
/// Reads `GPU {gpu} is allocated to queue '{queue}' and must be released
/// before ignoring.`.
pub open spec fn gpu_owned_text(gpu: u8, queue: Seq<char>) -> Seq<char> {
    "GPU "@
        + decimal(gpu as nat)
        + " is allocated to queue '"@
        + queue
        + "' and must be released before ignoring."@
}

/// Writes [`gpu_owned_text`].
pub fn gpu_owned(gpu: u8, queue: &str) -> (text: String)
    ensures
        text@ == gpu_owned_text(gpu, queue@),
{
    let mut text = String::from_str("GPU ");
    let part0 = u64_to_string(gpu as u64);
    text.append(part0.as_str());
    text.append(" is allocated to queue '");
    text.append(queue);
    text.append("' and must be released before ignoring.");
    assert(text@ =~= gpu_owned_text(gpu, queue@));
    text
}

/// A GPU is now ignored.
///
/// Reads `GPU {gpu} has been set to ignored state`.
pub open spec fn gpu_ignored_text(gpu: u8) -> Seq<char> {
    "GPU "@ + decimal(gpu as nat) + " has been set to ignored state"@
}

/// Writes [`gpu_ignored_text`].
pub fn gpu_ignored(gpu: u8) -> (text: String)
    ensures
        text@ == gpu_ignored_text(gpu),
{
    let mut text = String::from_str("GPU ");
    let part0 = u64_to_string(gpu as u64);
    text.append(part0.as_str());
    text.append(" has been set to ignored state");
    assert(text@ =~= gpu_ignored_text(gpu));
    text
}

/// No GPU is ignored.
///
/// Reads `No GPUs are currently ignored`.
pub open spec fn none_ignored_text() -> Seq<char> {
    "No GPUs are currently ignored"@
}

/// Writes [`none_ignored_text`].
pub fn none_ignored() -> (text: String)
    ensures
        text@ == none_ignored_text(),
{
    let mut text = String::from_str("No GPUs are currently ignored");
    assert(text@ =~= none_ignored_text());
    text
}

/// The ignore set was cleared.
///
/// Reads `Successfully unignored {count} GPU(s)`.
pub open spec fn gpus_unignored_text(count: usize) -> Seq<char> {
    "Successfully unignored "@ + decimal(count as nat) + " GPU(s)"@
}

/// Writes [`gpus_unignored_text`].
pub fn gpus_unignored(count: usize) -> (text: String)
    ensures
        text@ == gpus_unignored_text(count),
{
    let mut text = String::from_str("Successfully unignored ");
    let part0 = u64_to_string(count as u64);
    text.append(part0.as_str());
    text.append(" GPU(s)");
    assert(text@ =~= gpus_unignored_text(count));
    text
}

/// There is no queue.
///
/// Reads `No queues found`.
pub open spec fn no_queues_text() -> Seq<char> {
    "No queues found"@
}

/// Writes [`no_queues_text`].
pub fn no_queues() -> (text: String)
    ensures
        text@ == no_queues_text(),
{
    let mut text = String::from_str("No queues found");
    assert(text@ =~= no_queues_text());
    text
}

/// The queue that a request names does not exist.
///
/// Reads `Queue with name '{queue}' not found`.
pub open spec fn queue_not_found_text(queue: Seq<char>) -> Seq<char> {
    "Queue with name '"@ + queue + "' not found"@
}

/// Writes [`queue_not_found_text`].
pub fn queue_not_found(queue: &str) -> (text: String)
    ensures
        text@ == queue_not_found_text(queue@),
{
    let mut text = String::from_str("Queue with name '");
    text.append(queue);
    text.append("' not found");
    assert(text@ =~= queue_not_found_text(queue@));
    text
}

/// The queue to merge from does not exist.
///
/// Reads `Source queue '{queue}' does not exist`.
pub open spec fn source_missing_text(queue: Seq<char>) -> Seq<char> {
    "Source queue '"@ + queue + "' does not exist"@
}

/// Writes [`source_missing_text`].
pub fn source_missing(queue: &str) -> (text: String)
    ensures
        text@ == source_missing_text(queue@),
{
    let mut text = String::from_str("Source queue '");
    text.append(queue);
    text.append("' does not exist");
    assert(text@ =~= source_missing_text(queue@));
    text
}

/// A queue cannot be merged into itself.
///
/// Reads `Source and destination queues cannot be the same`.
pub open spec fn same_queue_text() -> Seq<char> {
    "Source and destination queues cannot be the same"@
}

/// Writes [`same_queue_text`].
pub fn same_queue() -> (text: String)
    ensures
        text@ == same_queue_text(),
{
    let mut text = String::from_str("Source and destination queues cannot be the same");
    assert(text@ =~= same_queue_text());
    text
}

/// The queue to merge from holds no task.
///
/// Reads `No tasks needed to be moved from queue '{source}'`.
pub open spec fn nothing_to_move_text(source: Seq<char>) -> Seq<char> {
    "No tasks needed to be moved from queue '"@ + source + "'"@
}

/// Writes [`nothing_to_move_text`].
pub fn nothing_to_move(source: &str) -> (text: String)
    ensures
        text@ == nothing_to_move_text(source@),
{
    let mut text = String::from_str("No tasks needed to be moved from queue '");
    text.append(source);
    text.append("'");
    assert(text@ =~= nothing_to_move_text(source@));
    text
}

/// A merge moved tasks.
///
/// Reads `Successfully moved {count} tasks from queue '{source}' to queue
/// '{dest}'`.
pub open spec fn tasks_moved_text(count: usize, source: Seq<char>, dest: Seq<char>) -> Seq<char> {
    "Successfully moved "@
        + decimal(count as nat)
        + " tasks from queue '"@
        + source
        + "' to queue '"@
        + dest
        + "'"@
}

/// Writes [`tasks_moved_text`].
pub fn tasks_moved(count: usize, source: &str, dest: &str) -> (text: String)
    ensures
        text@ == tasks_moved_text(count, source@, dest@),
{
    let mut text = String::from_str("Successfully moved ");
    let part0 = u64_to_string(count as u64);
    text.append(part0.as_str());
    text.append(" tasks from queue '");
    text.append(source);
    text.append("' to queue '");
    text.append(dest);
    text.append("'");
    assert(text@ =~= tasks_moved_text(count, source@, dest@));
    text
}

/// A queue of that name exists already.
///
/// Reads `Queue '{queue}' already exists`.
pub open spec fn queue_exists_text(queue: Seq<char>) -> Seq<char> {
    "Queue '"@ + queue + "' already exists"@
}

/// Writes [`queue_exists_text`].
pub fn queue_exists(queue: &str) -> (text: String)
    ensures
        text@ == queue_exists_text(queue@),
{
    let mut text = String::from_str("Queue '");
    text.append(queue);
    text.append("' already exists");
    assert(text@ =~= queue_exists_text(queue@));
    text
}

/// A queue was created.
///
/// Reads `Successfully created queue '{queue}' with priority {priority}`.
pub open spec fn queue_created_text(queue: Seq<char>, priority: u8) -> Seq<char> {
    "Successfully created queue '"@ + queue + "' with priority "@ + decimal(priority as nat)
}

/// Writes [`queue_created_text`].
pub fn queue_created(queue: &str, priority: u8) -> (text: String)
    ensures
        text@ == queue_created_text(queue@, priority),
{
    let mut text = String::from_str("Successfully created queue '");
    text.append(queue);
    text.append("' with priority ");
    let part0 = u64_to_string(priority as u64);
    text.append(part0.as_str());
    assert(text@ =~= queue_created_text(queue@, priority));
    text
}

/// A task is already in the queue it is moved to.
///
/// Reads `Task {id} is already in queue '{queue}'`.
pub open spec fn task_already_there_text(id: u64, queue: Seq<char>) -> Seq<char> {
    "Task "@ + decimal(id as nat) + " is already in queue '"@ + queue + "'"@
}

/// Writes [`task_already_there_text`].
pub fn task_already_there(id: u64, queue: &str) -> (text: String)
    ensures
        text@ == task_already_there_text(id, queue@),
{
    let mut text = String::from_str("Task ");
    let part0 = u64_to_string(id);
    text.append(part0.as_str());
    text.append(" is already in queue '");
    text.append(queue);
    text.append("'");
    assert(text@ =~= task_already_there_text(id, queue@));
    text
}

/// A task was moved.
///
/// Reads `Successfully moved task {id} from queue '{source}' to queue
/// '{dest}'`.
pub open spec fn task_moved_text(id: u64, source: Seq<char>, dest: Seq<char>) -> Seq<char> {
    "Successfully moved task "@
        + decimal(id as nat)
        + " from queue '"@
        + source
        + "' to queue '"@
        + dest
        + "'"@
}

/// Writes [`task_moved_text`].
pub fn task_moved(id: u64, source: &str, dest: &str) -> (text: String)
    ensures
        text@ == task_moved_text(id, source@, dest@),
{
    let mut text = String::from_str("Successfully moved task ");
    let part0 = u64_to_string(id);
    text.append(part0.as_str());
    text.append(" from queue '");
    text.append(source);
    text.append("' to queue '");
    text.append(dest);
    text.append("'");
    assert(text@ =~= task_moved_text(id, source@, dest@));
    text
}

/// A priority above the highest was asked for.
///
/// Reads `Invalid priority level {level}, must be 0-9`.
pub open spec fn bad_priority_text(level: u8) -> Seq<char> {
    "Invalid priority level "@ + decimal(level as nat) + ", must be 0-9"@
}

/// Writes [`bad_priority_text`].
pub fn bad_priority(level: u8) -> (text: String)
    ensures
        text@ == bad_priority_text(level),
{
    let mut text = String::from_str("Invalid priority level ");
    let part0 = u64_to_string(level as u64);
    text.append(part0.as_str());
    text.append(", must be 0-9");
    assert(text@ =~= bad_priority_text(level));
    text
}

/// The priority of a task was changed.
///
/// Reads `Successfully updated priority for task {id} from {before} to
/// {after}`.
pub open spec fn priority_updated_text(id: u64, before: u8, after: u8) -> Seq<char> {
    "Successfully updated priority for task "@
        + decimal(id as nat)
        + " from "@
        + decimal(before as nat)
        + " to "@
        + decimal(after as nat)
}

/// Writes [`priority_updated_text`].
pub fn priority_updated(id: u64, before: u8, after: u8) -> (text: String)
    ensures
        text@ == priority_updated_text(id, before, after),
{
    let mut text = String::from_str("Successfully updated priority for task ");
    let part0 = u64_to_string(id);
    text.append(part0.as_str());
    text.append(" from ");
    let part1 = u64_to_string(before as u64);
    text.append(part1.as_str());
    text.append(" to ");
    let part2 = u64_to_string(after as u64);
    text.append(part2.as_str());
    assert(text@ =~= priority_updated_text(id, before, after));
    text
}

/// A memory percentage above 100 was asked for.
///
/// Reads `Invalid memory value for percentage type: {value}. Must be
/// between 0 and 100`.
pub open spec fn bad_percentage_text(value: u64) -> Seq<char> {
    "Invalid memory value for percentage type: "@
        + decimal(value as nat)
        + ". Must be between 0 and 100"@
}

/// Writes [`bad_percentage_text`].
pub fn bad_percentage(value: u64) -> (text: String)
    ensures
        text@ == bad_percentage_text(value),
{
    let mut text = String::from_str("Invalid memory value for percentage type: ");
    let part0 = u64_to_string(value);
    text.append(part0.as_str());
    text.append(". Must be between 0 and 100");
    assert(text@ =~= bad_percentage_text(value));
    text
}

/// An absolute memory requirement of zero was asked for.
///
/// Reads `Invalid memory value for absolute type: 0. Must be a positive
/// number`.
pub open spec fn bad_absolute_text() -> Seq<char> {
    "Invalid memory value for absolute type: 0. Must be a positive number"@
}

/// Writes [`bad_absolute_text`].
pub fn bad_absolute() -> (text: String)
    ensures
        text@ == bad_absolute_text(),
{
    let mut text = String::from_str("Invalid memory value for absolute type: 0. Must be a positive number");
    assert(text@ =~= bad_absolute_text());
    text
}

/// The resource limit of a queue was replaced.
///
/// Reads `Successfully updated resource limit for queue '{queue}'`.
pub open spec fn limit_updated_text(queue: Seq<char>) -> Seq<char> {
    "Successfully updated resource limit for queue '"@ + queue + "'"@
}

/// Writes [`limit_updated_text`].
pub fn limit_updated(queue: &str) -> (text: String)
    ensures
        text@ == limit_updated_text(queue@),
{
    let mut text = String::from_str("Successfully updated resource limit for queue '");
    text.append(queue);
    text.append("'");
    assert(text@ =~= limit_updated_text(queue@));
    text
}

/// A command was submitted.
///
/// Reads `Command task {id} ('{name}') submitted to queue '{queue}'`.
pub open spec fn command_submitted_text(id: u64, name: Seq<char>, queue: Seq<char>) -> Seq<char> {
    "Command task "@
        + decimal(id as nat)
        + " ('"@
        + name
        + "') submitted to queue '"@
        + queue
        + "'"@
}

/// Writes [`command_submitted_text`].
pub fn command_submitted(id: u64, name: &str, queue: &str) -> (text: String)
    ensures
        text@ == command_submitted_text(id, name@, queue@),
{
    let mut text = String::from_str("Command task ");
    let part0 = u64_to_string(id);
    text.append(part0.as_str());
    text.append(" ('");
    text.append(name);
    text.append("') submitted to queue '");
    text.append(queue);
    text.append("'");
    assert(text@ =~= command_submitted_text(id, name@, queue@));
    text
}

/// A script was submitted.
///
/// Reads `Script task {id} ('{name}') submitted from path '{path}' to queue
/// '{queue}'`.
pub open spec fn script_submitted_text(id: u64, name: Seq<char>, path: Seq<char>, queue: Seq<char>) -> Seq<char> {
    "Script task "@
        + decimal(id as nat)
        + " ('"@
        + name
        + "') submitted from path '"@
        + path
        + "' to queue '"@
        + queue
        + "'"@
}

/// Writes [`script_submitted_text`].
pub fn script_submitted(id: u64, name: &str, path: &str, queue: &str) -> (text: String)
    ensures
        text@ == script_submitted_text(id, name@, path@, queue@),
{
    let mut text = String::from_str("Script task ");
    let part0 = u64_to_string(id);
    text.append(part0.as_str());
    text.append(" ('");
    text.append(name);
    text.append("') submitted from path '");
    text.append(path);
    text.append("' to queue '");
    text.append(queue);
    text.append("'");
    assert(text@ =~= script_submitted_text(id, name@, path@, queue@));
    text
}

/// Every task of a batch was submitted.
///
/// Reads `Batch JSON tasks submitted: {count} tasks successfully`.
pub open spec fn batch_submitted_text(count: usize) -> Seq<char> {
    "Batch JSON tasks submitted: "@ + decimal(count as nat) + " tasks successfully"@
}

/// Writes [`batch_submitted_text`].
pub fn batch_submitted(count: usize) -> (text: String)
    ensures
        text@ == batch_submitted_text(count),
{
    let mut text = String::from_str("Batch JSON tasks submitted: ");
    let part0 = u64_to_string(count as u64);
    text.append(part0.as_str());
    text.append(" tasks successfully");
    assert(text@ =~= batch_submitted_text(count));
    text
}

/// Some tasks of a batch found every task id taken.
///
/// Reads `Errors submitting batch tasks: {failed} task(s) found no free
/// task id, {count} submitted`.
pub open spec fn batch_incomplete_text(failed: usize, count: usize) -> Seq<char> {
    "Errors submitting batch tasks: "@
        + decimal(failed as nat)
        + " task(s) found no free task id, "@
        + decimal(count as nat)
        + " submitted"@
}

/// Writes [`batch_incomplete_text`].
pub fn batch_incomplete(failed: usize, count: usize) -> (text: String)
    ensures
        text@ == batch_incomplete_text(failed, count),
{
    let mut text = String::from_str("Errors submitting batch tasks: ");
    let part0 = u64_to_string(failed as u64);
    text.append(part0.as_str());
    text.append(" task(s) found no free task id, ");
    let part1 = u64_to_string(count as u64);
    text.append(part1.as_str());
    text.append(" submitted");
    assert(text@ =~= batch_incomplete_text(failed, count));
    text
}

/// A submission found every task id taken.
///
/// Reads `No free task id is left`.
pub open spec fn no_free_id_text() -> Seq<char> {
    "No free task id is left"@
}

/// Writes [`no_free_id_text`].
pub fn no_free_id() -> (text: String)
    ensures
        text@ == no_free_id_text(),
{
    let mut text = String::from_str("No free task id is left");
    assert(text@ =~= no_free_id_text());
    text
}

/// The daemon will stop.
///
/// Reads `Shutdown initiated`.
pub open spec fn shutdown_initiated_text() -> Seq<char> {
    "Shutdown initiated"@
}

/// Writes [`shutdown_initiated_text`].
pub fn shutdown_initiated() -> (text: String)
    ensures
        text@ == shutdown_initiated_text(),
{
    let mut text = String::from_str("Shutdown initiated");
    assert(text@ =~= shutdown_initiated_text());
    text
}

/// A client sent a message that only the daemon sends.
///
/// Reads `Daemon received unexpected status/ack/error message type`.
pub open spec fn unexpected_message_text() -> Seq<char> {
    "Daemon received unexpected status/ack/error message type"@
}

/// Writes [`unexpected_message_text`].
pub fn unexpected_message() -> (text: String)
    ensures
        text@ == unexpected_message_text(),
{
    let mut text = String::from_str("Daemon received unexpected status/ack/error message type");
    assert(text@ =~= unexpected_message_text());
    text
}

/// The daemon's summary of what it holds.
///
/// Reads `Daemon status: tasks {tasks} (running {running}, waiting
/// {waiting}, finished {finished}, failed {failed}); queues {queues}; GPUs
/// {gpus} (owned {owned}, free {free}, ignored {ignored})`.
pub open spec fn status_report_text(
    tasks: usize,
    running: usize,
    waiting: usize,
    finished: usize,
    failed: usize,
    queues: usize,
    gpus: usize,
    owned: usize,
    free: usize,
    ignored: usize,
) -> Seq<char> {
    "Daemon status: tasks "@
        + decimal(tasks as nat)
        + " (running "@
        + decimal(running as nat)
        + ", waiting "@
        + decimal(waiting as nat)
        + ", finished "@
        + decimal(finished as nat)
        + ", failed "@
        + decimal(failed as nat)
        + "); queues "@
        + decimal(queues as nat)
        + "; GPUs "@
        + decimal(gpus as nat)
        + " (owned "@
        + decimal(owned as nat)
        + ", free "@
        + decimal(free as nat)
        + ", ignored "@
        + decimal(ignored as nat)
        + ")"@
}

/// Writes [`status_report_text`].
pub fn status_report(
    tasks: usize,
    running: usize,
    waiting: usize,
    finished: usize,
    failed: usize,
    queues: usize,
    gpus: usize,
    owned: usize,
    free: usize,
    ignored: usize,
) -> (text: String)
    ensures
        text@ == status_report_text(
            tasks,
            running,
            waiting,
            finished,
            failed,
            queues,
            gpus,
            owned,
            free,
            ignored,
        ),
{
    let mut text = String::from_str("Daemon status: tasks ");
    let part0 = u64_to_string(tasks as u64);
    text.append(part0.as_str());
    text.append(" (running ");
    let part1 = u64_to_string(running as u64);
    text.append(part1.as_str());
    text.append(", waiting ");
    let part2 = u64_to_string(waiting as u64);
    text.append(part2.as_str());
    text.append(", finished ");
    let part3 = u64_to_string(finished as u64);
    text.append(part3.as_str());
    text.append(", failed ");
    let part4 = u64_to_string(failed as u64);
    text.append(part4.as_str());
    text.append("); queues ");
    let part5 = u64_to_string(queues as u64);
    text.append(part5.as_str());
    text.append("; GPUs ");
    let part6 = u64_to_string(gpus as u64);
    text.append(part6.as_str());
    text.append(" (owned ");
    let part7 = u64_to_string(owned as u64);
    text.append(part7.as_str());
    text.append(", free ");
    let part8 = u64_to_string(free as u64);
    text.append(part8.as_str());
    text.append(", ignored ");
    let part9 = u64_to_string(ignored as u64);
    text.append(part9.as_str());
    text.append(")");
    assert(text@ =~= status_report_text(
            tasks,
            running,
            waiting,
            finished,
            failed,
            queues,
            gpus,
            owned,
            free,
            ignored,
        ));
    text
}

/// The name of the `count`-th task that was submitted without one.
///
/// Reads `task_{count}`.
pub open spec fn default_task_name_text(count: u64) -> Seq<char> {
    "task_"@ + decimal(count as nat)
}

/// Writes [`default_task_name_text`].
pub fn default_task_name(count: u64) -> (text: String)
    ensures
        text@ == default_task_name_text(count),
{
    let mut text = String::from_str("task_");
    let part0 = u64_to_string(count);
    text.append(part0.as_str());
    assert(text@ =~= default_task_name_text(count));
    text
}

/// The log file of task `id` under the directory `log_dir`.
///
/// Reads `{log_dir}/{id}.log`.
pub open spec fn log_path_for_text(log_dir: Seq<char>, id: u64) -> Seq<char> {
    log_dir + "/"@ + decimal(id as nat) + ".log"@
}

/// Writes [`log_path_for_text`].
pub fn log_path_for(log_dir: &str, id: u64) -> (text: String)
    ensures
        text@ == log_path_for_text(log_dir@, id),
{
    let mut text = String::from_str(log_dir);
    text.append("/");
    let part0 = u64_to_string(id);
    text.append(part0.as_str());
    text.append(".log");
    assert(text@ =~= log_path_for_text(log_dir@, id));
    text
}

} // verus!

//! What holds of the store between any two operations of the daemon: the
//! queues' lists and the tasks' records tell the same story.

use crate::idlist::{
    lemma_with_item, lemma_without_absent, lemma_without_contains, lemma_without_no_duplicates,
};
use crate::models::{QueueView, TaskState, TaskView};
use crate::store::{strike_everywhere, without, StateView};
use vstd::prelude::*;

verus! {

/// Whether `id` occurs at most once in `ids`.
pub open spec fn at_most_once(ids: Seq<u64>, id: u64) -> bool {
    forall|a: int, b: int|
        0 <= a < ids.len() && 0 <= b < ids.len() && ids[a] == id && ids[b] == id ==> a == b
}

impl StateView {
    /// Every task names a queue that exists.
    pub open spec fn tasks_have_queues(self) -> bool {
        forall|i: int|
            0 <= i < self.tasks.len() ==> self.has_queue((#[trigger] self.tasks[i]).queue)
    }

    /// Whether some task has id `id`, state `state` and queue `name`.
    pub open spec fn holds(self, id: u64, state: TaskState, name: Seq<char>) -> bool {
        exists|i: int|
            0 <= i < self.tasks.len() && (#[trigger] self.tasks[i]).id == id && self.tasks[i].state
                == state && self.tasks[i].queue == name
    }

    /// Every id in a waiting list is that of a Waiting task of the queue,
    /// and every id in a running list that of a Running task of the queue.
    pub open spec fn lists_sound(self) -> bool {
        &&& forall|q: int, k: int|
            0 <= q < self.queues.len() && 0 <= k < self.queues[q].waiting_task_ids.len()
                ==> self.holds(
                #[trigger] self.queues[q].waiting_task_ids[k],
                TaskState::Waiting,
                self.queues[q].name,
            )
        &&& forall|q: int, k: int|
            0 <= q < self.queues.len() && 0 <= k < self.queues[q].running_task_ids.len()
                ==> self.holds(
                #[trigger] self.queues[q].running_task_ids[k],
                TaskState::Running,
                self.queues[q].name,
            )
    }

    /// Every Waiting task is in the waiting list of its queue, and every
    /// Running task in the running list of its queue.
    pub open spec fn lists_complete(self) -> bool {
        forall|i: int, q: int|
            0 <= i < self.tasks.len() && 0 <= q < self.queues.len() && (
            #[trigger] self.queues[q]).name == (#[trigger] self.tasks[i]).queue ==> {
                &&& self.tasks[i].state is Waiting ==> self.queues[q].waiting_task_ids.contains(
                    self.tasks[i].id,
                )
                &&& self.tasks[i].state is Running ==> self.queues[q].running_task_ids.contains(
                    self.tasks[i].id,
                )
            }
    }

    /// No list names a task twice.
    pub open spec fn lists_distinct(self) -> bool {
        forall|q: int|
            0 <= q < self.queues.len() ==> (#[trigger] self.queues[q]).waiting_task_ids.no_duplicates()
                && self.queues[q].running_task_ids.no_duplicates()
    }

    /// No running list is longer than the queue's cap.
    pub open spec fn within_caps(self) -> bool {
        forall|q: int|
            0 <= q < self.queues.len() ==> (#[trigger] self.queues[q]).running_task_ids.len()
                <= self.queues[q].max_concurrent
    }

    /// The store is well-formed, and its lists and records agree: every
    /// task names a queue, and the lists of every queue name exactly its
    /// Waiting and its Running tasks, each once.
    pub open spec fn lists_agree(self) -> bool {
        &&& self.wf()
        &&& self.tasks_have_queues()
        &&& self.lists_sound()
        &&& self.lists_complete()
        &&& self.lists_distinct()
    }

    /// The lists and records agree, and no queue runs more tasks than its
    /// cap allows.
    pub open spec fn coherent(self) -> bool {
        self.lists_agree() && self.within_caps()
    }

    /// No list of any queue names task `id`.
    pub open spec fn lists_nowhere(self, id: u64) -> bool {
        forall|q: int|
            0 <= q < self.queues.len() ==> !(#[trigger] self.queues[q]).waiting_task_ids.contains(
                id,
            ) && !self.queues[q].running_task_ids.contains(id)
    }

    /// Whether putting task `id` into `state` moves it between the lists of
    /// its queue: the state is Waiting or Running and new to the task, and
    /// the queue of the task exists.
    pub open spec fn moves_between_lists(self, id: u64, state: TaskState) -> bool {
        &&& !state.is_terminal()
        &&& self.has_task(id)
        &&& self.task(id).state != state
        &&& self.has_queue(self.task(id).queue)
    }

    /// Whether queue `name` lists task `id` as a task in `state` is to be
    /// listed: in the waiting list exactly if the state is Waiting, in the
    /// running list exactly if it is Running, and in neither list twice.
    pub open spec fn listed_by_state(self, name: Seq<char>, id: u64, state: TaskState) -> bool {
        &&& self.has_queue(name)
        &&& self.queue(name).waiting_task_ids.contains(id) <==> state is Waiting
        &&& self.queue(name).running_task_ids.contains(id) <==> state is Running
        &&& at_most_once(self.queue(name).waiting_task_ids, id)
        &&& at_most_once(self.queue(name).running_task_ids, id)
    }

    /// Whether putting task `id` into `state` leaves its queue within its
    /// cap: either the task does not start to run by it, or the running
    /// list of its queue is not full.
    pub open spec fn has_room_for(self, id: u64, state: TaskState) -> bool {
        state is Running && self.has_task(id) && !(self.task(id).state is Running) ==> self.queue(
            self.task(id).queue,
        ).running_task_ids.len() < self.queue(self.task(id).queue).max_concurrent
    }

    /// The ids of the Running tasks of queue `name`.
    pub open spec fn running_ids(self, name: Seq<char>) -> Set<u64> {
        Set::new(|id: u64| self.holds(id, TaskState::Running, name))
    }

    /// Whether `other` has the same tasks as far as id, state and queue
    /// go, and the same queues as far as name, lists and cap go.
    pub open spec fn same_skeleton(self, other: StateView) -> bool {
        &&& other.tasks.len() == self.tasks.len()
        &&& forall|i: int|
            0 <= i < self.tasks.len() ==> (#[trigger] other.tasks[i]).id == self.tasks[i].id
                && other.tasks[i].state == self.tasks[i].state && other.tasks[i].queue
                == self.tasks[i].queue
        &&& other.queues.len() == self.queues.len()
        &&& forall|q: int|
            0 <= q < self.queues.len() ==> (#[trigger] other.queues[q]).name == self.queues[q].name
                && other.queues[q].waiting_task_ids == self.queues[q].waiting_task_ids
                && other.queues[q].running_task_ids == self.queues[q].running_task_ids
                && other.queues[q].max_concurrent == self.queues[q].max_concurrent
    }
}

/// A state with the skeleton of a coherent state is coherent once its GPU
/// tables are finite.
#[verifier::rlimit(50)]
pub proof fn lemma_skeleton_coherent(s: StateView, other: StateView)
    requires
        s.coherent(),
        s.same_skeleton(other),
        other.gpu_stats.dom().finite(),
        other.gpu_allocations.dom().finite(),
        other.ignored_gpus.finite(),
    ensures
        other.coherent(),
{
    assert(other.wf()) by {
        assert forall|i: int, j: int| 0 <= i < j < other.tasks.len() implies other.tasks[i].id
            != other.tasks[j].id by {
            assert(s.tasks[i].id != s.tasks[j].id);
        }
        assert forall|i: int, j: int| 0 <= i < j < other.queues.len() implies other.queues[i].name
            != other.queues[j].name by {
            assert(s.queues[i].name != s.queues[j].name);
        }
    }
    assert(other.tasks_have_queues()) by {
        assert forall|i: int| 0 <= i < other.tasks.len() implies other.has_queue(
            (#[trigger] other.tasks[i]).queue,
        ) by {
            assert(s.has_queue(s.tasks[i].queue));
            let q = s.queue_pos(s.tasks[i].queue);
            assert(other.queues[q].name == other.tasks[i].queue);
        }
    }
    assert(other.lists_sound()) by {
        assert forall|q: int, k: int|
            0 <= q < other.queues.len() && 0 <= k < other.queues[q].waiting_task_ids.len() implies other.holds(
            #[trigger] other.queues[q].waiting_task_ids[k],
            TaskState::Waiting,
            other.queues[q].name,
        ) by {
            let id = s.queues[q].waiting_task_ids[k];
            assert(s.holds(id, TaskState::Waiting, s.queues[q].name));
            let i = choose|i: int|
                0 <= i < s.tasks.len() && (#[trigger] s.tasks[i]).id == id && s.tasks[i].state
                    == TaskState::Waiting && s.tasks[i].queue == s.queues[q].name;
            assert(other.tasks[i].id == id);
        }
        assert forall|q: int, k: int|
            0 <= q < other.queues.len() && 0 <= k < other.queues[q].running_task_ids.len() implies other.holds(
            #[trigger] other.queues[q].running_task_ids[k],
            TaskState::Running,
            other.queues[q].name,
        ) by {
            let id = s.queues[q].running_task_ids[k];
            assert(s.holds(id, TaskState::Running, s.queues[q].name));
            let i = choose|i: int|
                0 <= i < s.tasks.len() && (#[trigger] s.tasks[i]).id == id && s.tasks[i].state
                    == TaskState::Running && s.tasks[i].queue == s.queues[q].name;
            assert(other.tasks[i].id == id);
        }
    }
    assert(other.lists_complete()) by {
        assert forall|i: int, q: int|
            0 <= i < other.tasks.len() && 0 <= q < other.queues.len() && (
            #[trigger] other.queues[q]).name == (#[trigger] other.tasks[i]).queue implies {
            &&& other.tasks[i].state is Waiting ==> other.queues[q].waiting_task_ids.contains(
                other.tasks[i].id,
            )
            &&& other.tasks[i].state is Running ==> other.queues[q].running_task_ids.contains(
                other.tasks[i].id,
            )
        } by {
            assert(s.queues[q].name == s.tasks[i].queue);
        }
    }
    assert(other.lists_distinct()) by {
        assert forall|q: int| 0 <= q < other.queues.len() implies (
        #[trigger] other.queues[q]).waiting_task_ids.no_duplicates()
            && other.queues[q].running_task_ids.no_duplicates() by {
            assert(s.queues[q].waiting_task_ids.no_duplicates());
        }
    }
    assert(other.within_caps()) by {
        assert forall|q: int| 0 <= q < other.queues.len() implies (
        #[trigger] other.queues[q]).running_task_ids.len() <= other.queues[q].max_concurrent by {
            assert(s.queues[q].running_task_ids.len() <= s.queues[q].max_concurrent);
        }
    }
}

impl StateView {
    /// A list holds an id exactly if the id is that of a task of the
    /// queue in the list's state.
    pub open spec fn lists_exact(self) -> bool {
        &&& forall|q: int, x: u64|
            0 <= q < self.queues.len() ==> (#[trigger] self.queues[q].waiting_task_ids.contains(x)
                <==> self.holds(x, TaskState::Waiting, self.queues[q].name))
        &&& forall|q: int, x: u64|
            0 <= q < self.queues.len() ==> (#[trigger] self.queues[q].running_task_ids.contains(x)
                <==> self.holds(x, TaskState::Running, self.queues[q].name))
    }
}

/// Where lists and records agree the lists are exact.
pub proof fn lemma_lists_exact(s: StateView)
    requires
        s.lists_agree(),
    ensures
        s.lists_exact(),
{
    assert forall|q: int, x: u64| 0 <= q < s.queues.len() implies (
    #[trigger] s.queues[q].waiting_task_ids.contains(x) <==> s.holds(
        x,
        TaskState::Waiting,
        s.queues[q].name,
    )) by {
        let list = s.queues[q].waiting_task_ids;
        if list.contains(x) {
            let k = choose|k: int| 0 <= k < list.len() && list[k] == x;
            assert(s.holds(s.queues[q].waiting_task_ids[k], TaskState::Waiting, s.queues[q].name));
        }
        if s.holds(x, TaskState::Waiting, s.queues[q].name) {
            let i = choose|i: int|
                0 <= i < s.tasks.len() && (#[trigger] s.tasks[i]).id == x && s.tasks[i].state
                    == TaskState::Waiting && s.tasks[i].queue == s.queues[q].name;
            assert(s.queues[q].name == s.tasks[i].queue);
        }
    }
    assert forall|q: int, x: u64| 0 <= q < s.queues.len() implies (
    #[trigger] s.queues[q].running_task_ids.contains(x) <==> s.holds(
        x,
        TaskState::Running,
        s.queues[q].name,
    )) by {
        let list = s.queues[q].running_task_ids;
        if list.contains(x) {
            let k = choose|k: int| 0 <= k < list.len() && list[k] == x;
            assert(s.holds(s.queues[q].running_task_ids[k], TaskState::Running, s.queues[q].name));
        }
        if s.holds(x, TaskState::Running, s.queues[q].name) {
            let i = choose|i: int|
                0 <= i < s.tasks.len() && (#[trigger] s.tasks[i]).id == x && s.tasks[i].state
                    == TaskState::Running && s.tasks[i].queue == s.queues[q].name;
            assert(s.queues[q].name == s.tasks[i].queue);
        }
    }
}

/// In a well-formed state with exact, repetition-free lists, whose tasks
/// all name a queue, lists and records agree.
pub proof fn lemma_exact_agrees(s: StateView)
    requires
        s.wf(),
        s.tasks_have_queues(),
        s.lists_exact(),
        s.lists_distinct(),
    ensures
        s.lists_agree(),
{
    assert(s.lists_sound()) by {
        assert forall|q: int, k: int|
            0 <= q < s.queues.len() && 0 <= k < s.queues[q].waiting_task_ids.len() implies s.holds(
            #[trigger] s.queues[q].waiting_task_ids[k],
            TaskState::Waiting,
            s.queues[q].name,
        ) by {
            assert(s.queues[q].waiting_task_ids.contains(s.queues[q].waiting_task_ids[k]));
        }
        assert forall|q: int, k: int|
            0 <= q < s.queues.len() && 0 <= k < s.queues[q].running_task_ids.len() implies s.holds(
            #[trigger] s.queues[q].running_task_ids[k],
            TaskState::Running,
            s.queues[q].name,
        ) by {
            assert(s.queues[q].running_task_ids.contains(s.queues[q].running_task_ids[k]));
        }
    }
    assert(s.lists_complete()) by {
        assert forall|i: int, q: int|
            0 <= i < s.tasks.len() && 0 <= q < s.queues.len() && (#[trigger] s.queues[q]).name == (
            #[trigger] s.tasks[i]).queue implies {
            &&& s.tasks[i].state is Waiting ==> s.queues[q].waiting_task_ids.contains(s.tasks[i].id)
            &&& s.tasks[i].state is Running ==> s.queues[q].running_task_ids.contains(s.tasks[i].id)
        } by {
            if s.tasks[i].state is Waiting {
                assert(s.holds(s.tasks[i].id, TaskState::Waiting, s.queues[q].name));
            }
            if s.tasks[i].state is Running {
                assert(s.holds(s.tasks[i].id, TaskState::Running, s.queues[q].name));
            }
        }
    }
}

/// What holds of the tasks after the record at position `p` was replaced
/// by one of the same id.
pub proof fn lemma_holds_update(s: StateView, p: int, task: TaskView, after: StateView)
    requires
        s.wf(),
        0 <= p < s.tasks.len(),
        task.id == s.tasks[p].id,
        after.tasks == s.tasks.update(p, task),
    ensures
        forall|x: u64, state: TaskState, name: Seq<char>| #[trigger]
            after.holds(x, state, name) <==> if x == task.id {
                task.state == state && task.queue == name
            } else {
                s.holds(x, state, name)
            },
        forall|i: int, j: int|
            0 <= i < j < after.tasks.len() ==> after.tasks[i].id != after.tasks[j].id,
        forall|x: u64| after.has_task(x) <==> s.has_task(x),
{
    assert forall|x: u64, state: TaskState, name: Seq<char>| #[trigger]
        after.holds(x, state, name) <==> if x == task.id {
            task.state == state && task.queue == name
        } else {
            s.holds(x, state, name)
        } by {
        if after.holds(x, state, name) {
            let i = choose|i: int|
                0 <= i < after.tasks.len() && (#[trigger] after.tasks[i]).id == x
                    && after.tasks[i].state == state && after.tasks[i].queue == name;
            if i != p {
                assert(s.tasks[i].id == x);
                if x == task.id {
                    if i < p {
                        assert(s.tasks[i].id != s.tasks[p].id);
                    } else {
                        assert(s.tasks[p].id != s.tasks[i].id);
                    }
                }
            }
        }
        if x == task.id && task.state == state && task.queue == name {
            assert(after.tasks[p].id == x);
        }
        if x != task.id && s.holds(x, state, name) {
            let i = choose|i: int|
                0 <= i < s.tasks.len() && (#[trigger] s.tasks[i]).id == x && s.tasks[i].state
                    == state && s.tasks[i].queue == name;
            assert(after.tasks[i].id == x);
        }
    }
    assert forall|i: int, j: int| 0 <= i < j < after.tasks.len() implies after.tasks[i].id
        != after.tasks[j].id by {
        assert(s.tasks[i].id != s.tasks[j].id);
    }
    assert forall|x: u64| after.has_task(x) <==> s.has_task(x) by {
        if after.has_task(x) {
            let i = choose|i: int| 0 <= i < after.tasks.len() && (#[trigger] after.tasks[i]).id == x;
            assert(s.tasks[i].id == x);
        }
        if s.has_task(x) {
            let i = choose|i: int| 0 <= i < s.tasks.len() && (#[trigger] s.tasks[i]).id == x;
            assert(after.tasks[i].id == x);
        }
    }
}

/// What holds of the tasks after a record with a new id was appended.
pub proof fn lemma_holds_push(s: StateView, task: TaskView, after: StateView)
    requires
        s.wf(),
        !s.has_task(task.id),
        after.tasks == s.tasks.push(task),
    ensures
        forall|x: u64, state: TaskState, name: Seq<char>| #[trigger]
            after.holds(x, state, name) <==> if x == task.id {
                task.state == state && task.queue == name
            } else {
                s.holds(x, state, name)
            },
        forall|i: int, j: int|
            0 <= i < j < after.tasks.len() ==> after.tasks[i].id != after.tasks[j].id,
{
    let n = s.tasks.len() as int;
    assert forall|x: u64, state: TaskState, name: Seq<char>| #[trigger]
        after.holds(x, state, name) <==> if x == task.id {
            task.state == state && task.queue == name
        } else {
            s.holds(x, state, name)
        } by {
        if after.holds(x, state, name) {
            let i = choose|i: int|
                0 <= i < after.tasks.len() && (#[trigger] after.tasks[i]).id == x
                    && after.tasks[i].state == state && after.tasks[i].queue == name;
            if i != n {
                assert(s.tasks[i].id == x);
            }
        }
        if x == task.id && task.state == state && task.queue == name {
            assert(after.tasks[n].id == x);
        }
        if x != task.id && s.holds(x, state, name) {
            let i = choose|i: int|
                0 <= i < s.tasks.len() && (#[trigger] s.tasks[i]).id == x && s.tasks[i].state
                    == state && s.tasks[i].queue == name;
            assert(after.tasks[i].id == x);
        }
    }
    assert forall|i: int, j: int| 0 <= i < j < after.tasks.len() implies after.tasks[i].id
        != after.tasks[j].id by {
        if j < n {
            assert(s.tasks[i].id != s.tasks[j].id);
        } else {
            assert(s.tasks[i].id != task.id);
        }
    }
}

/// What holds of the tasks after the record at position `p` was removed.
pub proof fn lemma_holds_remove(s: StateView, p: int, after: StateView)
    requires
        s.wf(),
        0 <= p < s.tasks.len(),
        after.tasks == s.tasks.remove(p),
    ensures
        forall|x: u64, state: TaskState, name: Seq<char>| #[trigger]
            after.holds(x, state, name) <==> (x != s.tasks[p].id && s.holds(x, state, name)),
        forall|i: int, j: int|
            0 <= i < j < after.tasks.len() ==> after.tasks[i].id != after.tasks[j].id,
{
    let gone = s.tasks[p].id;
    assert forall|x: u64, state: TaskState, name: Seq<char>| #[trigger]
        after.holds(x, state, name) <==> (x != gone && s.holds(x, state, name)) by {
        if after.holds(x, state, name) {
            let i = choose|i: int|
                0 <= i < after.tasks.len() && (#[trigger] after.tasks[i]).id == x
                    && after.tasks[i].state == state && after.tasks[i].queue == name;
            let old_i = if i < p { i } else { i + 1 };
            assert(s.tasks[old_i].id == x);
            if old_i < p {
                assert(s.tasks[old_i].id != s.tasks[p].id);
            } else {
                assert(s.tasks[p].id != s.tasks[old_i].id);
            }
        }
        if x != gone && s.holds(x, state, name) {
            let i = choose|i: int|
                0 <= i < s.tasks.len() && (#[trigger] s.tasks[i]).id == x && s.tasks[i].state
                    == state && s.tasks[i].queue == name;
            let new_i = if i < p { i } else { i - 1 };
            assert(after.tasks[new_i].id == x);
        }
    }
    assert forall|i: int, j: int| 0 <= i < j < after.tasks.len() implies after.tasks[i].id
        != after.tasks[j].id by {
        let old_i = if i < p { i } else { i + 1 };
        let old_j = if j < p { j } else { j + 1 };
        assert(s.tasks[old_i].id != s.tasks[old_j].id);
    }
}

/// Where lists and records agree, every Waiting and every Running task
/// is in the list of its state in its queue, once, and not in the other
/// list of that queue.
pub proof fn law_agreeing_lists_by_state(s: StateView, id: u64)
    requires
        s.lists_agree(),
        s.has_task(id),
        !s.task(id).state.is_terminal(),
    ensures
        s.listed_by_state(s.task(id).queue, id, s.task(id).state),
{
    lemma_lists_exact(s);
    s.lemma_task_pos(id);
    let p = s.task_pos(id);
    lemma_holds_at(s, p);
    let name = s.tasks[p].queue;
    assert(s.has_queue(name));
    let j = s.queue_pos(name);
    assert(s.queues[j].name == name);
    assert(s.queues[j].waiting_task_ids.contains(id) <==> s.holds(id, TaskState::Waiting, name));
    assert(s.queues[j].running_task_ids.contains(id) <==> s.holds(id, TaskState::Running, name));
    assert(s.queues[j].waiting_task_ids.no_duplicates());
    assert(s.queues[j].running_task_ids.no_duplicates());
}

/// In a well-formed state, what holds of an id is what the one task of
/// that id says.
pub proof fn lemma_holds_at(s: StateView, p: int)
    requires
        s.wf(),
        0 <= p < s.tasks.len(),
    ensures
        forall|state: TaskState, name: Seq<char>| #[trigger]
            s.holds(s.tasks[p].id, state, name) <==> (s.tasks[p].state == state && s.tasks[p].queue
                == name),
{
    assert forall|state: TaskState, name: Seq<char>| #[trigger]
        s.holds(s.tasks[p].id, state, name) <==> (s.tasks[p].state == state && s.tasks[p].queue
            == name) by {
        if s.holds(s.tasks[p].id, state, name) {
            let i = choose|i: int|
                0 <= i < s.tasks.len() && (#[trigger] s.tasks[i]).id == s.tasks[p].id
                    && s.tasks[i].state == state && s.tasks[i].queue == name;
            if i < p {
                assert(s.tasks[i].id != s.tasks[p].id);
            } else if p < i {
                assert(s.tasks[p].id != s.tasks[i].id);
            }
        }
    }
}

/// The queues of a state whose queue at position `j` was replaced by one
/// of the same name still have distinct names, and the same names exist.
pub proof fn lemma_queues_update(s: StateView, j: int, queue: QueueView, after: StateView)
    requires
        s.wf(),
        0 <= j < s.queues.len(),
        queue.name == s.queues[j].name,
        after.queues == s.queues.update(j, queue),
    ensures
        forall|a: int, b: int|
            0 <= a < b < after.queues.len() ==> after.queues[a].name != after.queues[b].name,
        forall|name: Seq<char>| after.has_queue(name) <==> s.has_queue(name),
{
    assert forall|a: int, b: int| 0 <= a < b < after.queues.len() implies after.queues[a].name
        != after.queues[b].name by {
        assert(s.queues[a].name != s.queues[b].name);
    }
    assert forall|name: Seq<char>| after.has_queue(name) <==> s.has_queue(name) by {
        if after.has_queue(name) {
            let q = choose|q: int| 0 <= q < after.queues.len() && (#[trigger] after.queues[q]).name
                == name;
            assert(s.queues[q].name == name);
        }
        if s.has_queue(name) {
            let q = choose|q: int| 0 <= q < s.queues.len() && (#[trigger] s.queues[q]).name == name;
            assert(after.queues[q].name == name);
        }
    }
}

/// What is struck everywhere is nowhere, and the queues keep their
/// names, caps and number.
pub proof fn lemma_struck_nowhere(queues: Seq<QueueView>, id: u64)
    ensures
        strike_everywhere(queues, id).len() == queues.len(),
        forall|q: int|
            0 <= q < queues.len() ==> {
                let struck = #[trigger] strike_everywhere(queues, id)[q];
                &&& struck.name == queues[q].name
                &&& struck.max_concurrent == queues[q].max_concurrent
                &&& !struck.waiting_task_ids.contains(id)
                &&& !struck.running_task_ids.contains(id)
            },
{
    assert forall|q: int| 0 <= q < queues.len() implies {
        let struck = #[trigger] strike_everywhere(queues, id)[q];
        &&& struck.name == queues[q].name
        &&& struck.max_concurrent == queues[q].max_concurrent
        &&& !struck.waiting_task_ids.contains(id)
        &&& !struck.running_task_ids.contains(id)
    } by {
        lemma_without_contains(queues[q].waiting_task_ids, id);
        lemma_without_contains(queues[q].running_task_ids, id);
        assert(strike_everywhere(queues, id)[q] == queues[q].strike(id));
        assert(!without(queues[q].waiting_task_ids, id).contains(id));
        assert(!without(queues[q].running_task_ids, id).contains(id));
    }
}

/// Where lists and records agree, only the queue of a task lists it:
/// striking the task everywhere changes that queue alone.
pub proof fn lemma_strike_only_own(s: StateView, p: int, j: int)
    requires
        s.lists_agree(),
        0 <= p < s.tasks.len(),
        0 <= j < s.queues.len(),
        s.queues[j].name == s.tasks[p].queue,
    ensures
        strike_everywhere(s.queues, s.tasks[p].id) == s.queues.update(
            j,
            s.queues[j].strike(s.tasks[p].id),
        ),
{
    let id = s.tasks[p].id;
    lemma_lists_exact(s);
    lemma_holds_at(s, p);
    assert forall|q: int| 0 <= q < s.queues.len() && q != j implies #[trigger] s.queues[q].strike(
        id,
    ) == s.queues[q] by {
        if q < j {
            assert(s.queues[q].name != s.queues[j].name);
        } else {
            assert(s.queues[j].name != s.queues[q].name);
        }
        assert(s.queues[q].waiting_task_ids.contains(id) <==> s.holds(
            id,
            TaskState::Waiting,
            s.queues[q].name,
        ));
        assert(s.queues[q].running_task_ids.contains(id) <==> s.holds(
            id,
            TaskState::Running,
            s.queues[q].name,
        ));
        lemma_without_absent(s.queues[q].waiting_task_ids, id);
        lemma_without_absent(s.queues[q].running_task_ids, id);
    }
    assert(strike_everywhere(s.queues, id) =~= s.queues.update(j, s.queues[j].strike(id)));
}

/// What a change of state does to the lists, whatever the store: a task
/// that ends is in no list afterwards, and a task that comes to wait or
/// to run is in the list of its new state in its queue, once, and not in
/// the other.
pub proof fn lemma_update_task_state_lists(
    s: StateView,
    id: u64,
    state: TaskState,
    gpus: Option<Seq<u8>>,
    reason: Option<Seq<char>>,
)
    requires
        s.wf(),
    ensures
        state.is_terminal() && s.has_task(id) ==> s.update_task_state(
            id,
            state,
            gpus,
            reason,
        ).lists_nowhere(id),
        s.moves_between_lists(id, state) ==> s.update_task_state(
            id,
            state,
            gpus,
            reason,
        ).listed_by_state(s.task(id).queue, id, state),
{
    let after = s.update_task_state(id, state, gpus, reason);
    if state.is_terminal() && s.has_task(id) {
        lemma_struck_nowhere(s.queues, id);
    }
    if s.moves_between_lists(id, state) {
        let name = s.task(id).queue;
        let j = s.queue_pos(name);
        let qv = s.queues[j];
        let moved = qv.transition(id, state);
        assert(after.queues =~= s.queues.update(j, moved));
        lemma_queues_update(s, j, moved, after);
        assert(after.queues[j].name == name);
        let at = after.queue_pos(name);
        if at < j {
            assert(after.queues[at].name != after.queues[j].name);
        } else if j < at {
            assert(after.queues[j].name != after.queues[at].name);
        }
        let waiting = without(qv.waiting_task_ids, id);
        let running = without(qv.running_task_ids, id);
        lemma_without_contains(qv.waiting_task_ids, id);
        lemma_without_contains(qv.running_task_ids, id);
        lemma_with_item(waiting, id);
        lemma_with_item(running, id);
        assert(!waiting.contains(id));
        assert(!running.contains(id));
        assert(moved.waiting_task_ids == if state is Waiting {
            waiting.push(id)
        } else {
            waiting
        });
        assert(moved.running_task_ids == if state is Running {
            running.push(id)
        } else {
            running
        });
        assert(at_most_once(moved.waiting_task_ids, id)) by {
            assert forall|a: int, b: int|
                0 <= a < moved.waiting_task_ids.len() && 0 <= b < moved.waiting_task_ids.len()
                    && moved.waiting_task_ids[a] == id && moved.waiting_task_ids[b]
                    == id implies a == b by {
                if a < waiting.len() {
                    assert(waiting[a] == id);
                    assert(waiting.contains(id));
                }
                if b < waiting.len() {
                    assert(waiting[b] == id);
                    assert(waiting.contains(id));
                }
            }
        }
        assert(at_most_once(moved.running_task_ids, id)) by {
            assert forall|a: int, b: int|
                0 <= a < moved.running_task_ids.len() && 0 <= b < moved.running_task_ids.len()
                    && moved.running_task_ids[a] == id && moved.running_task_ids[b]
                    == id implies a == b by {
                if a < running.len() {
                    assert(running[a] == id);
                    assert(running.contains(id));
                }
                if b < running.len() {
                    assert(running[b] == id);
                    assert(running.contains(id));
                }
            }
        }
    }
}

/// A change of state keeps lists and records in agreement, and keeps the
/// queues within their caps provided that a task which starts to run
/// finds its queue below its cap.
#[verifier::rlimit(50)]
pub proof fn lemma_update_task_state_agrees(
    s: StateView,
    id: u64,
    state: TaskState,
    gpus: Option<Seq<u8>>,
    reason: Option<Seq<char>>,
)
    requires
        s.lists_agree(),
    ensures
        s.update_task_state(id, state, gpus, reason).lists_agree(),
        s.within_caps() && s.has_room_for(id, state) ==> s.update_task_state(
            id,
            state,
            gpus,
            reason,
        ).within_caps(),
{
    let after = s.update_task_state(id, state, gpus, reason);
    if s.has_task(id) {
        let p = s.task_pos(id);
        let t = s.tasks[p];
        let updated = StateView::task_in_state(t, state, gpus, reason);
        assert(s.has_queue(t.queue));
        let j = s.queue_pos(t.queue);
        let qv = s.queues[j];
        let changed = t.state != state;
        let changed_queue = if state.is_terminal() {
            qv.strike(id)
        } else if changed {
            qv.transition(id, state)
        } else {
            qv
        };
        if state.is_terminal() {
            lemma_strike_only_own(s, p, j);
        }
        assert(after.queues =~= s.queues.update(j, changed_queue));
        lemma_holds_update(s, p, updated, after);
        lemma_holds_at(s, p);
        lemma_queues_update(s, j, changed_queue, after);
        lemma_lists_exact(s);
        lemma_without_contains(qv.waiting_task_ids, id);
        lemma_without_contains(qv.running_task_ids, id);
        lemma_without_no_duplicates(qv.waiting_task_ids, id);
        lemma_without_no_duplicates(qv.running_task_ids, id);
        lemma_with_item(qv.waiting_task_ids, id);
        lemma_with_item(qv.running_task_ids, id);
        lemma_with_item(without(qv.waiting_task_ids, id), id);
        lemma_with_item(without(qv.running_task_ids, id), id);
        assert(qv.waiting_task_ids.contains(id) <==> t.state is Waiting);
        assert(qv.running_task_ids.contains(id) <==> t.state is Running);
        assert(after.wf());
        assert(after.tasks_have_queues()) by {
            assert forall|i: int| 0 <= i < after.tasks.len() implies after.has_queue(
                (#[trigger] after.tasks[i]).queue,
            ) by {
                assert(s.has_queue(s.tasks[i].queue));
            }
        }
        assert(after.lists_exact()) by {
            assert forall|q: int, x: u64| 0 <= q < after.queues.len() implies (
            #[trigger] after.queues[q].waiting_task_ids.contains(x) <==> after.holds(
                x,
                TaskState::Waiting,
                after.queues[q].name,
            )) by {
                if q != j {
                    assert(s.queues[q].waiting_task_ids.contains(x) <==> s.holds(
                        x,
                        TaskState::Waiting,
                        s.queues[q].name,
                    ));
                    if q < j {
                        assert(s.queues[q].name != s.queues[j].name);
                    } else {
                        assert(s.queues[j].name != s.queues[q].name);
                    }
                } else {
                    let struck = without(qv.waiting_task_ids, id);
                    assert(qv.waiting_task_ids.contains(x) <==> s.holds(
                        x,
                        TaskState::Waiting,
                        qv.name,
                    ));
                    assert(struck.contains(x) <==> (qv.waiting_task_ids.contains(x) && x != id));
                    assert(crate::store::with_item(struck, id).contains(x) <==> (struck.contains(x)
                        || x == id));
                    assert(after.queues[j].waiting_task_ids == if state.is_terminal() {
                        struck
                    } else if changed {
                        if state is Waiting {
                            crate::store::with_item(struck, id)
                        } else {
                            struck
                        }
                    } else {
                        qv.waiting_task_ids
                    });
                }
            }
            assert forall|q: int, x: u64| 0 <= q < after.queues.len() implies (
            #[trigger] after.queues[q].running_task_ids.contains(x) <==> after.holds(
                x,
                TaskState::Running,
                after.queues[q].name,
            )) by {
                if q != j {
                    assert(s.queues[q].running_task_ids.contains(x) <==> s.holds(
                        x,
                        TaskState::Running,
                        s.queues[q].name,
                    ));
                    if q < j {
                        assert(s.queues[q].name != s.queues[j].name);
                    } else {
                        assert(s.queues[j].name != s.queues[q].name);
                    }
                } else {
                    let struck = without(qv.running_task_ids, id);
                    assert(qv.running_task_ids.contains(x) <==> s.holds(
                        x,
                        TaskState::Running,
                        qv.name,
                    ));
                    assert(struck.contains(x) <==> (qv.running_task_ids.contains(x) && x != id));
                    assert(crate::store::with_item(struck, id).contains(x) <==> (struck.contains(x)
                        || x == id));
                    assert(after.queues[j].running_task_ids == if state.is_terminal() {
                        struck
                    } else if changed {
                        if state is Running {
                            crate::store::with_item(struck, id)
                        } else {
                            struck
                        }
                    } else {
                        qv.running_task_ids
                    });
                }
            }
        }
        assert(after.lists_distinct()) by {
            assert forall|q: int| 0 <= q < after.queues.len() implies (
            #[trigger] after.queues[q]).waiting_task_ids.no_duplicates()
                && after.queues[q].running_task_ids.no_duplicates() by {
                assert(s.queues[q].waiting_task_ids.no_duplicates());
            }
        }
        lemma_exact_agrees(after);
        if s.within_caps() && s.has_room_for(id, state) {
            assert forall|q: int| 0 <= q < after.queues.len() implies (
            #[trigger] after.queues[q]).running_task_ids.len() <= after.queues[q].max_concurrent by {
                assert(s.queues[q].running_task_ids.len() <= s.queues[q].max_concurrent);
            }
        }
    }
}


/// A change of state keeps the store coherent, provided that a task which
/// starts to run finds its queue below its cap.
pub proof fn lemma_update_task_state_coherent(
    s: StateView,
    id: u64,
    state: TaskState,
    gpus: Option<Seq<u8>>,
    reason: Option<Seq<char>>,
)
    requires
        s.coherent(),
        s.has_room_for(id, state),
    ensures
        s.update_task_state(id, state, gpus, reason).coherent(),
{
    lemma_update_task_state_agrees(s, id, state, gpus, reason);
}

/// No task of a coherent state names a queue that does not exist.
pub proof fn lemma_holds_needs_queue(s: StateView, name: Seq<char>)
    requires
        s.tasks_have_queues(),
        !s.has_queue(name),
    ensures
        forall|x: u64, state: TaskState| !#[trigger] s.holds(x, state, name),
{
    assert forall|x: u64, state: TaskState| !#[trigger] s.holds(x, state, name) by {
        if s.holds(x, state, name) {
            let i = choose|i: int|
                0 <= i < s.tasks.len() && (#[trigger] s.tasks[i]).id == x && s.tasks[i].state
                    == state && s.tasks[i].queue == name;
            assert(s.has_queue(s.tasks[i].queue));
        }
    }
}

/// Nothing holds of an id that no task has.
pub proof fn lemma_holds_needs_task(s: StateView, id: u64)
    requires
        !s.has_task(id),
    ensures
        forall|state: TaskState, name: Seq<char>| !#[trigger] s.holds(id, state, name),
{
    assert forall|state: TaskState, name: Seq<char>| !#[trigger] s.holds(id, state, name) by {
        if s.holds(id, state, name) {
            let i = choose|i: int|
                0 <= i < s.tasks.len() && (#[trigger] s.tasks[i]).id == id && s.tasks[i].state
                    == state && s.tasks[i].queue == name;
            assert(s.tasks[i].id == id);
        }
    }
}

/// Adding a Waiting task under a new id keeps the store coherent.
#[verifier::rlimit(50)]
pub proof fn lemma_add_task_coherent(s: StateView, task: TaskView)
    requires
        s.coherent(),
        !s.has_task(task.id),
        task.state is Waiting,
    ensures
        s.add_task(task).coherent(),
{
    let after = s.add_task(task);
    let id = task.id;
    assert(after.tasks == s.tasks.push(task));
    lemma_holds_push(s, task, after);
    lemma_holds_needs_task(s, id);
    lemma_lists_exact(s);
    if s.has_queue(task.queue) {
        let j = s.queue_pos(task.queue);
        let qv = s.queues[j];
        let changed_queue = qv.enqueue(id);
        assert(after.queues =~= s.queues.update(j, changed_queue));
        lemma_queues_update(s, j, changed_queue, after);
        lemma_with_item(qv.waiting_task_ids, id);
        assert(after.wf());
        assert(after.tasks_have_queues()) by {
            assert forall|i: int| 0 <= i < after.tasks.len() implies after.has_queue(
                (#[trigger] after.tasks[i]).queue,
            ) by {
                if i < s.tasks.len() {
                    assert(s.has_queue(s.tasks[i].queue));
                }
            }
        }
        assert(after.lists_exact()) by {
            assert forall|q: int, x: u64| 0 <= q < after.queues.len() implies (
            #[trigger] after.queues[q].waiting_task_ids.contains(x) <==> after.holds(
                x,
                TaskState::Waiting,
                after.queues[q].name,
            )) by {
                assert(s.queues[q].waiting_task_ids.contains(x) <==> s.holds(
                    x,
                    TaskState::Waiting,
                    s.queues[q].name,
                ));
                if q < j {
                    assert(s.queues[q].name != s.queues[j].name);
                } else if j < q {
                    assert(s.queues[j].name != s.queues[q].name);
                }
            }
            assert forall|q: int, x: u64| 0 <= q < after.queues.len() implies (
            #[trigger] after.queues[q].running_task_ids.contains(x) <==> after.holds(
                x,
                TaskState::Running,
                after.queues[q].name,
            )) by {
                assert(s.queues[q].running_task_ids.contains(x) <==> s.holds(
                    x,
                    TaskState::Running,
                    s.queues[q].name,
                ));
            }
        }
        assert(after.lists_distinct()) by {
            assert forall|q: int| 0 <= q < after.queues.len() implies (
            #[trigger] after.queues[q]).waiting_task_ids.no_duplicates()
                && after.queues[q].running_task_ids.no_duplicates() by {
                assert(s.queues[q].waiting_task_ids.no_duplicates());
            }
        }
        assert(after.within_caps()) by {
            assert forall|q: int| 0 <= q < after.queues.len() implies (
            #[trigger] after.queues[q]).running_task_ids.len() <= after.queues[q].max_concurrent by {
                assert(s.queues[q].running_task_ids.len() <= s.queues[q].max_concurrent);
            }
        }
    } else {
        let fresh = QueueView::created_for(task.queue, id);
        let n = s.queues.len() as int;
        assert(after.queues == s.queues.push(fresh));
        lemma_holds_needs_queue(s, task.queue);
        assert(after.wf()) by {
            assert forall|a: int, b: int| 0 <= a < b < after.queues.len() implies after.queues[a].name
                != after.queues[b].name by {
                if b < n {
                    assert(s.queues[a].name != s.queues[b].name);
                } else {
                    assert(s.queues[a].name != task.queue);
                }
            }
        }
        assert(after.tasks_have_queues()) by {
            assert forall|i: int| 0 <= i < after.tasks.len() implies after.has_queue(
                (#[trigger] after.tasks[i]).queue,
            ) by {
                if i < s.tasks.len() {
                    assert(s.has_queue(s.tasks[i].queue));
                    let q = s.queue_pos(s.tasks[i].queue);
                    assert(after.queues[q].name == s.tasks[i].queue);
                } else {
                    assert(after.queues[n].name == task.queue);
                }
            }
        }
        assert(after.lists_exact()) by {
            assert forall|q: int, x: u64| 0 <= q < after.queues.len() implies (
            #[trigger] after.queues[q].waiting_task_ids.contains(x) <==> after.holds(
                x,
                TaskState::Waiting,
                after.queues[q].name,
            )) by {
                if q < n {
                    assert(s.queues[q].waiting_task_ids.contains(x) <==> s.holds(
                        x,
                        TaskState::Waiting,
                        s.queues[q].name,
                    ));
                    assert(s.queues[q].name != task.queue);
                } else {
                    assert(fresh.waiting_task_ids[0] == id);
                }
            }
            assert forall|q: int, x: u64| 0 <= q < after.queues.len() implies (
            #[trigger] after.queues[q].running_task_ids.contains(x) <==> after.holds(
                x,
                TaskState::Running,
                after.queues[q].name,
            )) by {
                if q < n {
                    assert(s.queues[q].running_task_ids.contains(x) <==> s.holds(
                        x,
                        TaskState::Running,
                        s.queues[q].name,
                    ));
                }
            }
        }
        assert(after.lists_distinct()) by {
            assert forall|q: int| 0 <= q < after.queues.len() implies (
            #[trigger] after.queues[q]).waiting_task_ids.no_duplicates()
                && after.queues[q].running_task_ids.no_duplicates() by {
                if q < n {
                    assert(s.queues[q].waiting_task_ids.no_duplicates());
                }
            }
        }
        assert(after.within_caps()) by {
            assert forall|q: int| 0 <= q < after.queues.len() implies (
            #[trigger] after.queues[q]).running_task_ids.len() <= after.queues[q].max_concurrent by {
                if q < n {
                    assert(s.queues[q].running_task_ids.len() <= s.queues[q].max_concurrent);
                }
            }
        }
    }
    lemma_exact_agrees(after);
}

/// Moving a Waiting task to another queue keeps the store coherent.
#[verifier::rlimit(50)]
pub proof fn lemma_update_task_queue_coherent(s: StateView, id: u64, dest: Seq<char>)
    requires
        s.coherent(),
        s.can_move(id, dest) ==> s.task(id).state is Waiting,
    ensures
        s.update_task_queue(id, dest).coherent(),
{
    let after = s.update_task_queue(id, dest);
    if s.can_move(id, dest) {
        let p = s.task_pos(id);
        let t = s.tasks[p];
        let updated = TaskView { queue: dest, ..t };
        assert(s.has_queue(t.queue));
        let from = s.queue_pos(t.queue);
        let to = s.queue_pos(dest);
        let source_queue = s.queues[from];
        let dest_queue = s.queues[to];
        let left = s.queues.update(from, source_queue.strike(id));
        let mid = StateView { queues: left, ..s };
        lemma_queues_update(s, from, source_queue.strike(id), mid);
        assert(left[to] == dest_queue);
        assert(after.queues =~= left.update(to, dest_queue.park(id)));
        lemma_holds_update(s, p, updated, after);
        lemma_holds_at(s, p);
        lemma_lists_exact(s);
        lemma_without_contains(source_queue.waiting_task_ids, id);
        lemma_without_no_duplicates(source_queue.waiting_task_ids, id);
        lemma_without_contains(source_queue.running_task_ids, id);
        lemma_without_no_duplicates(source_queue.running_task_ids, id);
        assert(!dest_queue.waiting_task_ids.contains(id));
        assert(!dest_queue.running_task_ids.contains(id));
        assert(!source_queue.running_task_ids.contains(id));
        assert(after.wf()) by {
            assert forall|a: int, b: int| 0 <= a < b < after.queues.len() implies after.queues[a].name
                != after.queues[b].name by {
                assert(s.queues[a].name != s.queues[b].name);
            }
        }
        assert(after.tasks_have_queues()) by {
            assert forall|i: int| 0 <= i < after.tasks.len() implies after.has_queue(
                (#[trigger] after.tasks[i]).queue,
            ) by {
                if i == p {
                    assert(after.queues[to].name == dest);
                } else {
                    assert(s.has_queue(s.tasks[i].queue));
                    let q = s.queue_pos(s.tasks[i].queue);
                    assert(after.queues[q].name == s.tasks[i].queue);
                }
            }
        }
        assert(after.lists_exact()) by {
            assert forall|q: int, x: u64| 0 <= q < after.queues.len() implies (
            #[trigger] after.queues[q].waiting_task_ids.contains(x) <==> after.holds(
                x,
                TaskState::Waiting,
                after.queues[q].name,
            )) by {
                assert(s.queues[q].waiting_task_ids.contains(x) <==> s.holds(
                    x,
                    TaskState::Waiting,
                    s.queues[q].name,
                ));
                if q == to {
                    let grown = dest_queue.waiting_task_ids.push(id);
                    if grown.contains(x) && x != id {
                        let k = choose|k: int| 0 <= k < grown.len() && grown[k] == x;
                        assert(dest_queue.waiting_task_ids[k] == x);
                    }
                    if dest_queue.waiting_task_ids.contains(x) {
                        let k = choose|k: int|
                            0 <= k < dest_queue.waiting_task_ids.len() && dest_queue.waiting_task_ids[k] == x;
                        assert(grown[k] == x);
                    }
                    assert(grown[dest_queue.waiting_task_ids.len() as int] == id);
                } else if q != from {
                    if q < from {
                        assert(s.queues[q].name != s.queues[from].name);
                    } else {
                        assert(s.queues[from].name != s.queues[q].name);
                    }
                    if q < to {
                        assert(s.queues[q].name != s.queues[to].name);
                    } else {
                        assert(s.queues[to].name != s.queues[q].name);
                    }
                }
            }
            assert forall|q: int, x: u64| 0 <= q < after.queues.len() implies (
            #[trigger] after.queues[q].running_task_ids.contains(x) <==> after.holds(
                x,
                TaskState::Running,
                after.queues[q].name,
            )) by {
                assert(s.queues[q].running_task_ids.contains(x) <==> s.holds(
                    x,
                    TaskState::Running,
                    s.queues[q].name,
                ));
            }
        }
        assert(after.lists_distinct()) by {
            assert forall|q: int| 0 <= q < after.queues.len() implies (
            #[trigger] after.queues[q]).waiting_task_ids.no_duplicates()
                && after.queues[q].running_task_ids.no_duplicates() by {
                assert(s.queues[q].waiting_task_ids.no_duplicates());
            }
        }
        assert(after.within_caps()) by {
            assert forall|q: int| 0 <= q < after.queues.len() implies (
            #[trigger] after.queues[q]).running_task_ids.len() <= after.queues[q].max_concurrent by {
                assert(s.queues[q].running_task_ids.len() <= s.queues[q].max_concurrent);
            }
        }
        lemma_exact_agrees(after);
    }
}

/// Removing a task keeps the store coherent.
#[verifier::rlimit(50)]
pub proof fn lemma_remove_task_coherent(s: StateView, id: u64)
    requires
        s.coherent(),
    ensures
        s.remove_task(id).coherent(),
{
    let after = s.remove_task(id);
    if s.has_task(id) {
        let p = s.task_pos(id);
        let t = s.tasks[p];
        assert(s.has_queue(t.queue));
        let j = s.queue_pos(t.queue);
        let qv = s.queues[j];
        let changed_queue = qv.strike(id);
        lemma_strike_only_own(s, p, j);
        assert(after.queues =~= s.queues.update(j, changed_queue));
        lemma_holds_remove(s, p, after);
        lemma_holds_at(s, p);
        lemma_queues_update(s, j, changed_queue, after);
        lemma_lists_exact(s);
        lemma_without_contains(qv.waiting_task_ids, id);
        lemma_without_contains(qv.running_task_ids, id);
        lemma_without_no_duplicates(qv.waiting_task_ids, id);
        lemma_without_no_duplicates(qv.running_task_ids, id);
        assert(after.wf());
        assert(after.tasks_have_queues()) by {
            assert forall|i: int| 0 <= i < after.tasks.len() implies after.has_queue(
                (#[trigger] after.tasks[i]).queue,
            ) by {
                let old_i = if i < p { i } else { i + 1 };
                assert(s.has_queue(s.tasks[old_i].queue));
            }
        }
        assert(after.lists_exact()) by {
            assert forall|q: int, x: u64| 0 <= q < after.queues.len() implies (
            #[trigger] after.queues[q].waiting_task_ids.contains(x) <==> after.holds(
                x,
                TaskState::Waiting,
                after.queues[q].name,
            )) by {
                assert(s.queues[q].waiting_task_ids.contains(x) <==> s.holds(
                    x,
                    TaskState::Waiting,
                    s.queues[q].name,
                ));
                if q < j {
                    assert(s.queues[q].name != s.queues[j].name);
                } else if j < q {
                    assert(s.queues[j].name != s.queues[q].name);
                }
            }
            assert forall|q: int, x: u64| 0 <= q < after.queues.len() implies (
            #[trigger] after.queues[q].running_task_ids.contains(x) <==> after.holds(
                x,
                TaskState::Running,
                after.queues[q].name,
            )) by {
                assert(s.queues[q].running_task_ids.contains(x) <==> s.holds(
                    x,
                    TaskState::Running,
                    s.queues[q].name,
                ));
                if q < j {
                    assert(s.queues[q].name != s.queues[j].name);
                } else if j < q {
                    assert(s.queues[j].name != s.queues[q].name);
                }
            }
        }
        assert(after.lists_distinct()) by {
            assert forall|q: int| 0 <= q < after.queues.len() implies (
            #[trigger] after.queues[q]).waiting_task_ids.no_duplicates()
                && after.queues[q].running_task_ids.no_duplicates() by {
                assert(s.queues[q].waiting_task_ids.no_duplicates());
            }
        }
        assert(after.within_caps()) by {
            assert forall|q: int| 0 <= q < after.queues.len() implies (
            #[trigger] after.queues[q]).running_task_ids.len() <= after.queues[q].max_concurrent by {
                assert(s.queues[q].running_task_ids.len() <= s.queues[q].max_concurrent);
            }
        }
        lemma_exact_agrees(after);
    }
}

/// Adding a queue with empty lists under a new name keeps the store
/// coherent.
#[verifier::rlimit(50)]
pub proof fn lemma_add_queue_coherent(s: StateView, queue: QueueView)
    requires
        s.coherent(),
        !s.has_queue(queue.name),
        queue.waiting_task_ids.len() == 0,
        queue.running_task_ids.len() == 0,
    ensures
        s.add_queue(queue).coherent(),
{
    let after = s.add_queue(queue);
    let n = s.queues.len() as int;
    assert(after.queues == s.queues.push(queue));
    lemma_holds_needs_queue(s, queue.name);
    lemma_lists_exact(s);
    assert(after.wf()) by {
        assert forall|a: int, b: int| 0 <= a < b < after.queues.len() implies after.queues[a].name
            != after.queues[b].name by {
            if b < n {
                assert(s.queues[a].name != s.queues[b].name);
            } else {
                assert(s.queues[a].name != queue.name);
            }
        }
    }
    assert(after.tasks_have_queues()) by {
        assert forall|i: int| 0 <= i < after.tasks.len() implies after.has_queue(
            (#[trigger] after.tasks[i]).queue,
        ) by {
            assert(s.has_queue(s.tasks[i].queue));
            let q = s.queue_pos(s.tasks[i].queue);
            assert(after.queues[q].name == s.tasks[i].queue);
        }
    }
    assert(after.lists_exact()) by {
        assert forall|q: int, x: u64| 0 <= q < after.queues.len() implies (
        #[trigger] after.queues[q].waiting_task_ids.contains(x) <==> after.holds(
            x,
            TaskState::Waiting,
            after.queues[q].name,
        )) by {
            if q < n {
                assert(s.queues[q].waiting_task_ids.contains(x) <==> s.holds(
                    x,
                    TaskState::Waiting,
                    s.queues[q].name,
                ));
            }
        }
        assert forall|q: int, x: u64| 0 <= q < after.queues.len() implies (
        #[trigger] after.queues[q].running_task_ids.contains(x) <==> after.holds(
            x,
            TaskState::Running,
            after.queues[q].name,
        )) by {
            if q < n {
                assert(s.queues[q].running_task_ids.contains(x) <==> s.holds(
                    x,
                    TaskState::Running,
                    s.queues[q].name,
                ));
            }
        }
    }
    assert(after.lists_distinct()) by {
        assert forall|q: int| 0 <= q < after.queues.len() implies (
        #[trigger] after.queues[q]).waiting_task_ids.no_duplicates()
            && after.queues[q].running_task_ids.no_duplicates() by {
            if q < n {
                assert(s.queues[q].waiting_task_ids.no_duplicates());
            }
        }
    }
    assert(after.within_caps()) by {
        assert forall|q: int| 0 <= q < after.queues.len() implies (
        #[trigger] after.queues[q]).running_task_ids.len() <= after.queues[q].max_concurrent by {
            if q < n {
                assert(s.queues[q].running_task_ids.len() <= s.queues[q].max_concurrent);
            }
        }
    }
    lemma_exact_agrees(after);
}

} // verus!

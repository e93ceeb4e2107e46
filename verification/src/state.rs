//! The shared state of the daemon: the registry of tasks, the allocator of
//! their ids, and the flag that pauses the whole queue.

use crate::task::{is_live, is_terminal, Task, TaskStatus};
use vstd::prelude::*;

verus! {

/// Why the state refused an edit.
#[derive(Clone, Copy, Debug, PartialEq, Eq, Structural)]
pub enum StateError {
    /// No task has the given id.
    NotFound,
    /// The task's status does not allow the edit.
    InvalidState,
}

/// The registry of tasks. The tasks stand in the order of their ids.
#[derive(Debug)]
pub struct State {
    pub tasks: Vec<Task>,
    pub next_id: i32,
    pub paused: bool,
    pub config_path: Option<String>,
}

/// The changes of status that need no further data: pausing and resuming a
/// running task, and taking a stashed task back into the queue.
pub open spec fn status_change_allowed(from: TaskStatus, to: TaskStatus) -> bool {
    ||| from == TaskStatus::Running && to == TaskStatus::Paused
    ||| from == TaskStatus::Paused && to == TaskStatus::Running
    ||| from == TaskStatus::Stashed && to == TaskStatus::Queued
}

/// No two tasks share an id: the ids grow strictly along the sequence.
pub open spec fn ids_increase(tasks: Seq<Task>) -> bool {
    forall|i: int, j: int|
        0 <= i < j < tasks.len() ==> (#[trigger] tasks[i]).id < (#[trigger] tasks[j]).id
}

/// The task as it is after its process was started at time `start`.
pub open spec fn started(task: Task, start: i64) -> Task {
    Task { status: TaskStatus::Running, start: Some(start), ..task }
}

/// The task as it is after its process exited: `Done` for exit code zero,
/// `Failed` for any other.
pub open spec fn finished(
    task: Task,
    exit_code: i32,
    stdout: String,
    stderr: String,
    end: i64,
) -> Task {
    Task {
        status: if exit_code == 0 {
            TaskStatus::Done
        } else {
            TaskStatus::Failed
        },
        exit_code: Some(exit_code),
        stdout: Some(stdout),
        stderr: Some(stderr),
        end: Some(end),
        ..task
    }
}

/// The task as a freshly started daemon sees it: a task that ran or was
/// paused when the state was saved has no process any more and is queued
/// again; any other task is unchanged.
pub open spec fn reset(task: Task) -> Task {
    if is_live(task.status) {
        Task { status: TaskStatus::Queued, start: None, ..task }
    } else {
        task
    }
}

/// The number of tasks in status `Running`.
pub open spec fn count_running(tasks: Seq<Task>) -> nat
    decreases tasks.len(),
{
    if tasks.len() == 0 {
        0
    } else {
        count_running(tasks.drop_last()) + if tasks.last().status == TaskStatus::Running {
            1nat
        } else {
            0nat
        }
    }
}

impl State {
    /// Every task is well formed and has an id below the next one to be
    /// given out, and the ids grow strictly.
    pub open spec fn wf(&self) -> bool {
        &&& self.next_id >= 0
        &&& forall|i: int|
            0 <= i < self.tasks@.len() ==> (#[trigger] self.tasks@[i]).wf() && 0
                <= self.tasks@[i].id < self.next_id
        &&& ids_increase(self.tasks@)
    }

    /// Some task has the id `id`.
    pub open spec fn has_task(&self, id: i32) -> bool {
        exists|i: int| 0 <= i < self.tasks@.len() && (#[trigger] self.tasks@[i]).id == id
    }

    /// The place of the task with id `id`, where there is one.
    pub open spec fn position(&self, id: i32) -> int {
        choose|i: int| 0 <= i < self.tasks@.len() && (#[trigger] self.tasks@[i]).id == id
    }

    /// The task with id `id`, where there is one.
    pub open spec fn task(&self, id: i32) -> Task {
        self.tasks@[self.position(id)]
    }

    /// Another id can be given out.
    pub open spec fn has_room(&self) -> bool {
        self.next_id < i32::MAX
    }

    /// In a well-formed state the task at place `i` is the one that its id
    /// names.
    pub proof fn lemma_position(&self, i: int)
        requires
            self.wf(),
            0 <= i < self.tasks@.len(),
        ensures
            self.has_task(self.tasks@[i].id),
            self.position(self.tasks@[i].id) == i,
            self.task(self.tasks@[i].id) == self.tasks@[i],
    {
        let id = self.tasks@[i].id;
        let p = self.position(id);
        assert(0 <= p < self.tasks@.len() && self.tasks@[p].id == id);
        if p < i {
            assert(self.tasks@[p].id < self.tasks@[i].id);
        }
        if i < p {
            assert(self.tasks@[i].id < self.tasks@[p].id);
        }
    }

    /// An empty state that is not paused and gives out id zero first.
    pub fn new(config_path: Option<String>) -> (state: State)
        ensures
            state.wf(),
            state.tasks@.len() == 0,
            state.next_id == 0,
            !state.paused,
            state.config_path == config_path,
    {
        State { tasks: Vec::new(), next_id: 0, paused: false, config_path }
    }

    /// Whether the state is well formed. A state that was read from a
    /// snapshot is to be tested before anything else is done with it.
    pub fn is_well_formed(&self) -> (valid: bool)
        ensures
            valid == self.wf(),
    {
        if self.next_id < 0 {
            return false;
        }
        let mut i: usize = 0;
        while i < self.tasks.len()
            invariant
                i <= self.tasks.len(),
                self.next_id >= 0,
                forall|j: int|
                    0 <= j < i ==> (#[trigger] self.tasks@[j]).wf() && 0 <= self.tasks@[j].id
                        < self.next_id,
                forall|a: int, b: int|
                    0 <= a < b < i ==> (#[trigger] self.tasks@[a]).id < (
                    #[trigger] self.tasks@[b]).id,
            decreases self.tasks.len() - i,
        {
            let task = &self.tasks[i];
            if !task.is_well_formed() || task.id < 0 || task.id >= self.next_id {
                return false;
            }
            if i > 0 && self.tasks[i - 1].id >= task.id {
                assert(!(self.tasks@[i - 1].id < self.tasks@[i as int].id));
                return false;
            }
            proof {
                assert forall|a: int, b: int| 0 <= a < b < i + 1 implies (
                #[trigger] self.tasks@[a]).id < (#[trigger] self.tasks@[b]).id by {
                    if b == i && a < i - 1 {
                        assert(self.tasks@[a].id < self.tasks@[i - 1].id);
                    }
                }
            }
            i += 1;
        }
        true
    }

    /// Whether another id can be given out.
    pub fn can_add(&self) -> (room: bool)
        ensures
            room == self.has_room(),
    {
        self.next_id < i32::MAX
    }

    /// The place of the task with id `id`, if there is one.
    pub fn find(&self, id: i32) -> (place: Option<usize>)
        requires
            self.wf(),
        ensures
            match place {
                Some(i) => self.has_task(id) && i == self.position(id),
                None => !self.has_task(id),
            },
    {
        let mut i: usize = 0;
        while i < self.tasks.len()
            invariant
                i <= self.tasks.len(),
                self.wf(),
                forall|j: int| 0 <= j < i ==> (#[trigger] self.tasks@[j]).id != id,
            decreases self.tasks.len() - i,
        {
            if self.tasks[i].id == id {
                proof {
                    self.lemma_position(i as int);
                }
                return Some(i);
            }
            i += 1;
        }
        None
    }

    /// Adds a queued task under a fresh id, and returns the id. The id is
    /// greater than that of every task in the state.
    pub fn add_task(&mut self, command: String, arguments: Vec<String>, path: String) -> (id: i32)
        requires
            old(self).wf(),
            old(self).has_room(),
        ensures
            final(self).wf(),
            id == old(self).next_id,
            final(self).next_id == id + 1,
            final(self).paused == old(self).paused,
            final(self).config_path == old(self).config_path,
            final(self).tasks@.len() == old(self).tasks@.len() + 1,
            final(self).tasks@.drop_last() == old(self).tasks@,
            final(self).tasks@.last() == (Task {
                id,
                command,
                arguments,
                path,
                status: TaskStatus::Queued,
                exit_code: None,
                stdout: None,
                stderr: None,
                start: None,
                end: None,
            }),
            forall|i: int|
                0 <= i < old(self).tasks@.len() ==> (#[trigger] old(self).tasks@[i]).id < id,
            !old(self).has_task(id),
            final(self).has_task(id),
    {
        let id = self.next_id;
        let mut task = Task::new(command, arguments, path);
        task.id = id;
        self.tasks.push(task);
        self.next_id = id + 1;
        proof {
            assert(final(self).tasks@.drop_last() =~= old(self).tasks@);
            assert(final(self).tasks@[old(self).tasks@.len() as int].id == id);
        }
        id
    }

    /// The task with id `id`, if there is one.
    pub fn get(&self, id: i32) -> (found: Option<&Task>)
        requires
            self.wf(),
        ensures
            match found {
                Some(task) => self.has_task(id) && *task == self.task(id) && task.id == id,
                None => !self.has_task(id),
            },
    {
        match self.find(id) {
            Some(i) => Some(&self.tasks[i]),
            None => None,
        }
    }

    /// All tasks, in the order of their ids.
    pub fn list(&self) -> (tasks: &Vec<Task>)
        ensures
            *tasks == self.tasks,
    {
        &self.tasks
    }

    /// Changes the status of a task where that needs no further data: pauses
    /// or resumes a running task, or queues a stashed one. Any other change
    /// is refused as invalid, and the state then stays as it is.
    pub fn update_status(&mut self, id: i32, new_status: TaskStatus) -> (result: Result<
        (),
        StateError,
    >)
        requires
            old(self).wf(),
        ensures
            final(self).wf(),
            match result {
                Ok(()) => {
                    &&& old(self).has_task(id)
                    &&& status_change_allowed(old(self).task(id).status, new_status)
                    &&& final(self).tasks@ == old(self).tasks@.update(
                        old(self).position(id),
                        (Task { status: new_status, ..old(self).task(id) }),
                    )
                    &&& final(self).next_id == old(self).next_id
                    &&& final(self).paused == old(self).paused
                    &&& final(self).config_path == old(self).config_path
                },
                Err(StateError::NotFound) => !old(self).has_task(id) && *final(self) == *old(self),
                Err(StateError::InvalidState) => {
                    &&& old(self).has_task(id)
                    &&& !status_change_allowed(old(self).task(id).status, new_status)
                    &&& *final(self) == *old(self)
                },
            },
    {
        let i = match self.find(id) {
            Some(i) => i,
            None => {
                return Err(StateError::NotFound);
            },
        };
        let from = self.tasks[i].status;
        let allowed = (from == TaskStatus::Running && new_status == TaskStatus::Paused) || (from
            == TaskStatus::Paused && new_status == TaskStatus::Running) || (from
            == TaskStatus::Stashed && new_status == TaskStatus::Queued);
        if !allowed {
            return Err(StateError::InvalidState);
        }
        let task = self.tasks.remove(i);
        let changed = Task { status: new_status, ..task };
        self.tasks.insert(i, changed);
        assert(final(self).tasks@ =~= old(self).tasks@.update(i as int, changed));
        Ok(())
    }

    /// Marks a queued task as running since `start`. Refused as invalid for a
    /// task in any other status.
    pub fn start_task(&mut self, id: i32, start: i64) -> (result: Result<(), StateError>)
        requires
            old(self).wf(),
        ensures
            final(self).wf(),
            match result {
                Ok(()) => {
                    &&& old(self).has_task(id)
                    &&& old(self).task(id).status == TaskStatus::Queued
                    &&& final(self).tasks@ == old(self).tasks@.update(
                        old(self).position(id),
                        started(old(self).task(id), start),
                    )
                    &&& final(self).next_id == old(self).next_id
                    &&& final(self).paused == old(self).paused
                    &&& final(self).config_path == old(self).config_path
                },
                Err(StateError::NotFound) => !old(self).has_task(id) && *final(self) == *old(self),
                Err(StateError::InvalidState) => {
                    &&& old(self).has_task(id)
                    &&& old(self).task(id).status != TaskStatus::Queued
                    &&& *final(self) == *old(self)
                },
            },
    {
        let i = match self.find(id) {
            Some(i) => i,
            None => {
                return Err(StateError::NotFound);
            },
        };
        if self.tasks[i].status != TaskStatus::Queued {
            return Err(StateError::InvalidState);
        }
        let task = self.tasks.remove(i);
        let changed = Task { status: TaskStatus::Running, start: Some(start), ..task };
        self.tasks.insert(i, changed);
        assert(final(self).tasks@ =~= old(self).tasks@.update(i as int, changed));
        Ok(())
    }

    /// Writes the result of a task whose process has exited, all at once: the
    /// task becomes `Done` where the exit code is zero and `Failed` otherwise.
    /// Refused as invalid for a task that neither runs nor is paused: no task
    /// finishes without having run.
    pub fn set_result(
        &mut self,
        id: i32,
        exit_code: i32,
        stdout: String,
        stderr: String,
        end: i64,
    ) -> (result: Result<(), StateError>)
        requires
            old(self).wf(),
        ensures
            final(self).wf(),
            match result {
                Ok(()) => {
                    &&& old(self).has_task(id)
                    &&& is_live(old(self).task(id).status)
                    &&& final(self).tasks@ == old(self).tasks@.update(
                        old(self).position(id),
                        finished(old(self).task(id), exit_code, stdout, stderr, end),
                    )
                    &&& final(self).next_id == old(self).next_id
                    &&& final(self).paused == old(self).paused
                    &&& final(self).config_path == old(self).config_path
                },
                Err(StateError::NotFound) => !old(self).has_task(id) && *final(self) == *old(self),
                Err(StateError::InvalidState) => {
                    &&& old(self).has_task(id)
                    &&& !is_live(old(self).task(id).status)
                    &&& *final(self) == *old(self)
                },
            },
    {
        let i = match self.find(id) {
            Some(i) => i,
            None => {
                return Err(StateError::NotFound);
            },
        };
        if !self.tasks[i].is_running() {
            return Err(StateError::InvalidState);
        }
        let task = self.tasks.remove(i);
        let status = if exit_code == 0 {
            TaskStatus::Done
        } else {
            TaskStatus::Failed
        };
        let changed = Task {
            status,
            exit_code: Some(exit_code),
            stdout: Some(stdout),
            stderr: Some(stderr),
            end: Some(end),
            ..task
        };
        self.tasks.insert(i, changed);
        assert(final(self).tasks@ =~= old(self).tasks@.update(i as int, changed));
        Ok(())
    }

    /// Takes a task out of the state and returns it. Refused as invalid for a
    /// task that runs or is paused: its process would be left without owner.
    pub fn remove(&mut self, id: i32) -> (result: Result<Task, StateError>)
        requires
            old(self).wf(),
        ensures
            final(self).wf(),
            match result {
                Ok(task) => {
                    &&& old(self).has_task(id)
                    &&& !is_live(old(self).task(id).status)
                    &&& task == old(self).task(id)
                    &&& final(self).tasks@ == old(self).tasks@.remove(old(self).position(id))
                    &&& !final(self).has_task(id)
                    &&& final(self).next_id == old(self).next_id
                    &&& final(self).paused == old(self).paused
                    &&& final(self).config_path == old(self).config_path
                },
                Err(StateError::NotFound) => !old(self).has_task(id) && *final(self) == *old(self),
                Err(StateError::InvalidState) => {
                    &&& old(self).has_task(id)
                    &&& is_live(old(self).task(id).status)
                    &&& *final(self) == *old(self)
                },
            },
    {
        let i = match self.find(id) {
            Some(i) => i,
            None => {
                return Err(StateError::NotFound);
            },
        };
        if self.tasks[i].is_running() {
            return Err(StateError::InvalidState);
        }
        let task = self.tasks.remove(i);
        proof {
            let before = old(self).tasks@;
            let after = final(self).tasks@;
            assert forall|a: int, b: int| 0 <= a < b < after.len() implies (#[trigger] after[a]).id
                < (#[trigger] after[b]).id by {
                let a0 = if a < i { a } else { a + 1 };
                let b0 = if b < i { b } else { b + 1 };
                assert(before[a0].id < before[b0].id);
            }
            assert forall|a: int| 0 <= a < after.len() implies (#[trigger] after[a]).id != id by {
                let a0 = if a < i { a } else { a + 1 };
                if a0 < i {
                    assert(before[a0].id < before[i as int].id);
                } else {
                    assert(before[i as int].id < before[a0].id);
                }
            }
            assert forall|a: int| 0 <= a < after.len() implies (#[trigger] after[a]).wf() && 0
                <= after[a].id < final(self).next_id by {
                let a0 = if a < i { a } else { a + 1 };
                assert(before[a0].wf());
            }
        }
        Ok(task)
    }

    /// Sets the flag that pauses the whole queue.
    pub fn set_paused(&mut self, paused: bool)
        ensures
            final(self).paused == paused,
            final(self).tasks == old(self).tasks,
            final(self).next_id == old(self).next_id,
            final(self).config_path == old(self).config_path,
    {
        self.paused = paused;
    }

    /// Whether the whole queue is paused.
    pub fn is_paused(&self) -> (paused: bool)
        ensures
            paused == self.paused,
    {
        self.paused
    }

    /// Prepares a state that was loaded from a snapshot for a new run: every
    /// task that ran or was paused is queued again, since no process of the
    /// earlier run belongs to this one. Nothing else changes.
    pub fn restore(&mut self)
        requires
            old(self).wf(),
        ensures
            final(self).wf(),
            final(self).tasks@.len() == old(self).tasks@.len(),
            forall|i: int|
                0 <= i < old(self).tasks@.len() ==> #[trigger] final(self).tasks@[i] == reset(
                    old(self).tasks@[i],
                ),
            forall|i: int|
                0 <= i < final(self).tasks@.len() ==> !is_live(
                    (#[trigger] final(self).tasks@[i]).status,
                ),
            final(self).next_id == old(self).next_id,
            final(self).paused == old(self).paused,
            final(self).config_path == old(self).config_path,
    {
        let mut i: usize = 0;
        while i < self.tasks.len()
            invariant
                i <= self.tasks.len(),
                self.tasks@.len() == old(self).tasks@.len(),
                self.next_id == old(self).next_id,
                self.paused == old(self).paused,
                self.config_path == old(self).config_path,
                old(self).wf(),
                forall|j: int| 0 <= j < i ==> #[trigger] self.tasks@[j] == reset(old(self).tasks@[j]),
                forall|j: int|
                    i <= j < self.tasks@.len() ==> #[trigger] self.tasks@[j] == old(self).tasks@[j],
            decreases self.tasks.len() - i,
        {
            if self.tasks[i].is_running() {
                let task = self.tasks.remove(i);
                let changed = Task { status: TaskStatus::Queued, start: None, ..task };
                self.tasks.insert(i, changed);
            }
            i += 1;
        }
        proof {
            assert forall|a: int, b: int| 0 <= a < b < self.tasks@.len() implies (
            #[trigger] self.tasks@[a]).id < (#[trigger] self.tasks@[b]).id by {
                assert(old(self).tasks@[a].id < old(self).tasks@[b].id);
            }
            assert forall|a: int| 0 <= a < self.tasks@.len() implies (#[trigger] self.tasks@[a]).wf()
                && 0 <= self.tasks@[a].id < self.next_id by {
                assert(old(self).tasks@[a].wf());
            }
        }
    }

    /// The id of the queued task that is next in line: the one with the
    /// lowest id. Stashed tasks are passed over.
    pub fn next_queued(&self) -> (next: Option<i32>)
        requires
            self.wf(),
        ensures
            match next {
                Some(id) => {
                    &&& self.has_task(id)
                    &&& self.task(id).status == TaskStatus::Queued
                    &&& forall|i: int|
                        0 <= i < self.tasks@.len() && (#[trigger] self.tasks@[i]).status
                            == TaskStatus::Queued ==> id <= self.tasks@[i].id
                },
                None => forall|i: int|
                    0 <= i < self.tasks@.len() ==> (#[trigger] self.tasks@[i]).status
                        != TaskStatus::Queued,
            },
    {
        let mut i: usize = 0;
        while i < self.tasks.len()
            invariant
                i <= self.tasks.len(),
                self.wf(),
                forall|j: int|
                    0 <= j < i ==> (#[trigger] self.tasks@[j]).status != TaskStatus::Queued,
            decreases self.tasks.len() - i,
        {
            if self.tasks[i].status == TaskStatus::Queued {
                proof {
                    self.lemma_position(i as int);
                    assert forall|k: int|
                        0 <= k < self.tasks@.len() && (#[trigger] self.tasks@[k]).status
                            == TaskStatus::Queued implies self.tasks@[i as int].id
                        <= self.tasks@[k].id by {
                        if i < k {
                            assert(self.tasks@[i as int].id < self.tasks@[k].id);
                        }
                    }
                }
                return Some(self.tasks[i].id);
            }
            i += 1;
        }
        None
    }

    /// The number of tasks that are running. Paused tasks do not count.
    pub fn running_count(&self) -> (count: usize)
        ensures
            count == count_running(self.tasks@),
    {
        let mut count: usize = 0;
        let mut i: usize = 0;
        assert(self.tasks@.take(0) =~= Seq::<Task>::empty());
        while i < self.tasks.len()
            invariant
                i <= self.tasks.len(),
                count <= i,
                count == count_running(self.tasks@.take(i as int)),
            decreases self.tasks.len() - i,
        {
            proof {
                let next = self.tasks@.take(i + 1);
                assert(next.drop_last() =~= self.tasks@.take(i as int));
                assert(next.last() == self.tasks@[i as int]);
            }
            if self.tasks[i].status == TaskStatus::Running {
                count += 1;
            }
            i += 1;
        }
        assert(self.tasks@.take(self.tasks.len() as int) =~= self.tasks@);
        count
    }
}

/// In a well-formed state no two tasks share an id.
pub proof fn lemma_ids_unique(state: State, i: int, j: int)
    requires
        state.wf(),
        0 <= i < state.tasks@.len(),
        0 <= j < state.tasks@.len(),
        i != j,
    ensures
        state.tasks@[i].id != state.tasks@[j].id,
{
    if i < j {
        assert(state.tasks@[i].id < state.tasks@[j].id);
    } else {
        assert(state.tasks@[j].id < state.tasks@[i].id);
    }
}

/// An id is never given out twice: every id in a well-formed state lies below
/// the id that any later state gives out next, whatever was removed between.
pub proof fn lemma_ids_are_not_reused(earlier: State, later: State, i: int)
    requires
        earlier.wf(),
        earlier.next_id <= later.next_id,
        0 <= i < earlier.tasks@.len(),
    ensures
        earlier.tasks@[i].id < later.next_id,
{
}

/// In a well-formed state every finished task carries its exit code, its
/// end, both captured outputs and its start.
pub proof fn lemma_finished_tasks_are_complete(state: State, i: int)
    requires
        state.wf(),
        0 <= i < state.tasks@.len(),
        is_terminal(state.tasks@[i].status),
    ensures
        state.tasks@[i].exit_code.is_some(),
        state.tasks@[i].end.is_some(),
        state.tasks@[i].stdout.is_some(),
        state.tasks@[i].stderr.is_some(),
        state.tasks@[i].start.is_some(),
{
    assert(state.tasks@[i].wf());
}

/// Where one task of a well-formed state is replaced by a task of the same
/// id, the state holds the same ids as before, and under each id the same
/// task, but for the one replaced.
pub proof fn lemma_task_after_update(before: State, after: State, id: i32, changed: Task, x: i32)
    requires
        before.wf(),
        after.wf(),
        before.has_task(id),
        changed.id == id,
        after.tasks@ == before.tasks@.update(before.position(id), changed),
    ensures
        after.has_task(x) == before.has_task(x),
        after.has_task(x) ==> after.task(x) == if x == id {
            changed
        } else {
            before.task(x)
        },
{
    let p = before.position(id);
    before.lemma_position(p);
    if before.has_task(x) {
        let q = before.position(x);
        before.lemma_position(q);
        assert(after.tasks@[q].id == x);
        after.lemma_position(q);
    }
    if after.has_task(x) {
        let q = after.position(x);
        after.lemma_position(q);
        assert(before.tasks@[q].id == x);
        before.lemma_position(q);
    }
}

/// Preparing a state for a new run changes nothing in a state without a
/// running or paused task, and so nothing when done a second time.
pub proof fn lemma_reset_settles(task: Task)
    ensures
        !is_live(reset(task).status),
        reset(reset(task)) == reset(task),
        !is_live(task.status) ==> reset(task) == task,
{
}

} // verus!

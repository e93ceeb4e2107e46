//! The decisions of the task handler: which task to start next, what becomes
//! of the state when a process starts or exits, and how an action message is
//! applied to the processes it names.
//!
//! The handler owns the table of child processes. Starting a process, waiting
//! for its exit and reading its output are the caller's part; the handler is
//! told of each as it happens.

use crate::process::{
    added_carry, extends, kill_child, send_signal_to_child, signal_for, Delivery, ProcessAction,
    SignalFailure,
};
use crate::state::{count_running, finished, lemma_task_after_update, started, State, StateError};
use crate::task::{is_live, Task, TaskStatus};
use vstd::prelude::*;

verus! {

/// A request to the handler.
#[derive(Clone, Copy, Debug, PartialEq, Eq, Structural)]
pub enum Action {
    Pause { id: i32, descendants: bool },
    Resume { id: i32, descendants: bool },
    Kill { id: i32, descendants: bool },
    PauseAll { descendants: bool },
    ResumeAll { descendants: bool },
    KillAll { descendants: bool },
    DaemonShutdown,
}

/// The process of a task that runs or is paused.
#[derive(Clone, Copy, Debug, PartialEq, Eq, Structural)]
pub struct ChildHandle {
    pub task_id: i32,
    pub pid: i32,
}

/// The owner of the child processes.
#[derive(Debug)]
pub struct TaskHandler {
    pub children: Vec<ChildHandle>,
    pub parallel_tasks: usize,
    pub shutting_down: bool,
}

/// The exit code recorded for a task whose process could not be started.
pub const SPAWN_FAILURE_EXIT_CODE: i32 = 1;

/// What an action does to the processes of a task.
pub open spec fn process_action(action: Action) -> ProcessAction {
    match action {
        Action::Pause { .. } | Action::PauseAll { .. } => ProcessAction::Pause,
        Action::Resume { .. } | Action::ResumeAll { .. } => ProcessAction::Resume,
        Action::Kill { .. } | Action::KillAll { .. } | Action::DaemonShutdown => ProcessAction::Kill,
    }
}

/// The task after an action has been carried out on its process: pausing
/// takes a running task to `Paused`, resuming a paused one to `Running`.
/// Killing leaves the status alone: the exit of the process is noticed later.
pub open spec fn moved(task: Task, action: ProcessAction) -> Task {
    match action {
        ProcessAction::Pause => if task.status == TaskStatus::Running {
            Task { status: TaskStatus::Paused, ..task }
        } else {
            task
        },
        ProcessAction::Resume => if task.status == TaskStatus::Paused {
            Task { status: TaskStatus::Running, ..task }
        } else {
            task
        },
        ProcessAction::Kill => task,
    }
}

/// The action is meant for every process that the handler owns.
pub open spec fn on_all(action: Action) -> bool {
    match action {
        Action::PauseAll { .. } | Action::ResumeAll { .. } | Action::KillAll { .. } => true,
        Action::DaemonShutdown => true,
        _ => false,
    }
}

/// Each task is as it was, or as the action leaves it.
pub open spec fn tasks_moved(before: Seq<Task>, after: Seq<Task>, action: ProcessAction) -> bool {
    &&& after.len() == before.len()
    &&& forall|i: int|
        0 <= i < before.len() ==> #[trigger] after[i] == before[i] || after[i] == moved(
            before[i],
            action,
        )
}

/// One of the deliveries of `log` from position `from` on was refused by the
/// system.
pub open spec fn refused(log: Seq<Delivery>, from: int) -> bool {
    exists|k: int| from <= k < log.len() && (#[trigger] log[k]).outcome is Failed
}

/// One of the first `count` children belongs to the task `id`.
pub open spec fn among_first(children: Seq<ChildHandle>, count: int, id: i32) -> bool {
    exists|j: int| 0 <= j < count && (#[trigger] children[j]).task_id == id
}

impl TaskHandler {
    /// The handler owns a process for the task `id`.
    pub open spec fn owns(&self, id: i32) -> bool {
        exists|k: int| 0 <= k < self.children@.len() && (#[trigger] self.children@[k]).task_id == id
    }

    /// The child table and the state agree: the handler owns one process,
    /// with a positive id, for each task that runs or is paused, and none
    /// for any other task.
    pub open spec fn coupled(&self, state: &State) -> bool {
        &&& state.wf()
        &&& forall|k: int|
            0 <= k < self.children@.len() ==> {
                &&& (#[trigger] self.children@[k]).pid > 0
                &&& state.has_task(self.children@[k].task_id)
                &&& is_live(state.task(self.children@[k].task_id).status)
            }
        &&& forall|i: int|
            0 <= i < state.tasks@.len() && is_live((#[trigger] state.tasks@[i]).status)
                ==> self.owns(state.tasks@[i].id)
        &&& forall|k: int, l: int|
            0 <= k < l < self.children@.len() ==> (#[trigger] self.children@[k]).task_id != (
            #[trigger] self.children@[l]).task_id
    }

    /// Whether the handler may start another task now.
    pub open spec fn may_schedule(&self, state: &State) -> bool {
        &&& !state.paused
        &&& !self.shutting_down
        &&& count_running(state.tasks@) < self.parallel_tasks
    }

    /// A handler without children that runs up to `parallel_tasks` tasks at
    /// a time.
    pub fn new(parallel_tasks: usize) -> (handler: TaskHandler)
        ensures
            handler.children@.len() == 0,
            handler.parallel_tasks == parallel_tasks,
            !handler.shutting_down,
    {
        TaskHandler { children: Vec::new(), parallel_tasks, shutting_down: false }
    }

    /// A handler without children agrees with every well-formed state in
    /// which no task runs or is paused, such as one prepared for a new run.
    pub proof fn lemma_fresh_is_coupled(&self, state: &State)
        requires
            state.wf(),
            self.children@.len() == 0,
            forall|i: int|
                0 <= i < state.tasks@.len() ==> !is_live((#[trigger] state.tasks@[i]).status),
        ensures
            self.coupled(state),
    {
    }

    /// Every task that runs or is paused has a process in the table of a
    /// handler that agrees with the state.
    pub proof fn lemma_live_tasks_are_owned(&self, state: &State, i: int)
        requires
            self.coupled(state),
            0 <= i < state.tasks@.len(),
            is_live(state.tasks@[i].status),
        ensures
            self.owns(state.tasks@[i].id),
    {
    }

    /// The child table still agrees with a state to which a task was added
    /// that neither runs nor is paused.
    pub proof fn lemma_coupled_after_add(&self, before: State, after: State)
        requires
            self.coupled(&before),
            after.wf(),
            after.tasks@.len() == before.tasks@.len() + 1,
            after.tasks@.drop_last() == before.tasks@,
            !is_live(after.tasks@.last().status),
        ensures
            self.coupled(&after),
    {
        assert forall|i: int| 0 <= i < before.tasks@.len() implies #[trigger] after.tasks@[i]
            == before.tasks@[i] by {
            assert(after.tasks@.drop_last()[i] == after.tasks@[i]);
        }
        assert forall|k: int| 0 <= k < self.children@.len() implies {
            &&& (#[trigger] self.children@[k]).pid > 0
            &&& after.has_task(self.children@[k].task_id)
            &&& is_live(after.task(self.children@[k].task_id).status)
        } by {
            let x = self.children@[k].task_id;
            let q = before.position(x);
            before.lemma_position(q);
            assert(after.tasks@[q].id == x);
            after.lemma_position(q);
        }
        assert forall|i: int|
            0 <= i < after.tasks@.len() && is_live((#[trigger] after.tasks@[i]).status)
                implies self.owns(after.tasks@[i].id) by {
            assert(i < before.tasks@.len());
            assert(is_live(before.tasks@[i].status));
        }
    }

    /// The child table still agrees with a state from which a task was taken
    /// that neither ran nor was paused.
    pub proof fn lemma_coupled_after_remove(&self, before: State, after: State, id: i32)
        requires
            self.coupled(&before),
            after.wf(),
            before.has_task(id),
            !is_live(before.task(id).status),
            after.tasks@ == before.tasks@.remove(before.position(id)),
        ensures
            self.coupled(&after),
    {
        let p = before.position(id);
        before.lemma_position(p);
        assert forall|k: int| 0 <= k < self.children@.len() implies {
            &&& (#[trigger] self.children@[k]).pid > 0
            &&& after.has_task(self.children@[k].task_id)
            &&& is_live(after.task(self.children@[k].task_id).status)
        } by {
            let x = self.children@[k].task_id;
            let q = before.position(x);
            before.lemma_position(q);
            assert(q != p);
            let q1 = if q < p { q } else { q - 1 };
            assert(after.tasks@[q1] == before.tasks@[q]);
            after.lemma_position(q1);
        }
        assert forall|i: int|
            0 <= i < after.tasks@.len() && is_live((#[trigger] after.tasks@[i]).status)
                implies self.owns(after.tasks@[i].id) by {
            let i0 = if i < p { i } else { i + 1 };
            assert(after.tasks@[i] == before.tasks@[i0]);
            assert(is_live(before.tasks@[i0].status));
        }
    }

    /// The place of the child of task `id` in the table, if there is one.
    fn child_index(&self, id: i32) -> (place: Option<usize>)
        ensures
            match place {
                Some(k) => k < self.children@.len() && self.children@[k as int].task_id == id,
                None => !self.owns(id),
            },
    {
        let mut k: usize = 0;
        while k < self.children.len()
            invariant
                k <= self.children.len(),
                forall|j: int| 0 <= j < k ==> (#[trigger] self.children@[j]).task_id != id,
            decreases self.children.len() - k,
        {
            if self.children[k].task_id == id {
                return Some(k);
            }
            k += 1;
        }
        None
    }

    /// Whether the child table and the state agree. The state is shared with
    /// others, so the owner of the handler tests this before it acts.
    pub fn is_coupled(&self, state: &State) -> (coupled: bool)
        ensures
            coupled == self.coupled(state),
    {
        if !state.is_well_formed() {
            return false;
        }
        let mut k: usize = 0;
        while k < self.children.len()
            invariant
                k <= self.children.len(),
                state.wf(),
                forall|j: int|
                    0 <= j < k ==> {
                        &&& (#[trigger] self.children@[j]).pid > 0
                        &&& state.has_task(self.children@[j].task_id)
                        &&& is_live(state.task(self.children@[j].task_id).status)
                    },
                forall|a: int, b: int|
                    0 <= a < b < k ==> (#[trigger] self.children@[a]).task_id != (
                    #[trigger] self.children@[b]).task_id,
            decreases self.children.len() - k,
        {
            let child = self.children[k];
            if child.pid <= 0 {
                assert(!(self.children@[k as int].pid > 0));
                return false;
            }
            let live = match state.get(child.task_id) {
                Some(task) => task.is_running(),
                None => false,
            };
            if !live {
                assert(!(state.has_task(self.children@[k as int].task_id) && is_live(
                    state.task(self.children@[k as int].task_id).status,
                )));
                return false;
            }
            let mut j: usize = 0;
            while j < k
                invariant
                    j <= k,
                    k < self.children.len(),
                    child == self.children@[k as int],
                    forall|a: int|
                        0 <= a < j ==> (#[trigger] self.children@[a]).task_id != child.task_id,
                decreases k - j,
            {
                if self.children[j].task_id == child.task_id {
                    assert(self.children@[j as int].task_id == self.children@[k as int].task_id);
                    return false;
                }
                j += 1;
            }
            k += 1;
        }
        let mut i: usize = 0;
        while i < state.tasks.len()
            invariant
                i <= state.tasks.len(),
                forall|j: int|
                    0 <= j < i && is_live((#[trigger] state.tasks@[j]).status) ==> self.owns(
                        state.tasks@[j].id,
                    ),
            decreases state.tasks.len() - i,
        {
            if state.tasks[i].is_running() {
                if self.child_index(state.tasks[i].id).is_none() {
                    assert(is_live(state.tasks@[i as int].status) && !self.owns(
                        state.tasks@[i as int].id,
                    ));
                    return false;
                }
            }
            i += 1;
        }
        true
    }

    /// The process id of the child of task `id`, if the handler owns one.
    pub fn child_pid(&self, id: i32) -> (pid: Option<i32>)
        ensures
            pid.is_some() == self.owns(id),
            match pid {
                Some(p) => exists|k: int|
                    0 <= k < self.children@.len() && #[trigger] self.children@[k] == (ChildHandle {
                        task_id: id,
                        pid: p,
                    }),
                None => true,
            },
    {
        match self.child_index(id) {
            Some(k) => Some(self.children[k].pid),
            None => None,
        }
    }

    /// The task to start now, if any: the queued task with the lowest id,
    /// unless the queue is paused, the daemon shuts down, or as many tasks
    /// run as may run at a time.
    pub fn next_task(&self, state: &State) -> (next: Option<i32>)
        requires
            state.wf(),
        ensures
            match next {
                Some(id) => {
                    &&& self.may_schedule(state)
                    &&& state.has_task(id)
                    &&& state.task(id).status == TaskStatus::Queued
                    &&& forall|i: int|
                        0 <= i < state.tasks@.len() && (#[trigger] state.tasks@[i]).status
                            == TaskStatus::Queued ==> id <= state.tasks@[i].id
                },
                None => !self.may_schedule(state) || forall|i: int|
                    0 <= i < state.tasks@.len() ==> (#[trigger] state.tasks@[i]).status
                        != TaskStatus::Queued,
            },
    {
        if state.is_paused() || self.shutting_down {
            return None;
        }
        if state.running_count() >= self.parallel_tasks {
            return None;
        }
        state.next_queued()
    }

    /// Records that the process `pid` was started for the queued task `id`
    /// at time `start`: the task runs, and the handler owns the process.
    /// Refused, with nothing changed, where the task is not queued.
    pub fn child_spawned(&mut self, state: &mut State, id: i32, pid: i32, start: i64) -> (result:
        Result<(), StateError>)
        requires
            old(self).coupled(old(state)),
            pid > 0,
        ensures
            final(self).coupled(final(state)),
            final(self).parallel_tasks == old(self).parallel_tasks,
            final(self).shutting_down == old(self).shutting_down,
            match result {
                Ok(()) => {
                    &&& old(state).has_task(id)
                    &&& old(state).task(id).status == TaskStatus::Queued
                    &&& final(state).tasks@ == old(state).tasks@.update(
                        old(state).position(id),
                        started(old(state).task(id), start),
                    )
                    &&& final(self).children@ == old(self).children@.push(
                        (ChildHandle { task_id: id, pid }),
                    )
                    &&& final(self).owns(id)
                },
                Err(error) => {
                    &&& *final(state) == *old(state)
                    &&& *final(self) == *old(self)
                    &&& error == if old(state).has_task(id) {
                        StateError::InvalidState
                    } else {
                        StateError::NotFound
                    }
                    &&& !(old(state).has_task(id) && old(state).task(id).status
                        == TaskStatus::Queued)
                },
            },
    {
        match state.start_task(id, start) {
            Ok(()) => {},
            Err(error) => {
                return Err(error);
            },
        }
        self.children.push(ChildHandle { task_id: id, pid });
        proof {
            let changed = started(old(state).task(id), start);
            let p = old(state).position(id);
            old(state).lemma_position(p);
            let last = old(self).children@.len() as int;
            assert(final(self).children@[last].task_id == id);
            assert forall|k: int| 0 <= k < final(self).children@.len() implies {
                &&& (#[trigger] final(self).children@[k]).pid > 0
                &&& final(state).has_task(final(self).children@[k].task_id)
                &&& is_live(final(state).task(final(self).children@[k].task_id).status)
            } by {
                let x = final(self).children@[k].task_id;
                lemma_task_after_update(*old(state), *final(state), id, changed, x);
                if k < last {
                    assert(old(self).children@[k].pid > 0);
                }
            }
            assert forall|i: int|
                0 <= i < final(state).tasks@.len() && is_live(
                    (#[trigger] final(state).tasks@[i]).status,
                ) implies final(self).owns(final(state).tasks@[i].id) by {
                if i != p {
                    assert(is_live(old(state).tasks@[i].status));
                    let k = choose|k: int|
                        0 <= k < old(self).children@.len() && (#[trigger] old(
                            self,
                        ).children@[k]).task_id == old(state).tasks@[i].id;
                    assert(final(self).children@[k].task_id == final(state).tasks@[i].id);
                }
            }
            assert forall|k: int, l: int| 0 <= k < l < final(self).children@.len() implies (
            #[trigger] final(self).children@[k]).task_id != (
            #[trigger] final(self).children@[l]).task_id by {
                if l == last {
                    assert(is_live(old(state).task(old(self).children@[k].task_id).status));
                }
            }
        }
        Ok(())
    }

    /// Records that no process could be started for the queued task `id`:
    /// the task fails at once, with the reason as its error output, an empty
    /// output and `now` as its start and end. Refused, with nothing changed,
    /// where the task is not queued.
    pub fn spawn_failed(&self, state: &mut State, id: i32, now: i64, reason: String) -> (result:
        Result<(), StateError>)
        requires
            self.coupled(old(state)),
        ensures
            self.coupled(final(state)),
            match result {
                Ok(()) => {
                    &&& old(state).has_task(id)
                    &&& old(state).task(id).status == TaskStatus::Queued
                    &&& exists|output: String|
                        output@.len() == 0 && final(state).tasks@ == old(state).tasks@.update(
                            old(state).position(id),
                            #[trigger] finished(
                                started(old(state).task(id), now),
                                SPAWN_FAILURE_EXIT_CODE,
                                output,
                                reason,
                                now,
                            ),
                        )
                    &&& final(state).next_id == old(state).next_id
                    &&& final(state).paused == old(state).paused
                    &&& final(state).config_path == old(state).config_path
                },
                Err(error) => {
                    &&& *final(state) == *old(state)
                    &&& error == if old(state).has_task(id) {
                        StateError::InvalidState
                    } else {
                        StateError::NotFound
                    }
                    &&& !(old(state).has_task(id) && old(state).task(id).status
                        == TaskStatus::Queued)
                },
            },
    {
        match state.start_task(id, now) {
            Ok(()) => {},
            Err(error) => {
                return Err(error);
            },
        }
        let ghost mid = *state;
        let ghost p = old(state).position(id);
        let ghost running = started(old(state).task(id), now);
        proof {
            old(state).lemma_position(p);
            assert(mid.tasks@[p].id == id);
            mid.lemma_position(p);
        }
        let output = String::new();
        let result = state.set_result(id, SPAWN_FAILURE_EXIT_CODE, output, reason, now);
        proof {
            let failed = finished(running, SPAWN_FAILURE_EXIT_CODE, output, reason, now);
            assert(final(state).tasks@ =~= old(state).tasks@.update(p, failed));
            self.lemma_coupled_after_update(*old(state), *final(state), id, failed);
        }
        result
    }

    /// The child table still agrees with a state in which one task was
    /// replaced by a task of the same id that owns a process if and only if
    /// the earlier one did.
    pub proof fn lemma_coupled_after_update(
        &self,
        before: State,
        after: State,
        id: i32,
        changed: Task,
    )
        requires
            self.coupled(&before),
            after.wf(),
            before.has_task(id),
            changed.id == id,
            after.tasks@ == before.tasks@.update(before.position(id), changed),
            is_live(changed.status) == is_live(before.task(id).status),
        ensures
            self.coupled(&after),
    {
        let p = before.position(id);
        before.lemma_position(p);
        assert forall|k: int| 0 <= k < self.children@.len() implies {
            &&& (#[trigger] self.children@[k]).pid > 0
            &&& after.has_task(self.children@[k].task_id)
            &&& is_live(after.task(self.children@[k].task_id).status)
        } by {
            lemma_task_after_update(before, after, id, changed, self.children@[k].task_id);
        }
        assert forall|i: int|
            0 <= i < after.tasks@.len() && is_live((#[trigger] after.tasks@[i]).status)
                implies self.owns(after.tasks@[i].id) by {
            assert(is_live(before.tasks@[i].status));
            assert(after.tasks@[i].id == before.tasks@[i].id);
        }
    }

    /// Records that the process of task `id` has exited, with its exit code
    /// and what it wrote: the task is finished and the handler gives up the
    /// process. Refused as not found, with nothing changed, where the handler
    /// owns no process for the task.
    pub fn child_exited(
        &mut self,
        state: &mut State,
        id: i32,
        exit_code: i32,
        stdout: String,
        stderr: String,
        end: i64,
    ) -> (result: Result<(), StateError>)
        requires
            old(self).coupled(old(state)),
        ensures
            final(self).coupled(final(state)),
            final(self).parallel_tasks == old(self).parallel_tasks,
            final(self).shutting_down == old(self).shutting_down,
            match result {
                Ok(()) => {
                    &&& old(self).owns(id)
                    &&& old(state).has_task(id)
                    &&& final(state).tasks@ == old(state).tasks@.update(
                        old(state).position(id),
                        finished(old(state).task(id), exit_code, stdout, stderr, end),
                    )
                    &&& final(state).next_id == old(state).next_id
                    &&& final(state).paused == old(state).paused
                    &&& final(state).config_path == old(state).config_path
                    &&& !final(self).owns(id)
                    &&& final(self).children@.len() + 1 == old(self).children@.len()
                },
                Err(error) => {
                    &&& !old(self).owns(id)
                    &&& error == StateError::NotFound
                    &&& *final(state) == *old(state)
                    &&& *final(self) == *old(self)
                },
            },
    {
        let k = match self.child_index(id) {
            Some(k) => k,
            None => {
                return Err(StateError::NotFound);
            },
        };
        assert(old(state).has_task(self.children@[k as int].task_id));
        assert(is_live(old(state).task(self.children@[k as int].task_id).status));
        match state.set_result(id, exit_code, stdout, stderr, end) {
            Ok(()) => {},
            Err(error) => {
                return Err(error);
            },
        }
        let _ = self.children.remove(k);
        proof {
            let before = old(self).children@;
            let after = final(self).children@;
            let changed = finished(old(state).task(id), exit_code, stdout, stderr, end);
            let p = old(state).position(id);
            old(state).lemma_position(p);
            assert forall|a: int| 0 <= a < after.len() implies {
                &&& (#[trigger] after[a]).task_id != id
                &&& after[a].pid > 0
                &&& final(state).has_task(after[a].task_id)
                &&& is_live(final(state).task(after[a].task_id).status)
            } by {
                let a0 = if a < k { a } else { a + 1 };
                assert(after[a] == before[a0]);
                assert(before[a0].pid > 0);
                if a0 < k {
                    assert(before[a0].task_id != before[k as int].task_id);
                } else {
                    assert(before[k as int].task_id != before[a0].task_id);
                }
                lemma_task_after_update(*old(state), *final(state), id, changed, after[a].task_id);
            }
            assert forall|i: int|
                0 <= i < final(state).tasks@.len() && is_live(
                    (#[trigger] final(state).tasks@[i]).status,
                ) implies final(self).owns(final(state).tasks@[i].id) by {
                assert(i != p);
                assert(is_live(old(state).tasks@[i].status));
                let x = old(state).tasks@[i].id;
                old(state).lemma_position(i);
                assert(x != id);
                let k0 = choose|k0: int|
                    0 <= k0 < before.len() && (#[trigger] before[k0]).task_id == x;
                assert(k0 != k);
                let a = if k0 < k { k0 } else { k0 - 1 };
                assert(after[a].task_id == x);
            }
            assert forall|a: int, b: int| 0 <= a < b < after.len() implies (
            #[trigger] after[a]).task_id != (#[trigger] after[b]).task_id by {
                let a0 = if a < k { a } else { a + 1 };
                let b0 = if b < k { b } else { b + 1 };
                assert(before[a0].task_id != before[b0].task_id);
            }
        }
        Ok(())
    }

    /// Carries out `action` on the process of task `id`.
    ///
    /// Where the handler owns no process for the task, nothing happens. A
    /// kill is sent and leaves the state alone. A pause of a running task, or
    /// a resume of a paused one, is sent, and the task changes its status
    /// unless the system refused the signal; on a task in any other status it
    /// does nothing.
    pub fn apply_to_task(
        &self,
        state: &mut State,
        id: i32,
        action: ProcessAction,
        descendants: bool,
        log: &mut Vec<Delivery>,
    )
        requires
            self.coupled(old(state)),
        ensures
            self.coupled(final(state)),
            tasks_moved(old(state).tasks@, final(state).tasks@, action),
            forall|i: int|
                0 <= i < old(state).tasks@.len() && old(state).tasks@[i].id != id
                    ==> #[trigger] final(state).tasks@[i] == old(state).tasks@[i],
            final(state).next_id == old(state).next_id,
            final(state).paused == old(state).paused,
            final(state).config_path == old(state).config_path,
            extends(old(log)@, final(log)@),
            added_carry(final(log)@, old(log)@.len() as int, signal_for(action)),
            !self.owns(id) ==> *final(state) == *old(state) && final(log)@ == old(log)@,
            action == ProcessAction::Kill ==> *final(state) == *old(state),
            self.owns(id) && action != ProcessAction::Kill ==> {
                if moved(old(state).task(id), action) == old(state).task(id) {
                    *final(state) == *old(state) && final(log)@ == old(log)@
                } else {
                    ||| final(state).tasks@ == old(state).tasks@.update(
                        old(state).position(id),
                        moved(old(state).task(id), action),
                    )
                    ||| {
                        &&& *final(state) == *old(state)
                        &&& final(log)@.len() > old(log)@.len()
                        &&& final(log)@.last().outcome is Failed
                    }
                }
            },
    {
        let pid = match self.child_pid(id) {
            Some(pid) => pid,
            None => {
                return ;
            },
        };
        assert(pid > 0);
        let from = match action {
            ProcessAction::Kill => {
                let _ = kill_child(pid, descendants, log);
                return ;
            },
            ProcessAction::Pause => TaskStatus::Running,
            ProcessAction::Resume => TaskStatus::Paused,
        };
        let status = match state.get(id) {
            Some(task) => task.status,
            None => {
                return ;
            },
        };
        if status != from {
            return ;
        }
        let dispatched = send_signal_to_child(pid, &action, descendants, log);
        self.settle(state, id, action, &dispatched);
        proof {
            old(state).lemma_position(old(state).position(id));
        }
    }

    /// Decides what becomes of task `id` once the signal of `action` has been
    /// dispatched to its process, with `dispatched` as what the dispatch
    /// returned.
    ///
    /// Unless the system refused the signal, a running task is paused by a
    /// pause and a paused task runs after a resume; that the process had
    /// gone away is no refusal. A refusal leaves the state as it is, and so
    /// do a kill and an action on a task in any other status.
    pub fn settle(
        &self,
        state: &mut State,
        id: i32,
        action: ProcessAction,
        dispatched: &Result<bool, SignalFailure>,
    )
        requires
            self.coupled(old(state)),
        ensures
            self.coupled(final(state)),
            if dispatched is Ok && old(state).has_task(id) && moved(old(state).task(id), action)
                != old(state).task(id) {
                &&& final(state).tasks@ == old(state).tasks@.update(
                    old(state).position(id),
                    moved(old(state).task(id), action),
                )
                &&& final(state).next_id == old(state).next_id
                &&& final(state).paused == old(state).paused
                &&& final(state).config_path == old(state).config_path
            } else {
                *final(state) == *old(state)
            },
    {
        if !dispatched.is_ok() {
            return ;
        }
        let to = match action {
            ProcessAction::Kill => {
                return ;
            },
            ProcessAction::Pause => TaskStatus::Paused,
            ProcessAction::Resume => TaskStatus::Running,
        };
        let result = state.update_status(id, to);
        proof {
            if result is Ok {
                let changed = Task { status: to, ..old(state).task(id) };
                assert(changed == moved(old(state).task(id), action));
                self.lemma_coupled_after_update(*old(state), *final(state), id, changed);
            }
        }
    }

    /// One round of carrying out an action on every process: where the
    /// tasks of the first `k` children were as the action leaves them, or a
    /// refusal was logged, and the action is then carried out on the next
    /// child, the same holds of the tasks of the first `k + 1` children.
    proof fn lemma_next_child_done(
        &self,
        first: State,
        mid: State,
        after: State,
        k: int,
        action: ProcessAction,
        start: int,
        mid_log: Seq<Delivery>,
        log: Seq<Delivery>,
    )
        requires
            0 <= k < self.children@.len(),
            mid.wf(),
            tasks_moved(first.tasks@, mid.tasks@, action),
            forall|i: int|
                0 <= i < first.tasks@.len() && among_first(self.children@, k, first.tasks@[i].id)
                    ==> #[trigger] mid.tasks@[i] == moved(first.tasks@[i], action) || refused(
                    mid_log,
                    start,
                ),
            0 <= start <= mid_log.len(),
            extends(mid_log, log),
            after.tasks@.len() == mid.tasks@.len(),
            forall|i: int|
                0 <= i < mid.tasks@.len() && mid.tasks@[i].id != self.children@[k].task_id
                    ==> #[trigger] after.tasks@[i] == mid.tasks@[i],
            action == ProcessAction::Kill ==> after.tasks@ == mid.tasks@,
            mid.has_task(self.children@[k].task_id) && action != ProcessAction::Kill ==> {
                let id = self.children@[k].task_id;
                if moved(mid.task(id), action) == mid.task(id) {
                    after.tasks@ == mid.tasks@
                } else {
                    ||| after.tasks@ == mid.tasks@.update(
                        mid.position(id),
                        moved(mid.task(id), action),
                    )
                    ||| after.tasks@ == mid.tasks@ && log.len() > mid_log.len()
                        && log.last().outcome is Failed
                }
            },
        ensures
            forall|i: int|
                0 <= i < first.tasks@.len() && among_first(
                    self.children@,
                    k + 1,
                    first.tasks@[i].id,
                ) ==> #[trigger] after.tasks@[i] == moved(first.tasks@[i], action) || refused(
                    log,
                    start,
                ),
    {
        let id = self.children@[k].task_id;
        if refused(mid_log, start) {
            let r = choose|r: int|
                start <= r < mid_log.len() && (#[trigger] mid_log[r]).outcome is Failed;
            assert(log[r] == mid_log[r]);
            assert(refused(log, start));
        }
        assert forall|i: int|
            0 <= i < first.tasks@.len() && among_first(
                self.children@,
                k + 1,
                first.tasks@[i].id,
            ) implies #[trigger] after.tasks@[i] == moved(first.tasks@[i], action) || refused(
            log,
            start,
        ) by {
            let before = first.tasks@[i];
            let between = mid.tasks@[i];
            assert(between == before || between == moved(before, action));
            assert(between.id == before.id);
            if before.id != id {
                let j = choose|j: int|
                    0 <= j < k + 1 && (#[trigger] self.children@[j]).task_id == before.id;
                assert(j < k);
                assert(among_first(self.children@, k, before.id));
                assert(after.tasks@[i] == between);
            } else {
                mid.lemma_position(i);
                if action != ProcessAction::Kill && moved(between, action) != between {
                    if after.tasks@ == mid.tasks@.update(i, moved(between, action)) {
                        assert(after.tasks@[i] == moved(between, action));
                    } else {
                        let last = log.len() - 1;
                        assert(log[last].outcome is Failed);
                        assert(refused(log, start));
                    }
                } else {
                    assert(after.tasks@[i] == between);
                }
            }
        }
    }

    /// Carries out `action` on the process of every task that has one, in the
    /// order of the child table.
    ///
    /// Afterwards every task is as the action leaves it: each running task is
    /// paused by a pause, each paused task runs after a resume, and a kill
    /// changes no task. A task may stay as it was only where the system
    /// refused a signal, and then the log holds the refusal.
    pub fn apply_to_all(
        &self,
        state: &mut State,
        action: ProcessAction,
        descendants: bool,
        log: &mut Vec<Delivery>,
    )
        requires
            self.coupled(old(state)),
        ensures
            self.coupled(final(state)),
            tasks_moved(old(state).tasks@, final(state).tasks@, action),
            forall|i: int|
                0 <= i < old(state).tasks@.len() ==> #[trigger] final(state).tasks@[i] == moved(
                    old(state).tasks@[i],
                    action,
                ) || refused(final(log)@, old(log)@.len() as int),
            final(state).next_id == old(state).next_id,
            final(state).paused == old(state).paused,
            final(state).config_path == old(state).config_path,
            extends(old(log)@, final(log)@),
            added_carry(final(log)@, old(log)@.len() as int, signal_for(action)),
            action == ProcessAction::Kill ==> *final(state) == *old(state),
    {
        let ghost start = log@.len() as int;
        let mut k: usize = 0;
        while k < self.children.len()
            invariant
                k <= self.children.len(),
                start == old(log)@.len(),
                self.coupled(old(state)),
                self.coupled(state),
                tasks_moved(old(state).tasks@, state.tasks@, action),
                forall|i: int|
                    0 <= i < old(state).tasks@.len() && among_first(
                        self.children@,
                        k as int,
                        old(state).tasks@[i].id,
                    ) ==> #[trigger] state.tasks@[i] == moved(old(state).tasks@[i], action)
                        || refused(log@, start),
                state.next_id == old(state).next_id,
                state.paused == old(state).paused,
                state.config_path == old(state).config_path,
                extends(old(log)@, log@),
                added_carry(log@, start, signal_for(action)),
                action == ProcessAction::Kill ==> *state == *old(state),
            decreases self.children.len() - k,
        {
            let id = self.children[k].task_id;
            let ghost mid = *state;
            let ghost mid_log = log@;
            self.apply_to_task(state, id, action, descendants, log);
            proof {
                assert forall|i: int| 0 <= i < old(state).tasks@.len() implies #[trigger] state.tasks@[i]
                    == old(state).tasks@[i] || state.tasks@[i] == moved(
                    old(state).tasks@[i],
                    action,
                ) by {
                    assert(mid.tasks@[i] == old(state).tasks@[i] || mid.tasks@[i] == moved(
                        old(state).tasks@[i],
                        action,
                    ));
                }
                assert forall|i: int| old(log)@.len() <= i < log@.len() implies (
                #[trigger] log@[i]).signal == signal_for(action) && log@[i].pid > 0 by {
                    if i < mid_log.len() {
                        assert(log@[i] == mid_log[i]);
                    }
                }
                assert forall|i: int| 0 <= i < old(log)@.len() implies #[trigger] log@[i] == old(
                    log,
                )@[i] by {
                    assert(log@[i] == mid_log[i]);
                }
                assert(self.children@[k as int].task_id == id);
                assert(self.owns(id));
                self.lemma_next_child_done(
                    *old(state),
                    mid,
                    *state,
                    k as int,
                    action,
                    start,
                    mid_log,
                    log@,
                );
            }
            k += 1;
        }
        proof {
            assert forall|i: int| 0 <= i < old(state).tasks@.len() implies #[trigger] state.tasks@[i]
                == moved(old(state).tasks@[i], action) || refused(log@, start) by {
                let before = old(state).tasks@[i];
                if is_live(before.status) {
                    assert(self.owns(before.id));
                    let j = choose|j: int|
                        0 <= j < self.children@.len() && (#[trigger] self.children@[j]).task_id
                            == before.id;
                    assert(among_first(self.children@, k as int, before.id));
                }
            }
        }
    }

    /// Applies an action message.
    ///
    /// An action on one task is carried out on its process; an action on all
    /// is carried out on every process that the handler owns. Pausing all
    /// also pauses the queue, and resuming all lets it go on. A shutdown
    /// kills every process, with its descendants, and stops the scheduling of
    /// tasks for good. No action takes a process from the handler. After an
    /// action on all, a task is not as the action leaves it only where the
    /// log holds a refusal.
    pub fn apply(&mut self, state: &mut State, action: &Action, log: &mut Vec<Delivery>)
        requires
            old(self).coupled(old(state)),
        ensures
            final(self).coupled(final(state)),
            final(self).children == old(self).children,
            final(self).parallel_tasks == old(self).parallel_tasks,
            final(self).shutting_down == (old(self).shutting_down || *action
                == Action::DaemonShutdown),
            final(state).paused == match *action {
                Action::PauseAll { .. } => true,
                Action::ResumeAll { .. } => false,
                _ => old(state).paused,
            },
            tasks_moved(old(state).tasks@, final(state).tasks@, process_action(*action)),
            on_all(*action) ==> forall|i: int|
                0 <= i < old(state).tasks@.len() ==> #[trigger] final(state).tasks@[i] == moved(
                    old(state).tasks@[i],
                    process_action(*action),
                ) || refused(final(log)@, old(log)@.len() as int),
            final(state).next_id == old(state).next_id,
            final(state).config_path == old(state).config_path,
            extends(old(log)@, final(log)@),
            added_carry(final(log)@, old(log)@.len() as int, signal_for(process_action(*action))),
    {
        match *action {
            Action::Pause { id, descendants } => {
                self.apply_to_task(state, id, ProcessAction::Pause, descendants, log);
            },
            Action::Resume { id, descendants } => {
                self.apply_to_task(state, id, ProcessAction::Resume, descendants, log);
            },
            Action::Kill { id, descendants } => {
                self.apply_to_task(state, id, ProcessAction::Kill, descendants, log);
            },
            Action::PauseAll { descendants } => {
                self.apply_to_all(state, ProcessAction::Pause, descendants, log);
                state.set_paused(true);
            },
            Action::ResumeAll { descendants } => {
                self.apply_to_all(state, ProcessAction::Resume, descendants, log);
                state.set_paused(false);
            },
            Action::KillAll { descendants } => {
                self.apply_to_all(state, ProcessAction::Kill, descendants, log);
            },
            Action::DaemonShutdown => {
                self.shutting_down = true;
                self.apply_to_all(state, ProcessAction::Kill, true, log);
            },
        }
    }

    /// Whether the handler has shut down for good: a shutdown was asked for
    /// and the last process has been given up.
    pub fn is_finished(&self) -> (finished: bool)
        ensures
            finished == (self.shutting_down && self.children@.len() == 0),
    {
        self.shutting_down && self.children.len() == 0
    }
}

} // verus!

use pueue::handler::{Action, ChildHandle, TaskHandler, SPAWN_FAILURE_EXIT_CODE};
use pueue::process::{Delivery, ProcessAction, SignalFailure};
use pueue::state::{State, StateError};
use pueue::task::TaskStatus;

const ABSENT: i32 = i32::MAX;

fn queue(n: i32) -> State {
    let mut state = State::new(None);
    for i in 0..n {
        state.add_task(format!("cmd{}", i), vec![], "/tmp".to_string());
    }
    state
}

#[test]
fn next_task_respects_pause_shutdown_and_parallelism() {
    let mut state = queue(3);
    let mut handler = TaskHandler::new(1);
    assert_eq!(handler.next_task(&state), Some(0));
    state.set_paused(true);
    assert_eq!(handler.next_task(&state), None);
    state.set_paused(false);
    assert_eq!(handler.child_spawned(&mut state, 0, ABSENT, 5), Ok(()));
    assert_eq!(handler.next_task(&state), None);
    handler.parallel_tasks = 2;
    assert_eq!(handler.next_task(&state), Some(1));
    handler.shutting_down = true;
    assert_eq!(handler.next_task(&state), None);
    let idle = TaskHandler::new(0);
    assert_eq!(idle.next_task(&queue(1)), None);
}

#[test]
fn trivial_echo_ends_done() {
    let mut state = State::new(None);
    let mut handler = TaskHandler::new(1);
    let id = state.add_task("echo".to_string(), vec!["hello".to_string()], "/tmp".to_string());
    assert_eq!(handler.next_task(&state), Some(id));
    assert_eq!(state.get(id).unwrap().command_line(), "echo hello");
    assert_eq!(handler.child_spawned(&mut state, id, ABSENT, 1000), Ok(()));
    assert_eq!(state.get(id).unwrap().status, TaskStatus::Running);
    assert_eq!(handler.child_pid(id), Some(ABSENT));
    assert_eq!(handler.children, vec![ChildHandle { task_id: id, pid: ABSENT }]);
    assert_eq!(
        handler.child_exited(&mut state, id, 0, "hello\n".to_string(), String::new(), 1200),
        Ok(())
    );
    let task = state.get(id).unwrap();
    assert_eq!(task.status, TaskStatus::Done);
    assert_eq!(task.exit_code, Some(0));
    assert_eq!(task.stdout, Some("hello\n".to_string()));
    assert_eq!(task.stderr, Some(String::new()));
    assert_eq!(task.start, Some(1000));
    assert_eq!(task.end, Some(1200));
    assert_eq!(handler.child_pid(id), None);
    assert!(handler.children.is_empty());
}

#[test]
fn non_zero_exit_ends_failed() {
    let mut state = State::new(None);
    let mut handler = TaskHandler::new(1);
    let id = state.add_task("false".to_string(), vec![], "/".to_string());
    assert_eq!(handler.child_spawned(&mut state, id, ABSENT, 1), Ok(()));
    assert_eq!(handler.child_exited(&mut state, id, 1, String::new(), String::new(), 2), Ok(()));
    let task = state.get(id).unwrap();
    assert_eq!(task.status, TaskStatus::Failed);
    assert_ne!(task.exit_code, Some(0));
}

#[test]
fn child_spawned_needs_a_queued_task() {
    let mut state = queue(1);
    let mut handler = TaskHandler::new(2);
    assert_eq!(handler.child_spawned(&mut state, 3, ABSENT, 1), Err(StateError::NotFound));
    assert_eq!(handler.child_spawned(&mut state, 0, ABSENT, 1), Ok(()));
    assert_eq!(handler.child_spawned(&mut state, 0, ABSENT, 2), Err(StateError::InvalidState));
    assert_eq!(handler.children.len(), 1);
    assert_eq!(state.get(0).unwrap().start, Some(1));
}

#[test]
fn child_exited_needs_an_owned_process() {
    let mut state = queue(1);
    let mut handler = TaskHandler::new(1);
    assert_eq!(
        handler.child_exited(&mut state, 0, 0, String::new(), String::new(), 1),
        Err(StateError::NotFound)
    );
    assert_eq!(state.get(0).unwrap().status, TaskStatus::Queued);
}

#[test]
fn spawn_failure_marks_the_task_failed() {
    let mut state = queue(2);
    let handler = TaskHandler::new(1);
    assert_eq!(handler.spawn_failed(&mut state, 1, 50, "no such directory".to_string()), Ok(()));
    let task = state.get(1).unwrap();
    assert_eq!(task.status, TaskStatus::Failed);
    assert_eq!(task.exit_code, Some(SPAWN_FAILURE_EXIT_CODE));
    assert_eq!(SPAWN_FAILURE_EXIT_CODE, 1);
    assert_eq!(task.stdout, Some(String::new()));
    assert_eq!(task.stderr, Some("no such directory".to_string()));
    assert_eq!(task.start, Some(50));
    assert_eq!(task.end, Some(50));
    assert_eq!(
        handler.spawn_failed(&mut state, 1, 51, String::new()),
        Err(StateError::InvalidState)
    );
    assert_eq!(handler.spawn_failed(&mut state, 9, 51, String::new()), Err(StateError::NotFound));
    assert_eq!(state.get(0).unwrap().status, TaskStatus::Queued);
    assert!(state.is_well_formed());
}

#[test]
fn pause_all_and_resume_all_set_the_queue_flag() {
    let mut state = queue(2);
    let mut handler = TaskHandler::new(1);
    let mut log: Vec<Delivery> = Vec::new();
    handler.apply(&mut state, &Action::PauseAll { descendants: false }, &mut log);
    assert!(state.is_paused());
    assert_eq!(handler.next_task(&state), None);
    handler.apply(&mut state, &Action::KillAll { descendants: true }, &mut log);
    assert!(state.is_paused());
    handler.apply(&mut state, &Action::ResumeAll { descendants: false }, &mut log);
    assert!(!state.is_paused());
    assert_eq!(handler.next_task(&state), Some(0));
    assert!(log.is_empty());
    assert!(!handler.shutting_down);
}

#[test]
fn actions_on_tasks_without_process_do_nothing() {
    let mut state = queue(2);
    let mut handler = TaskHandler::new(1);
    let mut log: Vec<Delivery> = Vec::new();
    handler.apply(&mut state, &Action::Pause { id: 0, descendants: false }, &mut log);
    handler.apply(&mut state, &Action::Resume { id: 1, descendants: true }, &mut log);
    handler.apply(&mut state, &Action::Kill { id: 7, descendants: true }, &mut log);
    assert_eq!(state.get(0).unwrap().status, TaskStatus::Queued);
    assert_eq!(state.get(1).unwrap().status, TaskStatus::Queued);
    assert!(log.is_empty());
}

#[test]
fn pause_and_resume_of_a_vanished_process_move_the_status() {
    let mut state = queue(1);
    let mut handler = TaskHandler::new(1);
    let mut log: Vec<Delivery> = Vec::new();
    assert_eq!(handler.child_spawned(&mut state, 0, ABSENT, 1), Ok(()));
    handler.apply(&mut state, &Action::Resume { id: 0, descendants: false }, &mut log);
    assert_eq!(state.get(0).unwrap().status, TaskStatus::Running);
    handler.apply(&mut state, &Action::Pause { id: 0, descendants: false }, &mut log);
    assert_eq!(state.get(0).unwrap().status, TaskStatus::Paused);
    handler.apply(&mut state, &Action::Pause { id: 0, descendants: false }, &mut log);
    assert_eq!(state.get(0).unwrap().status, TaskStatus::Paused);
    handler.apply(&mut state, &Action::ResumeAll { descendants: false }, &mut log);
    assert_eq!(state.get(0).unwrap().status, TaskStatus::Running);
    handler.apply(&mut state, &Action::Kill { id: 0, descendants: false }, &mut log);
    assert_eq!(state.get(0).unwrap().status, TaskStatus::Running);
    assert_eq!(handler.children.len(), 1);
    assert!(log.is_empty());
}

#[test]
fn shutdown_stops_scheduling_and_ends_after_the_last_exit() {
    let mut state = queue(2);
    let mut handler = TaskHandler::new(1);
    let mut log: Vec<Delivery> = Vec::new();
    assert_eq!(handler.child_spawned(&mut state, 0, ABSENT, 1), Ok(()));
    assert!(!handler.is_finished());
    handler.apply(&mut state, &Action::DaemonShutdown, &mut log);
    assert!(handler.shutting_down);
    assert!(!handler.is_finished());
    assert_eq!(handler.next_task(&state), None);
    assert_eq!(state.get(0).unwrap().status, TaskStatus::Running);
    assert_eq!(handler.child_exited(&mut state, 0, 137, String::new(), String::new(), 2), Ok(()));
    assert_eq!(state.get(0).unwrap().status, TaskStatus::Failed);
    assert!(handler.is_finished());
    assert_eq!(handler.next_task(&state), None);
}

#[test]
fn coupling_holds_along_a_run_and_is_tested() {
    let mut state = queue(2);
    let mut handler = TaskHandler::new(2);
    assert!(handler.is_coupled(&state));
    assert_eq!(handler.child_spawned(&mut state, 0, ABSENT, 1), Ok(()));
    assert!(handler.is_coupled(&state));
    state.add_task("late".to_string(), vec![], "/".to_string());
    assert!(handler.is_coupled(&state));
    assert_eq!(state.update_status(0, TaskStatus::Paused), Ok(()));
    assert!(handler.is_coupled(&state));

    let empty = TaskHandler::new(2);
    assert!(!empty.is_coupled(&state));
    handler.children.push(ChildHandle { task_id: 1, pid: 9 });
    assert!(!handler.is_coupled(&state));
    handler.children.pop();
    handler.children.push(ChildHandle { task_id: 0, pid: 9 });
    assert!(!handler.is_coupled(&state));
    handler.children.pop();
    handler.children[0].pid = 0;
    assert!(!handler.is_coupled(&state));
    handler.children[0].pid = ABSENT;
    assert_eq!(handler.child_exited(&mut state, 0, 0, String::new(), String::new(), 2), Ok(()));
    assert!(handler.is_coupled(&state));
    state.restore();
    assert!(TaskHandler::new(1).is_coupled(&state));
}

#[test]
fn pause_all_pauses_every_running_task() {
    let mut state = queue(3);
    let mut handler = TaskHandler::new(2);
    let mut log: Vec<Delivery> = Vec::new();
    assert_eq!(handler.child_spawned(&mut state, 0, ABSENT, 1), Ok(()));
    assert_eq!(handler.child_spawned(&mut state, 1, ABSENT - 1, 2), Ok(()));
    handler.apply(&mut state, &Action::PauseAll { descendants: false }, &mut log);
    assert_eq!(state.get(0).unwrap().status, TaskStatus::Paused);
    assert_eq!(state.get(1).unwrap().status, TaskStatus::Paused);
    assert_eq!(state.get(2).unwrap().status, TaskStatus::Queued);
    handler.apply_to_all(&mut state, ProcessAction::Resume, true, &mut log);
    assert_eq!(state.get(0).unwrap().status, TaskStatus::Running);
    assert_eq!(state.get(1).unwrap().status, TaskStatus::Running);
    assert_eq!(state.get(2).unwrap().status, TaskStatus::Queued);
    handler.apply_to_all(&mut state, ProcessAction::Kill, true, &mut log);
    assert_eq!(state.get(0).unwrap().status, TaskStatus::Running);
    assert!(log.is_empty());
    assert!(handler.is_coupled(&state));
}

#[test]
fn settle_moves_the_task_unless_the_signal_was_refused() {
    let mut state = queue(2);
    let mut handler = TaskHandler::new(2);
    assert_eq!(handler.child_spawned(&mut state, 0, ABSENT, 1), Ok(()));
    let refused = Err(SignalFailure { pid: ABSENT, errno: 1 });
    handler.settle(&mut state, 0, ProcessAction::Pause, &refused);
    assert_eq!(state.get(0).unwrap().status, TaskStatus::Running);
    handler.settle(&mut state, 0, ProcessAction::Resume, &Ok(true));
    assert_eq!(state.get(0).unwrap().status, TaskStatus::Running);
    handler.settle(&mut state, 0, ProcessAction::Kill, &Ok(true));
    assert_eq!(state.get(0).unwrap().status, TaskStatus::Running);
    handler.settle(&mut state, 0, ProcessAction::Pause, &Ok(true));
    assert_eq!(state.get(0).unwrap().status, TaskStatus::Paused);
    handler.settle(&mut state, 0, ProcessAction::Resume, &Ok(false));
    assert_eq!(state.get(0).unwrap().status, TaskStatus::Running);
    handler.settle(&mut state, 1, ProcessAction::Pause, &Ok(true));
    assert_eq!(state.get(1).unwrap().status, TaskStatus::Queued);
    handler.settle(&mut state, 9, ProcessAction::Pause, &Ok(true));
    assert!(handler.is_coupled(&state));
}

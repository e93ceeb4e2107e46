use pueue::task::{Task, TaskStatus};

fn sample(status: TaskStatus) -> Task {
    let mut task = Task::new("echo".to_string(), vec!["hello".to_string()], "/tmp".to_string());
    task.status = status;
    task
}

#[test]
fn new_task_is_queued_and_empty() {
    let task = Task::new("echo".to_string(), vec!["hello".to_string()], "/tmp".to_string());
    assert_eq!(task.id, 0);
    assert_eq!(task.command, "echo");
    assert_eq!(task.arguments, vec!["hello".to_string()]);
    assert_eq!(task.path, "/tmp");
    assert_eq!(task.status, TaskStatus::Queued);
    assert_eq!(task.exit_code, None);
    assert_eq!(task.stdout, None);
    assert_eq!(task.stderr, None);
    assert_eq!(task.start, None);
    assert_eq!(task.end, None);
    assert!(task.is_well_formed());
}

#[test]
fn status_predicates_split_the_statuses() {
    let all = [
        (TaskStatus::Queued, false, false, true),
        (TaskStatus::Stashed, false, false, true),
        (TaskStatus::Running, true, false, false),
        (TaskStatus::Paused, true, false, false),
        (TaskStatus::Done, false, true, false),
        (TaskStatus::Failed, false, true, false),
    ];
    for (status, running, done, queued) in all {
        let task = sample(status);
        assert_eq!(task.is_running(), running);
        assert_eq!(task.is_done(), done);
        assert_eq!(task.is_queued(), queued);
    }
}

#[test]
fn command_line_joins_with_single_spaces() {
    let task = Task::new(
        "echo".to_string(),
        vec!["hello".to_string(), "big world".to_string()],
        "/tmp".to_string(),
    );
    assert_eq!(task.command_line(), "echo hello big world");
    let bare = Task::new("false".to_string(), vec![], "/".to_string());
    assert_eq!(bare.command_line(), "false");
}

#[test]
fn well_formedness_follows_the_status() {
    let mut task = sample(TaskStatus::Running);
    assert!(!task.is_well_formed());
    task.start = Some(10);
    assert!(task.is_well_formed());
    task.status = TaskStatus::Done;
    assert!(!task.is_well_formed());
    task.exit_code = Some(0);
    task.stdout = Some("hello\n".to_string());
    task.stderr = Some(String::new());
    task.end = Some(12);
    assert!(task.is_well_formed());
    task.status = TaskStatus::Failed;
    assert!(!task.is_well_formed());
    task.exit_code = Some(2);
    assert!(task.is_well_formed());
    task.status = TaskStatus::Queued;
    assert!(!task.is_well_formed());
}

#[test]
fn statuses_have_their_names() {
    assert_eq!(TaskStatus::Queued.to_string(), "Queued");
    assert_eq!(TaskStatus::Stashed.to_string(), "Stashed");
    assert_eq!(TaskStatus::Running.to_string(), "Running");
    assert_eq!(TaskStatus::Paused.to_string(), "Paused");
    assert_eq!(TaskStatus::Done.to_string(), "Done");
    assert_eq!(TaskStatus::Failed.to_string(), "Failed");
}

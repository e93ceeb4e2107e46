use pueue::process::{
    children_of, classify, compile_shell_command, did_process_spawn_shell, dispatch_classified,
    dispatch_signal, get_child_processes, get_signal_from_action, is_process_alive,
    is_shell_command_line, kill_child, kill_classified, kill_process_tree, read_process_table,
    root_report, send_signal_to_child, send_signal_to_children, send_signal_to_process,
    send_signal_to_processes, signal_family, signal_if_alive, table_from, Delivery, ProcessAction,
    ProcessEntry, ProcessGone, Signal, SignalFailure, SignalOutcome,
};

const ABSENT: i32 = i32::MAX;

fn own_pid() -> i32 {
    procfs::process::Process::myself().unwrap().pid
}

fn words(tokens: &[&str]) -> Vec<String> {
    tokens.iter().map(|token| token.to_string()).collect()
}

#[test]
fn actions_map_to_their_signals() {
    assert_eq!(get_signal_from_action(&ProcessAction::Pause), Signal::SIGSTOP);
    assert_eq!(get_signal_from_action(&ProcessAction::Resume), Signal::SIGCONT);
    assert_eq!(get_signal_from_action(&ProcessAction::Kill), Signal::SIGKILL);
}

#[test]
fn shell_command_is_sh_dash_c() {
    let command = compile_shell_command("echo 'this is a test'");
    assert_eq!(command, words(&["sh", "-c", "echo 'this is a test'"]));
    assert!(is_shell_command_line(&command));
}

#[test]
fn classification_needs_sh_dash_c_and_a_command() {
    assert!(is_shell_command_line(&words(&["sh", "-c", "sleep 60 & sleep 60 && echo x"])));
    assert!(is_shell_command_line(&words(&["sh", "-c", "sleep", "60"])));
    assert!(!is_shell_command_line(&words(&["sh", "-c"])));
    assert!(!is_shell_command_line(&words(&["sleep", "60"])));
    assert!(!is_shell_command_line(&words(&["bash", "-c", "sleep 60"])));
    assert!(!is_shell_command_line(&words(&["sh", "-x", "sleep 60"])));
    assert!(!is_shell_command_line(&words(&["/bin/sh", "-c", "sleep 60"])));
    assert!(!is_shell_command_line(&words(&[])));
    assert_eq!(classify(&Some(words(&["sh", "-c", "true"])), 4), Ok(true));
    assert_eq!(classify(&Some(words(&["sleep", "60"])), 4), Ok(false));
    assert_eq!(classify(&None, 4), Err(ProcessGone { pid: 4 }));
}

#[test]
fn children_are_the_rows_with_that_parent() {
    let table = vec![
        ProcessEntry { pid: 1, ppid: 0 },
        ProcessEntry { pid: 10, ppid: 1 },
        ProcessEntry { pid: 11, ppid: 10 },
        ProcessEntry { pid: 12, ppid: 10 },
        ProcessEntry { pid: 13, ppid: 11 },
        ProcessEntry { pid: 0, ppid: 10 },
        ProcessEntry { pid: -4, ppid: 10 },
    ];
    assert_eq!(
        children_of(&table, 10),
        vec![ProcessEntry { pid: 11, ppid: 10 }, ProcessEntry { pid: 12, ppid: 10 }]
    );
    assert_eq!(children_of(&table, 11), vec![ProcessEntry { pid: 13, ppid: 11 }]);
    assert_eq!(children_of(&table, 13), vec![]);
    assert_eq!(children_of(&vec![], 1), vec![]);
}

#[test]
fn root_report_tells_the_three_outcomes_apart() {
    assert_eq!(root_report(5, SignalOutcome::Delivered), Ok(true));
    assert_eq!(root_report(5, SignalOutcome::TargetGone), Ok(false));
    assert_eq!(
        root_report(5, SignalOutcome::Failed(1)),
        Err(SignalFailure { pid: 5, errno: 1 })
    );
}

#[test]
fn this_process_is_no_shell_wrapper() {
    assert_eq!(did_process_spawn_shell(own_pid()), Ok(false));
}

#[test]
fn a_vanished_process_cannot_be_classified() {
    assert_eq!(did_process_spawn_shell(ABSENT), Err(ProcessGone { pid: ABSENT }));
}

#[test]
fn child_processes_all_name_their_parent() {
    let parent = procfs::process::Process::myself().unwrap().stat().unwrap().ppid;
    let children = get_child_processes(parent);
    assert!(children.iter().any(|child| child.pid == own_pid()));
    assert!(children.iter().all(|child| child.ppid == parent && child.pid > 0));
    assert!(get_child_processes(ABSENT).is_empty());
}

#[test]
fn signal_to_a_vanished_process_reports_target_gone() {
    let mut log: Vec<Delivery> = Vec::new();
    let outcome = send_signal_to_process(ABSENT, &ProcessAction::Kill, false, &mut log);
    assert_eq!(outcome, SignalOutcome::TargetGone);
    assert_eq!(
        log,
        vec![Delivery { pid: ABSENT, signal: Signal::SIGKILL, outcome: SignalOutcome::TargetGone }]
    );
    let outcome = send_signal_to_process(ABSENT, &ProcessAction::Pause, true, &mut log);
    assert_eq!(outcome, SignalOutcome::TargetGone);
    assert_eq!(log.len(), 2);
    assert_eq!(log[1].signal, Signal::SIGSTOP);
}

#[test]
fn continue_signal_reaches_this_process() {
    let mut log: Vec<Delivery> = Vec::new();
    let pid = own_pid();
    let outcome = send_signal_to_process(pid, &ProcessAction::Resume, false, &mut log);
    assert_eq!(outcome, SignalOutcome::Delivered);
    assert_eq!(
        log,
        vec![Delivery { pid, signal: Signal::SIGCONT, outcome: SignalOutcome::Delivered }]
    );
}

#[test]
fn resume_of_a_direct_process_signals_it_once() {
    let mut log: Vec<Delivery> = Vec::new();
    let pid = own_pid();
    assert_eq!(send_signal_to_child(pid, &ProcessAction::Resume, false, &mut log), Ok(true));
    assert_eq!(
        log,
        vec![Delivery { pid, signal: Signal::SIGCONT, outcome: SignalOutcome::Delivered }]
    );
}

#[test]
fn dispatch_to_a_vanished_process_sends_nothing() {
    let mut log: Vec<Delivery> = Vec::new();
    assert_eq!(send_signal_to_child(ABSENT, &ProcessAction::Pause, true, &mut log), Ok(false));
    assert!(!kill_child(ABSENT, true, &mut log));
    assert!(!kill_child(ABSENT, false, &mut log));
    assert!(log.is_empty());
}

#[test]
fn dead_processes_in_a_list_are_skipped() {
    let mut log: Vec<Delivery> = Vec::new();
    let gone = vec![ProcessEntry { pid: ABSENT, ppid: 1 }, ProcessEntry { pid: ABSENT - 1, ppid: 1 }];
    send_signal_to_processes(gone, &ProcessAction::Kill, &mut log);
    assert!(log.is_empty());
    let pid = own_pid();
    let mixed = vec![ProcessEntry { pid: ABSENT, ppid: 1 }, ProcessEntry { pid, ppid: 1 }];
    send_signal_to_processes(mixed, &ProcessAction::Resume, &mut log);
    assert_eq!(
        log,
        vec![Delivery { pid, signal: Signal::SIGCONT, outcome: SignalOutcome::Delivered }]
    );
    send_signal_to_children(ABSENT, &ProcessAction::Kill, &mut log);
    assert_eq!(log.len(), 1);
}

#[test]
fn test_spawn_command() {
    let command = compile_shell_command("echo 'this is a test'");

    assert_eq!(command.len(), 3);
    assert_eq!(command[0], "sh");
    assert_eq!(command[1], "-c");
    assert_eq!(command[2], "echo 'this is a test'");
}

fn gone(pid: i32, signal: Signal) -> Delivery {
    Delivery { pid, signal, outcome: SignalOutcome::TargetGone }
}

#[test]
fn wrapped_dispatch_signals_root_then_each_child() {
    let children =
        vec![ProcessEntry { pid: ABSENT - 1, ppid: ABSENT }, ProcessEntry { pid: ABSENT - 2, ppid: ABSENT }];
    let mut log: Vec<Delivery> = Vec::new();
    let result = dispatch_signal(ABSENT, true, &children, &ProcessAction::Pause, false, &mut log);
    assert_eq!(result, Ok(false));
    assert_eq!(
        log,
        vec![
            gone(ABSENT, Signal::SIGSTOP),
            gone(ABSENT - 1, Signal::SIGSTOP),
            gone(ABSENT - 2, Signal::SIGSTOP)
        ]
    );
    let mut log: Vec<Delivery> = Vec::new();
    let result = dispatch_signal(ABSENT, true, &children, &ProcessAction::Kill, true, &mut log);
    assert_eq!(result, Ok(false));
    assert_eq!(
        log,
        vec![
            gone(ABSENT, Signal::SIGKILL),
            gone(ABSENT - 1, Signal::SIGKILL),
            gone(ABSENT - 2, Signal::SIGKILL)
        ]
    );
}

#[test]
fn direct_dispatch_signals_the_root_alone() {
    let listed = vec![ProcessEntry { pid: ABSENT - 1, ppid: ABSENT }];
    let mut log: Vec<Delivery> = Vec::new();
    let result = dispatch_signal(ABSENT, false, &listed, &ProcessAction::Resume, false, &mut log);
    assert_eq!(result, Ok(false));
    assert_eq!(log, vec![gone(ABSENT, Signal::SIGCONT)]);
    let pid = own_pid();
    let mut log: Vec<Delivery> = Vec::new();
    let result = dispatch_signal(pid, false, &vec![], &ProcessAction::Resume, false, &mut log);
    assert_eq!(result, Ok(true));
    assert_eq!(
        log,
        vec![Delivery { pid, signal: Signal::SIGCONT, outcome: SignalOutcome::Delivered }]
    );
}

#[test]
fn kill_stops_where_the_root_is_gone() {
    let children = vec![ProcessEntry { pid: ABSENT - 1, ppid: ABSENT }];
    let mut log: Vec<Delivery> = Vec::new();
    assert!(!kill_process_tree(ABSENT, true, children.clone(), true, &mut log));
    assert_eq!(log, vec![gone(ABSENT, Signal::SIGKILL)]);
    assert!(!kill_process_tree(ABSENT, false, children, false, &mut log));
    assert_eq!(log, vec![gone(ABSENT, Signal::SIGKILL), gone(ABSENT, Signal::SIGKILL)]);
}

#[test]
fn process_table_holds_this_process() {
    let pid = own_pid();
    let table = read_process_table();
    assert!(table.iter().any(|entry| entry.pid == pid));
    assert!(is_process_alive(pid));
    assert!(!is_process_alive(ABSENT));
}

#[test]
fn each_living_row_is_signalled_once() {
    let pid = own_pid();
    let rows = vec![
        ProcessEntry { pid, ppid: 1 },
        ProcessEntry { pid: ABSENT, ppid: 1 },
        ProcessEntry { pid, ppid: 1 },
    ];
    let mut log: Vec<Delivery> = Vec::new();
    send_signal_to_processes(rows, &ProcessAction::Resume, &mut log);
    let targets: Vec<i32> = log.iter().map(|delivery| delivery.pid).collect();
    assert_eq!(targets, vec![pid, pid]);
    assert!(log.iter().all(|delivery| delivery.signal == Signal::SIGCONT));
}

#[test]
fn direct_dispatch_with_children_signals_the_root_last() {
    let pid = own_pid();
    let mut log: Vec<Delivery> = Vec::new();
    assert_eq!(send_signal_to_child(pid, &ProcessAction::Resume, true, &mut log), Ok(true));
    assert_eq!(
        log.last(),
        Some(&Delivery { pid, signal: Signal::SIGCONT, outcome: SignalOutcome::Delivered })
    );
}

#[test]
fn a_row_found_alive_is_signalled_and_a_dead_one_is_not() {
    let pid = own_pid();
    let mut log: Vec<Delivery> = Vec::new();
    signal_if_alive(ProcessEntry { pid, ppid: 1 }, false, Signal::SIGCONT, &mut log);
    assert!(log.is_empty());
    signal_if_alive(ProcessEntry { pid, ppid: 1 }, true, Signal::SIGCONT, &mut log);
    assert_eq!(
        log,
        vec![Delivery { pid, signal: Signal::SIGCONT, outcome: SignalOutcome::Delivered }]
    );
    signal_if_alive(ProcessEntry { pid: ABSENT, ppid: 1 }, true, Signal::SIGKILL, &mut log);
    assert_eq!(log.len(), 2);
    assert_eq!(log[1], gone(ABSENT, Signal::SIGKILL));
    signal_if_alive(ProcessEntry { pid, ppid: 1 }, true, Signal::SIGCONT, &mut log);
    assert_eq!(log.len(), 3);
    assert_eq!(log[2].outcome, SignalOutcome::Delivered);
}

#[test]
fn an_unreadable_table_gives_no_rows() {
    assert_eq!(table_from(&None), vec![]);
    assert_eq!(children_of(&table_from(&None), 1), vec![]);
    let listing = Some(vec![
        Some(ProcessEntry { pid: 1, ppid: 0 }),
        None,
        Some(ProcessEntry { pid: 7, ppid: 1 }),
        None,
    ]);
    assert_eq!(
        table_from(&listing),
        vec![ProcessEntry { pid: 1, ppid: 0 }, ProcessEntry { pid: 7, ppid: 1 }]
    );
    assert_eq!(table_from(&Some(vec![])), vec![]);
}

#[test]
fn an_unclassified_root_gets_no_signal() {
    let children = vec![ProcessEntry { pid: ABSENT - 1, ppid: ABSENT }];
    let mut log: Vec<Delivery> = Vec::new();
    let lost = Err(ProcessGone { pid: ABSENT });
    assert_eq!(
        dispatch_classified(ABSENT, lost, &children, &ProcessAction::Pause, true, &mut log),
        Ok(false)
    );
    assert!(!kill_classified(ABSENT, lost, children.clone(), true, &mut log));
    assert!(log.is_empty());
    assert_eq!(
        dispatch_classified(ABSENT, Ok(true), &children, &ProcessAction::Pause, false, &mut log),
        Ok(false)
    );
    assert_eq!(log, vec![gone(ABSENT, Signal::SIGSTOP), gone(ABSENT - 1, Signal::SIGSTOP)]);
    assert!(!kill_classified(ABSENT, Ok(false), children, false, &mut log));
    assert_eq!(log.len(), 3);
    assert_eq!(log[2], gone(ABSENT, Signal::SIGKILL));
}

#[test]
fn a_family_is_signalled_children_first() {
    let pid = own_pid();
    let children = vec![ProcessEntry { pid, ppid: ABSENT }, ProcessEntry { pid: ABSENT - 1, ppid: ABSENT }];
    let mut log: Vec<Delivery> = Vec::new();
    let outcome = signal_family(ABSENT, children, &ProcessAction::Resume, &mut log);
    assert_eq!(outcome, SignalOutcome::TargetGone);
    assert_eq!(
        log,
        vec![
            Delivery { pid, signal: Signal::SIGCONT, outcome: SignalOutcome::Delivered },
            gone(ABSENT, Signal::SIGCONT)
        ]
    );
}

//! Process control: telling a shell-wrapped task from a direct one, finding
//! the children of a process, and delivering a signal to the right processes.
//!
//! Every signal that this module sends is recorded, in the order of sending,
//! in a delivery log that the caller hands in. The contracts speak of what a
//! call adds to that log.

use vstd::prelude::*;

verus! {

/// What can be done to the processes of a task.
#[derive(Clone, Copy, Debug, PartialEq, Eq, Structural)]
pub enum ProcessAction {
    Pause,
    Resume,
    Kill,
}

/// The signals that the daemon sends.
#[derive(Clone, Copy, Debug, PartialEq, Eq, Structural)]
pub enum Signal {
    SIGSTOP,
    SIGCONT,
    SIGKILL,
}

/// How one attempt to signal one process ended.
#[derive(Clone, Copy, Debug, PartialEq, Eq, Structural)]
pub enum SignalOutcome {
    /// The signal reached the process.
    Delivered,
    /// The process no longer exists. The caller's intent is met.
    TargetGone,
    /// The system refused, with this error number.
    Failed(i32),
}

/// One attempt to signal one process.
#[derive(Clone, Copy, Debug, PartialEq, Eq, Structural)]
pub struct Delivery {
    pub pid: i32,
    pub signal: Signal,
    pub outcome: SignalOutcome,
}

/// One row of the process table: a process and its parent.
#[derive(Clone, Copy, Debug, PartialEq, Eq, Structural)]
pub struct ProcessEntry {
    pub pid: i32,
    pub ppid: i32,
}

/// The process whose command line was asked for no longer exists.
#[derive(Clone, Copy, Debug, PartialEq, Eq, Structural)]
pub struct ProcessGone {
    pub pid: i32,
}

/// A signal could not be sent to `pid`, for another reason than its absence.
#[derive(Clone, Copy, Debug, PartialEq, Eq, Structural)]
pub struct SignalFailure {
    pub pid: i32,
    pub errno: i32,
}

/// Pause stops, resume continues, kill kills.
pub open spec fn signal_for(action: ProcessAction) -> Signal {
    match action {
        ProcessAction::Kill => Signal::SIGKILL,
        ProcessAction::Pause => Signal::SIGSTOP,
        ProcessAction::Resume => Signal::SIGCONT,
    }
}

/// A command line of a shell that stayed alive as the parent of the user's
/// command: `sh`, `-c`, and at least one more token.
pub open spec fn is_shell_invocation(cmdline: Seq<String>) -> bool {
    &&& cmdline.len() >= 3
    &&& cmdline[0]@ == "sh"@
    &&& cmdline[1]@ == "-c"@
}

/// The classification of a process by its command line, where it could be
/// read: `Ok(true)` for a shell wrapper, `Ok(false)` for a direct command.
pub open spec fn classification(cmdline: Option<Seq<String>>, pid: i32) -> Result<
    bool,
    ProcessGone,
> {
    match cmdline {
        Some(tokens) => Ok(is_shell_invocation(tokens)),
        None => Err(ProcessGone { pid }),
    }
}

/// A row that names a single process whose parent is `pid`. An id that is
/// not positive names a group of processes, never one of them.
pub open spec fn is_child_of(entry: ProcessEntry, pid: i32) -> bool {
    entry.ppid == pid && entry.pid > 0
}

/// The rows of `table` that are children of `pid`, in the table's order.
pub open spec fn children_in(table: Seq<ProcessEntry>, pid: i32) -> Seq<ProcessEntry>
    decreases table.len(),
{
    if table.len() == 0 {
        Seq::empty()
    } else {
        let rest = children_in(table.drop_last(), pid);
        if is_child_of(table.last(), pid) {
            rest.push(table.last())
        } else {
            rest
        }
    }
}

/// Every row names a single process.
pub open spec fn single_targets(processes: Seq<ProcessEntry>) -> bool {
    forall|i: int| 0 <= i < processes.len() ==> (#[trigger] processes[i]).pid > 0
}

/// Every row is a child of `pid`.
pub open spec fn all_children_of(processes: Seq<ProcessEntry>, pid: i32) -> bool {
    forall|i: int| 0 <= i < processes.len() ==> is_child_of(#[trigger] processes[i], pid)
}

/// One of the rows names the process `pid`.
pub open spec fn names(processes: Seq<ProcessEntry>, pid: i32) -> bool {
    exists|j: int| 0 <= j < processes.len() && (#[trigger] processes[j]).pid == pid
}

/// The processes that the deliveries of `log` from position `from` on went
/// to, in the order of sending.
pub open spec fn targets_from(log: Seq<Delivery>, from: int) -> Seq<i32> {
    Seq::new((log.len() - from) as nat, |j: int| log[from + j].pid)
}

/// The process ids `chosen` are those of some of the `rows`, in the order of
/// the rows, each row taken at most once.
pub open spec fn chosen_from(chosen: Seq<i32>, rows: Seq<ProcessEntry>) -> bool
    decreases rows.len(),
{
    if chosen.len() == 0 {
        true
    } else if rows.len() == 0 {
        false
    } else {
        ||| chosen.last() == rows.last().pid && chosen_from(chosen.drop_last(), rows.drop_last())
        ||| chosen_from(chosen, rows.drop_last())
    }
}

/// `after` is `before` with further deliveries behind it.
pub open spec fn extends(before: Seq<Delivery>, after: Seq<Delivery>) -> bool {
    &&& before.len() <= after.len()
    &&& forall|i: int| 0 <= i < before.len() ==> #[trigger] after[i] == before[i]
}

/// Every delivery of `log` from position `from` on carries `signal` to a
/// single process.
pub open spec fn added_carry(log: Seq<Delivery>, from: int, signal: Signal) -> bool {
    forall|i: int|
        from <= i < log.len() ==> (#[trigger] log[i]).signal == signal && log[i].pid > 0
}

/// `log` holds the delivery `delivery` at position `from` or later.
pub open spec fn records(log: Seq<Delivery>, from: int, delivery: Delivery) -> bool {
    exists|i: int| from <= i < log.len() && #[trigger] log[i] == delivery
}

/// What the caller of a dispatch learns from the outcome at the root process.
pub open spec fn report_of(pid: i32, outcome: SignalOutcome) -> Result<bool, SignalFailure> {
    match outcome {
        SignalOutcome::Delivered => Ok(true),
        SignalOutcome::TargetGone => Ok(false),
        SignalOutcome::Failed(errno) => Err(SignalFailure { pid, errno }),
    }
}

/// Sends one signal to one process with `nix::sys::signal::kill`. The process
/// id must be positive: zero and negative ids address whole process groups.
/// Nothing is claimed of the outcome, which is the system's to decide; the
/// body only tells the error number for a missing process from the others.
#[verifier::external_body]
fn deliver_signal(pid: i32, signal: Signal) -> (outcome: SignalOutcome)
    requires
        pid > 0,
{
    let signal = match signal {
        Signal::SIGSTOP => nix::sys::signal::Signal::SIGSTOP,
        Signal::SIGCONT => nix::sys::signal::Signal::SIGCONT,
        Signal::SIGKILL => nix::sys::signal::Signal::SIGKILL,
    };
    match nix::sys::signal::kill(nix::unistd::Pid::from_raw(pid), signal) {
        Ok(()) => SignalOutcome::Delivered,
        Err(nix::errno::Errno::ESRCH) => SignalOutcome::TargetGone,
        Err(errno) => SignalOutcome::Failed(errno as i32),
    }
}

/// A handle on one process in the process table, as `procfs` keeps it.
#[verifier::external_type_specification]
#[verifier::external_body]
pub struct ExProcess(procfs::process::Process);

/// Opens the process `pid` with `procfs::process::Process::new`. `None` where
/// the process does not exist or may not be looked at. Nothing is claimed of
/// the result.
#[verifier::external_body]
fn open_process(pid: i32) -> (process: Option<procfs::process::Process>) {
    procfs::process::Process::new(pid).ok()
}

/// Reads the command line of a process with `Process::cmdline`: its tokens,
/// or `None` where it cannot be read. Nothing is claimed of the result.
#[verifier::external_body]
fn command_line_of(process: &procfs::process::Process) -> (cmdline: Option<Vec<String>>) {
    process.cmdline().ok()
}

/// Asks with `Process::is_alive` whether a process is neither a zombie nor
/// dead. Nothing is claimed of the answer.
#[verifier::external_body]
fn process_is_alive(process: &procfs::process::Process) -> (alive: bool) {
    process.is_alive()
}

/// Lists the processes of the system with `procfs::process::all_processes`.
/// Processes that vanish while the list is made are left out. `None` where
/// the process table cannot be opened. Nothing is claimed of the list.
#[verifier::external_body]
fn all_processes() -> (processes: Option<Vec<procfs::process::Process>>) {
    match procfs::process::all_processes() {
        Ok(processes) => Some(processes.flatten().collect()),
        Err(_) => None,
    }
}

/// Reads the id of a process and that of its parent with `Process::stat`.
/// `None` where they cannot be read. Nothing is claimed of the result.
#[verifier::external_body]
fn process_entry(process: &procfs::process::Process) -> (entry: Option<ProcessEntry>) {
    match process.stat() {
        Ok(stat) => Some(ProcessEntry { pid: stat.pid, ppid: stat.ppid }),
        Err(_) => None,
    }
}

/// The command that starts a task: the POSIX shell, told to run
/// `command_string`. Its three tokens are the program and its two arguments.
///
/// Where the shell stays alive as the parent of what it runs, these tokens are
/// its command line, and the process is classified as a shell wrapper.
pub fn compile_shell_command(command_string: &str) -> (command: Vec<String>)
    ensures
        command@.len() == 3,
        command@[0]@ == "sh"@,
        command@[1]@ == "-c"@,
        command@[2]@ == command_string@,
        is_shell_invocation(command@),
{
    let mut command: Vec<String> = Vec::new();
    command.push("sh".to_owned());
    command.push("-c".to_owned());
    command.push(command_string.to_owned());
    command
}

/// The signal that carries out an action.
pub fn get_signal_from_action(action: &ProcessAction) -> (signal: Signal)
    ensures
        signal == signal_for(*action),
{
    match action {
        ProcessAction::Kill => Signal::SIGKILL,
        ProcessAction::Pause => Signal::SIGSTOP,
        ProcessAction::Resume => Signal::SIGCONT,
    }
}

/// Whether a command line is that of a shell wrapper.
pub fn is_shell_command_line(cmdline: &Vec<String>) -> (wrapped: bool)
    ensures
        wrapped == is_shell_invocation(cmdline@),
{
    if cmdline.len() < 3 {
        return false;
    }
    let shell = "sh".to_owned();
    let flag = "-c".to_owned();
    cmdline[0] == shell && cmdline[1] == flag
}

/// Classifies a process from what reading its command line gave.
pub fn classify(cmdline: &Option<Vec<String>>, pid: i32) -> (result: Result<bool, ProcessGone>)
    ensures
        result == classification(
            match cmdline {
                Some(tokens) => Some(tokens@),
                None => None,
            },
            pid,
        ),
{
    match cmdline {
        Some(tokens) => Ok(is_shell_command_line(tokens)),
        None => Err(ProcessGone { pid }),
    }
}

/// Whether the process `pid` is a shell that wraps the user's command. Fails
/// where the process has gone away, and then names it.
pub fn did_process_spawn_shell(pid: i32) -> (result: Result<bool, ProcessGone>)
    ensures
        result is Err ==> result == Err::<bool, ProcessGone>(ProcessGone { pid }),
{
    let process = match open_process(pid) {
        Some(process) => process,
        None => {
            return Err(ProcessGone { pid });
        },
    };
    let cmdline = command_line_of(&process);
    classify(&cmdline, pid)
}

/// The children of `pid` among the rows of a process table, in its order.
pub fn children_of(table: &Vec<ProcessEntry>, pid: i32) -> (children: Vec<ProcessEntry>)
    ensures
        children@ == children_in(table@, pid),
        all_children_of(children@, pid),
{
    let mut children: Vec<ProcessEntry> = Vec::new();
    let mut i: usize = 0;
    assert(table@.take(0) =~= Seq::<ProcessEntry>::empty());
    while i < table.len()
        invariant
            i <= table.len(),
            children@ == children_in(table@.take(i as int), pid),
            all_children_of(children@, pid),
        decreases table.len() - i,
    {
        let entry = table[i];
        proof {
            let next = table@.take(i + 1);
            assert(next.drop_last() =~= table@.take(i as int));
            assert(next.last() == entry);
        }
        if entry.ppid == pid && entry.pid > 0 {
            children.push(entry);
        }
        i += 1;
    }
    assert(table@.take(table.len() as int) =~= table@);
    children
}

/// Whether the process `pid` exists and is neither a zombie nor dead.
pub fn is_process_alive(pid: i32) -> (alive: bool) {
    match open_process(pid) {
        Some(process) => process_is_alive(&process),
        None => false,
    }
}

/// The rows that could be read, in their order.
pub open spec fn present(readings: Seq<Option<ProcessEntry>>) -> Seq<ProcessEntry>
    decreases readings.len(),
{
    if readings.len() == 0 {
        Seq::empty()
    } else {
        let rest = present(readings.drop_last());
        match readings.last() {
            Some(row) => rest.push(row),
            None => rest,
        }
    }
}

/// The process table that a listing gives: the rows that could be read, and
/// no row where the table itself could not be opened.
pub open spec fn table_of(listing: Option<Seq<Option<ProcessEntry>>>) -> Seq<ProcessEntry> {
    match listing {
        Some(readings) => present(readings),
        None => Seq::empty(),
    }
}

/// Makes the process table from what listing the processes gave: one reading
/// for each process, or nothing where the table could not be opened. An
/// unreadable table gives an empty one.
pub fn table_from(listing: &Option<Vec<Option<ProcessEntry>>>) -> (table: Vec<ProcessEntry>)
    ensures
        table@ == table_of(
            match listing {
                Some(readings) => Some(readings@),
                None => None,
            },
        ),
{
    let mut table: Vec<ProcessEntry> = Vec::new();
    let readings = match listing {
        Some(readings) => readings,
        None => {
            return table;
        },
    };
    let mut i: usize = 0;
    assert(readings@.take(0) =~= Seq::<Option<ProcessEntry>>::empty());
    while i < readings.len()
        invariant
            i <= readings.len(),
            table@ == present(readings@.take(i as int)),
        decreases readings.len() - i,
    {
        proof {
            let next = readings@.take(i + 1);
            assert(next.drop_last() =~= readings@.take(i as int));
            assert(next.last() == readings@[i as int]);
        }
        if let Some(row) = readings[i] {
            table.push(row);
        }
        i += 1;
    }
    assert(readings@.take(readings.len() as int) =~= readings@);
    table
}

/// The process table as it is now: a row for each process whose parent could
/// be read. Empty where the table cannot be opened.
pub fn read_process_table() -> (table: Vec<ProcessEntry>) {
    let listing = match all_processes() {
        Some(processes) => {
            let mut readings: Vec<Option<ProcessEntry>> = Vec::new();
            let mut i: usize = 0;
            while i < processes.len()
                invariant
                    i <= processes.len(),
                decreases processes.len() - i,
            {
                readings.push(process_entry(&processes[i]));
                i += 1;
            }
            Some(readings)
        },
        None => None,
    };
    table_from(&listing)
}

/// All children of a process, from one pass over the process table. The list
/// is a snapshot: a process on it may be gone a moment later. It is empty
/// where the table cannot be read.
pub fn get_child_processes(pid: i32) -> (children: Vec<ProcessEntry>)
    ensures
        all_children_of(children@, pid),
        single_targets(children@),
{
    let table = read_process_table();
    children_of(&table, pid)
}

/// Sends `signal` to `pid` and records the attempt.
fn signal_process(pid: i32, signal: Signal, log: &mut Vec<Delivery>) -> (outcome: SignalOutcome)
    requires
        pid > 0,
    ensures
        final(log)@ == old(log)@.push((Delivery { pid, signal, outcome })),
{
    let outcome = deliver_signal(pid, signal);
    log.push(Delivery { pid, signal, outcome });
    outcome
}

/// Signals one listed process where it was found alive, and passes it over
/// where it was not. How the delivery ends changes nothing for the caller.
pub fn signal_if_alive(row: ProcessEntry, alive: bool, signal: Signal, log: &mut Vec<Delivery>)
    requires
        row.pid > 0,
    ensures
        !alive ==> final(log)@ == old(log)@,
        alive ==> final(log)@.len() == old(log)@.len() + 1 && final(log)@.drop_last() == old(
            log,
        )@ && final(log)@.last().pid == row.pid && final(log)@.last().signal == signal,
{
    if alive {
        let _ = signal_process(row.pid, signal, log);
        assert(final(log)@.drop_last() =~= old(log)@);
    }
}

/// Sends the signal of `action` to the rows of `processes` that are still
/// alive, in their order. A failure at one process does not stop the rest.
///
/// The log grows by at most one delivery for each row, each of them carrying
/// the action's signal to a process of the list; the deliveries follow the
/// order of the rows, and no row is signalled twice.
pub fn send_signal_to_processes(
    processes: Vec<ProcessEntry>,
    action: &ProcessAction,
    log: &mut Vec<Delivery>,
)
    requires
        single_targets(processes@),
    ensures
        extends(old(log)@, final(log)@),
        final(log)@.len() <= old(log)@.len() + processes@.len(),
        added_carry(final(log)@, old(log)@.len() as int, signal_for(*action)),
        forall|i: int|
            old(log)@.len() <= i < final(log)@.len() ==> names(
                processes@,
                (#[trigger] final(log)@[i]).pid,
            ),
        chosen_from(targets_from(final(log)@, old(log)@.len() as int), processes@),
{
    let signal = get_signal_from_action(action);
    let ghost start = log@.len() as int;
    let mut i: usize = 0;
    assert(targets_from(log@, start).len() == 0);
    while i < processes.len()
        invariant
            i <= processes.len(),
            single_targets(processes@),
            signal == signal_for(*action),
            start == old(log)@.len(),
            extends(old(log)@, log@),
            log@.len() <= old(log)@.len() + i,
            added_carry(log@, old(log)@.len() as int, signal),
            forall|k: int|
                old(log)@.len() <= k < log@.len() ==> names(processes@, (#[trigger] log@[k]).pid),
            chosen_from(targets_from(log@, start), processes@.take(i as int)),
        decreases processes.len() - i,
    {
        let process = processes[i];
        assert(processes@[i as int].pid > 0);
        let ghost before = log@;
        let ghost rows = processes@.take(i + 1);
        proof {
            assert(rows.drop_last() =~= processes@.take(i as int));
            assert(rows.last() == processes@[i as int]);
        }
        let alive = is_process_alive(process.pid);
        signal_if_alive(process, alive, signal, log);
        proof {
            if alive {
                assert forall|j: int| 0 <= j < before.len() implies #[trigger] log@[j]
                    == before[j] by {
                    assert(log@.drop_last()[j] == log@[j]);
                }
                assert(names(processes@, process.pid));
                let chosen = targets_from(log@, start);
                assert(chosen.drop_last() =~= targets_from(before, start));
                assert(chosen.last() == process.pid);
            }
        }
        i += 1;
    }
    assert(processes@.take(processes.len() as int) =~= processes@);
}

/// Sends the signal of `action` to every child of `pid` that is alive.
///
/// The log grows by deliveries of the action's signal, and by nothing else.
/// They go to rows that name `pid` as their parent, in the order of the rows,
/// and to no row twice.
pub fn send_signal_to_children(pid: i32, action: &ProcessAction, log: &mut Vec<Delivery>)
    ensures
        extends(old(log)@, final(log)@),
        added_carry(final(log)@, old(log)@.len() as int, signal_for(*action)),
        exists|rows: Seq<ProcessEntry>|
            all_children_of(rows, pid) && single_targets(rows) && #[trigger] chosen_from(
                targets_from(final(log)@, old(log)@.len() as int),
                rows,
            ),
{
    let children = get_child_processes(pid);
    let ghost rows = children@;
    send_signal_to_processes(children, action, log);
    assert(chosen_from(targets_from(final(log)@, old(log)@.len() as int), rows));
}

/// Sends the signal of `action` to the process `pid`, after its children
/// where `send_to_children` is set, and reports the outcome at `pid`.
///
/// The last delivery in the log is the one to `pid`; without
/// `send_to_children` it is the only one added, and with it the deliveries
/// before go to rows that name `pid` as their parent, and no further down.
pub fn send_signal_to_process(
    pid: i32,
    action: &ProcessAction,
    send_to_children: bool,
    log: &mut Vec<Delivery>,
) -> (outcome: SignalOutcome)
    requires
        pid > 0,
    ensures
        extends(old(log)@, final(log)@),
        final(log)@.len() > old(log)@.len(),
        final(log)@.last() == (Delivery { pid, signal: signal_for(*action), outcome }),
        added_carry(final(log)@, old(log)@.len() as int, signal_for(*action)),
        !send_to_children ==> final(log)@ == old(log)@.push(
            (Delivery { pid, signal: signal_for(*action), outcome }),
        ),
        send_to_children ==> exists|rows: Seq<ProcessEntry>|
            all_children_of(rows, pid) && single_targets(rows) && #[trigger] chosen_from(
                targets_from(final(log)@.drop_last(), old(log)@.len() as int),
                rows,
            ),
{
    let children = if send_to_children {
        get_child_processes(pid)
    } else {
        Vec::new()
    };
    let ghost rows = children@;
    let outcome = signal_family(pid, children, action, log);
    proof {
        assert(chosen_from(targets_from(final(log)@.drop_last(), old(log)@.len() as int), rows));
        if !send_to_children {
            assert(final(log)@.len() == old(log)@.len() + 1);
            assert(final(log)@ =~= old(log)@.push(final(log)@.last()));
        }
    }
    outcome
}

/// Sends the signal of `action` to the listed children of the process `pid`
/// that are still alive, and then to `pid` itself, and reports the outcome
/// at `pid`.
///
/// The last delivery in the log is the one to `pid`. The deliveries before
/// it go to listed children, in the order of the list, to none of them twice
/// and to nobody else.
pub fn signal_family(
    pid: i32,
    children: Vec<ProcessEntry>,
    action: &ProcessAction,
    log: &mut Vec<Delivery>,
) -> (outcome: SignalOutcome)
    requires
        pid > 0,
        single_targets(children@),
    ensures
        extends(old(log)@, final(log)@),
        final(log)@.len() > old(log)@.len(),
        final(log)@.len() <= old(log)@.len() + children@.len() + 1,
        final(log)@.last() == (Delivery { pid, signal: signal_for(*action), outcome }),
        added_carry(final(log)@, old(log)@.len() as int, signal_for(*action)),
        chosen_from(targets_from(final(log)@.drop_last(), old(log)@.len() as int), children@),
{
    let signal = get_signal_from_action(action);
    send_signal_to_processes(children, action, log);
    let ghost before = log@;
    let outcome = signal_process(pid, signal, log);
    assert(final(log)@.drop_last() =~= before);
    outcome
}

/// Sends the signal of `action` to a task whose root process is `pid`.
///
/// A shell wrapper does not pass signals on, so for a wrapped task the signal
/// goes to the shell first and then to each of its children; for a direct
/// task it goes to the process alone. With `send_to_children` the children
/// of each of these processes get it too.
///
/// Returns `Ok(true)` where the root got the signal, `Ok(false)` where the
/// root had gone away, before or while the signal was sent, and the failure
/// where the system refused a delivery; the dispatch stops at the first
/// refusal, which is then the last delivery in the log. Where anything was
/// sent, the root was signalled: before everybody else, or, with
/// `send_to_children` on a direct task, after its children.
pub fn send_signal_to_child(
    pid: i32,
    action: &ProcessAction,
    send_to_children: bool,
    log: &mut Vec<Delivery>,
) -> (result: Result<bool, SignalFailure>)
    requires
        pid > 0,
    ensures
        extends(old(log)@, final(log)@),
        added_carry(final(log)@, old(log)@.len() as int, signal_for(*action)),
        final(log)@.len() > old(log)@.len() ==> {
            ||| final(log)@[old(log)@.len() as int].pid == pid
            ||| send_to_children && final(log)@.last().pid == pid
        },
        match result {
            Ok(delivered) => {
                ||| !delivered && final(log)@ == old(log)@
                ||| records(
                    final(log)@,
                    old(log)@.len() as int,
                    (Delivery {
                        pid,
                        signal: signal_for(*action),
                        outcome: if delivered {
                            SignalOutcome::Delivered
                        } else {
                            SignalOutcome::TargetGone
                        },
                    }),
                )
            },
            Err(failure) => {
                &&& final(log)@.len() > old(log)@.len()
                &&& final(log)@.last() == (Delivery {
                    pid: failure.pid,
                    signal: signal_for(*action),
                    outcome: SignalOutcome::Failed(failure.errno),
                })
            },
        },
{
    let classification = did_process_spawn_shell(pid);
    let shell_children = match classification {
        Ok(true) => get_child_processes(pid),
        _ => Vec::new(),
    };
    dispatch_classified(pid, classification, &shell_children, action, send_to_children, log)
}

/// The processes that a dispatch signals itself, in the order of sending: the
/// root, and behind it the children of a root that is a shell wrapper.
pub open spec fn direct_targets(pid: i32, is_shell: bool, children: Seq<ProcessEntry>) -> Seq<
    i32,
> {
    if is_shell {
        seq![pid] + children.map_values(|child: ProcessEntry| child.pid)
    } else {
        seq![pid]
    }
}

/// `log` holds a delivery to the process `pid` at position `from` or later.
pub open spec fn reaches(log: Seq<Delivery>, from: int, pid: i32) -> bool {
    exists|i: int| from <= i < log.len() && (#[trigger] log[i]).pid == pid
}

/// The deliveries of `log` from position `from` on go to the first of
/// `targets`, one to each, in their order.
pub open spec fn follows(log: Seq<Delivery>, from: int, targets: Seq<i32>) -> bool {
    &&& log.len() - from <= targets.len()
    &&& forall|j: int| 0 <= j < log.len() - from ==> (#[trigger] log[from + j]).pid == targets[j]
}

/// What a dispatch to a classified task does to the log and returns: `after`
/// is the log behind it, `before` the log ahead of it.
pub open spec fn dispatch_report(
    pid: i32,
    is_shell: bool,
    children: Seq<ProcessEntry>,
    action: ProcessAction,
    send_to_children: bool,
    before: Seq<Delivery>,
    after: Seq<Delivery>,
    result: Result<bool, SignalFailure>,
) -> bool {
    &&& extends(before, after)
    &&& added_carry(after, before.len() as int, signal_for(action))
    &&& after.len() > before.len()
    &&& is_shell || !send_to_children ==> after[before.len() as int].pid == pid
    &&& !is_shell ==> after.last().pid == pid
    &&& !is_shell && send_to_children ==> exists|rows: Seq<ProcessEntry>|
        all_children_of(rows, pid) && single_targets(rows) && #[trigger] chosen_from(
            targets_from(after.drop_last(), before.len() as int),
            rows,
        )
    &&& !send_to_children ==> follows(
        after,
        before.len() as int,
        direct_targets(pid, is_shell, children),
    )
    &&& match result {
        Ok(delivered) => {
            &&& records(
                after,
                before.len() as int,
                (Delivery {
                    pid,
                    signal: signal_for(action),
                    outcome: if delivered {
                        SignalOutcome::Delivered
                    } else {
                        SignalOutcome::TargetGone
                    },
                }),
            )
            &&& forall|j: int|
                0 <= j < direct_targets(pid, is_shell, children).len() ==> reaches(
                    after,
                    before.len() as int,
                    #[trigger] direct_targets(pid, is_shell, children)[j],
                )
            &&& !send_to_children ==> after.len() - before.len() == direct_targets(
                pid,
                is_shell,
                children,
            ).len()
        },
        Err(failure) => {
            &&& after.len() > before.len()
            &&& after.last() == (Delivery {
                pid: failure.pid,
                signal: signal_for(action),
                outcome: SignalOutcome::Failed(failure.errno),
            })
        },
    }
}

/// Sends the signal of `action` to a task once its root process `pid` has
/// been looked at: `classification` is what the look gave, and
/// `shell_children` the children listed for a shell wrapper.
///
/// Where the root could not be classified, it has gone away: nothing is sent
/// and the result is `Ok(false)`. Otherwise the signal is dispatched as the
/// classification asks.
pub fn dispatch_classified(
    pid: i32,
    classification: Result<bool, ProcessGone>,
    shell_children: &Vec<ProcessEntry>,
    action: &ProcessAction,
    send_to_children: bool,
    log: &mut Vec<Delivery>,
) -> (result: Result<bool, SignalFailure>)
    requires
        pid > 0,
        single_targets(shell_children@),
    ensures
        match classification {
            Ok(is_shell) => dispatch_report(
                pid,
                is_shell,
                shell_children@,
                *action,
                send_to_children,
                old(log)@,
                final(log)@,
                result,
            ),
            Err(_) => result == Ok::<bool, SignalFailure>(false) && final(log)@ == old(log)@,
        },
{
    match classification {
        Ok(is_shell) => dispatch_signal(pid, is_shell, shell_children, action, send_to_children, log),
        Err(_) => Ok(false),
    }
}

/// Sends the signal of `action` to a task whose root process `pid` has been
/// classified, and whose children, where it is a shell wrapper, have been
/// listed.
///
/// Without `send_to_children` the signal goes to the root and then, under a
/// shell wrapper, to each listed child in turn, and to nobody else. With it,
/// the children of each of these processes are signalled before their parent.
/// The dispatch stops at the first refusal, which is then the last delivery
/// in the log and the failure returned. Otherwise every target was tried, and
/// the result tells whether the root was still there.
pub fn dispatch_signal(
    pid: i32,
    is_shell: bool,
    shell_children: &Vec<ProcessEntry>,
    action: &ProcessAction,
    send_to_children: bool,
    log: &mut Vec<Delivery>,
) -> (result: Result<bool, SignalFailure>)
    requires
        pid > 0,
        single_targets(shell_children@),
    ensures
        dispatch_report(
            pid,
            is_shell,
            shell_children@,
            *action,
            send_to_children,
            old(log)@,
            final(log)@,
            result,
        ),
{
    let ghost start = log@.len() as int;
    let ghost targets = direct_targets(pid, is_shell, shell_children@);
    if !is_shell {
        let outcome = send_signal_to_process(pid, action, send_to_children, log);
        assert(log@[log@.len() - 1].pid == pid);
        assert(targets[0] == pid);
        return root_report(pid, outcome);
    }
    let root = send_signal_to_process(pid, action, false, log);
    assert(log@[start].pid == pid);
    assert(targets[0] == pid);
    if let SignalOutcome::Failed(errno) = root {
        return Err(SignalFailure { pid, errno });
    }
    let ghost root_delivery = Delivery { pid, signal: signal_for(*action), outcome: root };
    let mut i: usize = 0;
    while i < shell_children.len()
        invariant
            i <= shell_children.len(),
            is_shell,
            single_targets(shell_children@),
            start == old(log)@.len(),
            targets == direct_targets(pid, true, shell_children@),
            extends(old(log)@, log@),
            log@.len() > start,
            log@[start] == root_delivery,
            root_delivery.pid == pid,
            added_carry(log@, start, signal_for(*action)),
            !send_to_children ==> log@.len() == start + 1 + i,
            !send_to_children ==> follows(log@, start, targets),
            forall|j: int| 0 <= j < 1 + i ==> reaches(log@, start, #[trigger] targets[j]),
        decreases shell_children.len() - i,
    {
        let child = shell_children[i];
        assert(shell_children@[i as int].pid > 0);
        assert(targets[1 + i] == child.pid);
        let ghost before = log@;
        let outcome = send_signal_to_process(child.pid, action, send_to_children, log);
        proof {
            assert(log@[start] == before[start]);
            assert(log@[log@.len() - 1].pid == child.pid);
            assert forall|j: int| 0 <= j < 2 + i implies reaches(
                log@,
                start,
                #[trigger] targets[j],
            ) by {
                if j < 1 + i {
                    let k = choose|k: int|
                        start <= k < before.len() && (#[trigger] before[k]).pid == targets[j];
                    assert(log@[k] == before[k]);
                }
            }
            if !send_to_children {
                assert(targets.len() == 1 + shell_children@.len());
                assert forall|j: int| 0 <= j < log@.len() - start implies (#[trigger] log@[start
                    + j]).pid == targets[j] by {
                    if j < 1 + i {
                        assert(log@[start + j] == before[start + j]);
                    }
                }
            }
        }
        if let SignalOutcome::Failed(errno) = outcome {
            return Err(SignalFailure { pid: child.pid, errno });
        }
        i += 1;
    }
    root_report(pid, root)
}

/// What a dispatch returns for the outcome at the root process.
pub fn root_report(pid: i32, outcome: SignalOutcome) -> (result: Result<bool, SignalFailure>)
    ensures
        result == report_of(pid, outcome),
{
    match outcome {
        SignalOutcome::Delivered => Ok(true),
        SignalOutcome::TargetGone => Ok(false),
        SignalOutcome::Failed(errno) => Err(SignalFailure { pid, errno }),
    }
}

/// Kills a task whose root process is `pid`, and leaves no process of it
/// behind: the children of a shell wrapper are killed with it, and with
/// `kill_children` the children of each killed process too.
///
/// The list of children is taken before the root is killed, since the table
/// forgets whose children they were once the root is gone; the root is killed
/// first, so that it cannot fork again.
///
/// Returns `true` where the root was killed. Then the first delivery added to
/// the log is the kill of the root. Returns `false` where the root had gone
/// away or could not be killed; then no other process was signalled.
pub fn kill_child(pid: i32, kill_children: bool, log: &mut Vec<Delivery>) -> (killed: bool)
    requires
        pid > 0,
    ensures
        extends(old(log)@, final(log)@),
        added_carry(final(log)@, old(log)@.len() as int, Signal::SIGKILL),
        killed ==> {
            &&& final(log)@.len() > old(log)@.len()
            &&& final(log)@[old(log)@.len() as int] == (Delivery {
                pid,
                signal: Signal::SIGKILL,
                outcome: SignalOutcome::Delivered,
            })
        },
        !killed ==> {
            ||| final(log)@ == old(log)@
            ||| {
                &&& final(log)@.len() == old(log)@.len() + 1
                &&& final(log)@.last().pid == pid
                &&& final(log)@.last().outcome != SignalOutcome::Delivered
            }
        },
{
    let classification = did_process_spawn_shell(pid);
    let child_processes = match classification {
        Ok(is_shell) => if kill_children || is_shell {
            get_child_processes(pid)
        } else {
            Vec::new()
        },
        Err(_) => Vec::new(),
    };
    kill_classified(pid, classification, child_processes, kill_children, log)
}

/// What the kill of a classified task does to the log and returns: `after` is
/// the log behind it, `before` the log ahead of it.
pub open spec fn kill_report(
    pid: i32,
    is_shell: bool,
    children: Seq<ProcessEntry>,
    kill_children: bool,
    before: Seq<Delivery>,
    after: Seq<Delivery>,
    killed: bool,
) -> bool {
    &&& extends(before, after)
    &&& added_carry(after, before.len() as int, Signal::SIGKILL)
    &&& after.len() > before.len()
    &&& after[before.len() as int].pid == pid
    &&& killed == (after[before.len() as int].outcome == SignalOutcome::Delivered)
    &&& !killed ==> after.len() == before.len() + 1
    &&& killed && !kill_children ==> {
        &&& follows(
            after,
            before.len() as int,
            direct_targets(pid, is_shell, children),
        )
        &&& after.len() - before.len() == direct_targets(
            pid,
            is_shell,
            children,
        ).len()
    }
    &&& killed && is_shell ==> forall|j: int|
        0 <= j < children.len() ==> reaches(
            after,
            before.len() as int + 1,
            (#[trigger] children[j]).pid,
        )
    &&& killed && !is_shell ==> forall|i: int|
        before.len() < i < after.len() ==> names(
            children,
            (#[trigger] after[i]).pid,
        )
    &&& killed && !is_shell ==> chosen_from(
        targets_from(after, before.len() as int + 1),
        children,
    )
}

/// Kills a task once its root process `pid` has been looked at:
/// `classification` is what the look gave, and `child_processes` the children
/// listed before the kill.
///
/// Where the root could not be classified, it has gone away: nothing is sent
/// and the result is `false`. Otherwise the task is killed as the
/// classification asks.
pub fn kill_classified(
    pid: i32,
    classification: Result<bool, ProcessGone>,
    child_processes: Vec<ProcessEntry>,
    kill_children: bool,
    log: &mut Vec<Delivery>,
) -> (killed: bool)
    requires
        pid > 0,
        single_targets(child_processes@),
    ensures
        match classification {
            Ok(is_shell) => kill_report(
                pid,
                is_shell,
                child_processes@,
                kill_children,
                old(log)@,
                final(log)@,
                killed,
            ),
            Err(_) => !killed && final(log)@ == old(log)@,
        },
{
    match classification {
        Ok(is_shell) => kill_process_tree(pid, is_shell, child_processes, kill_children, log),
        Err(_) => false,
    }
}

/// Kills a task whose root process `pid` has been classified and whose
/// children have been listed.
///
/// The root is killed first. Where that fails, nothing else is done and the
/// result is `false`. Otherwise, under a shell wrapper every listed child is
/// killed, with `kill_children` after its own children; a direct root has its
/// listed children killed only with `kill_children`, and only those that are
/// still alive. Without `kill_children` the log grows by exactly the kill of
/// the root and, under a shell wrapper, of each child in turn.
pub fn kill_process_tree(
    pid: i32,
    is_shell: bool,
    child_processes: Vec<ProcessEntry>,
    kill_children: bool,
    log: &mut Vec<Delivery>,
) -> (killed: bool)
    requires
        pid > 0,
        single_targets(child_processes@),
    ensures
        kill_report(
            pid,
            is_shell,
            child_processes@,
            kill_children,
            old(log)@,
            final(log)@,
            killed,
        ),
{
    let ghost start = log@.len() as int;
    let ghost targets = direct_targets(pid, is_shell, child_processes@);
    let root = signal_process(pid, Signal::SIGKILL, log);
    assert(targets[0] == pid);
    if root != SignalOutcome::Delivered {
        return false;
    }
    let ghost root_delivery = log@[start];
    if is_shell {
        let mut i: usize = 0;
        while i < child_processes.len()
            invariant
                i <= child_processes.len(),
                single_targets(child_processes@),
                start == old(log)@.len(),
                targets == direct_targets(pid, true, child_processes@),
                extends(old(log)@, log@),
                log@.len() > start,
                log@[start] == root_delivery,
                added_carry(log@, start, Signal::SIGKILL),
                !kill_children ==> log@.len() == start + 1 + i,
                !kill_children ==> follows(log@, start, targets),
                forall|j: int|
                    0 <= j < i ==> reaches(log@, start + 1, (#[trigger] child_processes@[j]).pid),
            decreases child_processes.len() - i,
        {
            let child = child_processes[i];
            assert(child_processes@[i as int].pid > 0);
            assert(targets[1 + i] == child.pid);
            let ghost before = log@;
            let _ = send_signal_to_process(child.pid, &ProcessAction::Kill, kill_children, log);
            proof {
                assert(log@[log@.len() - 1].pid == child.pid);
                assert forall|j: int| 0 <= j < i + 1 implies reaches(
                    log@,
                    start + 1,
                    (#[trigger] child_processes@[j]).pid,
                ) by {
                    if j < i {
                        let k = choose|k: int|
                            start + 1 <= k < before.len() && (#[trigger] before[k]).pid
                                == child_processes@[j].pid;
                        assert(log@[k] == before[k]);
                    }
                }
                if !kill_children {
                    assert(targets.len() == 1 + child_processes@.len());
                    assert forall|j: int| 0 <= j < log@.len() - start implies (
                    #[trigger] log@[start + j]).pid == targets[j] by {
                        if j < 1 + i {
                            assert(log@[start + j] == before[start + j]);
                        }
                    }
                }
            }
            i += 1;
        }
    } else if kill_children {
        let ghost before = log@;
        send_signal_to_processes(child_processes, &ProcessAction::Kill, log);
        assert(log@[start] == before[start]);
    }
    true
}

} // verus!

//! A task of the queue and the status it moves through.

use vstd::prelude::*;
use vstd::string::StringExecFns;

verus! {

/// The lifecycle status of a task.
#[derive(Clone, Copy, Debug, PartialEq, Eq, Structural)]
pub enum TaskStatus {
    Queued,
    Stashed,
    Running,
    Paused,
    Done,
    Failed,
}

/// The name of a status, as it is shown to the user.
pub open spec fn status_name(status: TaskStatus) -> Seq<char> {
    match status {
        TaskStatus::Queued => "Queued"@,
        TaskStatus::Stashed => "Stashed"@,
        TaskStatus::Running => "Running"@,
        TaskStatus::Paused => "Paused"@,
        TaskStatus::Done => "Done"@,
        TaskStatus::Failed => "Failed"@,
    }
}

impl TaskStatus {
    /// The name of the status.
    pub fn to_string(&self) -> (name: String)
        ensures
            name@ == status_name(*self),
    {
        match self {
            TaskStatus::Queued => "Queued".to_owned(),
            TaskStatus::Stashed => "Stashed".to_owned(),
            TaskStatus::Running => "Running".to_owned(),
            TaskStatus::Paused => "Paused".to_owned(),
            TaskStatus::Done => "Done".to_owned(),
            TaskStatus::Failed => "Failed".to_owned(),
        }
    }
}

/// A user-submitted command with a stable id.
///
/// `start` is set the moment the task starts processing. `exit_code`, the
/// captured output and `end` stay empty until the task has finished. The
/// timestamps are milliseconds since the Unix epoch.
#[derive(Clone, Debug)]
pub struct Task {
    pub id: i32,
    pub command: String,
    pub arguments: Vec<String>,
    pub path: String,
    pub status: TaskStatus,
    pub exit_code: Option<i32>,
    pub stdout: Option<String>,
    pub stderr: Option<String>,
    pub start: Option<i64>,
    pub end: Option<i64>,
}

/// A status under which a child process belongs to the task.
pub open spec fn is_live(status: TaskStatus) -> bool {
    status == TaskStatus::Running || status == TaskStatus::Paused
}

/// A status that a task never leaves.
pub open spec fn is_terminal(status: TaskStatus) -> bool {
    status == TaskStatus::Done || status == TaskStatus::Failed
}

/// A status under which the task waits and owns no process.
pub open spec fn is_waiting(status: TaskStatus) -> bool {
    status == TaskStatus::Queued || status == TaskStatus::Stashed
}

/// A command and its arguments as one line for the shell: the tokens in
/// their order, with one space between each two.
pub open spec fn joined(command: Seq<char>, arguments: Seq<String>) -> Seq<char>
    decreases arguments.len(),
{
    if arguments.len() == 0 {
        command
    } else {
        joined(command, arguments.drop_last()) + seq![' '] + arguments.last()@
    }
}

impl Task {
    /// The fields agree with the status: a finished task carries its whole
    /// result and its start, a live task carries its start and no result, a
    /// waiting task carries neither. A task is `Done` exactly when it
    /// finished with exit code zero.
    pub open spec fn wf(&self) -> bool {
        &&& is_terminal(self.status) ==> {
            &&& self.exit_code.is_some()
            &&& self.stdout.is_some()
            &&& self.stderr.is_some()
            &&& self.start.is_some()
            &&& self.end.is_some()
            &&& (self.status == TaskStatus::Done <==> self.exit_code == Some(0i32))
        }
        &&& is_live(self.status) ==> {
            &&& self.start.is_some()
            &&& self.exit_code.is_none()
            &&& self.stdout.is_none()
            &&& self.stderr.is_none()
            &&& self.end.is_none()
        }
        &&& is_waiting(self.status) ==> {
            &&& self.start.is_none()
            &&& self.exit_code.is_none()
            &&& self.stdout.is_none()
            &&& self.stderr.is_none()
            &&& self.end.is_none()
        }
    }

    /// A fresh task: queued, with id zero and no result.
    pub fn new(command: String, arguments: Vec<String>, path: String) -> (task: Task)
        ensures
            task.id == 0,
            task.command == command,
            task.arguments == arguments,
            task.path == path,
            task.status == TaskStatus::Queued,
            task.exit_code.is_none(),
            task.stdout.is_none(),
            task.stderr.is_none(),
            task.start.is_none(),
            task.end.is_none(),
            task.wf(),
    {
        Task {
            id: 0,
            command: command,
            arguments: arguments,
            path: path,
            status: TaskStatus::Queued,
            exit_code: None,
            stdout: None,
            stderr: None,
            start: None,
            end: None,
        }
    }

    /// Whether the fields agree with the status.
    pub fn is_well_formed(&self) -> (valid: bool)
        ensures
            valid == self.wf(),
    {
        let result = self.exit_code.is_some() && self.stdout.is_some() && self.stderr.is_some()
            && self.end.is_some();
        let no_result = self.exit_code.is_none() && self.stdout.is_none() && self.stderr.is_none()
            && self.end.is_none();
        match self.status {
            TaskStatus::Done => result && self.start.is_some() && self.exit_code == Some(0),
            TaskStatus::Failed => result && self.start.is_some() && self.exit_code != Some(0),
            TaskStatus::Running | TaskStatus::Paused => no_result && self.start.is_some(),
            TaskStatus::Queued | TaskStatus::Stashed => no_result && self.start.is_none(),
        }
    }

    /// The line that the shell is given to run the task.
    pub fn command_line(&self) -> (line: String)
        ensures
            line@ == joined(self.command@, self.arguments@),
    {
        let mut line = self.command.clone();
        let mut i: usize = 0;
        assert(self.arguments@.take(0) =~= Seq::<String>::empty());
        while i < self.arguments.len()
            invariant
                i <= self.arguments.len(),
                line@ == joined(self.command@, self.arguments@.take(i as int)),
            decreases self.arguments.len() - i,
        {
            proof {
                let next = self.arguments@.take(i + 1);
                assert(next.drop_last() =~= self.arguments@.take(i as int));
                assert(next.last() == self.arguments@[i as int]);
                reveal_strlit(" ");
                assert(" "@ =~= seq![' ']);
            }
            line.append(" ");
            line.append(self.arguments[i].as_str());
            i += 1;
        }
        assert(self.arguments@.take(self.arguments.len() as int) =~= self.arguments@);
        line
    }

    /// Whether a child process belongs to the task: it runs or is paused.
    pub fn is_running(&self) -> (live: bool)
        ensures
            live == is_live(self.status),
    {
        self.status == TaskStatus::Running || self.status == TaskStatus::Paused
    }

    /// Whether the task has finished, successfully or not.
    pub fn is_done(&self) -> (terminal: bool)
        ensures
            terminal == is_terminal(self.status),
    {
        self.status == TaskStatus::Done || self.status == TaskStatus::Failed
    }

    /// Whether the task still waits: queued or stashed.
    pub fn is_queued(&self) -> (waiting: bool)
        ensures
            waiting == is_waiting(self.status),
    {
        self.status == TaskStatus::Queued || self.status == TaskStatus::Stashed
    }
}

/// Every status is of exactly one of the three sorts.
pub proof fn lemma_status_sorts(status: TaskStatus)
    ensures
        is_live(status) || is_terminal(status) || is_waiting(status),
        !(is_live(status) && is_terminal(status)),
        !(is_live(status) && is_waiting(status)),
        !(is_terminal(status) && is_waiting(status)),
{
}

} // verus!

//! The outcome of one run of a task's command, and its record.
use vstd::prelude::*;
use crate::clock::{now, UtcTime};
use crate::text::{chars_of, push_decimal, string_of};
use crate::types::{ExecutionRecord, Task};

verus! {

/// Raw outcome of one run, before any retry.
#[derive(Debug)]
pub struct ExecutionAttempt {
    pub stdout: String,
    pub stderr: String,
    pub exit_code: Option<i32>,
    /// Exit code 0 after a normal end.
    pub success: bool,
    /// Stopped because it ran past its timeout.
    pub timed_out: bool,
}

/// `Tâche '{id}' tuée après {timeout}s (timeout)`
pub open spec fn timeout_message(task_id: Seq<char>, timeout_seconds: u32) -> Seq<char> {
    "Tâche '"@ + task_id + "' tuée après "@ + crate::text::decimal(timeout_seconds as nat)
        + "s (timeout)"@
}

impl ExecutionAttempt {
    /// The process ended: it succeeded when it exited with code 0.
    pub fn finished(stdout: String, stderr: String, exit_code: Option<i32>) -> (a: ExecutionAttempt)
        ensures
            a.stdout == stdout,
            a.stderr == stderr,
            a.exit_code == exit_code,
            a.success == (exit_code == Some(0i32)),
            !a.timed_out,
    {
        let success = match exit_code {
            Some(c) => c == 0,
            None => false,
        };
        ExecutionAttempt { stdout, stderr, exit_code, success, timed_out: false }
    }

    /// The command could not be started; `error` is the system's message.
    pub fn spawn_failed(error: &str) -> (a: ExecutionAttempt)
        ensures
            a.stdout@ == Seq::<char>::empty(),
            a.stderr@ == "Impossible de lancer la commande : "@ + error@,
            a.exit_code is None,
            !a.success,
            !a.timed_out,
    {
        let mut m = chars_of("Impossible de lancer la commande : ");
        let mut e = chars_of(error);
        m.append(&mut e);
        ExecutionAttempt {
            stdout: String::new(),
            stderr: string_of(&m),
            exit_code: None,
            success: false,
            timed_out: false,
        }
    }

    /// Waiting for the process failed; `error` is the system's message.
    pub fn wait_failed(error: &str) -> (a: ExecutionAttempt)
        ensures
            a.stdout@ == Seq::<char>::empty(),
            a.stderr@ == "Erreur d'attente du processus : "@ + error@,
            a.exit_code is None,
            !a.success,
            !a.timed_out,
    {
        let mut m = chars_of("Erreur d'attente du processus : ");
        let mut e = chars_of(error);
        m.append(&mut e);
        ExecutionAttempt {
            stdout: String::new(),
            stderr: string_of(&m),
            exit_code: None,
            success: false,
            timed_out: false,
        }
    }

    /// The process was killed after running past the task's timeout.
    pub fn timed_out(task: &Task) -> (a: ExecutionAttempt)
        ensures
            a.stdout@ == Seq::<char>::empty(),
            a.stderr@ == timeout_message(task.id@, task.timeout_seconds),
            a.exit_code is None,
            !a.success,
            a.timed_out,
    {
        let mut m = chars_of("Tâche '");
        let mut id = chars_of(task.id.as_str());
        m.append(&mut id);
        let mut t = chars_of("' tuée après ");
        m.append(&mut t);
        push_decimal(&mut m, task.timeout_seconds as u64);
        let mut t2 = chars_of("s (timeout)");
        m.append(&mut t2);
        assert(m@ =~= timeout_message(task.id@, task.timeout_seconds));
        ExecutionAttempt {
            stdout: String::new(),
            stderr: string_of(&m),
            exit_code: None,
            success: false,
            timed_out: true,
        }
    }
}

/// The record of an attempt of `task` that started at `start` and ended at
/// `end`.
pub fn attempt_to_record_at(
    task: &Task,
    attempt: ExecutionAttempt,
    start: UtcTime,
    end: UtcTime,
) -> (r: ExecutionRecord)
    ensures
        r.task_id == task.id,
        r.start_time == start,
        r.end_time == Some(end),
        r.exit_code == attempt.exit_code,
        r.stdout == attempt.stdout,
        r.stderr == attempt.stderr,
        r.success == attempt.success,
{
    ExecutionRecord {
        task_id: task.id.clone(),
        start_time: start,
        end_time: Some(end),
        exit_code: attempt.exit_code,
        stdout: attempt.stdout,
        stderr: attempt.stderr,
        success: attempt.success,
    }
}

/// The record of an attempt of `task` that started at `start` and ends now.
pub fn attempt_to_record(task: &Task, attempt: ExecutionAttempt, start: UtcTime) -> (r: ExecutionRecord)
    ensures
        r.task_id == task.id,
        r.start_time == start,
        r.end_time matches Some(end) && end.wf(),
        r.exit_code == attempt.exit_code,
        r.stdout == attempt.stdout,
        r.stderr == attempt.stderr,
        r.success == attempt.success,
{
    let end = now();
    attempt_to_record_at(task, attempt, start, end)
}

} // verus!

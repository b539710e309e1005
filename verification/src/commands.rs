//! What is made of the commands that are run.

use vstd::prelude::*;

use crate::numbers::{decimal, decimal_u64};
use crate::trim::{trim, trimmed};

verus! {

/// The outcome of a command: what it wrote, without the white space around it, or
/// what is reported of its failure.
pub fn command_outcome(
    cmd: &str,
    success: bool,
    status: &str,
    stdout: &str,
    stderr: &str,
) -> (outcome: Result<String, String>)
    ensures
        match outcome {
            Ok(out) => success && out@ == trimmed(stdout@),
            Err(message) => !success && message@ == "Command "@ + cmd@ + " failed with status "@
                + status@ + ": "@ + stderr@,
        },
{
    if success {
        Ok(trim(stdout))
    } else {
        Err(
            "Command ".to_string()
                .concat(cmd)
                .concat(" failed with status ")
                .concat(status)
                .concat(": ")
                .concat(stderr),
        )
    }
}

/// Adds a line to what was captured of a command.
pub fn capture_line(log: &mut String, line: &str)
    ensures
        final(log)@ == old(log)@ + line@ + "\n"@,
{
    log.append(line);
    log.append("\n");
}

/// A line as it is shown: behind its prefix, where it has one.
pub open spec fn shown_line(prefix: Option<Seq<char>>, line: Seq<char>) -> Seq<char> {
    match prefix {
        Some(p) => "["@ + p + "] "@ + line,
        None => line,
    }
}

/// Puts the prefix before a line.
pub fn prefix_line(prefix: Option<&str>, line: &str) -> (out: String)
    ensures
        out@ == shown_line(crate::text::opt_str(prefix), line@),
{
    match prefix {
        Some(p) => "[".to_string().concat(p).concat("] ").concat(line),
        None => line.to_string(),
    }
}

/// The outcome of a Nix command that was given a time.
#[derive(Debug)]
pub enum NixCommandResult {
    /// It ended, with its exit code and its log.
    Completed { code: Option<i32>, logs: String },
    /// Its time ran out.
    TimedOut { logs: String },
    /// It could not be run.
    Failed { error: String },
}

/// How a Nix command came to its end.
#[derive(Debug)]
pub enum CommandEnd {
    /// It could not be started.
    NotSpawned { error: String },
    /// It ended; by a signal where there is no code.
    Exited { code: Option<i32> },
    /// Its end could not be waited for.
    NotWaited { error: String },
    /// Its time ran out first.
    TimedOut,
}

/// Tells the outcome of a Nix command from its end and what was captured.
pub fn command_result(cmd: &str, end: CommandEnd, captured: String) -> (result: NixCommandResult)
    ensures
        match end {
            CommandEnd::NotSpawned { error } => result matches NixCommandResult::Failed {
                error: message,
            } && message@ == "Failed to spawn "@ + cmd@ + ": "@ + error@,
            CommandEnd::Exited { code } => result == (NixCommandResult::Completed {
                code,
                logs: captured,
            }),
            CommandEnd::NotWaited { error } => result matches NixCommandResult::Failed {
                error: message,
            } && message@ == "Failed to wait for "@ + cmd@ + ": "@ + error@,
            CommandEnd::TimedOut => result == (NixCommandResult::TimedOut { logs: captured }),
        },
{
    match end {
        CommandEnd::NotSpawned { error } => NixCommandResult::Failed {
            error: "Failed to spawn ".to_string().concat(cmd).concat(": ").concat(error.as_str()),
        },
        CommandEnd::Exited { code } => NixCommandResult::Completed { code, logs: captured },
        CommandEnd::NotWaited { error } => NixCommandResult::Failed {
            error: "Failed to wait for ".to_string()
                .concat(cmd)
                .concat(": ")
                .concat(error.as_str()),
        },
        CommandEnd::TimedOut => NixCommandResult::TimedOut { logs: captured },
    }
}

/// Tells whether a build went well, and its log: one whose time ran out failed.
pub fn build_outcome(result: NixCommandResult, timeout_secs: u64) -> (outcome: (bool, String))
    ensures
        match result {
            NixCommandResult::Completed { code, logs } => outcome.0 == (code == Some(0i32))
                && outcome.1@ == logs@,
            NixCommandResult::TimedOut { logs } => !outcome.0 && outcome.1@ == logs@
                + "\nTimed out after "@ + decimal(timeout_secs as nat) + "s"@,
            NixCommandResult::Failed { error } => !outcome.0 && outcome.1@ == error@,
        },
{
    match result {
        NixCommandResult::Completed { code, logs } => {
            let ended_well = match code {
                Some(c) => c == 0,
                None => false,
            };
            (ended_well, logs)
        },
        NixCommandResult::TimedOut { logs } => (
            false,
            logs.concat("\nTimed out after ").concat(decimal_u64(timeout_secs).as_str()).concat(
                "s",
            ),
        ),
        NixCommandResult::Failed { error } => (false, error),
    }
}

/// The exit code and the log of a command, or what kept it from running. One whose
/// time ran out has no code, as one that a signal ended.
pub fn exit_and_log(result: NixCommandResult) -> (outcome: Result<(Option<i32>, String), String>)
    ensures
        match result {
            NixCommandResult::Completed { code, logs } => outcome == Ok::<
                (Option<i32>, String),
                String,
            >((code, logs)),
            NixCommandResult::TimedOut { logs } => outcome == Ok::<(Option<i32>, String), String>(
                (None, logs),
            ),
            NixCommandResult::Failed { error } => outcome == Err::<(Option<i32>, String), String>(
                error,
            ),
        },
{
    match result {
        NixCommandResult::Completed { code, logs } => Ok((code, logs)),
        NixCommandResult::TimedOut { logs } => Ok((None, logs)),
        NixCommandResult::Failed { error } => Err(error),
    }
}

/// Running a Nix command: what is to be done about it.
#[derive(Clone, Copy, PartialEq, Eq, Structural, Debug)]
pub enum CommandWait {
    /// Wait for its end or for the time to run out.
    Running,
    /// It ended: read the rest of its output.
    DrainAll,
    /// Its time ran out: kill it, and read its output for two more seconds.
    KillAndDrain,
}

/// What happened first.
#[derive(Clone, Copy, PartialEq, Eq, Structural, Debug)]
pub enum CommandEvent {
    Ended,
    TimeRanOut,
}

/// What is to be done after an event: the first one counts.
pub open spec fn wait_next(wait: CommandWait, event: CommandEvent) -> CommandWait {
    if wait == CommandWait::Running {
        match event {
            CommandEvent::Ended => CommandWait::DrainAll,
            CommandEvent::TimeRanOut => CommandWait::KillAndDrain,
        }
    } else {
        wait
    }
}

/// Takes an event of a Nix command.
pub fn advance_wait(wait: CommandWait, event: CommandEvent) -> (after: CommandWait)
    ensures
        after == wait_next(wait, event),
{
    match wait {
        CommandWait::Running => match event {
            CommandEvent::Ended => CommandWait::DrainAll,
            CommandEvent::TimeRanOut => CommandWait::KillAndDrain,
        },
        _ => wait,
    }
}

/// A command that ended in time is not killed, whatever comes later.
pub proof fn law_ended_command_is_not_killed(later: CommandEvent)
    ensures
        wait_next(wait_next(CommandWait::Running, CommandEvent::Ended), later)
            == CommandWait::DrainAll,
{
}

/// Of the end of a command and the end of its time, the first decides what is done about
/// it, and what comes later changes nothing: it is killed exactly where its time ran out
/// first.
pub proof fn law_first_event_decides(first: CommandEvent, later: CommandEvent)
    ensures
        wait_next(CommandWait::Running, first) == CommandWait::KillAndDrain <==> first
            == CommandEvent::TimeRanOut,
        wait_next(CommandWait::Running, first) == CommandWait::DrainAll <==> first
            == CommandEvent::Ended,
        wait_next(wait_next(CommandWait::Running, first), later) == wait_next(
            CommandWait::Running,
            first,
        ),
{
}

/// A line is shown whole, and with a prefix that stands before it in brackets.
pub proof fn law_line_is_shown(prefix: Seq<char>, line: Seq<char>)
    ensures
        shown_line(None, line) == line,
        shown_line(Some(prefix), line) == "["@ + prefix + "] "@ + shown_line(None, line),
{
}

} // verus!

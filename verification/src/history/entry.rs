//! An entry of the command history.

use vstd::prelude::*;

verus! {

/// An instant, and how local time differed from UTC then.
#[derive(Debug, Clone, Copy, PartialEq, Eq, Structural)]
pub struct LocalTimestamp {
    /// Whole seconds since the start of 1970, UTC.
    pub seconds: i64,
    /// Nanoseconds since the last whole second.
    pub subsec_nanos: u32,
    /// Seconds by which local time was ahead of UTC.
    pub utc_offset: i32,
}

/// The exit code of a command.
#[derive(Debug, Clone, Copy, PartialEq, Eq, Structural)]
pub struct ExitCode {
    pub value: i32,
}

/// A command that was run, and what is known of the run.
#[derive(Debug)]
pub struct HistoryEntry {
    /// The command.
    pub command: String,
    /// The directory it was run in.
    pub pwd: Option<String>,
    /// When it was run.
    pub start_ts: Option<LocalTimestamp>,
    /// How it ended.
    pub exit_code: Option<ExitCode>,
    /// Whether an agent ran it rather than the user.
    pub is_agent_executed: bool,
}

/// What is known of a command that was run.
pub struct EntryView {
    pub command: Seq<char>,
    pub pwd: Option<Seq<char>>,
    pub start_ts: Option<LocalTimestamp>,
    pub exit_code: Option<ExitCode>,
    pub is_agent_executed: bool,
}

impl View for HistoryEntry {
    type V = EntryView;

    open spec fn view(&self) -> EntryView {
        EntryView {
            command: self.command@,
            pwd: match self.pwd {
                Some(pwd) => Some(pwd@),
                None => None,
            },
            start_ts: self.start_ts,
            exit_code: self.exit_code,
            is_agent_executed: self.is_agent_executed,
        }
    }
}

impl ExitCode {
    /// The code as a number.
    pub fn value(&self) -> (r: i32)
        ensures
            r == self.value,
    {
        self.value
    }
}

impl HistoryEntry {
    /// An entry of which only the command is known.
    pub fn command_only(command: String) -> (r: HistoryEntry)
        ensures
            r@ == (EntryView {
                command: command@,
                pwd: None,
                start_ts: None,
                exit_code: None,
                is_agent_executed: false,
            }),
            r.command@ == command@,
            r.pwd is None && r.start_ts is None && r.exit_code is None && !r.is_agent_executed,
    {
        HistoryEntry {
            command,
            pwd: None,
            start_ts: None,
            exit_code: None,
            is_agent_executed: false,
        }
    }
}

} // verus!

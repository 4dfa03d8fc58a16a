//! What the guard asks of its host, and what the host answers.

use vstd::prelude::*;
use crate::config::LogOverrides;
use crate::signal::StopSignal;

verus! {

/// A file of an application, by what it is for.
#[derive(Clone, Copy, Debug, PartialEq, Eq, Structural)]
pub enum Place {
    Invalid,
    Suspended,
    LogConf,
    Start,
    PidFile,
    DisableFile,
    Stop,
    SignalFile,
}

/// A signal that the guard sends.
#[derive(Clone, Copy, Debug, PartialEq, Eq, Structural)]
pub enum Signal {
    /// The null signal: it only asks whether the target exists.
    Probe,
    Deliver(StopSignal),
    /// `SIGSTOP`.
    Freeze,
    /// `SIGCONT`.
    Resume,
}

/// Whom a signal is for.
#[derive(Clone, Copy, Debug, PartialEq, Eq, Structural)]
pub enum Target {
    Process(i32),
    Group(i32),
}

impl Target {
    /// The number that `kill` takes: a process by its number, a group by the
    /// negated number of the group.
    pub open spec fn number(self) -> i32 {
        match self {
            Target::Process(pid) => pid,
            Target::Group(group) => if group == i32::MIN {
                group
            } else {
                (-group) as i32
            },
        }
    }

    /// The number that `kill` takes.
    pub fn raw(self) -> (r: i32)
        ensures
            r == self.number(),
    {
        match self {
            Target::Process(pid) => pid,
            Target::Group(group) => if group == i32::MIN {
                group
            } else {
                -group
            },
        }
    }
}

/// A process's leader and its group, as the PID file records them.
#[derive(Clone, Copy, Debug, PartialEq, Eq, Structural)]
pub struct PidRecord {
    pub pid: i32,
    pub process_group: i32,
}

/// Why a signal was not sent.
#[derive(Clone, Copy, Debug, PartialEq, Eq, Structural)]
pub enum Refusal {
    /// `ESRCH`.
    NoSuchProcess,
    /// `EPERM`.
    NotPermitted,
    Other,
}

/// What came of sending a signal.
#[derive(Debug, PartialEq, Eq)]
pub enum KillReply {
    Delivered,
    Refused { refusal: Refusal, error: String },
}

/// How a child process ended, and the system's words for it.
#[derive(Debug, PartialEq, Eq)]
pub struct ExitReport {
    pub code: Option<i32>,
    pub signal: Option<i32>,
    pub text: String,
}

/// What the guard looks at in a file's metadata.
#[derive(Clone, Copy, Debug, PartialEq, Eq, Structural)]
pub struct FileMetadata {
    pub is_file: bool,
    pub mode: u32,
}

/// A text file, where it could be read.
#[derive(Debug, PartialEq, Eq)]
pub enum TextFile {
    Missing,
    Unreadable(String),
    Text(String),
}

/// An application's `log.conf`.
#[derive(Debug)]
pub enum LogFile {
    Missing,
    Unreadable(String),
    Malformed(String),
    Parsed(LogOverrides),
}

/// An application's PID file: its text, and what the text is as TOML.
#[derive(Debug, PartialEq, Eq)]
pub enum PidFile {
    Missing,
    Unreadable(String),
    Text { text: String, toml: Result<PidRecord, String> },
}

/// What came of removing a file.
#[derive(Debug, PartialEq, Eq)]
pub enum RemoveReply {
    Removed,
    Missing,
    Failed(String),
}

/// What came of writing an invalid marker.
#[derive(Debug, PartialEq, Eq)]
pub enum MarkReply {
    Written,
    NotEncoded(String),
    NotWritten(String),
}

/// A command of an application that the shell runs.
#[derive(Clone, Copy, Debug, PartialEq, Eq, Structural)]
pub enum Shell {
    Stop,
    Healthcheck,
}

/// What the guard asks its host to do for an application.
#[derive(Clone, Copy, Debug, PartialEq, Eq, Structural)]
pub enum Request {
    /// Whether a file exists.
    Exists(Place),
    /// The metadata of the start program.
    InspectStart,
    /// Read and parse `log.conf`.
    ReadLogConf,
    /// Read the PID file, and parse it as TOML.
    ReadPidFile,
    /// Read the file that names the stop signal.
    ReadSignalFile,
    /// Remove the PID file.
    RemovePidFile,
    Kill { target: Target, signal: Signal },
    /// Open the files that the application's output goes to.
    OpenOutputs,
    /// Note the time, and spawn the start program.
    SpawnApp,
    SpawnShell(Shell),
    /// Write the PID file, atomically.
    WritePidRecord(PidRecord),
    /// Note the time that is so many seconds ahead.
    ArmDeadline { secs: u64 },
    /// Whether the child has ended, without waiting for it.
    PollChild,
    /// Whether the noted time has come.
    CheckDeadline,
    Sleep { micros: u64 },
    /// Wait until the child has ended.
    ReapChild,
    /// How long ago it was noted that the start program was to be spawned.
    MeasureStartup,
    /// Write the invalid marker, atomically.
    MarkInvalid,
}

/// What the host answers.
#[derive(Debug)]
pub enum Reply {
    Exists(Result<bool, String>),
    Metadata(Result<FileMetadata, String>),
    LogConf(LogFile),
    PidFile(PidFile),
    SignalFile(TextFile),
    Removed(RemoveReply),
    Killed(KillReply),
    Opened(Result<(), String>),
    Spawned(Result<i32, String>),
    Written(Result<(), String>),
    Armed(bool),
    Child(Result<Option<ExitReport>, String>),
    Expired(bool),
    Slept,
    Reaped,
    Startup { millis: u128 },
    Marked(MarkReply),
}

/// Where a procedure stands: it waits for the answer to a request, or it is done.
#[derive(Debug)]
pub enum Next<S, D> {
    Ask(S),
    Done(D),
}

} // verus!

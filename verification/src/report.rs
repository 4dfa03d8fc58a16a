//! What can go wrong, and what is worth telling.

use vstd::prelude::*;
use crate::host::{ExitReport, Next, PidRecord, Place, Target};
use crate::process::CommandOutcome;

verus! {

/// Why a child could not be waited for.
#[derive(Debug, PartialEq, Eq)]
pub enum WaitFailure {
    TimeoutTooLarge,
    Os(String),
}

/// Why a command gave no outcome.
#[derive(Debug, PartialEq, Eq)]
pub enum ExecFailure {
    CannotRun(String),
    Waiting(WaitFailure),
    TimedOut,
    KilledBySignal(Option<i32>),
}

/// Why something could not be found out or done.
#[derive(Debug, PartialEq, Eq)]
pub enum Failure {
    CannotProbe { target: Target, error: String },
    CannotSignal { target: Target, error: String },
    OutsideGroup { record: PidRecord },
    CannotRead { place: Place, error: String },
    CannotRemove { place: Place, error: String },
    CannotCheck { place: Place, error: String },
    InvalidPidFile { error: String },
    InvalidPidValues,
    StopTimeoutTooLarge,
    SurvivedKill { process_group: i32 },
    BadStopSignal { text: String },
    CannotInspectStart { error: String },
    StartNotAFile,
    StartNotExecutable,
    BadLogConf { error: String },
    CannotCheckDisableFile { error: String },
}

/// Why an application is stopped.
#[derive(Clone, Copy, Debug, PartialEq, Eq, Structural)]
pub enum StopReason {
    Disabled,
    Unhealthy,
}

/// Why an application is marked invalid.
#[derive(Debug, PartialEq, Eq)]
pub enum Cause {
    InvalidStartProgram(Failure),
    InvalidLogConfiguration(Failure),
    InvalidProcessState(Failure),
    LogOpenFailed(String),
    StartupSpawnFailed(String),
    PidFileWriteFailed { pid: i32, error: String },
    StartupExitedEarly { pid: i32, status: ExitReport, millis: u128 },
    StartupObservationFailed { pid: i32, failure: WaitFailure, millis: u128 },
    OrphanedProcessGroup { pid: i32 },
}

/// What a check of an application came to.
#[derive(Clone, Copy, Debug, PartialEq, Eq, Structural)]
pub enum AppCheckResult {
    Idle,
    Started,
    Stopped,
    Restarted,
    Quarantined,
    SkippedInvalid,
    SkippedUnmanaged,
    Failed,
}

/// An entry for the guard's log.
#[derive(Debug, PartialEq, Eq)]
pub enum Note {
    Failed(Failure),
    CannotCheckInvalidMarker(String),
    CannotEncodeMarker(String),
    CannotWriteMarker(String),
    MarkedInvalid(Cause),
    StopCommandReturned(CommandOutcome),
    StopCommandFailed(ExecFailure),
    SendingKill { reason: StopReason, process_group: i32 },
    Stopped { reason: StopReason, pid: i32 },
    Started { pid: i32 },
    UnexpectedHealth(i32),
    HealthcheckFailed(ExecFailure),
}

/// A procedure's next move, with an entry for the log where there is one.
#[derive(Debug)]
pub struct Step<S, D> {
    pub note: Option<Note>,
    pub next: Next<S, D>,
}

pub open spec fn asking<S, D>(state: S) -> Step<S, D> {
    Step { note: None, next: Next::Ask(state) }
}

pub open spec fn finished<S, D>(result: D) -> Step<S, D> {
    Step { note: None, next: Next::Done(result) }
}

/// The move that makes the next request.
pub fn ask<S, D>(state: S) -> (r: Step<S, D>)
    ensures
        r == asking::<S, D>(state),
{
    Step { note: None, next: Next::Ask(state) }
}

/// The move that ends the procedure.
pub fn done<S, D>(result: D) -> (r: Step<S, D>)
    ensures
        r == finished::<S, D>(result),
{
    Step { note: None, next: Next::Done(result) }
}

} // verus!

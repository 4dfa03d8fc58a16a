//! The procedures that start an application and that mark one invalid.

use vstd::prelude::*;
use crate::config::{AppSpec, LogOverrides};
use crate::host::{
    ExitReport, MarkReply, Next, PidRecord, Place, Reply, Request, Signal, Target,
};
use crate::process::{Wait, WaitResult};
use crate::report::{
    ask, asking, done, finished, AppCheckResult, Cause, Failure, Note, Step, WaitFailure,
};
use crate::signal::StopSignal;

verus! {

pub type CheckStep<S> = Step<S, AppCheckResult>;

/// The quarantine of an application: an invalid marker is written, unless there
/// is one already.
#[derive(Debug)]
pub enum Quarantine {
    Looking(Cause),
    Marking(Cause),
}

impl Quarantine {
    pub open spec fn asks(self) -> Request {
        match self {
            Quarantine::Looking(_) => Request::Exists(Place::Invalid),
            Quarantine::Marking(_) => Request::MarkInvalid,
        }
    }

    /// The request that the procedure stands at.
    pub fn request(&self) -> (r: Request)
        ensures
            r == self.asks(),
    {
        match self {
            Quarantine::Looking(_) => Request::Exists(Place::Invalid),
            Quarantine::Marking(_) => Request::MarkInvalid,
        }
    }

    pub open spec fn why(self) -> Cause {
        match self {
            Quarantine::Looking(cause) => cause,
            Quarantine::Marking(cause) => cause,
        }
    }

    /// Why the application is marked invalid.
    pub fn cause(&self) -> (r: &Cause)
        ensures
            *r == self.why(),
    {
        match self {
            Quarantine::Looking(cause) => cause,
            Quarantine::Marking(cause) => cause,
        }
    }

    pub open spec fn after(self, reply: Reply) -> CheckStep<Quarantine> {
        match (self, reply) {
            (Quarantine::Looking(cause), Reply::Exists(exists)) => match exists {
                Ok(true) => finished(AppCheckResult::SkippedInvalid),
                Ok(false) => asking(Quarantine::Marking(cause)),
                Err(error) => Step {
                    note: Some(
                        Note::Failed(Failure::CannotCheck { place: Place::Invalid, error }),
                    ),
                    next: Next::Done(AppCheckResult::Failed),
                },
            },
            (Quarantine::Marking(cause), Reply::Marked(marked)) => match marked {
                MarkReply::Written => Step {
                    note: Some(Note::MarkedInvalid(cause)),
                    next: Next::Done(AppCheckResult::Quarantined),
                },
                MarkReply::NotEncoded(error) => Step {
                    note: Some(Note::CannotEncodeMarker(error)),
                    next: Next::Done(AppCheckResult::Failed),
                },
                MarkReply::NotWritten(error) => Step {
                    note: Some(Note::CannotWriteMarker(error)),
                    next: Next::Done(AppCheckResult::Failed),
                },
            },
            _ => asking(self),
        }
    }

    /// Goes on with the host's answer. An answer to another request changes
    /// nothing.
    pub fn step(self, reply: Reply) -> (r: CheckStep<Quarantine>)
        ensures
            r == self.after(reply),
    {
        match (self, reply) {
            (Quarantine::Looking(cause), Reply::Exists(exists)) => match exists {
                Ok(true) => done(AppCheckResult::SkippedInvalid),
                Ok(false) => ask(Quarantine::Marking(cause)),
                Err(error) => Step {
                    note: Some(
                        Note::Failed(Failure::CannotCheck { place: Place::Invalid, error }),
                    ),
                    next: Next::Done(AppCheckResult::Failed),
                },
            },
            (Quarantine::Marking(cause), Reply::Marked(marked)) => match marked {
                MarkReply::Written => Step {
                    note: Some(Note::MarkedInvalid(cause)),
                    next: Next::Done(AppCheckResult::Quarantined),
                },
                MarkReply::NotEncoded(error) => Step {
                    note: Some(Note::CannotEncodeMarker(error)),
                    next: Next::Done(AppCheckResult::Failed),
                },
                MarkReply::NotWritten(error) => Step {
                    note: Some(Note::CannotWriteMarker(error)),
                    next: Next::Done(AppCheckResult::Failed),
                },
            },
            (state, _) => ask(state),
        }
    }
}

/// The start of an application: it is spawned, recorded, and observed for its
/// validation time. An end within that time, or a failure on the way, kills what
/// was spawned and marks the application invalid.
#[derive(Debug)]
pub enum Start {
    /// Opening the output files that the settings name; the overrides are those
    /// of `log.conf`.
    Opening { conf: Option<LogOverrides> },
    Spawning,
    Recording { pid: i32 },
    /// The record could not be written.
    UnrecordedKill { pid: i32, error: String },
    UnrecordedReap { pid: i32, error: String },
    Observing { pid: i32, wait: Wait },
    /// It ended while it was observed.
    EndedKill { pid: i32, status: ExitReport },
    EndedRemove { pid: i32, status: ExitReport },
    EndedMeasure { pid: i32, status: ExitReport },
    /// It could not be observed.
    UnseenKill { pid: i32, failure: WaitFailure },
    UnseenReap { pid: i32, failure: WaitFailure },
    UnseenRemove { pid: i32, failure: WaitFailure },
    UnseenMeasure { pid: i32, failure: WaitFailure },
    Quarantining(Quarantine),
}

/// The request that kills a whole process group.
pub open spec fn group_kill(group: i32) -> Request {
    Request::Kill { target: Target::Group(group), signal: Signal::Deliver(StopSignal::Kill) }
}

/// The request that kills a whole process group.
pub fn kill_group(group: i32) -> (r: Request)
    ensures
        r == group_kill(group),
{
    Request::Kill { target: Target::Group(group), signal: Signal::Deliver(StopSignal::Kill) }
}

impl Start {
    pub open spec fn asks(self) -> Request {
        match self {
            Start::Opening { .. } => Request::OpenOutputs,
            Start::Spawning => Request::SpawnApp,
            Start::Recording { pid } => Request::WritePidRecord(
                PidRecord { pid, process_group: pid },
            ),
            Start::UnrecordedKill { pid, .. } => group_kill(pid),
            Start::UnrecordedReap { .. } => Request::ReapChild,
            Start::Observing { wait, .. } => wait.asks(),
            Start::EndedKill { pid, .. } => group_kill(pid),
            Start::EndedRemove { .. } => Request::RemovePidFile,
            Start::EndedMeasure { .. } => Request::MeasureStartup,
            Start::UnseenKill { pid, .. } => group_kill(pid),
            Start::UnseenReap { .. } => Request::ReapChild,
            Start::UnseenRemove { .. } => Request::RemovePidFile,
            Start::UnseenMeasure { .. } => Request::MeasureStartup,
            Start::Quarantining(quarantine) => quarantine.asks(),
        }
    }

    /// The request that the procedure stands at.
    pub fn request(&self) -> (r: Request)
        ensures
            r == self.asks(),
    {
        match self {
            Start::Opening { .. } => Request::OpenOutputs,
            Start::Spawning => Request::SpawnApp,
            Start::Recording { pid } => Request::WritePidRecord(
                PidRecord { pid: *pid, process_group: *pid },
            ),
            Start::UnrecordedKill { pid, .. } => kill_group(*pid),
            Start::UnrecordedReap { .. } => Request::ReapChild,
            Start::Observing { wait, .. } => wait.request(),
            Start::EndedKill { pid, .. } => kill_group(*pid),
            Start::EndedRemove { .. } => Request::RemovePidFile,
            Start::EndedMeasure { .. } => Request::MeasureStartup,
            Start::UnseenKill { pid, .. } => kill_group(*pid),
            Start::UnseenReap { .. } => Request::ReapChild,
            Start::UnseenRemove { .. } => Request::RemovePidFile,
            Start::UnseenMeasure { .. } => Request::MeasureStartup,
            Start::Quarantining(quarantine) => quarantine.request(),
        }
    }

    pub open spec fn marks(self) -> Option<Cause> {
        match self {
            Start::Quarantining(quarantine) => Some(quarantine.why()),
            _ => None,
        }
    }

    /// Why the application is being marked invalid, where it is.
    pub fn cause(&self) -> (r: Option<&Cause>)
        ensures
            match (r, self.marks()) {
                (Some(cause), Some(expected)) => *cause == expected,
                (None, None) => true,
                _ => false,
            },
    {
        match self {
            Start::Quarantining(quarantine) => Some(quarantine.cause()),
            _ => None,
        }
    }

    pub open spec fn quarantined(cause: Cause) -> Start {
        Start::Quarantining(Quarantine::Looking(cause))
    }

    pub open spec fn after(self, app: AppSpec, reply: Reply) -> CheckStep<Start> {
        match (self, reply) {
            (Start::Opening { .. }, Reply::Opened(opened)) => match opened {
                Ok(()) => asking(Start::Spawning),
                Err(error) => asking(Start::quarantined(Cause::LogOpenFailed(error))),
            },
            (Start::Spawning, Reply::Spawned(spawned)) => match spawned {
                Ok(pid) => asking(Start::Recording { pid }),
                Err(error) => asking(Start::quarantined(Cause::StartupSpawnFailed(error))),
            },
            (Start::Recording { pid }, Reply::Written(written)) => match written {
                Ok(()) => asking(
                    Start::Observing { pid, wait: Wait::Arming { secs: app.startup_validation } },
                ),
                Err(error) => asking(Start::UnrecordedKill { pid, error }),
            },
            (Start::UnrecordedKill { pid, error }, Reply::Killed(_)) => asking(
                Start::UnrecordedReap { pid, error },
            ),
            (Start::UnrecordedReap { pid, error }, Reply::Reaped) => asking(
                Start::quarantined(Cause::PidFileWriteFailed { pid, error }),
            ),
            (Start::Observing { pid, wait }, reply) => match wait.after(reply) {
                Next::Ask(wait) => asking(Start::Observing { pid, wait }),
                Next::Done(WaitResult::TimedOut) => Step {
                    note: Some(Note::Started { pid }),
                    next: Next::Done(AppCheckResult::Started),
                },
                Next::Done(WaitResult::Exited(status)) => asking(Start::EndedKill { pid, status }),
                Next::Done(WaitResult::Failed(failure)) => asking(
                    Start::UnseenKill { pid, failure },
                ),
            },
            (Start::EndedKill { pid, status }, Reply::Killed(_)) => asking(
                Start::EndedRemove { pid, status },
            ),
            (Start::EndedRemove { pid, status }, Reply::Removed(_)) => asking(
                Start::EndedMeasure { pid, status },
            ),
            (Start::EndedMeasure { pid, status }, Reply::Startup { millis }) => asking(
                Start::quarantined(Cause::StartupExitedEarly { pid, status, millis }),
            ),
            (Start::UnseenKill { pid, failure }, Reply::Killed(_)) => asking(
                Start::UnseenReap { pid, failure },
            ),
            (Start::UnseenReap { pid, failure }, Reply::Reaped) => asking(
                Start::UnseenRemove { pid, failure },
            ),
            (Start::UnseenRemove { pid, failure }, Reply::Removed(_)) => asking(
                Start::UnseenMeasure { pid, failure },
            ),
            (Start::UnseenMeasure { pid, failure }, Reply::Startup { millis }) => asking(
                Start::quarantined(Cause::StartupObservationFailed { pid, failure, millis }),
            ),
            (Start::Quarantining(quarantine), reply) => {
                let step = quarantine.after(reply);
                Step {
                    note: step.note,
                    next: match step.next {
                        Next::Ask(quarantine) => Next::Ask(Start::Quarantining(quarantine)),
                        Next::Done(result) => Next::Done(result),
                    },
                }
            },
            _ => asking(self),
        }
    }

    /// Goes on with the host's answer. An answer to another request changes
    /// nothing.
    pub fn step(self, app: &AppSpec, reply: Reply) -> (r: CheckStep<Start>)
        ensures
            r == self.after(*app, reply),
    {
        match (self, reply) {
            (Start::Opening { .. }, Reply::Opened(opened)) => match opened {
                Ok(()) => ask(Start::Spawning),
                Err(error) => ask(quarantine(Cause::LogOpenFailed(error))),
            },
            (Start::Spawning, Reply::Spawned(spawned)) => match spawned {
                Ok(pid) => ask(Start::Recording { pid }),
                Err(error) => ask(quarantine(Cause::StartupSpawnFailed(error))),
            },
            (Start::Recording { pid }, Reply::Written(written)) => match written {
                Ok(()) => ask(
                    Start::Observing { pid, wait: Wait::Arming { secs: app.startup_validation } },
                ),
                Err(error) => ask(Start::UnrecordedKill { pid, error }),
            },
            (Start::UnrecordedKill { pid, error }, Reply::Killed(_)) => ask(
                Start::UnrecordedReap { pid, error },
            ),
            (Start::UnrecordedReap { pid, error }, Reply::Reaped) => ask(
                quarantine(Cause::PidFileWriteFailed { pid, error }),
            ),
            (Start::Observing { pid, wait }, reply) => match wait.step(reply) {
                Next::Ask(wait) => ask(Start::Observing { pid, wait }),
                Next::Done(WaitResult::TimedOut) => Step {
                    note: Some(Note::Started { pid }),
                    next: Next::Done(AppCheckResult::Started),
                },
                Next::Done(WaitResult::Exited(status)) => ask(Start::EndedKill { pid, status }),
                Next::Done(WaitResult::Failed(failure)) => ask(Start::UnseenKill { pid, failure }),
            },
            (Start::EndedKill { pid, status }, Reply::Killed(_)) => ask(
                Start::EndedRemove { pid, status },
            ),
            (Start::EndedRemove { pid, status }, Reply::Removed(_)) => ask(
                Start::EndedMeasure { pid, status },
            ),
            (Start::EndedMeasure { pid, status }, Reply::Startup { millis }) => ask(
                quarantine(Cause::StartupExitedEarly { pid, status, millis }),
            ),
            (Start::UnseenKill { pid, failure }, Reply::Killed(_)) => ask(
                Start::UnseenReap { pid, failure },
            ),
            (Start::UnseenReap { pid, failure }, Reply::Reaped) => ask(
                Start::UnseenRemove { pid, failure },
            ),
            (Start::UnseenRemove { pid, failure }, Reply::Removed(_)) => ask(
                Start::UnseenMeasure { pid, failure },
            ),
            (Start::UnseenMeasure { pid, failure }, Reply::Startup { millis }) => ask(
                quarantine(Cause::StartupObservationFailed { pid, failure, millis }),
            ),
            (Start::Quarantining(quarantine), reply) => {
                let step = quarantine.step(reply);
                Step {
                    note: step.note,
                    next: match step.next {
                        Next::Ask(quarantine) => Next::Ask(Start::Quarantining(quarantine)),
                        Next::Done(result) => Next::Done(result),
                    },
                }
            },
            (state, _) => ask(state),
        }
    }
}

fn quarantine(cause: Cause) -> (r: Start)
    ensures
        r == Start::quarantined(cause),
{
    Start::Quarantining(Quarantine::Looking(cause))
}

} // verus!

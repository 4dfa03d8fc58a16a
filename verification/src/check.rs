//! The check of one application.

use vstd::prelude::*;
use crate::config::{AppSpec, LogOverrides};
use crate::host::{
    FileMetadata, LogFile, Next, PidRecord, Place, RemoveReply, Reply, Request, Shell,
};
use crate::process::{CommandOutcome, Exec, KnownState, ProcessState, Query};
use crate::report::{
    ask, asking, done, finished, AppCheckResult, Cause, Failure, Note, Step, StopReason,
};
use crate::start::{group_kill, kill_group, CheckStep, Quarantine, Start};
use crate::stop::Stop;

verus! {

/// The permission bits of which a program needs one to be executable.
pub const EXECUTE_BITS: u32 = 0x49;

/// What is wrong with a start program: it has to be a file that somebody may
/// execute.
pub open spec fn start_program(observed: Result<FileMetadata, String>) -> Result<(), Failure> {
    match observed {
        Err(error) => Err(Failure::CannotInspectStart { error }),
        Ok(metadata) => if !metadata.is_file {
            Err(Failure::StartNotAFile)
        } else if metadata.mode & EXECUTE_BITS == 0 {
            Err(Failure::StartNotExecutable)
        } else {
            Ok(())
        },
    }
}

/// Decides whether the start program will do.
pub fn validate_app_files(observed: Result<FileMetadata, String>) -> (r: Result<(), Failure>)
    ensures
        r == start_program(observed),
{
    match observed {
        Err(error) => Err(Failure::CannotInspectStart { error }),
        Ok(metadata) => if !metadata.is_file {
            Err(Failure::StartNotAFile)
        } else if metadata.mode & EXECUTE_BITS == 0 {
            Err(Failure::StartNotExecutable)
        } else {
            Ok(())
        },
    }
}

/// What an application's `log.conf` overrides.
pub open spec fn log_overrides(file: LogFile) -> Result<Option<LogOverrides>, Failure> {
    match file {
        LogFile::Missing => Ok(None),
        LogFile::Unreadable(error) => Err(Failure::BadLogConf { error }),
        LogFile::Malformed(error) => Err(Failure::BadLogConf { error }),
        LogFile::Parsed(overrides) => Ok(Some(overrides)),
    }
}

/// What an application's `log.conf` overrides.
pub fn read_log_conf(file: LogFile) -> (r: Result<Option<LogOverrides>, Failure>)
    ensures
        r == log_overrides(file),
{
    match file {
        LogFile::Missing => Ok(None),
        LogFile::Unreadable(error) => Err(Failure::BadLogConf { error }),
        LogFile::Malformed(error) => Err(Failure::BadLogConf { error }),
        LogFile::Parsed(overrides) => Ok(Some(overrides)),
    }
}

/// Whether an application is disabled, as far as could be seen.
pub open spec fn disabled_state(observed: Result<bool, String>) -> Result<bool, Failure> {
    match observed {
        Ok(exists) => Ok(exists),
        Err(error) => Err(Failure::CannotCheckDisableFile { error }),
    }
}

/// Whether an application is disabled, as far as could be seen.
pub fn read_disabled(observed: Result<bool, String>) -> (r: Result<bool, Failure>)
    ensures
        r == disabled_state(observed),
{
    match observed {
        Ok(exists) => Ok(exists),
        Err(error) => Err(Failure::CannotCheckDisableFile { error }),
    }
}

/// The check of an application, from the look for an invalid marker to the end
/// of whatever has to be done about it.
#[derive(Debug)]
pub enum Check {
    /// Is the application quarantined?
    Marker,
    /// Is its start program in order?
    Inspecting,
    /// Are its log settings in order?
    LogConf,
    /// Does it run?
    Querying { conf: Option<LogOverrides>, query: Query },
    /// Is it disabled?
    Disabling { conf: Option<LogOverrides>, known: KnownState },
    /// It is disabled and does not run.
    Clearing,
    /// It is disabled and runs.
    Stopping(Stop),
    /// It does not run, and should.
    Preparing { conf: Option<LogOverrides> },
    /// Its leader is gone, and its group is not.
    OrphanKill(PidRecord),
    OrphanRemove(PidRecord),
    /// It runs: is it healthy?
    Probing { conf: Option<LogOverrides>, record: PidRecord, run: Exec },
    /// It is not.
    Unhealthy { conf: Option<LogOverrides>, stop: Stop },
    Starting { start: Start, again: bool },
    Quarantining(Quarantine),
}

/// What the end of a start means for the check.
pub open spec fn start_result(result: AppCheckResult, again: bool) -> AppCheckResult {
    if again && result == AppCheckResult::Started {
        AppCheckResult::Restarted
    } else {
        result
    }
}

impl Check {
    pub open spec fn begun(app: AppSpec) -> CheckStep<Check> {
        if app.managed {
            asking(Check::Marker)
        } else {
            finished(AppCheckResult::SkippedUnmanaged)
        }
    }

    /// Begins the check of an application.
    pub fn begin(app: &AppSpec) -> (r: CheckStep<Check>)
        ensures
            r == Check::begun(*app),
    {
        if app.managed {
            ask(Check::Marker)
        } else {
            done(AppCheckResult::SkippedUnmanaged)
        }
    }

    pub open spec fn asks(self) -> Request {
        match self {
            Check::Marker => Request::Exists(Place::Invalid),
            Check::Inspecting => Request::InspectStart,
            Check::LogConf => Request::ReadLogConf,
            Check::Querying { query, .. } => query.asks(),
            Check::Disabling { .. } => Request::Exists(Place::DisableFile),
            Check::Clearing => Request::RemovePidFile,
            Check::Stopping(stop) => stop.asks(),
            Check::Preparing { .. } => Request::RemovePidFile,
            Check::OrphanKill(record) => group_kill(record.process_group),
            Check::OrphanRemove(_) => Request::RemovePidFile,
            Check::Probing { run, .. } => run.asks(),
            Check::Unhealthy { stop, .. } => stop.asks(),
            Check::Starting { start, .. } => start.asks(),
            Check::Quarantining(quarantine) => quarantine.asks(),
        }
    }

    /// The request that the check stands at.
    pub fn request(&self) -> (r: Request)
        ensures
            r == self.asks(),
    {
        match self {
            Check::Marker => Request::Exists(Place::Invalid),
            Check::Inspecting => Request::InspectStart,
            Check::LogConf => Request::ReadLogConf,
            Check::Querying { query, .. } => query.request(),
            Check::Disabling { .. } => Request::Exists(Place::DisableFile),
            Check::Clearing => Request::RemovePidFile,
            Check::Stopping(stop) => stop.request(),
            Check::Preparing { .. } => Request::RemovePidFile,
            Check::OrphanKill(record) => kill_group(record.process_group),
            Check::OrphanRemove(_) => Request::RemovePidFile,
            Check::Probing { run, .. } => run.request(),
            Check::Unhealthy { stop, .. } => stop.request(),
            Check::Starting { start, .. } => start.request(),
            Check::Quarantining(quarantine) => quarantine.request(),
        }
    }

    pub open spec fn marks(self) -> Option<Cause> {
        match self {
            Check::Starting { start, .. } => start.marks(),
            Check::Quarantining(quarantine) => Some(quarantine.why()),
            _ => None,
        }
    }

    /// Why the application is being marked invalid, where it is: what the host
    /// needs for `Request::MarkInvalid`.
    pub fn cause(&self) -> (r: Option<&Cause>)
        ensures
            match (r, self.marks()) {
                (Some(cause), Some(expected)) => *cause == expected,
                (None, None) => true,
                _ => false,
            },
    {
        match self {
            Check::Starting { start, .. } => start.cause(),
            Check::Quarantining(quarantine) => Some(quarantine.cause()),
            _ => None,
        }
    }

    pub open spec fn opens(self) -> Option<LogOverrides> {
        match self {
            Check::Starting { start: Start::Opening { conf }, .. } => conf,
            _ => None,
        }
    }

    /// What `log.conf` overrides for the output files that are being opened: what
    /// the host needs for `Request::OpenOutputs`.
    pub fn conf(&self) -> (r: Option<&LogOverrides>)
        ensures
            match (r, self.opens()) {
                (Some(conf), Some(expected)) => *conf == expected,
                (None, None) => true,
                _ => false,
            },
    {
        match self {
            Check::Starting { start: Start::Opening { conf }, .. } => conf.as_ref(),
            _ => None,
        }
    }

    pub open spec fn quarantined(cause: Cause) -> CheckStep<Check> {
        asking(Check::Quarantining(Quarantine::Looking(cause)))
    }

    /// What is to be done about an application that is not disabled.
    pub open spec fn enabled(
        app: AppSpec,
        conf: Option<LogOverrides>,
        known: KnownState,
    ) -> CheckStep<Check> {
        match known {
            (ProcessState::Stopped, _) => asking(Check::Preparing { conf }),
            (ProcessState::OrphanedProcessGroup, Some(record)) => asking(Check::OrphanKill(record)),
            (ProcessState::Running, Some(record)) => if app.healthcheck is Some {
                asking(
                    Check::Probing {
                        conf,
                        record,
                        run: Exec::Spawning {
                            shell: Shell::Healthcheck,
                            timeout: app.command_timeout,
                        },
                    },
                )
            } else {
                finished(AppCheckResult::Idle)
            },
            (_, None) => finished(AppCheckResult::Failed),
        }
    }

    /// What is to be done about an application that is disabled.
    pub open spec fn disabled(known: KnownState) -> CheckStep<Check> {
        match known {
            (ProcessState::Stopped, _) => asking(Check::Clearing),
            (_, Some(record)) => asking(Check::Stopping(Stop::begun(record, StopReason::Disabled))),
            (_, None) => finished(AppCheckResult::Failed),
        }
    }

    pub open spec fn after(self, app: AppSpec, reply: Reply) -> CheckStep<Check> {
        match (self, reply) {
            (Check::Marker, Reply::Exists(exists)) => match exists {
                Ok(true) => finished(AppCheckResult::SkippedInvalid),
                Ok(false) => asking(Check::Inspecting),
                Err(error) => Step {
                    note: Some(Note::CannotCheckInvalidMarker(error)),
                    next: Next::Done(AppCheckResult::Failed),
                },
            },
            (Check::Inspecting, Reply::Metadata(observed)) => match start_program(observed) {
                Ok(()) => asking(Check::LogConf),
                Err(failure) => Check::quarantined(Cause::InvalidStartProgram(failure)),
            },
            (Check::LogConf, Reply::LogConf(file)) => match log_overrides(file) {
                Ok(conf) => asking(Check::Querying { conf, query: Query::Reading }),
                Err(failure) => Check::quarantined(Cause::InvalidLogConfiguration(failure)),
            },
            (Check::Querying { conf, query }, reply) => match query.after(reply) {
                Next::Ask(query) => asking(Check::Querying { conf, query }),
                Next::Done(Ok(known)) => asking(Check::Disabling { conf, known }),
                Next::Done(Err(failure)) => Check::quarantined(Cause::InvalidProcessState(failure)),
            },
            (Check::Disabling { conf, known }, Reply::Exists(exists)) => match disabled_state(
                exists,
            ) {
                Ok(true) => Check::disabled(known),
                Ok(false) => Check::enabled(app, conf, known),
                Err(failure) => Step {
                    note: Some(Note::Failed(failure)),
                    next: Next::Done(AppCheckResult::Failed),
                },
            },
            (Check::Clearing, Reply::Removed(removed)) => match removed {
                RemoveReply::Failed(error) => Step {
                    note: Some(
                        Note::Failed(Failure::CannotRemove { place: Place::PidFile, error }),
                    ),
                    next: Next::Done(AppCheckResult::Failed),
                },
                _ => finished(AppCheckResult::Idle),
            },
            (Check::Stopping(stop), reply) => {
                let step = stop.after(app, reply);
                match step.next {
                    Next::Ask(stop) => Step {
                        note: step.note,
                        next: Next::Ask(Check::Stopping(stop)),
                    },
                    Next::Done(Ok(())) => Step {
                        note: step.note,
                        next: Next::Done(AppCheckResult::Stopped),
                    },
                    Next::Done(Err(failure)) => Step {
                        note: Some(Note::Failed(failure)),
                        next: Next::Done(AppCheckResult::Failed),
                    },
                }
            },
            (Check::Preparing { conf }, Reply::Removed(removed)) => match removed {
                RemoveReply::Failed(error) => Step {
                    note: Some(
                        Note::Failed(Failure::CannotRemove { place: Place::PidFile, error }),
                    ),
                    next: Next::Done(AppCheckResult::Failed),
                },
                _ => asking(Check::Starting { start: Start::Opening { conf }, again: false }),
            },
            (Check::OrphanKill(record), Reply::Killed(_)) => asking(Check::OrphanRemove(record)),
            (Check::OrphanRemove(record), Reply::Removed(_)) => Check::quarantined(
                Cause::OrphanedProcessGroup { pid: record.pid },
            ),
            (Check::Probing { conf, record, run }, reply) => match run.after(reply) {
                Next::Ask(run) => asking(Check::Probing { conf, record, run }),
                Next::Done(Ok(CommandOutcome::Success)) => finished(AppCheckResult::Idle),
                Next::Done(Ok(CommandOutcome::Negative)) => asking(
                    Check::Unhealthy { conf, stop: Stop::begun(record, StopReason::Unhealthy) },
                ),
                Next::Done(Ok(CommandOutcome::Unexpected(code))) => Step {
                    note: Some(Note::UnexpectedHealth(code)),
                    next: Next::Done(AppCheckResult::Failed),
                },
                Next::Done(Err(failure)) => Step {
                    note: Some(Note::HealthcheckFailed(failure)),
                    next: Next::Done(AppCheckResult::Failed),
                },
            },
            (Check::Unhealthy { conf, stop }, reply) => {
                let step = stop.after(app, reply);
                match step.next {
                    Next::Ask(stop) => Step {
                        note: step.note,
                        next: Next::Ask(Check::Unhealthy { conf, stop }),
                    },
                    Next::Done(Ok(())) => Step {
                        note: step.note,
                        next: Next::Ask(
                            Check::Starting { start: Start::Opening { conf }, again: true },
                        ),
                    },
                    Next::Done(Err(failure)) => Step {
                        note: Some(Note::Failed(failure)),
                        next: Next::Done(AppCheckResult::Failed),
                    },
                }
            },
            (Check::Starting { start, again }, reply) => {
                let step = start.after(app, reply);
                Step {
                    note: step.note,
                    next: match step.next {
                        Next::Ask(start) => Next::Ask(Check::Starting { start, again }),
                        Next::Done(result) => Next::Done(start_result(result, again)),
                    },
                }
            },
            (Check::Quarantining(quarantine), reply) => {
                let step = quarantine.after(reply);
                Step {
                    note: step.note,
                    next: match step.next {
                        Next::Ask(quarantine) => Next::Ask(Check::Quarantining(quarantine)),
                        Next::Done(result) => Next::Done(result),
                    },
                }
            },
            _ => asking(self),
        }
    }

    /// Goes on with the host's answer. An answer to another request changes
    /// nothing.
    pub fn step(self, app: &AppSpec, reply: Reply) -> (r: CheckStep<Check>)
        ensures
            r == self.after(*app, reply),
    {
        match (self, reply) {
            (Check::Marker, Reply::Exists(exists)) => match exists {
                Ok(true) => done(AppCheckResult::SkippedInvalid),
                Ok(false) => ask(Check::Inspecting),
                Err(error) => Step {
                    note: Some(Note::CannotCheckInvalidMarker(error)),
                    next: Next::Done(AppCheckResult::Failed),
                },
            },
            (Check::Inspecting, Reply::Metadata(observed)) => match validate_app_files(observed) {
                Ok(()) => ask(Check::LogConf),
                Err(failure) => quarantine(Cause::InvalidStartProgram(failure)),
            },
            (Check::LogConf, Reply::LogConf(file)) => match read_log_conf(file) {
                Ok(conf) => ask(Check::Querying { conf, query: Query::Reading }),
                Err(failure) => quarantine(Cause::InvalidLogConfiguration(failure)),
            },
            (Check::Querying { conf, query }, reply) => match query.step(reply) {
                Next::Ask(query) => ask(Check::Querying { conf, query }),
                Next::Done(Ok(known)) => ask(Check::Disabling { conf, known }),
                Next::Done(Err(failure)) => quarantine(Cause::InvalidProcessState(failure)),
            },
            (Check::Disabling { conf, known }, Reply::Exists(exists)) => match read_disabled(
                exists,
            ) {
                Ok(true) => when_disabled(known),
                Ok(false) => when_enabled(app, conf, known),
                Err(failure) => Step {
                    note: Some(Note::Failed(failure)),
                    next: Next::Done(AppCheckResult::Failed),
                },
            },
            (Check::Clearing, Reply::Removed(removed)) => match removed {
                RemoveReply::Failed(error) => Step {
                    note: Some(
                        Note::Failed(Failure::CannotRemove { place: Place::PidFile, error }),
                    ),
                    next: Next::Done(AppCheckResult::Failed),
                },
                _ => done(AppCheckResult::Idle),
            },
            (Check::Stopping(stop), reply) => {
                let step = stop.step(app, reply);
                match step.next {
                    Next::Ask(stop) => Step {
                        note: step.note,
                        next: Next::Ask(Check::Stopping(stop)),
                    },
                    Next::Done(Ok(())) => Step {
                        note: step.note,
                        next: Next::Done(AppCheckResult::Stopped),
                    },
                    Next::Done(Err(failure)) => Step {
                        note: Some(Note::Failed(failure)),
                        next: Next::Done(AppCheckResult::Failed),
                    },
                }
            },
            (Check::Preparing { conf }, Reply::Removed(removed)) => match removed {
                RemoveReply::Failed(error) => Step {
                    note: Some(
                        Note::Failed(Failure::CannotRemove { place: Place::PidFile, error }),
                    ),
                    next: Next::Done(AppCheckResult::Failed),
                },
                _ => ask(Check::Starting { start: Start::Opening { conf }, again: false }),
            },
            (Check::OrphanKill(record), Reply::Killed(_)) => ask(Check::OrphanRemove(record)),
            (Check::OrphanRemove(record), Reply::Removed(_)) => quarantine(
                Cause::OrphanedProcessGroup { pid: record.pid },
            ),
            (Check::Probing { conf, record, run }, reply) => match run.step(reply) {
                Next::Ask(run) => ask(Check::Probing { conf, record, run }),
                Next::Done(Ok(CommandOutcome::Success)) => done(AppCheckResult::Idle),
                Next::Done(Ok(CommandOutcome::Negative)) => ask(
                    Check::Unhealthy { conf, stop: Stop::new(record, StopReason::Unhealthy) },
                ),
                Next::Done(Ok(CommandOutcome::Unexpected(code))) => Step {
                    note: Some(Note::UnexpectedHealth(code)),
                    next: Next::Done(AppCheckResult::Failed),
                },
                Next::Done(Err(failure)) => Step {
                    note: Some(Note::HealthcheckFailed(failure)),
                    next: Next::Done(AppCheckResult::Failed),
                },
            },
            (Check::Unhealthy { conf, stop }, reply) => {
                let step = stop.step(app, reply);
                match step.next {
                    Next::Ask(stop) => Step {
                        note: step.note,
                        next: Next::Ask(Check::Unhealthy { conf, stop }),
                    },
                    Next::Done(Ok(())) => Step {
                        note: step.note,
                        next: Next::Ask(
                            Check::Starting { start: Start::Opening { conf }, again: true },
                        ),
                    },
                    Next::Done(Err(failure)) => Step {
                        note: Some(Note::Failed(failure)),
                        next: Next::Done(AppCheckResult::Failed),
                    },
                }
            },
            (Check::Starting { start, again }, reply) => {
                let step = start.step(app, reply);
                Step {
                    note: step.note,
                    next: match step.next {
                        Next::Ask(start) => Next::Ask(Check::Starting { start, again }),
                        Next::Done(result) => Next::Done(
                            if again && result == AppCheckResult::Started {
                                AppCheckResult::Restarted
                            } else {
                                result
                            },
                        ),
                    },
                }
            },
            (Check::Quarantining(quarantine), reply) => {
                let step = quarantine.step(reply);
                Step {
                    note: step.note,
                    next: match step.next {
                        Next::Ask(quarantine) => Next::Ask(Check::Quarantining(quarantine)),
                        Next::Done(result) => Next::Done(result),
                    },
                }
            },
            (state, _) => ask(state),
        }
    }
}

fn quarantine(cause: Cause) -> (r: CheckStep<Check>)
    ensures
        r == Check::quarantined(cause),
{
    ask(Check::Quarantining(Quarantine::Looking(cause)))
}

fn when_disabled(known: KnownState) -> (r: CheckStep<Check>)
    ensures
        r == Check::disabled(known),
{
    match known {
        (ProcessState::Stopped, _) => ask(Check::Clearing),
        (_, Some(record)) => ask(Check::Stopping(Stop::new(record, StopReason::Disabled))),
        (_, None) => done(AppCheckResult::Failed),
    }
}

fn when_enabled(app: &AppSpec, conf: Option<LogOverrides>, known: KnownState) -> (r: CheckStep<
    Check,
>)
    ensures
        r == Check::enabled(*app, conf, known),
{
    match known {
        (ProcessState::Stopped, _) => ask(Check::Preparing { conf }),
        (ProcessState::OrphanedProcessGroup, Some(record)) => ask(Check::OrphanKill(record)),
        (ProcessState::Running, Some(record)) => if app.healthcheck.is_some() {
            ask(
                Check::Probing {
                    conf,
                    record,
                    run: Exec::Spawning {
                        shell: Shell::Healthcheck,
                        timeout: app.command_timeout,
                    },
                },
            )
        } else {
            done(AppCheckResult::Idle)
        },
        (_, None) => done(AppCheckResult::Failed),
    }
}

} // verus!

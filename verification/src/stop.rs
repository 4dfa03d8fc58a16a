//! The procedure that stops an application.

use vstd::prelude::*;
use crate::config::AppSpec;
use crate::host::{
    Next, PidRecord, Place, RemoveReply, Reply, Request, Shell, Signal, Target, TextFile,
};
use crate::process::{
    signal_target, signalled, CommandOutcome, Exec, Gone, FORCE_KILL_WAIT,
};
use crate::report::{ask, asking, done, finished, Failure, Note, Step, StopReason};
use crate::signal::{signal_of, StopSignal};

verus! {

/// The stop of a recorded application: by its stop program where it has one, by
/// a signal where it has none or the program fails, and in the end by `SIGKILL`.
#[derive(Debug)]
pub struct Stop {
    pub record: PidRecord,
    pub reason: StopReason,
    pub phase: StopPhase,
}

#[derive(Debug)]
pub enum StopPhase {
    /// Is there a stop program?
    Looking,
    /// The stop program runs.
    Running(Exec),
    /// Which signal is configured?
    ReadingSignal,
    Signalling(StopSignal),
    /// Waiting for the application to go; `forced` where it has been killed.
    Leaving { forced: bool, gone: Gone },
    /// The grace period is over.
    Killing,
    /// Waiting for the killed application to go.
    Dying(Gone),
    /// It is gone: so must be its record.
    Removing,
}

pub type StopStep = Step<Stop, Result<(), Failure>>;

/// The stop signal that a file asks for; `TERM` where there is no file.
pub open spec fn configured_signal(file: TextFile) -> Result<StopSignal, Failure> {
    match file {
        TextFile::Missing => Ok(StopSignal::Terminate),
        TextFile::Unreadable(error) => Err(Failure::CannotRead { place: Place::SignalFile, error }),
        TextFile::Text(text) => match signal_of(text@) {
            Ok(signal) => Ok(signal),
            Err(_) => Err(Failure::BadStopSignal { text }),
        },
    }
}

/// The stop signal that a file asks for.
pub fn configured_stop_signal(file: TextFile) -> (r: Result<StopSignal, Failure>)
    ensures
        r == configured_signal(file),
{
    match file {
        TextFile::Missing => Ok(StopSignal::Terminate),
        TextFile::Unreadable(error) => Err(Failure::CannotRead { place: Place::SignalFile, error }),
        TextFile::Text(text) => match StopSignal::parse(text.as_str()) {
            Ok(signal) => Ok(signal),
            Err(_) => Err(Failure::BadStopSignal { text }),
        },
    }
}

impl Stop {
    /// Whom a stop signal is for: `KILL` is for the whole group, any other for
    /// the leader.
    pub open spec fn aim(self, signal: StopSignal) -> Target {
        if signal == StopSignal::Kill {
            Target::Group(self.record.process_group)
        } else {
            Target::Process(self.record.pid)
        }
    }

    fn target(&self, signal: StopSignal) -> (r: Target)
        ensures
            r == self.aim(signal),
    {
        if signal.is_forceful() {
            Target::Group(self.record.process_group)
        } else {
            Target::Process(self.record.pid)
        }
    }

    pub open spec fn begun(record: PidRecord, reason: StopReason) -> Stop {
        Stop { record, reason, phase: StopPhase::Looking }
    }

    /// The procedure at its start.
    pub fn new(record: PidRecord, reason: StopReason) -> (r: Stop)
        ensures
            r == Stop::begun(record, reason),
    {
        Stop { record, reason, phase: StopPhase::Looking }
    }

    pub open spec fn at(self, phase: StopPhase) -> Stop {
        Stop { record: self.record, reason: self.reason, phase }
    }

    pub open spec fn asks(self) -> Request {
        match self.phase {
            StopPhase::Looking => Request::Exists(Place::Stop),
            StopPhase::Running(exec) => exec.asks(),
            StopPhase::ReadingSignal => Request::ReadSignalFile,
            StopPhase::Signalling(signal) => Request::Kill {
                target: self.aim(signal),
                signal: Signal::Deliver(signal),
            },
            StopPhase::Leaving { gone, .. } => gone.asks(),
            StopPhase::Killing => Request::Kill {
                target: Target::Group(self.record.process_group),
                signal: Signal::Deliver(StopSignal::Kill),
            },
            StopPhase::Dying(gone) => gone.asks(),
            StopPhase::Removing => Request::RemovePidFile,
        }
    }

    /// The request that the procedure stands at.
    pub fn request(&self) -> (r: Request)
        ensures
            r == self.asks(),
    {
        match &self.phase {
            StopPhase::Looking => Request::Exists(Place::Stop),
            StopPhase::Running(exec) => exec.request(),
            StopPhase::ReadingSignal => Request::ReadSignalFile,
            StopPhase::Signalling(signal) => Request::Kill {
                target: self.target(*signal),
                signal: Signal::Deliver(*signal),
            },
            StopPhase::Leaving { gone, .. } => gone.request(),
            StopPhase::Killing => Request::Kill {
                target: Target::Group(self.record.process_group),
                signal: Signal::Deliver(StopSignal::Kill),
            },
            StopPhase::Dying(gone) => gone.request(),
            StopPhase::Removing => Request::RemovePidFile,
        }
    }

    /// The wait that follows a signal: a killed application gets the fixed time,
    /// any other its grace period.
    pub open spec fn leaving(self, forced: bool, grace: u64) -> Stop {
        let secs = if forced {
            FORCE_KILL_WAIT
        } else {
            grace
        };
        self.at(StopPhase::Leaving { forced, gone: Gone::Arming { record: self.record, secs } })
    }

    pub open spec fn after(self, app: AppSpec, reply: Reply) -> StopStep {
        match (self.phase, reply) {
            (StopPhase::Looking, Reply::Exists(exists)) => match exists {
                Ok(true) => asking(
                    self.at(
                        StopPhase::Running(
                            Exec::Spawning { shell: Shell::Stop, timeout: app.command_timeout },
                        ),
                    ),
                ),
                Ok(false) => asking(self.at(StopPhase::ReadingSignal)),
                Err(error) => finished(Err(Failure::CannotCheck { place: Place::Stop, error })),
            },
            (StopPhase::Running(exec), reply) => match exec.after(reply) {
                Next::Ask(exec) => asking(self.at(StopPhase::Running(exec))),
                Next::Done(Ok(CommandOutcome::Success)) => asking(
                    self.leaving(false, app.stop_grace),
                ),
                Next::Done(Ok(outcome)) => Step {
                    note: Some(Note::StopCommandReturned(outcome)),
                    next: Next::Ask(self.at(StopPhase::ReadingSignal)),
                },
                Next::Done(Err(failure)) => Step {
                    note: Some(Note::StopCommandFailed(failure)),
                    next: Next::Ask(self.at(StopPhase::ReadingSignal)),
                },
            },
            (StopPhase::ReadingSignal, Reply::SignalFile(file)) => match configured_signal(file) {
                Ok(signal) => asking(self.at(StopPhase::Signalling(signal))),
                Err(failure) => finished(Err(failure)),
            },
            (StopPhase::Signalling(signal), Reply::Killed(reply)) => match signalled(
                self.aim(signal),
                reply,
            ) {
                Ok(()) => asking(self.leaving(signal == StopSignal::Kill, app.stop_grace)),
                Err(failure) => finished(Err(failure)),
            },
            (StopPhase::Leaving { forced, gone }, reply) => match gone.after(reply) {
                Next::Ask(gone) => asking(self.at(StopPhase::Leaving { forced, gone })),
                Next::Done(Ok(true)) => asking(self.at(StopPhase::Removing)),
                Next::Done(Ok(false)) => if forced {
                    finished(
                        Err(Failure::SurvivedKill { process_group: self.record.process_group }),
                    )
                } else {
                    Step {
                        note: Some(
                            Note::SendingKill {
                                reason: self.reason,
                                process_group: self.record.process_group,
                            },
                        ),
                        next: Next::Ask(self.at(StopPhase::Killing)),
                    }
                },
                Next::Done(Err(failure)) => finished(Err(failure)),
            },
            (StopPhase::Killing, Reply::Killed(reply)) => match signalled(
                Target::Group(self.record.process_group),
                reply,
            ) {
                Ok(()) => asking(
                    self.at(
                        StopPhase::Dying(
                            Gone::Arming { record: self.record, secs: FORCE_KILL_WAIT },
                        ),
                    ),
                ),
                Err(failure) => finished(Err(failure)),
            },
            (StopPhase::Dying(gone), reply) => match gone.after(reply) {
                Next::Ask(gone) => asking(self.at(StopPhase::Dying(gone))),
                Next::Done(Ok(true)) => asking(self.at(StopPhase::Removing)),
                Next::Done(Ok(false)) => finished(
                    Err(Failure::SurvivedKill { process_group: self.record.process_group }),
                ),
                Next::Done(Err(failure)) => finished(Err(failure)),
            },
            (StopPhase::Removing, Reply::Removed(removed)) => match removed {
                RemoveReply::Failed(error) => finished(
                    Err(Failure::CannotRemove { place: Place::PidFile, error }),
                ),
                _ => Step {
                    note: Some(Note::Stopped { reason: self.reason, pid: self.record.pid }),
                    next: Next::Done(Ok(())),
                },
            },
            _ => asking(self),
        }
    }

    /// Goes on with the host's answer. An answer to another request changes
    /// nothing.
    pub fn step(self, app: &AppSpec, reply: Reply) -> (r: StopStep)
        ensures
            r == self.after(*app, reply),
    {
        let record = self.record;
        let reason = self.reason;
        match (self.phase, reply) {
            (StopPhase::Looking, Reply::Exists(exists)) => match exists {
                Ok(true) => ask(
                    Stop {
                        record,
                        reason,
                        phase: StopPhase::Running(
                            Exec::Spawning { shell: Shell::Stop, timeout: app.command_timeout },
                        ),
                    },
                ),
                Ok(false) => ask(Stop { record, reason, phase: StopPhase::ReadingSignal }),
                Err(error) => done(Err(Failure::CannotCheck { place: Place::Stop, error })),
            },
            (StopPhase::Running(exec), reply) => match exec.step(reply) {
                Next::Ask(exec) => ask(Stop { record, reason, phase: StopPhase::Running(exec) }),
                Next::Done(Ok(CommandOutcome::Success)) => ask(
                    leave(record, reason, false, app.stop_grace),
                ),
                Next::Done(Ok(outcome)) => Step {
                    note: Some(Note::StopCommandReturned(outcome)),
                    next: Next::Ask(Stop { record, reason, phase: StopPhase::ReadingSignal }),
                },
                Next::Done(Err(failure)) => Step {
                    note: Some(Note::StopCommandFailed(failure)),
                    next: Next::Ask(Stop { record, reason, phase: StopPhase::ReadingSignal }),
                },
            },
            (StopPhase::ReadingSignal, Reply::SignalFile(file)) => match configured_stop_signal(
                file,
            ) {
                Ok(signal) => ask(Stop { record, reason, phase: StopPhase::Signalling(signal) }),
                Err(failure) => done(Err(failure)),
            },
            (StopPhase::Signalling(signal), Reply::Killed(reply)) => {
                let target = if signal.is_forceful() {
                    Target::Group(record.process_group)
                } else {
                    Target::Process(record.pid)
                };
                match signal_target(target, reply) {
                    Ok(()) => ask(leave(record, reason, signal.is_forceful(), app.stop_grace)),
                    Err(failure) => done(Err(failure)),
                }
            },
            (StopPhase::Leaving { forced, gone }, reply) => match gone.step(reply) {
                Next::Ask(gone) => ask(
                    Stop { record, reason, phase: StopPhase::Leaving { forced, gone } },
                ),
                Next::Done(Ok(true)) => ask(Stop { record, reason, phase: StopPhase::Removing }),
                Next::Done(Ok(false)) => if forced {
                    done(Err(Failure::SurvivedKill { process_group: record.process_group }))
                } else {
                    Step {
                        note: Some(
                            Note::SendingKill { reason, process_group: record.process_group },
                        ),
                        next: Next::Ask(Stop { record, reason, phase: StopPhase::Killing }),
                    }
                },
                Next::Done(Err(failure)) => done(Err(failure)),
            },
            (StopPhase::Killing, Reply::Killed(reply)) => match signal_target(
                Target::Group(record.process_group),
                reply,
            ) {
                Ok(()) => ask(
                    Stop {
                        record,
                        reason,
                        phase: StopPhase::Dying(Gone::Arming { record, secs: FORCE_KILL_WAIT }),
                    },
                ),
                Err(failure) => done(Err(failure)),
            },
            (StopPhase::Dying(gone), reply) => match gone.step(reply) {
                Next::Ask(gone) => ask(Stop { record, reason, phase: StopPhase::Dying(gone) }),
                Next::Done(Ok(true)) => ask(Stop { record, reason, phase: StopPhase::Removing }),
                Next::Done(Ok(false)) => done(
                    Err(Failure::SurvivedKill { process_group: record.process_group }),
                ),
                Next::Done(Err(failure)) => done(Err(failure)),
            },
            (StopPhase::Removing, Reply::Removed(removed)) => match removed {
                RemoveReply::Failed(error) => done(
                    Err(Failure::CannotRemove { place: Place::PidFile, error }),
                ),
                _ => Step {
                    note: Some(Note::Stopped { reason, pid: record.pid }),
                    next: Next::Done(Ok(())),
                },
            },
            (phase, _) => ask(Stop { record, reason, phase }),
        }
    }
}

fn leave(record: PidRecord, reason: StopReason, forced: bool, grace: u64) -> (r: Stop)
    ensures
        r == Stop::begun(record, reason).leaving(forced, grace),
{
    let secs: u64 = if forced {
        FORCE_KILL_WAIT
    } else {
        grace
    };
    Stop { record, reason, phase: StopPhase::Leaving { forced, gone: Gone::Arming { record, secs } } }
}

} // verus!

//! What holds of every start of an application, and of every quarantine.

use vstd::prelude::*;
use crate::config::{AppSpec, LogOverrides};
use crate::host::{MarkReply, Next, PidRecord, Place, Reply, Request, Signal, Target};
use crate::process::WaitResult;
use crate::report::{AppCheckResult, Cause, Failure, Note};
use crate::signal::StopSignal;
use crate::start::{Quarantine, Start};
use crate::trace::{answers, Trace};
use crate::wait_laws::{wait_run, WaitNext};

verus! {

pub type MarkNext = Next<Quarantine, AppCheckResult>;

pub type StartNext = Next<Start, AppCheckResult>;

/// Where the quarantine for a cause stands after an exchange of requests and answers, if
/// it makes those requests and they are answered.
pub open spec fn quarantine_run(cause: Cause, trace: Trace) -> Option<MarkNext>
    decreases trace.len(),
{
    if trace.len() == 0 {
        Some(Next::Ask(Quarantine::Looking(cause)))
    } else {
        match quarantine_run(cause, trace.drop_last()) {
            Some(Next::Ask(quarantine)) => {
                let (request, reply) = trace.last();
                if quarantine.asks() == request && answers(request, reply) {
                    Some(quarantine.after(reply).next)
                } else {
                    None
                }
            },
            _ => None,
        }
    }
}

/// What is told with the last answer of a quarantine.
pub open spec fn quarantine_note(cause: Cause, trace: Trace) -> Option<Note> {
    match quarantine_run(cause, trace.drop_last()) {
        Some(Next::Ask(quarantine)) => quarantine.after(trace.last().1).note,
        _ => None,
    }
}

/// A quarantine looks for an invalid marker first. Where there is one the application is
/// skipped; where there is none a marker is written that tells the cause, and the
/// application is quarantined. What cannot be looked for or written fails the check. Each
/// end but the skipped one is told.
pub proof fn a_quarantine_writes_its_marker(cause: Cause, trace: Trace)
    requires
        quarantine_run(cause, trace) is Some,
    ensures
        trace.len() <= 2,
        ({
            let next = quarantine_run(cause, trace)->0;
            let note = quarantine_note(cause, trace);
            if trace.len() == 0 {
                next matches Next::Ask(q) && q.asks() == Request::Exists(Place::Invalid)
            } else if trace.len() == 1 {
                match trace[0].1 {
                    Reply::Exists(Ok(true)) => next == MarkNext::Done(
                        AppCheckResult::SkippedInvalid,
                    ) && note is None,
                    Reply::Exists(Ok(false)) => {
                        &&& next matches Next::Ask(q) && q.asks() == Request::MarkInvalid && q.why()
                            == cause
                        &&& note is None
                    },
                    Reply::Exists(Err(error)) => {
                        &&& next == MarkNext::Done(AppCheckResult::Failed)
                        &&& note == Some(
                            Note::Failed(Failure::CannotCheck { place: Place::Invalid, error }),
                        )
                    },
                    _ => false,
                }
            } else {
                match trace[1].1 {
                    Reply::Marked(MarkReply::Written) => next == MarkNext::Done(
                        AppCheckResult::Quarantined,
                    ) && note == Some(Note::MarkedInvalid(cause)),
                    Reply::Marked(MarkReply::NotEncoded(error)) => next == MarkNext::Done(
                        AppCheckResult::Failed,
                    ) && note == Some(Note::CannotEncodeMarker(error)),
                    Reply::Marked(MarkReply::NotWritten(error)) => next == MarkNext::Done(
                        AppCheckResult::Failed,
                    ) && note == Some(Note::CannotWriteMarker(error)),
                    _ => false,
                }
            }
        }),
{
    lemma_quarantine(cause, trace);
    if trace.len() > 0 {
        lemma_quarantine(cause, trace.drop_last());
        assert(trace[trace.len() - 1] == trace.last());
    }
}

proof fn lemma_quarantine(cause: Cause, trace: Trace)
    requires
        quarantine_run(cause, trace) is Some,
    ensures
        match quarantine_run(cause, trace)->0 {
            Next::Ask(Quarantine::Looking(c)) => trace.len() == 0 && c == cause,
            Next::Ask(Quarantine::Marking(c)) => trace.len() == 1 && c == cause,
            Next::Done(_) => 1 <= trace.len() <= 2,
        },
    decreases trace.len(),
{
    if trace.len() > 0 {
        lemma_quarantine(cause, trace.drop_last());
    }
}

/// Where a start stands after an exchange of requests and answers, if it makes those
/// requests and they are answered.
#[verifier::opaque]
pub open spec fn start_run(app: AppSpec, conf: Option<LogOverrides>, trace: Trace) -> Option<
    StartNext,
>
    decreases trace.len(),
{
    if trace.len() == 0 {
        Some(Next::Ask(Start::Opening { conf }))
    } else {
        match start_run(app, conf, trace.drop_last()) {
            Some(Next::Ask(start)) => {
                let (request, reply) = trace.last();
                if start.asks() == request && answers(request, reply) {
                    Some(start.after(app, reply).next)
                } else {
                    None
                }
            },
            _ => None,
        }
    }
}

/// What is told with the last answer of a start.
#[verifier::opaque]
pub open spec fn start_note(app: AppSpec, conf: Option<LogOverrides>, trace: Trace) -> Option<
    Note,
> {
    match start_run(app, conf, trace.drop_last()) {
        Some(Next::Ask(start)) => start.after(app, trace.last().1).note,
        _ => None,
    }
}

/// Whether a start goes on with a request.
pub open spec fn start_asks(next: StartNext, request: Request) -> bool {
    next matches Next::Ask(start) && start.asks() == request
}

/// Whether a start goes on with the quarantine of the application for a cause.
pub open spec fn start_quarantines(next: StartNext, cause: Cause) -> bool {
    start_asks(next, Request::Exists(Place::Invalid)) && (next matches Next::Ask(start)
        && start.marks() == Some(cause))
}

/// The request that kills a whole process group.
pub open spec fn kill_of(group: i32) -> Request {
    Request::Kill { target: Target::Group(group), signal: Signal::Deliver(StopSignal::Kill) }
}

/// A start opens the output files, spawns the application, and records what was spawned,
/// leader and group, before it is observed for its validation time. A failure to open or
/// to spawn is a cause for quarantine of its own; what was spawned and cannot be recorded
/// is killed.
pub proof fn a_start_spawns_and_records(app: AppSpec, conf: Option<LogOverrides>, trace: Trace)
    requires
        start_run(app, conf, trace) is Some,
        trace.len() <= 3,
    ensures
        ({
            let next = start_run(app, conf, trace)->0;
            if trace.len() == 0 {
                start_asks(next, Request::OpenOutputs)
            } else {
                match trace.last() {
                    (Request::OpenOutputs, Reply::Opened(opened)) => {
                        trace.len() == 1 && match opened {
                            Ok(()) => start_asks(next, Request::SpawnApp),
                            Err(error) => start_quarantines(next, Cause::LogOpenFailed(error)),
                        }
                    },
                    (Request::SpawnApp, Reply::Spawned(spawned)) => {
                        trace.len() == 2 && match spawned {
                            Ok(pid) => start_asks(
                                next,
                                Request::WritePidRecord(PidRecord { pid, process_group: pid }),
                            ),
                            Err(error) => start_quarantines(next, Cause::StartupSpawnFailed(error)),
                        }
                    },
                    (Request::WritePidRecord(record), Reply::Written(written)) => {
                        trace.len() == 3 && match written {
                            Ok(()) => start_asks(
                                next,
                                Request::ArmDeadline { secs: app.startup_validation },
                            ),
                            Err(_) => start_asks(next, kill_of(record.pid)),
                        }
                    },
                    (Request::Exists(Place::Invalid), _) => true,
                    (Request::MarkInvalid, _) => true,
                    _ => false,
                }
            }
        }),
{
    reveal(start_run);
    lemma_start(app, conf, trace);
    if trace.len() > 0 {
        lemma_start(app, conf, trace.drop_last());
    }
}

/// Whether a trace begins with the launch of the application as `pid`, and its record was
/// written or was not.
pub open spec fn launches(trace: Trace, pid: i32, written: Result<(), String>) -> bool {
    &&& trace.len() >= 3
    &&& trace[1].1 == Reply::Spawned(Ok(pid))
    &&& trace[2] == (
        Request::WritePidRecord(PidRecord { pid, process_group: pid }),
        Reply::Written(written),
    )
}

spec fn start_is(app: AppSpec, conf: Option<LogOverrides>, next: StartNext, trace: Trace) -> bool {
    let n = trace.len() as int;
    match next {
        Next::Ask(start) => match start {
            Start::Opening { conf: c } => n == 0 && c == conf,
            Start::Spawning => n == 1,
            Start::Recording { pid } => n == 2 && trace[1] == (
                Request::SpawnApp,
                Reply::Spawned(Ok(pid)),
            ),
            Start::Observing { pid, wait } => {
                &&& launches(trace, pid, Ok(()))
                &&& wait_run(app.startup_validation, trace.skip(3)) == Some(WaitNext::Ask(wait))
            },
            Start::UnrecordedKill { pid, error } => n == 3 && launches(trace, pid, Err(error)),
            Start::UnrecordedReap { pid, error } => n == 4 && launches(trace, pid, Err(error)),
            Start::EndedKill { pid, status } => {
                &&& launches(trace, pid, Ok(()))
                &&& wait_run(app.startup_validation, trace.skip(3)) == Some(
                    WaitNext::Done(WaitResult::Exited(status)),
                )
            },
            Start::UnseenKill { pid, failure } => {
                &&& launches(trace, pid, Ok(()))
                &&& wait_run(app.startup_validation, trace.skip(3)) == Some(
                    WaitNext::Done(WaitResult::Failed(failure)),
                )
            },
            Start::Quarantining(_) => n >= 1,
            _ => n >= 4,
        },
        Next::Done(_) => n >= 1,
    }
}

proof fn lemma_start(app: AppSpec, conf: Option<LogOverrides>, trace: Trace)
    requires
        start_run(app, conf, trace) is Some,
    ensures
        start_is(app, conf, start_run(app, conf, trace)->0, trace),
    decreases trace.len(),
{
    reveal(start_run);
    if trace.len() > 0 {
        let before = trace.drop_last();
        let n = trace.len() - 1;
        lemma_start(app, conf, before);
        assert(trace[n] == trace.last());
        assert(forall|i: int| 0 <= i < n ==> #[trigger] before[i] == trace[i]);
        let start = start_run(app, conf, before)->0->Ask_0;
        match start {
            Start::Recording { pid } => {
                assert(trace.skip(3) =~= Seq::<(Request, Reply)>::empty());
                if let Reply::Written(Ok(done)) = trace.last().1 {
                    assert(done == ());
                }
            },
            Start::Observing { .. } => {
                assert(trace.skip(3).drop_last() =~= before.skip(3));
                assert(trace.skip(3).last() == trace.last());
            },
            _ => {},
        }
    }
}

/// A recorded application is observed for its validation time. Where it is still there
/// when the time is over it has been started, and that is told with its number; where it
/// has ended before, or could not be observed, its whole group is killed.
pub proof fn a_start_is_validated(
    app: AppSpec,
    conf: Option<LogOverrides>,
    trace: Trace,
    pid: i32,
)
    requires
        start_run(app, conf, trace) is Some,
        launches(trace, pid, Ok(())),
    ensures
        ({
            let next = start_run(app, conf, trace)->0;
            match wait_run(app.startup_validation, trace.skip(3)) {
                Some(Next::Ask(wait)) => start_asks(next, wait.asks()),
                Some(Next::Done(WaitResult::TimedOut)) => {
                    &&& next == StartNext::Done(AppCheckResult::Started)
                    &&& start_note(app, conf, trace) == Some(Note::Started { pid })
                },
                Some(Next::Done(_)) => start_asks(next, kill_of(pid)),
                None => true,
            }
        }),
    decreases trace.len(),
{
    reveal(start_run);
    reveal(start_note);
    lemma_validated(app, conf, trace, pid);
}

proof fn lemma_validated(
    app: AppSpec,
    conf: Option<LogOverrides>,
    trace: Trace,
    pid: i32,
)
    requires
        start_run(app, conf, trace) is Some,
        launches(trace, pid, Ok(())),
    ensures
        match wait_run(app.startup_validation, trace.skip(3)) {
            Some(Next::Ask(wait)) => start_run(app, conf, trace) == Some(
                StartNext::Ask(Start::Observing { pid, wait }),
            ),
            Some(Next::Done(WaitResult::TimedOut)) => {
                &&& start_run(app, conf, trace) == Some(StartNext::Done(AppCheckResult::Started))
                &&& start_note(app, conf, trace) == Some(Note::Started { pid })
            },
            Some(Next::Done(WaitResult::Exited(status))) => start_run(app, conf, trace) == Some(
                StartNext::Ask(Start::EndedKill { pid, status }),
            ),
            Some(Next::Done(WaitResult::Failed(failure))) => start_run(app, conf, trace) == Some(
                StartNext::Ask(Start::UnseenKill { pid, failure }),
            ),
            None => true,
        },
    decreases trace.len(),
{
    reveal(start_run);
    reveal(start_note);
    let before = trace.drop_last();
    let part = trace.skip(3);
    assert(trace[trace.len() - 1] == trace.last());
    if trace.len() == 3 {
        lemma_start(app, conf, before);
        assert(part =~= Seq::<(Request, Reply)>::empty());
        assert(before[1] == trace[1]);
    } else {
        assert(before[1] == trace[1] && before[2] == trace[2]);
        lemma_validated(app, conf, before, pid);
        assert(part.drop_last() =~= before.skip(3));
        assert(part.last() == trace.last());
    }
}

/// What was spawned and could not be recorded is killed and waited for, and that its record
/// could not be written is the cause for its quarantine.
pub proof fn an_unrecorded_app_is_killed(
    app: AppSpec,
    conf: Option<LogOverrides>,
    trace: Trace,
    pid: i32,
    error: String,
)
    requires
        start_run(app, conf, trace) is Some,
        launches(trace, pid, Err(error)),
        trace.len() <= 5,
    ensures
        ({
            let next = start_run(app, conf, trace)->0;
            if trace.len() == 3 {
                start_asks(next, kill_of(pid))
            } else if trace.len() == 4 {
                start_asks(next, Request::ReapChild)
            } else {
                start_quarantines(next, Cause::PidFileWriteFailed { pid, error })
            }
        }),
    decreases trace.len(),
{
    reveal(start_run);
    lemma_unrecorded(app, conf, trace, pid, error);
}

proof fn lemma_unrecorded(
    app: AppSpec,
    conf: Option<LogOverrides>,
    trace: Trace,
    pid: i32,
    error: String,
)
    requires
        start_run(app, conf, trace) is Some,
        launches(trace, pid, Err(error)),
        trace.len() <= 5,
    ensures
        start_run(app, conf, trace) == Some(
            StartNext::Ask(
                if trace.len() == 3 {
                    Start::UnrecordedKill { pid, error }
                } else if trace.len() == 4 {
                    Start::UnrecordedReap { pid, error }
                } else {
                    Start::Quarantining(
                        Quarantine::Looking(Cause::PidFileWriteFailed { pid, error }),
                    )
                },
            ),
        ),
    decreases trace.len(),
{
    reveal(start_run);
    let before = trace.drop_last();
    assert(before[1] == trace[1]);
    if trace.len() == 3 {
        lemma_start(app, conf, before);
        assert(trace[2] == trace.last());
    } else {
        assert(before[2] == trace[2]);
        lemma_unrecorded(app, conf, before, pid, error);
    }
}

/// The way from an end that came too early to the quarantine: the group is killed, the PID
/// file is removed, and the marker tells the number, the end and how long it took.
pub proof fn an_early_end_is_told(
    app: AppSpec,
    conf: Option<LogOverrides>,
    trace: Trace,
    pid: i32,
    i: int,
)
    requires
        start_run(app, conf, trace) is Some,
        launches(trace, pid, Ok(())),
        3 <= i <= trace.len() <= i + 3,
        wait_run(app.startup_validation, trace.subrange(3, i)) matches Some(
            Next::Done(WaitResult::Exited(_)),
        ),
    ensures
        ({
            let next = start_run(app, conf, trace)->0;
            let status = wait_run(app.startup_validation, trace.subrange(3, i))->0->Done_0->Exited_0;
            if trace.len() == i {
                start_asks(next, kill_of(pid))
            } else if trace.len() == i + 1 {
                start_asks(next, Request::RemovePidFile)
            } else if trace.len() == i + 2 {
                start_asks(next, Request::MeasureStartup)
            } else {
                trace[i + 2].1 matches Reply::Startup { millis } && start_quarantines(
                    next,
                    Cause::StartupExitedEarly { pid, status, millis },
                )
            }
        }),
{
    reveal(start_run);
    lemma_early(app, conf, trace, pid, i);
}

proof fn lemma_early(
    app: AppSpec,
    conf: Option<LogOverrides>,
    trace: Trace,
    pid: i32,
    i: int,
)
    requires
        start_run(app, conf, trace) is Some,
        launches(trace, pid, Ok(())),
        3 <= i <= trace.len() <= i + 3,
        wait_run(app.startup_validation, trace.subrange(3, i)) matches Some(
            Next::Done(WaitResult::Exited(_)),
        ),
    ensures
        ({
            let status = wait_run(app.startup_validation, trace.subrange(3, i))->0->Done_0->Exited_0;
            start_run(app, conf, trace) == Some(
                StartNext::Ask(
                    if trace.len() == i {
                        Start::EndedKill { pid, status }
                    } else if trace.len() == i + 1 {
                        Start::EndedRemove { pid, status }
                    } else if trace.len() == i + 2 {
                        Start::EndedMeasure { pid, status }
                    } else {
                        Start::Quarantining(
                            Quarantine::Looking(
                                Cause::StartupExitedEarly {
                                    pid,
                                    status,
                                    millis: trace[i + 2].1->Startup_millis,
                                },
                            ),
                        )
                    },
                ),
            )
        }),
        trace.len() == i + 3 ==> trace[i + 2].1 is Startup,
    decreases trace.len(),
{
    reveal(start_run);
    if trace.len() == i {
        assert(trace.subrange(3, i) =~= trace.skip(3));
        lemma_validated(app, conf, trace, pid);
    } else {
        let before = trace.drop_last();
        assert(before[1] == trace[1] && before[2] == trace[2]);
        assert(before.subrange(3, i) =~= trace.subrange(3, i));
        lemma_early(app, conf, before, pid, i);
        assert(trace[trace.len() - 1] == trace.last());
    }
}

/// The way from an observation that failed to the quarantine: the group is killed, the
/// child is waited for, the PID file is removed, and the marker tells the number, what
/// failed and how long it took.
pub proof fn a_failed_observation_is_told(
    app: AppSpec,
    conf: Option<LogOverrides>,
    trace: Trace,
    pid: i32,
    i: int,
)
    requires
        start_run(app, conf, trace) is Some,
        launches(trace, pid, Ok(())),
        3 <= i <= trace.len() <= i + 4,
        wait_run(app.startup_validation, trace.subrange(3, i)) matches Some(
            Next::Done(WaitResult::Failed(_)),
        ),
    ensures
        ({
            let next = start_run(app, conf, trace)->0;
            let failure = wait_run(
                app.startup_validation,
                trace.subrange(3, i),
            )->0->Done_0->Failed_0;
            if trace.len() == i {
                start_asks(next, kill_of(pid))
            } else if trace.len() == i + 1 {
                start_asks(next, Request::ReapChild)
            } else if trace.len() == i + 2 {
                start_asks(next, Request::RemovePidFile)
            } else if trace.len() == i + 3 {
                start_asks(next, Request::MeasureStartup)
            } else {
                trace[i + 3].1 matches Reply::Startup { millis } && start_quarantines(
                    next,
                    Cause::StartupObservationFailed { pid, failure, millis },
                )
            }
        }),
{
    reveal(start_run);
    lemma_unseen(app, conf, trace, pid, i);
}

proof fn lemma_unseen(
    app: AppSpec,
    conf: Option<LogOverrides>,
    trace: Trace,
    pid: i32,
    i: int,
)
    requires
        start_run(app, conf, trace) is Some,
        launches(trace, pid, Ok(())),
        3 <= i <= trace.len() <= i + 4,
        wait_run(app.startup_validation, trace.subrange(3, i)) matches Some(
            Next::Done(WaitResult::Failed(_)),
        ),
    ensures
        ({
            let failure = wait_run(
                app.startup_validation,
                trace.subrange(3, i),
            )->0->Done_0->Failed_0;
            start_run(app, conf, trace) == Some(
                StartNext::Ask(
                    if trace.len() == i {
                        Start::UnseenKill { pid, failure }
                    } else if trace.len() == i + 1 {
                        Start::UnseenReap { pid, failure }
                    } else if trace.len() == i + 2 {
                        Start::UnseenRemove { pid, failure }
                    } else if trace.len() == i + 3 {
                        Start::UnseenMeasure { pid, failure }
                    } else {
                        Start::Quarantining(
                            Quarantine::Looking(
                                Cause::StartupObservationFailed {
                                    pid,
                                    failure,
                                    millis: trace[i + 3].1->Startup_millis,
                                },
                            ),
                        )
                    },
                ),
            )
        }),
        trace.len() == i + 4 ==> trace[i + 3].1 is Startup,
    decreases trace.len(),
{
    reveal(start_run);
    if trace.len() == i {
        assert(trace.subrange(3, i) =~= trace.skip(3));
        lemma_validated(app, conf, trace, pid);
    } else {
        let before = trace.drop_last();
        assert(before[1] == trace[1] && before[2] == trace[2]);
        assert(before.subrange(3, i) =~= trace.subrange(3, i));
        lemma_unseen(app, conf, before, pid, i);
        assert(trace[trace.len() - 1] == trace.last());
    }
}

/// A start that goes on with a quarantine goes on as that does, and comes to what that
/// comes to.
pub proof fn a_start_ends_as_its_quarantine(
    app: AppSpec,
    conf: Option<LogOverrides>,
    trace: Trace,
    m: int,
    cause: Cause,
)
    requires
        start_run(app, conf, trace) is Some,
        0 <= m <= trace.len(),
        start_run(app, conf, trace.take(m)) is Some,
        start_quarantines(start_run(app, conf, trace.take(m))->0, cause),
    ensures
        match quarantine_run(cause, trace.skip(m)) {
            Some(Next::Ask(q)) => start_asks(start_run(app, conf, trace)->0, q.asks())
                && start_run(app, conf, trace)->0->Ask_0.marks() == Some(cause),
            Some(Next::Done(result)) => start_run(app, conf, trace) == Some(
                StartNext::Done(result),
            ),
            None => false,
        },
        trace.len() > m ==> start_note(app, conf, trace) == quarantine_note(cause, trace.skip(m)),
{
    reveal(start_run);
    reveal(start_note);
    lemma_start_quarantine(app, conf, trace, m, cause);
    if let Some(Next::Ask(q)) = quarantine_run(cause, trace.skip(m)) {
        lemma_quarantine(cause, trace.skip(m));
    }
    if trace.len() > m {
        assert(trace.drop_last().take(m) =~= trace.take(m));
        lemma_start_prefix(app, conf, trace);
        lemma_start_quarantine(app, conf, trace.drop_last(), m, cause);
        assert(trace.skip(m).drop_last() =~= trace.drop_last().skip(m));
        assert(trace.skip(m).last() == trace.last());
    }
}

proof fn lemma_start_prefix(app: AppSpec, conf: Option<LogOverrides>, trace: Trace)
    requires
        start_run(app, conf, trace) is Some,
        trace.len() > 0,
    ensures
        start_run(app, conf, trace.drop_last()) matches Some(Next::Ask(_)),
{
    reveal(start_run);
}

proof fn lemma_start_quarantine(
    app: AppSpec,
    conf: Option<LogOverrides>,
    trace: Trace,
    m: int,
    cause: Cause,
)
    requires
        start_run(app, conf, trace) is Some,
        0 <= m <= trace.len(),
        start_run(app, conf, trace.take(m)) is Some,
        start_quarantines(start_run(app, conf, trace.take(m))->0, cause),
    ensures
        match quarantine_run(cause, trace.skip(m)) {
            Some(Next::Ask(q)) => start_run(app, conf, trace) == Some(
                StartNext::Ask(Start::Quarantining(q)),
            ),
            Some(Next::Done(result)) => start_run(app, conf, trace) == Some(
                StartNext::Done(result),
            ),
            None => false,
        },
    decreases trace.len(),
{
    reveal(start_run);
    let part = trace.skip(m);
    if trace.len() == m {
        assert(trace.take(m) =~= trace);
        assert(part =~= Seq::<(Request, Reply)>::empty());
        let start = start_run(app, conf, trace)->0->Ask_0;
        lemma_who_looks_for_the_marker(start, cause);
    } else {
        let before = trace.drop_last();
        assert(before.take(m) =~= trace.take(m));
        lemma_start_quarantine(app, conf, before, m, cause);
        assert(part.drop_last() =~= before.skip(m));
        assert(part.last() == trace.last());
    }
}

proof fn lemma_who_looks_for_the_marker(start: Start, cause: Cause)
    requires
        start.asks() == Request::Exists(Place::Invalid),
        start.marks() == Some(cause),
    ensures
        start == Start::Quarantining(Quarantine::Looking(cause)),
{
}

/// While a start goes on there is nothing to tell, until it has been validated or the
/// application is quarantined.
pub proof fn a_start_tells_only_its_end(app: AppSpec, conf: Option<LogOverrides>, trace: Trace)
    requires
        start_run(app, conf, trace) matches Some(Next::Ask(_)),
        trace.len() > 0,
    ensures
        start_note(app, conf, trace) is None,
{
    reveal(start_run);
    reveal(start_note);
}

} // verus!

//! What holds of every run of the procedure that stops an application.

use vstd::prelude::*;
use crate::config::AppSpec;
use crate::host::{Next, PidRecord, Place, RemoveReply, Reply, Request, Shell, Signal, Target, TextFile};
use crate::process::{
    probed, signalled, CommandOutcome, Exec, Gone, ProbeResult, FORCE_KILL_WAIT,
};
use crate::process_laws::exec_run;
use crate::report::{Failure, Note, StopReason};
use crate::signal::{signal_of, StopSignal};
use crate::start::group_kill;
use crate::stop::{configured_signal, Stop, StopPhase};
use crate::trace::{answers, asked, Trace};
use crate::wait_laws::gone_run;

verus! {

/// Where a stop stands after an exchange of requests and answers, if it makes those
/// requests and they are answered.
#[verifier::opaque]
pub open spec fn stop_run(
    app: AppSpec,
    record: PidRecord,
    reason: StopReason,
    trace: Trace,
) -> Option<Next<Stop, Result<(), Failure>>>
    decreases trace.len(),
{
    if trace.len() == 0 {
        Some(Next::Ask(Stop::begun(record, reason)))
    } else {
        match stop_run(app, record, reason, trace.drop_last()) {
            Some(Next::Ask(stop)) => {
                let (request, reply) = trace.last();
                if stop.asks() == request && answers(request, reply) {
                    Some(stop.after(app, reply).next)
                } else {
                    None
                }
            },
            _ => None,
        }
    }
}

/// Whether an exchange shows that a process or a group is gone.
pub open spec fn shows_missing(exchange: (Request, Reply), target: Target) -> bool {
    &&& exchange.0 == (Request::Kill { target, signal: Signal::Probe })
    &&& exchange.1 matches Reply::Killed(reply) && probed(target, reply) == Ok::<
        ProbeResult,
        Failure,
    >(ProbeResult::Missing)
}

/// Whether the last two exchanges show that the leader and the group are gone.
pub open spec fn shows_gone(trace: Trace, record: PidRecord) -> bool {
    &&& trace.len() >= 2
    &&& shows_missing(trace[trace.len() - 2], Target::Process(record.pid))
    &&& shows_missing(trace[trace.len() - 1], Target::Group(record.process_group))
}

/// Whether the PID file was asked to be removed, and is not there any more.
pub open spec fn shows_removed(exchange: (Request, Reply)) -> bool {
    &&& exchange.0 == Request::RemovePidFile
    &&& exchange.1 matches Reply::Removed(removed) && !(removed is Failed)
}

/// Whether the stop program was started as process `pid`.
pub open spec fn started_stop_program(trace: Trace, pid: i32) -> bool {
    exists|i: int| 0 <= i < trace.len() && #[trigger] trace[i] == (
        Request::SpawnShell(Shell::Stop),
        Reply::Spawned(Ok(pid)),
    )
}

/// Whether a request sends no signal, or one that it may send: `SIGKILL` to the
/// application's group or to that of its stop program, and any other stop signal to
/// the application's leader.
pub open spec fn well_aimed(request: Request, trace: Trace, record: PidRecord) -> bool {
    match request {
        Request::Kill { target, signal: Signal::Deliver(signal) } => if signal == StopSignal::Kill {
            ||| target == Target::Group(record.process_group)
            ||| target matches Target::Group(pid) && started_stop_program(trace, pid)
        } else {
            target == Target::Process(record.pid)
        },
        Request::Kill { signal, .. } => signal == Signal::Probe,
        _ => true,
    }
}

/// What is known while an application is waited for to go.
pub open spec fn gone_holds(gone: Gone, trace: Trace, record: PidRecord) -> bool {
    match gone {
        Gone::Arming { record: r, .. } => r == record,
        Gone::Leader { record: r } => r == record,
        Gone::Group { record: r } => {
            &&& r == record
            &&& trace.len() >= 1
            &&& shows_missing(trace.last(), Target::Process(record.pid))
        },
        Gone::Deciding { record: r } => r == record,
        Gone::Pausing { record: r } => r == record,
    }
}

/// What is known while the stop program runs.
pub open spec fn exec_holds(exec: Exec, trace: Trace) -> bool {
    match exec {
        Exec::Spawning { shell, .. } => shell == Shell::Stop,
        Exec::Waiting { pid, .. } => started_stop_program(trace, pid),
        Exec::Killing { pid } => started_stop_program(trace, pid),
        Exec::Reaping => true,
    }
}

/// What is known of a stop from what was asked and answered.
pub open spec fn stop_holds(
    next: Next<Stop, Result<(), Failure>>,
    trace: Trace,
    record: PidRecord,
) -> bool {
    match next {
        Next::Ask(stop) => {
            &&& stop.record == record
            &&& match stop.phase {
                StopPhase::Running(exec) => exec_holds(exec, trace),
                StopPhase::Leaving { forced, gone } => {
                    &&& gone_holds(gone, trace, record)
                    &&& forced ==> asked(trace, group_kill(record.process_group))
                },
                StopPhase::Dying(gone) => {
                    &&& gone_holds(gone, trace, record)
                    &&& asked(trace, group_kill(record.process_group))
                },
                StopPhase::Removing => shows_gone(trace, record),
                _ => true,
            }
        },
        Next::Done(Ok(())) => {
            &&& trace.len() >= 1
            &&& shows_removed(trace.last())
            &&& shows_gone(trace.drop_last(), record)
        },
        Next::Done(Err(Failure::SurvivedKill { process_group })) => {
            &&& process_group == record.process_group
            &&& asked(trace, group_kill(record.process_group))
        },
        Next::Done(Err(_)) => true,
    }
}

proof fn lemma_asked_stays(trace: Trace, request: Request)
    requires
        trace.len() > 0,
    ensures
        asked(trace.drop_last(), request) ==> asked(trace, request),
        trace.last().0 == request ==> asked(trace, request),
        forall|pid: i32|
            started_stop_program(trace.drop_last(), pid) ==> #[trigger] started_stop_program(
                trace,
                pid,
            ),
{
    if asked(trace.drop_last(), request) {
        let i = choose|i: int|
            0 <= i < trace.drop_last().len() && (#[trigger] trace.drop_last()[i]).0 == request;
        assert(trace[i].0 == request);
    }
    assert forall|pid: i32| started_stop_program(trace.drop_last(), pid) implies #[trigger]
    started_stop_program(trace, pid) by {
        let i = choose|i: int|
            0 <= i < trace.drop_last().len() && #[trigger] trace.drop_last()[i] == (
                Request::SpawnShell(Shell::Stop),
                Reply::Spawned(Ok(pid)),
            );
        assert(trace[i] == trace.drop_last()[i]);
    }
}

/// What is known of a stop stays known when it goes on.
pub proof fn stop_keeps_what_is_known(app: AppSpec, stop: Stop, trace: Trace, record: PidRecord)
    requires
        trace.len() > 0,
        stop_holds(Next::Ask(stop), trace.drop_last(), record),
        stop.asks() == trace.last().0,
        answers(trace.last().0, trace.last().1),
    ensures
        stop_holds(stop.after(app, trace.last().1).next, trace, record),
{
    let before = trace.drop_last();
    lemma_asked_stays(trace, group_kill(record.process_group));
    let (request, reply) = trace.last();
    assert(trace[trace.len() - 1] == trace.last());
    match stop.phase {
        StopPhase::Running(exec) => {
            if let (Exec::Spawning { .. }, Reply::Spawned(Ok(pid))) = (exec, reply) {
                assert(trace[trace.len() - 1] == (
                    Request::SpawnShell(Shell::Stop),
                    Reply::Spawned(Ok(pid)),
                ));
                assert(started_stop_program(trace, pid));
            }
        },
        StopPhase::Leaving { .. } => {
            if before.len() >= 1 {
                assert(before[before.len() - 1] == trace[trace.len() - 2]);
            }
        },
        StopPhase::Dying(_) => {
            if before.len() >= 1 {
                assert(before[before.len() - 1] == trace[trace.len() - 2]);
            }
        },
        _ => {},
    }
}

proof fn lemma_stop_holds(app: AppSpec, record: PidRecord, reason: StopReason, trace: Trace)
    requires
        stop_run(app, record, reason, trace) is Some,
    ensures
        stop_holds(stop_run(app, record, reason, trace)->0, trace, record),
    decreases trace.len(),
{
    reveal(stop_run);
    if trace.len() > 0 {
        lemma_stop_holds(app, record, reason, trace.drop_last());
        let stop = stop_run(app, record, reason, trace.drop_last())->0->Ask_0;
        stop_keeps_what_is_known(app, stop, trace, record);
    }
}

/// A run's beginning is a run, and the run goes on from where that stands.
proof fn lemma_stop_step(
    app: AppSpec,
    record: PidRecord,
    reason: StopReason,
    trace: Trace,
    i: int,
)
    requires
        stop_run(app, record, reason, trace) is Some,
        0 <= i < trace.len(),
    ensures
        stop_run(app, record, reason, trace.take(i)) matches Some(Next::Ask(stop)) && {
            &&& stop.asks() == trace[i].0
            &&& answers(trace[i].0, trace[i].1)
            &&& stop_run(app, record, reason, trace.take(i + 1)) == Some(
                stop.after(app, trace[i].1).next,
            )
        },
    decreases trace.len(),
{
    reveal(stop_run);
    if i < trace.len() - 1 {
        lemma_stop_step(app, record, reason, trace.drop_last(), i);
        assert(trace.drop_last().take(i) == trace.take(i));
        assert(trace.drop_last().take(i + 1) == trace.take(i + 1));
        assert(trace.drop_last()[i] == trace[i]);
    } else {
        assert(trace.take(i) == trace.drop_last());
        assert(trace.take(i + 1) == trace);
    }
}

/// An application counts as stopped only when its leader and its group have both
/// been seen to be gone, and its PID file has been removed: these are the last three
/// exchanges.
pub proof fn stopped_means_gone(app: AppSpec, record: PidRecord, reason: StopReason, trace: Trace)
    requires
        stop_run(app, record, reason, trace) == Some(
            Next::<Stop, Result<(), Failure>>::Done(Ok(())),
        ),
    ensures
        trace.len() >= 3,
        shows_missing(trace[trace.len() - 3], Target::Process(record.pid)),
        shows_missing(trace[trace.len() - 2], Target::Group(record.process_group)),
        shows_removed(trace[trace.len() - 1]),
{
    lemma_stop_holds(app, record, reason, trace);
    let before = trace.drop_last();
    assert(before[before.len() - 2] == trace[trace.len() - 3]);
    assert(before[before.len() - 1] == trace[trace.len() - 2]);
}

/// A stop that says that the application survived `SIGKILL` has sent it to the whole
/// group.
pub proof fn survivors_were_killed(
    app: AppSpec,
    record: PidRecord,
    reason: StopReason,
    trace: Trace,
    process_group: i32,
)
    requires
        stop_run(app, record, reason, trace) == Some(
            Next::<Stop, Result<(), Failure>>::Done(Err(Failure::SurvivedKill { process_group })),
        ),
    ensures
        process_group == record.process_group,
        asked(trace, group_kill(record.process_group)),
{
    lemma_stop_holds(app, record, reason, trace);
}

/// Every signal of a stop goes where it should: `SIGKILL` to a whole group, any other
/// to the leader.
pub proof fn stop_signals_are_well_aimed(
    app: AppSpec,
    record: PidRecord,
    reason: StopReason,
    trace: Trace,
    i: int,
)
    requires
        stop_run(app, record, reason, trace) is Some,
        0 <= i < trace.len(),
    ensures
        well_aimed(trace[i].0, trace.take(i), record),
{
    lemma_stop_step(app, record, reason, trace, i);
    lemma_stop_holds(app, record, reason, trace.take(i));
}

/// Where the configured signal is `KILL`, the whole group is killed at once, and it
/// gets the fixed time to disappear instead of a grace period.
pub proof fn kill_skips_the_grace_period(
    app: AppSpec,
    record: PidRecord,
    reason: StopReason,
    trace: Trace,
    i: int,
)
    requires
        stop_run(app, record, reason, trace) is Some,
        0 <= i < trace.len(),
        trace[i].0 == Request::ReadSignalFile,
        trace[i].1 matches Reply::SignalFile(file) && configured_signal(file) == Ok::<
            StopSignal,
            Failure,
        >(StopSignal::Kill),
    ensures
        i + 1 < trace.len() ==> trace[i + 1].0 == group_kill(record.process_group),
        i + 2 < trace.len() ==> trace[i + 2].0 == (Request::ArmDeadline { secs: FORCE_KILL_WAIT }),
{
    lemma_stop_step(app, record, reason, trace, i);
    lemma_stop_holds(app, record, reason, trace.take(i));
    if i + 1 < trace.len() {
        lemma_stop_step(app, record, reason, trace, i + 1);
        if i + 2 < trace.len() {
            lemma_stop_step(app, record, reason, trace, i + 2);
        }
    }
}

/// Where the application has not gone when its grace period is over, its whole group
/// is killed.
pub proof fn the_grace_period_ends_in_a_kill(
    app: AppSpec,
    record: PidRecord,
    reason: StopReason,
    trace: Trace,
    i: int,
    stop: Stop,
)
    requires
        stop_run(app, record, reason, trace) is Some,
        0 <= i < trace.len() - 1,
        stop_run(app, record, reason, trace.take(i)) == Some(
            Next::<Stop, Result<(), Failure>>::Ask(stop),
        ),
        stop.phase matches StopPhase::Leaving { forced: false, .. },
        trace[i] == (Request::CheckDeadline, Reply::Expired(true)),
    ensures
        trace[i + 1].0 == group_kill(record.process_group),
{
    lemma_stop_step(app, record, reason, trace, i);
    lemma_stop_holds(app, record, reason, trace.take(i));
    lemma_stop_step(app, record, reason, trace, i + 1);
}

/// Where the stop program ends in any way but with success, the configured signal is
/// read next; where it ends with success, no signal is sent before the grace period
/// begins.
pub proof fn a_failed_stop_program_is_followed_by_the_signal(
    app: AppSpec,
    record: PidRecord,
    reason: StopReason,
    trace: Trace,
    i: int,
    exec: Exec,
)
    requires
        stop_run(app, record, reason, trace) is Some,
        0 <= i < trace.len() - 1,
        stop_run(app, record, reason, trace.take(i)) == Some(
            Next::<Stop, Result<(), Failure>>::Ask(
                Stop { record, reason, phase: StopPhase::Running(exec) },
            ),
        ),
        exec.after(trace[i].1) is Done,
    ensures
        exec.after(trace[i].1) matches Next::Done(Ok(CommandOutcome::Success)) ==> trace[i + 1].0
            == (Request::ArmDeadline { secs: app.stop_grace }),
        !(exec.after(trace[i].1) matches Next::Done(Ok(CommandOutcome::Success))) ==> trace[i + 1].0
            == Request::ReadSignalFile,
{
    lemma_stop_step(app, record, reason, trace, i);
    lemma_stop_step(app, record, reason, trace, i + 1);
}

/// A stop begins with the look for the stop program: where there is one it is run, and
/// where there is none the configured signal is read.
pub proof fn the_stop_program_comes_first(
    app: AppSpec,
    record: PidRecord,
    reason: StopReason,
    trace: Trace,
)
    requires
        stop_run(app, record, reason, trace) is Some,
        trace.len() >= 2,
    ensures
        trace[0].0 == Request::Exists(Place::Stop),
        trace[0].1 == Reply::Exists(Ok(true)) ==> trace[1].0 == Request::SpawnShell(Shell::Stop),
        trace[0].1 == Reply::Exists(Ok(false)) ==> trace[1].0 == Request::ReadSignalFile,
{
    reveal(stop_run);
    lemma_stop_step(app, record, reason, trace, 0);
    assert(trace.take(0) =~= Seq::<(Request, Reply)>::empty());
    lemma_stop_step(app, record, reason, trace, 1);
}

/// Where the configured signal leaves the application a choice, it is sent to the leader,
/// and then the application gets its grace period.
pub proof fn a_signalled_app_gets_its_grace_period(
    app: AppSpec,
    record: PidRecord,
    reason: StopReason,
    trace: Trace,
    i: int,
    signal: StopSignal,
)
    requires
        stop_run(app, record, reason, trace) is Some,
        0 <= i < trace.len(),
        trace[i].0 == Request::ReadSignalFile,
        trace[i].1 matches Reply::SignalFile(file) && configured_signal(file) == Ok::<
            StopSignal,
            Failure,
        >(signal),
        signal != StopSignal::Kill,
    ensures
        i + 1 < trace.len() ==> trace[i + 1].0 == (Request::Kill {
            target: Target::Process(record.pid),
            signal: Signal::Deliver(signal),
        }),
        i + 2 < trace.len() ==> trace[i + 2].0 == (Request::ArmDeadline { secs: app.stop_grace }),
{
    lemma_stop_step(app, record, reason, trace, i);
    lemma_stop_holds(app, record, reason, trace.take(i));
    if i + 1 < trace.len() {
        lemma_stop_step(app, record, reason, trace, i + 1);
        if i + 2 < trace.len() {
            lemma_stop_step(app, record, reason, trace, i + 2);
        }
    }
}

/// A stop that ends in an error has left the PID file where it was.
pub proof fn a_failed_stop_keeps_the_record(
    app: AppSpec,
    record: PidRecord,
    reason: StopReason,
    trace: Trace,
    failure: Failure,
    i: int,
)
    requires
        stop_run(app, record, reason, trace) == Some(
            Next::<Stop, Result<(), Failure>>::Done(Err(failure)),
        ),
        0 <= i < trace.len(),
    ensures
        !shows_removed(trace[i]),
{
    lemma_stop_step(app, record, reason, trace, i);
    if i + 1 < trace.len() {
        lemma_stop_step(app, record, reason, trace, i + 1);
    } else {
        assert(trace.take(i + 1) =~= trace);
    }
}

pub type StopNext = Next<Stop, Result<(), Failure>>;

/// Whether a stop goes on with a request.
pub open spec fn stop_asks(next: StopNext, request: Request) -> bool {
    next matches Next::Ask(stop) && stop.asks() == request
}

/// How many seconds an application gets to go: those of its own grace period, or five
/// where it has been killed.
pub open spec fn time_to_go(app: AppSpec, forced: bool) -> u64 {
    if forced {
        5
    } else {
        app.stop_grace
    }
}

/// Whether the wait for the application to go begins.
pub open spec fn begins_to_leave(
    app: AppSpec,
    record: PidRecord,
    next: StopNext,
    forced: bool,
) -> bool {
    &&& stop_asks(next, Request::ArmDeadline { secs: time_to_go(app, forced) })
    &&& next matches Next::Ask(stop) && stop.record == record && (stop.phase
        matches StopPhase::Leaving { forced: f, .. } && f == forced)
}

/// Whether the wait for the killed application to go begins.
pub open spec fn begins_to_die(record: PidRecord, next: StopNext) -> bool {
    &&& stop_asks(next, Request::ArmDeadline { secs: 5 })
    &&& next matches Next::Ask(stop) && stop.record == record && stop.phase is Dying
}

/// A stop first asks whether there is a stop program. Where that cannot be told the stop
/// fails; where there is none the configured signal is read.
pub proof fn a_stop_looks_for_its_program(
    app: AppSpec,
    record: PidRecord,
    reason: StopReason,
    trace: Trace,
)
    requires
        stop_run(app, record, reason, trace) is Some,
        trace.len() <= 1,
    ensures
        ({
            let next = stop_run(app, record, reason, trace)->0;
            if trace.len() == 0 {
                stop_asks(next, Request::Exists(Place::Stop))
            } else {
                match trace[0].1 {
                    Reply::Exists(Ok(true)) => stop_asks(next, Request::SpawnShell(Shell::Stop)),
                    Reply::Exists(Ok(false)) => stop_asks(next, Request::ReadSignalFile),
                    Reply::Exists(Err(error)) => next == StopNext::Done(
                        Err(Failure::CannotCheck { place: Place::Stop, error }),
                    ),
                    _ => false,
                }
            }
        }),
{
    reveal(stop_run);
    if trace.len() == 1 {
        let none = trace.drop_last();
        assert(none =~= Seq::<(Request, Reply)>::empty());
        assert(stop_run(app, record, reason, none) == Some(
            StopNext::Ask(Stop::begun(record, reason)),
        ));
        assert(trace.last() == trace[0]);
    }
}

proof fn lemma_program_runs(app: AppSpec, record: PidRecord, reason: StopReason, trace: Trace)
    requires
        stop_run(app, record, reason, trace) is Some,
        trace.len() >= 1,
        trace[0].1 == Reply::Exists(Ok(true)),
    ensures
        match exec_run(Shell::Stop, app.command_timeout, trace.skip(1)) {
            Some(Next::Ask(exec)) => stop_run(app, record, reason, trace) == Some(
                StopNext::Ask(Stop { record, reason, phase: StopPhase::Running(exec) }),
            ),
            Some(Next::Done(Ok(CommandOutcome::Success))) => begins_to_leave(
                app,
                record,
                stop_run(app, record, reason, trace)->0,
                false,
            ),
            Some(Next::Done(_)) => stop_run(app, record, reason, trace) == Some(
                StopNext::Ask(Stop { record, reason, phase: StopPhase::ReadingSignal }),
            ),
            None => true,
        },
    decreases trace.len(),
{
    reveal(stop_run);
    let before = trace.drop_last();
    let part = trace.skip(1);
    if trace.len() == 1 {
        assert(before =~= Seq::<(Request, Reply)>::empty());
        assert(part =~= Seq::<(Request, Reply)>::empty());
        assert(trace.last() == trace[0]);
    } else {
        assert(before[0] == trace[0]);
        lemma_program_runs(app, record, reason, before);
        assert(part.drop_last() =~= before.skip(1));
        assert(part.last() == trace.last());
    }
}

/// Where there is a stop program it is run, with the time that commands of the
/// application get. Where it succeeds the grace period begins; where it does not, or runs
/// out of its time, the configured signal is read.
pub proof fn the_stop_program_decides(
    app: AppSpec,
    record: PidRecord,
    reason: StopReason,
    trace: Trace,
)
    requires
        stop_run(app, record, reason, trace) is Some,
        trace.len() >= 1,
        trace[0].1 == Reply::Exists(Ok(true)),
    ensures
        ({
            let next = stop_run(app, record, reason, trace)->0;
            match exec_run(Shell::Stop, app.command_timeout, trace.skip(1)) {
                Some(Next::Ask(exec)) => stop_asks(next, exec.asks()),
                Some(Next::Done(Ok(CommandOutcome::Success))) => begins_to_leave(
                    app,
                    record,
                    next,
                    false,
                ),
                Some(Next::Done(_)) => stop_asks(next, Request::ReadSignalFile),
                None => true,
            }
        }),
{
    lemma_program_runs(app, record, reason, trace);
}

/// The configured signal is `TERM` where there is no file; a file that cannot be read, or
/// that names no stop signal, fails the stop before anything is signalled. The signal is
/// sent to the whole group where it is `KILL` and to the leader where it is not; a signal
/// that could not be sent fails the stop, and otherwise the application gets its time.
pub proof fn the_configured_signal_is_sent(
    app: AppSpec,
    record: PidRecord,
    reason: StopReason,
    trace: Trace,
    i: int,
)
    requires
        stop_run(app, record, reason, trace) is Some,
        0 <= i < trace.len(),
        trace[i].0 == Request::ReadSignalFile,
    ensures
        ({
            let read = stop_run(app, record, reason, trace.take(i + 1));
            let signal = match trace[i].1 {
                Reply::SignalFile(TextFile::Missing) => Some(StopSignal::Terminate),
                Reply::SignalFile(TextFile::Text(text)) => match signal_of(text@) {
                    Ok(signal) => Some(signal),
                    Err(_) => None,
                },
                _ => None,
            };
            match signal {
                None => match trace[i].1 {
                    Reply::SignalFile(TextFile::Unreadable(error)) => read == Some(
                        StopNext::Done(
                            Err(Failure::CannotRead { place: Place::SignalFile, error }),
                        ),
                    ),
                    Reply::SignalFile(TextFile::Text(text)) => read == Some(
                        StopNext::Done(Err(Failure::BadStopSignal { text })),
                    ),
                    _ => false,
                },
                Some(signal) => {
                    let target = if signal == StopSignal::Kill {
                        Target::Group(record.process_group)
                    } else {
                        Target::Process(record.pid)
                    };
                    &&& stop_asks(
                        read->0,
                        Request::Kill { target, signal: Signal::Deliver(signal) },
                    )
                    &&& i + 1 < trace.len() ==> {
                        let sent = stop_run(app, record, reason, trace.take(i + 2));
                        trace[i + 1].1 matches Reply::Killed(reply) && match signalled(
                            target,
                            reply,
                        ) {
                            Ok(()) => begins_to_leave(
                                app,
                                record,
                                sent->0,
                                signal == StopSignal::Kill,
                            ),
                            Err(failure) => sent == Some(StopNext::Done(Err(failure))),
                        }
                    }
                },
            }
        }),
{
    lemma_stop_step(app, record, reason, trace, i);
    lemma_stop_holds(app, record, reason, trace.take(i));
    if i + 1 < trace.len() {
        lemma_stop_step(app, record, reason, trace, i + 1);
    }
}

spec fn leaving_at(
    app: AppSpec,
    record: PidRecord,
    reason: StopReason,
    trace: Trace,
    m: int,
    forced: bool,
) -> bool {
    &&& 0 <= m <= trace.len()
    &&& stop_run(app, record, reason, trace.take(m)) is Some
    &&& begins_to_leave(app, record, stop_run(app, record, reason, trace.take(m))->0, forced)
}

proof fn lemma_leaves(
    app: AppSpec,
    record: PidRecord,
    reason: StopReason,
    trace: Trace,
    m: int,
    forced: bool,
)
    requires
        stop_run(app, record, reason, trace) is Some,
        leaving_at(app, record, reason, trace, m, forced),
    ensures
        match gone_run(record, time_to_go(app, forced), trace.skip(m)) {
            Some(Next::Ask(gone)) => stop_run(app, record, reason, trace) == Some(
                StopNext::Ask(Stop { record, reason, phase: StopPhase::Leaving { forced, gone } }),
            ),
            Some(Next::Done(Ok(true))) => stop_run(app, record, reason, trace) == Some(
                StopNext::Ask(Stop { record, reason, phase: StopPhase::Removing }),
            ),
            Some(Next::Done(Ok(false))) => if forced {
                stop_run(app, record, reason, trace) == Some(
                    StopNext::Done(
                        Err(Failure::SurvivedKill { process_group: record.process_group }),
                    ),
                )
            } else {
                stop_run(app, record, reason, trace) == Some(
                    StopNext::Ask(Stop { record, reason, phase: StopPhase::Killing }),
                )
            },
            Some(Next::Done(Err(failure))) => stop_run(app, record, reason, trace) == Some(
                StopNext::Done(Err(failure)),
            ),
            None => true,
        },
    decreases trace.len(),
{
    reveal(stop_run);
    let before = trace.drop_last();
    let part = trace.skip(m);
    if trace.len() == m {
        assert(trace.take(m) =~= trace);
        assert(part =~= Seq::<(Request, Reply)>::empty());
        lemma_stop_holds(app, record, reason, trace);
        lemma_reason_stays(app, record, reason, trace);
    } else {
        assert(before.take(m) =~= trace.take(m));
        lemma_leaves(app, record, reason, before, m, forced);
        assert(part.drop_last() =~= before.skip(m));
        assert(part.last() == trace.last());
    }
}

proof fn lemma_reason_stays(app: AppSpec, record: PidRecord, reason: StopReason, trace: Trace)
    requires
        stop_run(app, record, reason, trace) is Some,
    ensures
        stop_run(app, record, reason, trace)->0 matches Next::Ask(stop) ==> stop.reason == reason,
    decreases trace.len(),
{
    reveal(stop_run);
    if trace.len() > 0 {
        lemma_reason_stays(app, record, reason, trace.drop_last());
    }
}

/// The wait for the application to go is for the leader and the group that were recorded,
/// for the time that it has. As soon as both are gone the PID file is removed. What has not
/// gone in time has survived `SIGKILL` where it was killed, which fails the stop, and is
/// killed, the whole group, where it was not.
pub proof fn what_does_not_leave_is_killed(
    app: AppSpec,
    record: PidRecord,
    reason: StopReason,
    trace: Trace,
    m: int,
    forced: bool,
)
    requires
        stop_run(app, record, reason, trace) is Some,
        0 <= m <= trace.len(),
        stop_run(app, record, reason, trace.take(m)) is Some,
        begins_to_leave(app, record, stop_run(app, record, reason, trace.take(m))->0, forced),
    ensures
        ({
            let next = stop_run(app, record, reason, trace)->0;
            match gone_run(record, time_to_go(app, forced), trace.skip(m)) {
                Some(Next::Ask(gone)) => stop_asks(next, gone.asks()),
                Some(Next::Done(Ok(true))) => stop_asks(next, Request::RemovePidFile),
                Some(Next::Done(Ok(false))) => if forced {
                    next == StopNext::Done(
                        Err(Failure::SurvivedKill { process_group: record.process_group }),
                    )
                } else {
                    stop_asks(
                        next,
                        Request::Kill {
                            target: Target::Group(record.process_group),
                            signal: Signal::Deliver(StopSignal::Kill),
                        },
                    )
                },
                Some(Next::Done(Err(failure))) => next == StopNext::Done(Err(failure)),
                None => true,
            }
        }),
{
    lemma_leaves(app, record, reason, trace, m, forced);
}

/// After the kill that ends a grace period the application gets five seconds to go, unless
/// the kill could not be sent, which fails the stop.
pub proof fn a_killed_app_gets_time_to_go(
    app: AppSpec,
    record: PidRecord,
    reason: StopReason,
    trace: Trace,
    m: int,
)
    requires
        stop_run(app, record, reason, trace) is Some,
        0 <= m < trace.len(),
        stop_run(app, record, reason, trace.take(m)) is Some,
        begins_to_leave(app, record, stop_run(app, record, reason, trace.take(m))->0, false),
        gone_run(record, app.stop_grace, trace.drop_last().skip(m)) == Some(
            Next::<Gone, Result<bool, Failure>>::Done(Ok(false)),
        ),
    ensures
        ({
            let next = stop_run(app, record, reason, trace)->0;
            trace.last().1 matches Reply::Killed(reply) && match signalled(
                Target::Group(record.process_group),
                reply,
            ) {
                Ok(()) => begins_to_die(record, next),
                Err(failure) => next == StopNext::Done(Err(failure)),
            }
        }),
{
    reveal(stop_run);
    assert(trace.drop_last().take(m) =~= trace.take(m));
    lemma_leaves(app, record, reason, trace.drop_last(), m, false);
}

proof fn lemma_dies(
    app: AppSpec,
    record: PidRecord,
    reason: StopReason,
    trace: Trace,
    m: int,
)
    requires
        stop_run(app, record, reason, trace) is Some,
        0 <= m <= trace.len(),
        stop_run(app, record, reason, trace.take(m)) is Some,
        begins_to_die(record, stop_run(app, record, reason, trace.take(m))->0),
    ensures
        match gone_run(record, 5, trace.skip(m)) {
            Some(Next::Ask(gone)) => stop_run(app, record, reason, trace) == Some(
                StopNext::Ask(Stop { record, reason, phase: StopPhase::Dying(gone) }),
            ),
            Some(Next::Done(Ok(true))) => stop_run(app, record, reason, trace) == Some(
                StopNext::Ask(Stop { record, reason, phase: StopPhase::Removing }),
            ),
            Some(Next::Done(Ok(false))) => stop_run(app, record, reason, trace) == Some(
                StopNext::Done(Err(Failure::SurvivedKill { process_group: record.process_group })),
            ),
            Some(Next::Done(Err(failure))) => stop_run(app, record, reason, trace) == Some(
                StopNext::Done(Err(failure)),
            ),
            None => true,
        },
    decreases trace.len(),
{
    reveal(stop_run);
    let before = trace.drop_last();
    let part = trace.skip(m);
    if trace.len() == m {
        assert(trace.take(m) =~= trace);
        assert(part =~= Seq::<(Request, Reply)>::empty());
        lemma_stop_holds(app, record, reason, trace);
        lemma_reason_stays(app, record, reason, trace);
    } else {
        assert(before.take(m) =~= trace.take(m));
        lemma_dies(app, record, reason, before, m);
        assert(part.drop_last() =~= before.skip(m));
        assert(part.last() == trace.last());
    }
}

/// The wait for the killed application is for its leader and its group: as soon as both
/// are gone the PID file is removed, and what has not gone in time has survived.
pub proof fn what_does_not_die_has_survived(
    app: AppSpec,
    record: PidRecord,
    reason: StopReason,
    trace: Trace,
    m: int,
)
    requires
        stop_run(app, record, reason, trace) is Some,
        0 <= m <= trace.len(),
        stop_run(app, record, reason, trace.take(m)) is Some,
        begins_to_die(record, stop_run(app, record, reason, trace.take(m))->0),
    ensures
        ({
            let next = stop_run(app, record, reason, trace)->0;
            match gone_run(record, 5, trace.skip(m)) {
                Some(Next::Ask(gone)) => stop_asks(next, gone.asks()),
                Some(Next::Done(Ok(true))) => stop_asks(next, Request::RemovePidFile),
                Some(Next::Done(Ok(false))) => next == StopNext::Done(
                    Err(Failure::SurvivedKill { process_group: record.process_group }),
                ),
                Some(Next::Done(Err(failure))) => next == StopNext::Done(Err(failure)),
                None => true,
            }
        }),
{
    lemma_dies(app, record, reason, trace, m);
}

/// A stop ends with the removal of the PID file: it has succeeded unless the file could
/// not be removed. A file that is not there is no failure.
pub proof fn a_stop_ends_with_the_removal(
    app: AppSpec,
    record: PidRecord,
    reason: StopReason,
    trace: Trace,
)
    requires
        stop_run(app, record, reason, trace) is Some,
        trace.len() > 0,
        trace.last().0 == Request::RemovePidFile,
    ensures
        ({
            let next = stop_run(app, record, reason, trace)->0;
            match trace.last().1 {
                Reply::Removed(RemoveReply::Failed(error)) => next == StopNext::Done(
                    Err(Failure::CannotRemove { place: Place::PidFile, error }),
                ),
                _ => next == StopNext::Done(Ok(())),
            }
        }),
{
    reveal(stop_run);
    lemma_stop_holds(app, record, reason, trace.drop_last());
}

/// What is told with the last answer of a stop.
#[verifier::opaque]
pub open spec fn stop_note(
    app: AppSpec,
    record: PidRecord,
    reason: StopReason,
    trace: Trace,
) -> Option<Note> {
    match stop_run(app, record, reason, trace.drop_last()) {
        Some(Next::Ask(stop)) => stop.after(app, trace.last().1).note,
        _ => None,
    }
}

/// A stop that succeeds tells why and what was stopped. A stop program that did not
/// succeed is told with what it came to, and the kill at the end of a grace period with the
/// group that it is for. Nothing else is told.
pub proof fn a_stop_tells_what_it_does(
    app: AppSpec,
    record: PidRecord,
    reason: StopReason,
    trace: Trace,
)
    requires
        stop_run(app, record, reason, trace) is Some,
        trace.len() > 0,
    ensures
        ({
            let next = stop_run(app, record, reason, trace)->0;
            let note = stop_note(app, record, reason, trace);
            let program = exec_run(Shell::Stop, app.command_timeout, trace.skip(1));
            if next == StopNext::Done(Ok(())) {
                note == Some(Note::Stopped { reason, pid: record.pid })
            } else if trace[0].1 == Reply::Exists(Ok(true)) && (program matches Some(Next::Done(_)))
                && stop_asks(next, Request::ReadSignalFile) {
                match program {
                    Some(Next::Done(Ok(outcome))) => note == Some(
                        Note::StopCommandReturned(outcome),
                    ),
                    Some(Next::Done(Err(failure))) => note == Some(
                        Note::StopCommandFailed(failure),
                    ),
                    _ => false,
                }
            } else if trace.last() == (Request::CheckDeadline, Reply::Expired(true)) && stop_asks(
                next,
                group_kill(record.process_group),
            ) && !(next->Ask_0.phase is Running) {
                note == Some(
                    Note::SendingKill { reason, process_group: record.process_group },
                )
            } else {
                note is None
            }
        }),
{
    reveal(stop_run);
    reveal(stop_note);
    let before = trace.drop_last();
    lemma_stop_holds(app, record, reason, before);
    lemma_reason_stays(app, record, reason, before);
    let stop = stop_run(app, record, reason, before)->0->Ask_0;
    if trace.len() == 1 {
        assert(trace[0] == trace.last());
        assert(before =~= Seq::<(Request, Reply)>::empty());
        assert(stop_run(app, record, reason, before) == Some(
            StopNext::Ask(Stop::begun(record, reason)),
        ));
        assert(trace.skip(1) =~= Seq::<(Request, Reply)>::empty());
    } else {
        assert(before[0] == trace[0]);
        if trace[0].1 == Reply::Exists(Ok(true)) {
            lemma_program_runs(app, record, reason, before);
            lemma_program_runs(app, record, reason, trace);
            assert(trace.skip(1).drop_last() =~= before.skip(1));
            assert(trace.skip(1).last() == trace.last());
        }
        if stop.phase is Running {
            lemma_who_runs(app, record, reason, before);
        }
    }
}

proof fn lemma_who_runs(app: AppSpec, record: PidRecord, reason: StopReason, trace: Trace)
    requires
        stop_run(app, record, reason, trace) is Some,
    ensures
        stop_run(app, record, reason, trace)->0 matches Next::Ask(stop) ==> (stop.phase
            matches StopPhase::Running(exec) ==> trace.len() >= 1 && trace[0].1 == Reply::Exists(
            Ok(true),
        ) && exec_run(Shell::Stop, app.command_timeout, trace.skip(1)) == Some(
            Next::<Exec, Result<CommandOutcome, crate::report::ExecFailure>>::Ask(exec),
        )),
    decreases trace.len(),
{
    reveal(stop_run);
    if trace.len() > 0 {
        let before = trace.drop_last();
        lemma_who_runs(app, record, reason, before);
        if before.len() > 0 {
            assert(before[0] == trace[0]);
            assert(trace.skip(1).drop_last() =~= before.skip(1));
            assert(trace.skip(1).last() == trace.last());
            lemma_looks_once(app, record, reason, before);
        } else {
            assert(trace[0] == trace.last());
            assert(trace.skip(1) =~= Seq::<(Request, Reply)>::empty());
        }
    }
}

proof fn lemma_looks_once(app: AppSpec, record: PidRecord, reason: StopReason, trace: Trace)
    requires
        stop_run(app, record, reason, trace) is Some,
        trace.len() > 0,
    ensures
        stop_run(app, record, reason, trace)->0 matches Next::Ask(stop) ==> !(stop.phase
            is Looking),
    decreases trace.len(),
{
    reveal(stop_run);
    if trace.len() > 1 {
        lemma_looks_once(app, record, reason, trace.drop_last());
    } else {
        let none = trace.drop_last();
        assert(none =~= Seq::<(Request, Reply)>::empty());
        assert(stop_run(app, record, reason, none) == Some(
            StopNext::Ask(Stop::begun(record, reason)),
        ));
    }
}

} // verus!

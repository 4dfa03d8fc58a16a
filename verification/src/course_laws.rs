//! The course that a check takes: what is done follows from what was seen.

use vstd::prelude::*;
use crate::check::{log_overrides, start_program, Check};
use crate::check_laws::check_run;
use crate::config::{AppSpec, LogOverrides};
use crate::host::{
    FileMetadata, LogFile, Next, PidRecord, Place, RemoveReply, Reply, Request, Shell,
};
use crate::process::{CommandOutcome, Exec, KnownState, ProcessState, Query};
use crate::process_laws::{exec_run, query_run, ExecNext};
use crate::report::{AppCheckResult, Cause, Failure, Note, StopReason};
use crate::start::{CheckStep, Quarantine, Start};
use crate::start_laws::{
    kill_of, quarantine_note, quarantine_run, start_note, start_run, StartNext,
};
use crate::stop::{Stop, StopStep};
use crate::stop_laws::{stop_note, stop_run, StopNext};
use crate::trace::{answers, Trace};

verus! {

pub type CheckNext = Next<Check, AppCheckResult>;

pub type QueryNext = Next<Query, Result<KnownState, Failure>>;

/// Whether a check goes on with a request.
pub open spec fn check_asks(next: CheckNext, request: Request) -> bool {
    next matches Next::Ask(check) && check.asks() == request
}

/// Whether a check goes on with the quarantine of the application for a cause.
pub open spec fn check_quarantines(next: CheckNext, cause: Cause) -> bool {
    &&& check_asks(next, Request::Exists(Place::Invalid))
    &&& next matches Next::Ask(check) && check.marks() == Some(cause)
}

/// What is told with the last answer of a check.
#[verifier::opaque]
pub open spec fn check_note(app: AppSpec, trace: Trace) -> Option<Note> {
    match check_run(app, trace.drop_last()) {
        Some(Next::Ask(check)) => check.after(app, trace.last().1).note,
        _ => None,
    }
}

/// Whether somebody may execute a file.
pub open spec fn is_executable(metadata: FileMetadata) -> bool {
    ||| metadata.mode & 0x40 != 0
    ||| metadata.mode & 0x08 != 0
    ||| metadata.mode & 0x01 != 0
}

/// A start program will do exactly where it is a file that its owner, its group or anybody
/// may execute; otherwise it is told what it is not.
pub proof fn a_start_program_is_an_executable_file(observed: Result<FileMetadata, String>)
    ensures
        match observed {
            Err(error) => start_program(observed) == Err::<(), Failure>(
                Failure::CannotInspectStart { error },
            ),
            Ok(metadata) => if !metadata.is_file {
                start_program(observed) == Err::<(), Failure>(Failure::StartNotAFile)
            } else if !is_executable(metadata) {
                start_program(observed) == Err::<(), Failure>(Failure::StartNotExecutable)
            } else {
                start_program(observed) == Ok::<(), Failure>(())
            },
        },
{
    if let Ok(metadata) = observed {
        let mode = metadata.mode;
        assert((mode & 0x49u32 == 0) <==> (mode & 0x40u32 == 0 && mode & 0x08u32 == 0 && mode
            & 0x01u32 == 0)) by (bit_vector);
    }
}

/// What `log.conf` overrides is what it was parsed to; without the file nothing is
/// overridden, and a file that cannot be read or parsed is a failure.
pub proof fn a_log_conf_is_what_was_parsed(file: LogFile)
    ensures
        match file {
            LogFile::Missing => log_overrides(file) == Ok::<Option<LogOverrides>, Failure>(None),
            LogFile::Parsed(overrides) => log_overrides(file) == Ok::<
                Option<LogOverrides>,
                Failure,
            >(Some(overrides)),
            LogFile::Unreadable(error) => log_overrides(file) == Err::<
                Option<LogOverrides>,
                Failure,
            >(Failure::BadLogConf { error }),
            LogFile::Malformed(error) => log_overrides(file) == Err::<
                Option<LogOverrides>,
                Failure,
            >(Failure::BadLogConf { error }),
        },
{
}

/// Whether the log settings could be loaded, and what `log.conf` overrides.
pub open spec fn loads(trace: Trace, conf: Option<LogOverrides>) -> bool {
    &&& trace.len() >= 3
    &&& trace[2].0 == Request::ReadLogConf
    &&& trace[2].1 matches Reply::LogConf(file) && log_overrides(file) == Ok::<
        Option<LogOverrides>,
        Failure,
    >(conf)
}

/// A name for one step, which is looked into only where that is asked for.
#[verifier::opaque]
spec fn moves(app: AppSpec, check: Check, reply: Reply) -> CheckStep<Check> {
    check.after(app, reply)
}

/// A name for the request that a state check_run at, likewise.
#[verifier::opaque]
spec fn wants(check: Check) -> Request {
    check.asks()
}

#[verifier::opaque]
spec fn stop_moves(app: AppSpec, stop: Stop, reply: Reply) -> StopStep {
    stop.after(app, reply)
}

#[verifier::opaque]
spec fn stop_wants(stop: Stop) -> Request {
    stop.asks()
}

#[verifier::opaque]
spec fn start_moves(app: AppSpec, start: Start, reply: Reply) -> CheckStep<Start> {
    start.after(app, reply)
}

#[verifier::opaque]
spec fn start_wants(start: Start) -> Request {
    start.asks()
}

proof fn lemma_unfold(app: AppSpec, trace: Trace)
    requires
        check_run(app, trace) is Some,
        trace.len() > 0,
    ensures
        check_run(app, trace.drop_last()) matches Some(Next::Ask(check)) && {
            &&& wants(check) == trace.last().0
            &&& answers(trace.last().0, trace.last().1)
            &&& check_run(app, trace) == Some(moves(app, check, trace.last().1).next)
            &&& check_note(app, trace) == moves(app, check, trace.last().1).note
        },
{
    reveal(check_run);
    reveal(check_note);
    reveal(moves);
    reveal(wants);
}

proof fn lemma_stop_begun(app: AppSpec, record: PidRecord, reason: StopReason)
    ensures
        stop_run(app, record, reason, Seq::<(Request, Reply)>::empty()) == Some(
            StopNext::Ask(Stop::begun(record, reason)),
        ),
{
    reveal(stop_run);
}

/// One more exchange of a stop that check_run at its request.
proof fn lemma_stop_goes_on(
    app: AppSpec,
    record: PidRecord,
    reason: StopReason,
    trace: Trace,
)
    requires
        trace.len() > 0,
    ensures
        match stop_run(app, record, reason, trace.drop_last()) {
            Some(Next::Ask(stop)) => stop_wants(stop) == trace.last().0 && answers(
                trace.last().0,
                trace.last().1,
            ) ==> {
                &&& stop_run(app, record, reason, trace) == Some(
                    stop_moves(app, stop, trace.last().1).next,
                )
                &&& stop_note(app, record, reason, trace) == stop_moves(
                    app,
                    stop,
                    trace.last().1,
                ).note
            },
            _ => stop_run(app, record, reason, trace) is None,
        },
{
    reveal(stop_run);
    reveal(stop_note);
    reveal(stop_moves);
    reveal(stop_wants);
}

proof fn lemma_start_begun(app: AppSpec, conf: Option<LogOverrides>)
    ensures
        start_run(app, conf, Seq::<(Request, Reply)>::empty()) == Some(
            StartNext::Ask(Start::Opening { conf }),
        ),
{
    reveal(start_run);
}

/// One more exchange of a start that check_run at its request.
proof fn lemma_start_goes_on(app: AppSpec, conf: Option<LogOverrides>, trace: Trace)
    requires
        trace.len() > 0,
    ensures
        match start_run(app, conf, trace.drop_last()) {
            Some(Next::Ask(start)) => start_wants(start) == trace.last().0 && answers(
                trace.last().0,
                trace.last().1,
            ) ==> {
                &&& start_run(app, conf, trace) == Some(
                    start_moves(app, start, trace.last().1).next,
                )
                &&& start_note(app, conf, trace) == start_moves(app, start, trace.last().1).note
            },
            _ => start_run(app, conf, trace) is None,
        },
{
    reveal(start_run);
    reveal(start_note);
    reveal(start_moves);
    reveal(start_wants);
}

proof fn lemma_log_conf_moves(app: AppSpec, reply: Reply)
    requires
        reply is LogConf,
    ensures
        wants(Check::LogConf) == Request::ReadLogConf,
        moves(app, Check::LogConf, reply).next == CheckNext::Ask(
            match log_overrides(reply->LogConf_0) {
                Ok(conf) => Check::Querying { conf, query: Query::Reading },
                Err(failure) => Check::Quarantining(
                    Quarantine::Looking(Cause::InvalidLogConfiguration(failure)),
                ),
            },
        ),
{
    reveal(moves);
    reveal(wants);
}

proof fn lemma_query_moves(
    app: AppSpec,
    conf: Option<LogOverrides>,
    query: Query,
    reply: Reply,
)
    ensures
        wants(Check::Querying { conf, query }) == query.asks(),
        moves(app, Check::Querying { conf, query }, reply).next == CheckNext::Ask(
            match query.after(reply) {
                Next::Ask(query) => Check::Querying { conf, query },
                Next::Done(Ok(known)) => Check::Disabling { conf, known },
                Next::Done(Err(failure)) => Check::Quarantining(
                    Quarantine::Looking(Cause::InvalidProcessState(failure)),
                ),
            },
        ),
{
    reveal(moves);
    reveal(wants);
}

proof fn lemma_disabling_moves(
    app: AppSpec,
    conf: Option<LogOverrides>,
    known: KnownState,
    reply: Reply,
)
    requires
        reply is Exists,
    ensures
        wants(Check::Disabling { conf, known }) == Request::Exists(Place::DisableFile),
        ({
            let step = moves(app, Check::Disabling { conf, known }, reply);
            match reply->Exists_0 {
                Err(error) => {
                    &&& step.next == CheckNext::Done(AppCheckResult::Failed)
                    &&& step.note == Some(Note::Failed(Failure::CannotCheckDisableFile { error }))
                },
                Ok(true) => match known {
                    (ProcessState::Stopped, _) => step.next == CheckNext::Ask(Check::Clearing),
                    (_, Some(record)) => step.next == CheckNext::Ask(
                        Check::Stopping(Stop::begun(record, StopReason::Disabled)),
                    ),
                    (_, None) => step.next == CheckNext::Done(AppCheckResult::Failed),
                },
                Ok(false) => match known {
                    (ProcessState::Stopped, _) => step.next == CheckNext::Ask(
                        Check::Preparing { conf },
                    ),
                    (ProcessState::OrphanedProcessGroup, Some(record)) => step.next
                        == CheckNext::Ask(Check::OrphanKill(record)),
                    (ProcessState::Running, Some(record)) => if app.healthcheck is Some {
                        step.next == CheckNext::Ask(
                            Check::Probing {
                                conf,
                                record,
                                run: Exec::Spawning {
                                    shell: Shell::Healthcheck,
                                    timeout: app.command_timeout,
                                },
                            },
                        )
                    } else {
                        step.next == CheckNext::Done(AppCheckResult::Idle)
                    },
                    (_, None) => step.next == CheckNext::Done(AppCheckResult::Failed),
                },
            }
        }),
{
    reveal(moves);
    reveal(wants);
}

proof fn lemma_removal_moves(app: AppSpec, conf: Option<LogOverrides>, disabled: bool, reply: Reply)
    ensures
        ({
            let check = if disabled {
                Check::Clearing
            } else {
                Check::Preparing { conf }
            };
            let step = moves(app, check, reply);
            &&& wants(check) == Request::RemovePidFile
            &&& reply is Removed ==> match reply->Removed_0 {
                RemoveReply::Failed(error) => {
                    &&& step.next == CheckNext::Done(AppCheckResult::Failed)
                    &&& step.note == Some(
                        Note::Failed(Failure::CannotRemove { place: Place::PidFile, error }),
                    )
                },
                _ => if disabled {
                    step.next == CheckNext::Done(AppCheckResult::Idle)
                } else {
                    step.next == CheckNext::Ask(
                        Check::Starting { start: Start::Opening { conf }, again: false },
                    )
                },
            }
        }),
{
    reveal(moves);
    reveal(wants);
}

proof fn lemma_orphan_moves(app: AppSpec, record: PidRecord, reply: Reply)
    ensures
        wants(Check::OrphanKill(record)) == kill_of(record.process_group),
        wants(Check::OrphanRemove(record)) == Request::RemovePidFile,
        reply is Killed ==> moves(app, Check::OrphanKill(record), reply).next == CheckNext::Ask(
            Check::OrphanRemove(record),
        ),
        reply is Removed ==> moves(app, Check::OrphanRemove(record), reply).next == CheckNext::Ask(
            Check::Quarantining(
                Quarantine::Looking(Cause::OrphanedProcessGroup { pid: record.pid }),
            ),
        ),
{
    reveal(moves);
    reveal(wants);
}

proof fn lemma_stopping_moves(app: AppSpec, stop: Stop, reply: Reply)
    ensures
        wants(Check::Stopping(stop)) == stop_wants(stop),
        ({
            let step = moves(app, Check::Stopping(stop), reply);
            let inner = stop_moves(app, stop, reply);
            match inner.next {
                Next::Ask(stop) => step.next == CheckNext::Ask(Check::Stopping(stop)) && step.note
                    == inner.note,
                Next::Done(Ok(())) => step.next == CheckNext::Done(AppCheckResult::Stopped)
                    && step.note == inner.note,
                Next::Done(Err(failure)) => step.next == CheckNext::Done(AppCheckResult::Failed)
                    && step.note == Some(Note::Failed(failure)),
            }
        }),
{
    reveal(moves);
    reveal(wants);
    reveal(stop_moves);
    reveal(stop_wants);
}

proof fn lemma_unhealthy_moves(
    app: AppSpec,
    conf: Option<LogOverrides>,
    stop: Stop,
    reply: Reply,
)
    ensures
        wants(Check::Unhealthy { conf, stop }) == stop_wants(stop),
        ({
            let step = moves(app, Check::Unhealthy { conf, stop }, reply);
            let inner = stop_moves(app, stop, reply);
            match inner.next {
                Next::Ask(stop) => step.next == CheckNext::Ask(Check::Unhealthy { conf, stop })
                    && step.note == inner.note,
                Next::Done(Ok(())) => step.next == CheckNext::Ask(
                    Check::Starting { start: Start::Opening { conf }, again: true },
                ) && step.note == inner.note,
                Next::Done(Err(failure)) => step.next == CheckNext::Done(AppCheckResult::Failed)
                    && step.note == Some(Note::Failed(failure)),
            }
        }),
{
    reveal(moves);
    reveal(wants);
    reveal(stop_moves);
    reveal(stop_wants);
}

proof fn lemma_probing_moves(
    app: AppSpec,
    conf: Option<LogOverrides>,
    record: PidRecord,
    run: Exec,
    reply: Reply,
)
    ensures
        wants(Check::Probing { conf, record, run }) == run.asks(),
        ({
            let step = moves(app, Check::Probing { conf, record, run }, reply);
            match run.after(reply) {
                Next::Ask(run) => step.next == CheckNext::Ask(Check::Probing { conf, record, run }),
                Next::Done(Ok(CommandOutcome::Success)) => step.next == CheckNext::Done(
                    AppCheckResult::Idle,
                ) && step.note is None,
                Next::Done(Ok(CommandOutcome::Negative)) => step.next == CheckNext::Ask(
                    Check::Unhealthy { conf, stop: Stop::begun(record, StopReason::Unhealthy) },
                ),
                Next::Done(Ok(CommandOutcome::Unexpected(code))) => step.next == CheckNext::Done(
                    AppCheckResult::Failed,
                ) && step.note == Some(Note::UnexpectedHealth(code)),
                Next::Done(Err(failure)) => step.next == CheckNext::Done(AppCheckResult::Failed)
                    && step.note == Some(Note::HealthcheckFailed(failure)),
            }
        }),
{
    reveal(moves);
    reveal(wants);
}

proof fn lemma_starting_moves(app: AppSpec, start: Start, again: bool, reply: Reply)
    ensures
        wants(Check::Starting { start, again }) == start_wants(start),
        ({
            let step = moves(app, Check::Starting { start, again }, reply);
            let inner = start_moves(app, start, reply);
            &&& step.note == inner.note
            &&& match inner.next {
                Next::Ask(start) => step.next == CheckNext::Ask(Check::Starting { start, again }),
                Next::Done(result) => step.next == CheckNext::Done(
                    if again && result == AppCheckResult::Started {
                        AppCheckResult::Restarted
                    } else {
                        result
                    },
                ),
            }
        }),
{
    reveal(moves);
    reveal(wants);
    reveal(start_moves);
    reveal(start_wants);
}

proof fn lemma_quarantining_moves(app: AppSpec, quarantine: Quarantine, reply: Reply)
    ensures
        wants(Check::Quarantining(quarantine)) == quarantine.asks(),
        ({
            let step = moves(app, Check::Quarantining(quarantine), reply);
            let inner = quarantine.after(reply);
            &&& step.note == inner.note
            &&& match inner.next {
                Next::Ask(q) => step.next == CheckNext::Ask(Check::Quarantining(q)),
                Next::Done(result) => step.next == CheckNext::Done(result),
            }
        }),
{
    reveal(moves);
    reveal(wants);
}

proof fn lemma_step(app: AppSpec, trace: Trace, i: int)
    requires
        check_run(app, trace) is Some,
        0 <= i < trace.len(),
    ensures
        check_run(app, trace.take(i)) matches Some(Next::Ask(check)) && {
            &&& wants(check) == trace[i].0
            &&& answers(trace[i].0, trace[i].1)
            &&& check_run(app, trace.take(i + 1)) == Some(moves(app, check, trace[i].1).next)
        },
    decreases trace.len(),
{
    lemma_unfold(app, trace);
    if i < trace.len() - 1 {
        lemma_step(app, trace.drop_last(), i);
        assert(trace.drop_last().take(i) =~= trace.take(i));
        assert(trace.drop_last().take(i + 1) =~= trace.take(i + 1));
        assert(trace.drop_last()[i] == trace[i]);
    } else {
        assert(trace.take(i) =~= trace.drop_last());
        assert(trace.take(i + 1) =~= trace);
    }
}

/// An application that is not managed is skipped. The check of any other begins with the
/// look for the invalid marker: where there is one the application is skipped, where it
/// cannot be told the check fails, which is told, and where there is none the start program
/// is inspected.
pub proof fn a_check_begins_with_the_marker(app: AppSpec, trace: Trace)
    requires
        check_run(app, trace) is Some,
        trace.len() <= 1,
    ensures
        ({
            let next = check_run(app, trace)->0;
            if trace.len() == 0 {
                if app.managed {
                    check_asks(next, Request::Exists(Place::Invalid))
                } else {
                    next == CheckNext::Done(AppCheckResult::SkippedUnmanaged)
                }
            } else {
                match trace[0].1 {
                    Reply::Exists(Ok(true)) => next == CheckNext::Done(
                        AppCheckResult::SkippedInvalid,
                    ),
                    Reply::Exists(Ok(false)) => check_asks(next, Request::InspectStart),
                    Reply::Exists(Err(error)) => {
                        &&& next == CheckNext::Done(AppCheckResult::Failed)
                        &&& check_note(app, trace) == Some(Note::CannotCheckInvalidMarker(error))
                    },
                    _ => false,
                }
            }
        }),
{
    reveal(check_run);
    reveal(check_note);
    if trace.len() == 1 {
        let none = trace.drop_last();
        assert(none =~= Seq::<(Request, Reply)>::empty());
        assert(check_run(app, none) == Some(Check::begun(app).next));
        assert(trace.last() == trace[0]);
    }
}

/// Next come the start program and the log settings: each of them is a cause for
/// quarantine where it will not do, and after both the state of the application is looked
/// at.
pub proof fn program_and_settings_are_checked_first(app: AppSpec, trace: Trace)
    requires
        check_run(app, trace) is Some,
        trace.len() > 0,
    ensures
        ({
            let next = check_run(app, trace)->0;
            match trace.last() {
                (Request::InspectStart, Reply::Metadata(observed)) => match start_program(
                    observed,
                ) {
                    Ok(()) => check_asks(next, Request::ReadLogConf),
                    Err(failure) => check_quarantines(next, Cause::InvalidStartProgram(failure)),
                },
                (Request::ReadLogConf, Reply::LogConf(file)) => match log_overrides(file) {
                    Ok(_) => check_asks(next, Request::ReadPidFile),
                    Err(failure) => check_quarantines(
                        next,
                        Cause::InvalidLogConfiguration(failure),
                    ),
                },
                _ => true,
            }
        }),
{
    reveal(check_run);
    reveal(check_note);
    let check = check_run(app, trace.drop_last())->0->Ask_0;
    lemma_who_inspects(check);
}

proof fn lemma_who_inspects(check: Check)
    ensures
        check.asks() == Request::InspectStart ==> check == Check::Inspecting,
        check.asks() == Request::ReadLogConf ==> check == Check::LogConf,
{
}

proof fn lemma_state_part(app: AppSpec, trace: Trace, conf: Option<LogOverrides>)
    requires
        check_run(app, trace) is Some,
        loads(trace, conf),
    ensures
        match query_run(trace.skip(3)) {
            Some(Next::Ask(query)) => check_run(app, trace) == Some(
                CheckNext::Ask(Check::Querying { conf, query }),
            ),
            Some(Next::Done(Ok(known))) => check_run(app, trace) == Some(
                CheckNext::Ask(Check::Disabling { conf, known }),
            ),
            Some(Next::Done(Err(failure))) => check_run(app, trace) == Some(
                CheckNext::Ask(
                    Check::Quarantining(Quarantine::Looking(Cause::InvalidProcessState(failure))),
                ),
            ),
            None => true,
        },
    decreases trace.len(),
{
    let before = trace.drop_last();
    let part = trace.skip(3);
    let reply = trace.last().1;
    lemma_unfold(app, trace);
    let check = check_run(app, before)->0->Ask_0;
    if trace.len() == 3 {
        assert(trace[2] == trace.last());
        lemma_who_loads(check);
        lemma_log_conf_moves(app, reply);
        assert(part =~= Seq::<(Request, Reply)>::empty());
    } else {
        assert(before[2] == trace[2]);
        lemma_state_part(app, before, conf);
        assert(part.drop_last() =~= before.skip(3));
        assert(part.last() == trace.last());
        if let Some(Next::Ask(query)) = query_run(before.skip(3)) {
            lemma_query_moves(app, conf, query, reply);
        }
    }
}

proof fn lemma_who_loads(check: Check)
    ensures
        wants(check) == Request::ReadLogConf ==> check == Check::LogConf,
{
    reveal(wants);
    lemma_who_inspects(check);
}

/// The state of the application is looked at. Where it cannot be told that is a cause for
/// quarantine; where it can, the next question is whether the application is disabled.
pub proof fn the_state_is_looked_at(app: AppSpec, trace: Trace, conf: Option<LogOverrides>)
    requires
        check_run(app, trace) is Some,
        loads(trace, conf),
    ensures
        ({
            let next = check_run(app, trace)->0;
            match query_run(trace.skip(3)) {
                Some(Next::Ask(query)) => check_asks(next, query.asks()),
                Some(Next::Done(Ok(_))) => check_asks(next, Request::Exists(Place::DisableFile)),
                Some(Next::Done(Err(failure))) => check_quarantines(
                    next,
                    Cause::InvalidProcessState(failure),
                ),
                None => true,
            }
        }),
{
    lemma_state_part(app, trace, conf);
}

/// Whether it is known at exchange `i` what is left of the application, and asked whether
/// it is disabled.
pub open spec fn decides_at(trace: Trace, i: int, known: KnownState) -> bool {
    &&& 3 <= i < trace.len()
    &&& trace[2].0 == Request::ReadLogConf
    &&& query_run(trace.subrange(3, i)) == Some(QueryNext::Done(Ok(known)))
    &&& trace[i].0 == Request::Exists(Place::DisableFile)
}

proof fn lemma_decides(app: AppSpec, trace: Trace, i: int, known: KnownState) -> (conf: Option<
    LogOverrides,
>)
    requires
        check_run(app, trace) is Some,
        decides_at(trace, i, known),
    ensures
        loads(trace, conf),
        check_run(app, trace.take(i)) == Some(CheckNext::Ask(Check::Disabling { conf, known })),
        trace[i].1 is Exists,
{
    lemma_step(app, trace, 2);
    lemma_who_loads(check_run(app, trace.take(2))->0->Ask_0);
    lemma_step(app, trace, i);
    assert(i > 3) by {
        if i == 3 {
            assert(trace.subrange(3, i) =~= Seq::<(Request, Reply)>::empty());
        }
    }
    let upto = trace.take(i);
    let file = trace[2].1->LogConf_0;
    assert(upto[2] == trace[2]);
    assert(upto.skip(3) =~= trace.subrange(3, i));
    lemma_who_reads_pid(app, trace, i);
    let conf = log_overrides(file)->Ok_0;
    lemma_state_part(app, upto, conf);
    conf
}

/// The settings could be loaded where the look at the state has begun.
proof fn lemma_who_reads_pid(app: AppSpec, trace: Trace, i: int)
    requires
        check_run(app, trace) is Some,
        3 < i < trace.len(),
        trace[2].0 == Request::ReadLogConf,
        query_run(trace.subrange(3, i)) is Some,
    ensures
        trace[2].1 matches Reply::LogConf(file) && log_overrides(file) is Ok,
{
    lemma_step(app, trace, 2);
    lemma_who_loads(check_run(app, trace.take(2))->0->Ask_0);
    lemma_log_conf_moves(app, trace[2].1);
    lemma_step(app, trace, 3);
    let part = trace.subrange(3, i);
    lemma_query_reads_first(part);
    assert(part[0] == trace[3]);
    if let Err(failure) = log_overrides(trace[2].1->LogConf_0) {
        lemma_quarantining_moves(
            app,
            Quarantine::Looking(Cause::InvalidLogConfiguration(failure)),
            trace[3].1,
        );
    }
}

proof fn lemma_query_reads_first(trace: Trace)
    requires
        query_run(trace) is Some,
        trace.len() > 0,
    ensures
        trace[0].0 == Request::ReadPidFile,
    decreases trace.len(),
{
    if trace.len() > 1 {
        lemma_query_reads_first(trace.drop_last());
        assert(trace.drop_last()[0] == trace[0]);
    } else {
        let none = trace.drop_last();
        assert(none =~= Seq::<(Request, Reply)>::empty());
        assert(query_run(none) == Some(QueryNext::Ask(Query::Reading)));
        assert(trace.last() == trace[0]);
    }
}

/// What is done follows from the state of the application and whether it is disabled.
///
/// Where that cannot be told the check fails. Of a disabled application, what runs is
/// stopped, and where nothing does its PID file is removed. Where an application that is
/// not disabled does not run, its PID file is removed; a group without its leader is
/// killed; and of one that runs the health is asked for where it can be, and otherwise
/// nothing is done.
pub proof fn what_is_done_follows_from_what_was_seen(
    app: AppSpec,
    trace: Trace,
    known: KnownState,
)
    requires
        check_run(app, trace) is Some,
        decides_at(trace, trace.len() - 1, known),
    ensures
        ({
            let next = check_run(app, trace)->0;
            match trace.last().1 {
                Reply::Exists(Err(error)) => {
                    &&& next == CheckNext::Done(AppCheckResult::Failed)
                    &&& check_note(app, trace) == Some(
                        Note::Failed(Failure::CannotCheckDisableFile { error }),
                    )
                },
                Reply::Exists(Ok(true)) => match known {
                    (ProcessState::Stopped, _) => check_asks(next, Request::RemovePidFile),
                    (_, Some(_)) => check_asks(next, Request::Exists(Place::Stop)),
                    (_, None) => next == CheckNext::Done(AppCheckResult::Failed),
                },
                Reply::Exists(Ok(false)) => match known {
                    (ProcessState::Stopped, _) => check_asks(next, Request::RemovePidFile),
                    (ProcessState::OrphanedProcessGroup, Some(record)) => check_asks(
                        next,
                        kill_of(record.process_group),
                    ),
                    (ProcessState::Running, Some(_)) => if app.healthcheck is Some {
                        check_asks(next, Request::SpawnShell(Shell::Healthcheck))
                    } else {
                        next == CheckNext::Done(AppCheckResult::Idle)
                    },
                    (_, None) => next == CheckNext::Done(AppCheckResult::Failed),
                },
                _ => false,
            }
        }),
{
    let i = trace.len() - 1;
    let conf = lemma_decides(app, trace, i, known);
    lemma_unfold(app, trace);
    assert(trace.take(i) =~= trace.drop_last());
    assert(trace[i] == trace.last());
    lemma_disabling_moves(app, conf, known, trace.last().1);
}

/// Where nothing runs the PID file is removed: a disabled application is then left as it
/// is, and any other is started. A file that cannot be removed fails the check.
pub proof fn a_stopped_app_loses_its_record(
    app: AppSpec,
    trace: Trace,
    known: KnownState,
    disabled: bool,
)
    requires
        check_run(app, trace) is Some,
        decides_at(trace, trace.len() - 2, known),
        known.0 == ProcessState::Stopped,
        trace[trace.len() - 2].1 == Reply::Exists(Ok(disabled)),
    ensures
        ({
            let next = check_run(app, trace)->0;
            match trace.last().1 {
                Reply::Removed(RemoveReply::Failed(error)) => {
                    &&& next == CheckNext::Done(AppCheckResult::Failed)
                    &&& check_note(app, trace) == Some(
                        Note::Failed(Failure::CannotRemove { place: Place::PidFile, error }),
                    )
                },
                _ => if disabled {
                    next == CheckNext::Done(AppCheckResult::Idle)
                } else {
                    check_asks(next, Request::OpenOutputs)
                },
            }
        }),
{
    let i = trace.len() - 2;
    let conf = lemma_decides(app, trace, i, known);
    lemma_step(app, trace, i);
    lemma_disabling_moves(app, conf, known, trace[i].1);
    lemma_unfold(app, trace);
    assert(trace.take(i + 1) =~= trace.drop_last());
    lemma_removal_moves(app, conf, disabled, trace.last().1);
}

/// Whether the application is disabled and is to be stopped from exchange `i` on.
pub open spec fn stops_from(trace: Trace, i: int, state: ProcessState, record: PidRecord) -> bool {
    &&& decides_at(trace, i, (state, Some(record)))
    &&& state != ProcessState::Stopped
    &&& trace[i].1 == Reply::Exists(Ok(true))
}

proof fn lemma_stops(
    app: AppSpec,
    trace: Trace,
    i: int,
    state: ProcessState,
    record: PidRecord,
)
    requires
        check_run(app, trace) is Some,
        stops_from(trace, i, state, record),
    ensures
        match stop_run(app, record, StopReason::Disabled, trace.skip(i + 1)) {
            Some(Next::Ask(stop)) => check_run(app, trace) == Some(
                CheckNext::Ask(Check::Stopping(stop)),
            ),
            Some(Next::Done(Ok(()))) => check_run(app, trace) == Some(
                CheckNext::Done(AppCheckResult::Stopped),
            ),
            Some(Next::Done(Err(failure))) => {
                &&& check_run(app, trace) == Some(CheckNext::Done(AppCheckResult::Failed))
                &&& check_note(app, trace) == Some(Note::Failed(failure))
            },
            None => false,
        },
        trace.len() > i + 1 && !(check_run(app, trace) == Some(
            CheckNext::Done(AppCheckResult::Failed),
        )) ==> check_note(app, trace) == stop_note(
            app,
            record,
            StopReason::Disabled,
            trace.skip(i + 1),
        ),
    decreases trace.len(),
{
    let before = trace.drop_last();
    let part = trace.skip(i + 1);
    assert(trace[trace.len() - 1] == trace.last());
    lemma_unfold(app, trace);
    if trace.len() == i + 1 {
        let conf = lemma_decides(app, trace, i, (state, Some(record)));
        assert(trace.take(i) =~= before);
        assert(part =~= Seq::<(Request, Reply)>::empty());
        lemma_disabling_moves(app, conf, (state, Some(record)), trace[i].1);
        lemma_stop_begun(app, record, StopReason::Disabled);
    } else {
        lemma_decision_stays(trace, i, (state, Some(record)));
        lemma_stops(app, before, i, state, record);
        assert(part.drop_last() =~= before.skip(i + 1));
        assert(part.last() == trace.last());
        lemma_stop_goes_on(app, record, StopReason::Disabled, part);
        if let Some(Next::Ask(stop)) = stop_run(
            app,
            record,
            StopReason::Disabled,
            before.skip(i + 1),
        ) {
            lemma_stopping_moves(app, stop, trace.last().1);
        }
    }
}

proof fn lemma_decision_stays(trace: Trace, i: int, known: KnownState)
    requires
        decides_at(trace, i, known),
        i + 1 < trace.len(),
    ensures
        decides_at(trace.drop_last(), i, known),
        trace.drop_last()[i] == trace[i],
        trace.drop_last()[2] == trace[2],
{
    assert(trace.drop_last().subrange(3, i) =~= trace.subrange(3, i));
}

/// A disabled application that runs is stopped, the leader and the group that its PID file
/// records. The check comes to what the stop comes to, and a stop that fails is told.
pub proof fn a_disabled_app_is_stopped(
    app: AppSpec,
    trace: Trace,
    i: int,
    state: ProcessState,
    record: PidRecord,
)
    requires
        check_run(app, trace) is Some,
        stops_from(trace, i, state, record),
    ensures
        match stop_run(app, record, StopReason::Disabled, trace.skip(i + 1)) {
            Some(Next::Ask(stop)) => check_asks(check_run(app, trace)->0, stop.asks()),
            Some(Next::Done(Ok(()))) => check_run(app, trace) == Some(
                CheckNext::Done(AppCheckResult::Stopped),
            ),
            Some(Next::Done(Err(failure))) => {
                &&& check_run(app, trace) == Some(CheckNext::Done(AppCheckResult::Failed))
                &&& check_note(app, trace) == Some(Note::Failed(failure))
            },
            None => false,
        },
        trace.len() > i + 1 && !(check_run(app, trace) == Some(
            CheckNext::Done(AppCheckResult::Failed),
        )) ==> check_note(app, trace) == stop_note(
            app,
            record,
            StopReason::Disabled,
            trace.skip(i + 1),
        ),
{
    lemma_stops(app, trace, i, state, record);
}

/// An orphaned group is killed, its PID file is removed, and that it was orphaned is the
/// cause for the quarantine.
pub proof fn an_orphaned_group_is_told(app: AppSpec, trace: Trace, i: int, record: PidRecord)
    requires
        check_run(app, trace) is Some,
        decides_at(trace, i, (ProcessState::OrphanedProcessGroup, Some(record))),
        trace[i].1 == Reply::Exists(Ok(false)),
        trace.len() == i + 2 || trace.len() == i + 3,
    ensures
        ({
            let next = check_run(app, trace)->0;
            if trace.len() == i + 2 {
                check_asks(next, Request::RemovePidFile)
            } else {
                check_quarantines(next, Cause::OrphanedProcessGroup { pid: record.pid })
            }
        }),
{
    let known = (ProcessState::OrphanedProcessGroup, Some(record));
    let conf = lemma_decides(app, trace, i, known);
    lemma_step(app, trace, i);
    lemma_disabling_moves(app, conf, known, trace[i].1);
    lemma_step(app, trace, i + 1);
    lemma_orphan_moves(app, record, trace[i + 1].1);
    if trace.len() == i + 3 {
        lemma_step(app, trace, i + 2);
        lemma_orphan_moves(app, record, trace[i + 2].1);
        assert(trace.take(i + 3) =~= trace);
    } else {
        assert(trace.take(i + 2) =~= trace);
    }
}

/// Whether the health of a running application is asked for from exchange `i` on.
pub open spec fn probes_from(app: AppSpec, trace: Trace, i: int, record: PidRecord) -> bool {
    &&& decides_at(trace, i, (ProcessState::Running, Some(record)))
    &&& trace[i].1 == Reply::Exists(Ok(false))
    &&& app.healthcheck is Some
}

proof fn lemma_probes(
    app: AppSpec,
    trace: Trace,
    i: int,
    record: PidRecord,
    conf: Option<LogOverrides>,
)
    requires
        check_run(app, trace) is Some,
        probes_from(app, trace, i, record),
        loads(trace, conf),
    ensures
        match exec_run(Shell::Healthcheck, app.command_timeout, trace.skip(i + 1)) {
            Some(Next::Ask(run)) => check_run(app, trace) == Some(
                CheckNext::Ask(Check::Probing { conf, record, run }),
            ),
            Some(Next::Done(Ok(CommandOutcome::Success))) => check_run(app, trace) == Some(
                CheckNext::Done(AppCheckResult::Idle),
            ) && check_note(app, trace) is None,
            Some(Next::Done(Ok(CommandOutcome::Negative))) => check_run(app, trace) == Some(
                CheckNext::Ask(
                    Check::Unhealthy { conf, stop: Stop::begun(record, StopReason::Unhealthy) },
                ),
            ),
            Some(Next::Done(Ok(CommandOutcome::Unexpected(code)))) => {
                &&& check_run(app, trace) == Some(CheckNext::Done(AppCheckResult::Failed))
                &&& check_note(app, trace) == Some(Note::UnexpectedHealth(code))
            },
            Some(Next::Done(Err(failure))) => {
                &&& check_run(app, trace) == Some(CheckNext::Done(AppCheckResult::Failed))
                &&& check_note(app, trace) == Some(Note::HealthcheckFailed(failure))
            },
            None => true,
        },
    decreases trace.len(),
{
    let before = trace.drop_last();
    let part = trace.skip(i + 1);
    assert(trace[trace.len() - 1] == trace.last());
    lemma_unfold(app, trace);
    if trace.len() == i + 1 {
        let loaded = lemma_decides(app, trace, i, (ProcessState::Running, Some(record)));
        assert(loaded == conf);
        assert(trace.take(i) =~= before);
        lemma_disabling_moves(
            app,
            conf,
            (ProcessState::Running, Some(record)),
            trace[i].1,
        );
        assert(part =~= Seq::<(Request, Reply)>::empty());
        assert(exec_run(Shell::Healthcheck, app.command_timeout, part) == Some(
            ExecNext::Ask(
                Exec::Spawning { shell: Shell::Healthcheck, timeout: app.command_timeout },
            ),
        ));
    } else {
        lemma_decision_stays(trace, i, (ProcessState::Running, Some(record)));
        lemma_probes(app, before, i, record, conf);
        assert(part.drop_last() =~= before.skip(i + 1));
        assert(part.last() == trace.last());
        if let Some(Next::Ask(run)) = exec_run(
            Shell::Healthcheck,
            app.command_timeout,
            before.skip(i + 1),
        ) {
            lemma_probing_moves(app, conf, record, run, trace.last().1);
        }
    }
}

/// The health check is run with the time that commands of the application get. With
/// success nothing more is done; with a negative answer the application is stopped; with
/// anything else the check fails, which is told, and the application is left as it is.
pub proof fn health_decides(app: AppSpec, trace: Trace, i: int, record: PidRecord)
    requires
        check_run(app, trace) is Some,
        probes_from(app, trace, i, record),
    ensures
        ({
            let next = check_run(app, trace)->0;
            match exec_run(Shell::Healthcheck, app.command_timeout, trace.skip(i + 1)) {
                Some(Next::Ask(run)) => check_asks(next, run.asks()),
                Some(Next::Done(Ok(CommandOutcome::Success))) => next == CheckNext::Done(
                    AppCheckResult::Idle,
                ) && check_note(app, trace) is None,
                Some(Next::Done(Ok(CommandOutcome::Negative))) => check_asks(
                    next,
                    Request::Exists(Place::Stop),
                ),
                Some(Next::Done(Ok(CommandOutcome::Unexpected(code)))) => {
                    &&& next == CheckNext::Done(AppCheckResult::Failed)
                    &&& check_note(app, trace) == Some(Note::UnexpectedHealth(code))
                },
                Some(Next::Done(Err(failure))) => {
                    &&& next == CheckNext::Done(AppCheckResult::Failed)
                    &&& check_note(app, trace) == Some(Note::HealthcheckFailed(failure))
                },
                None => true,
            }
        }),
{
    let conf = lemma_decides(app, trace, i, (ProcessState::Running, Some(record)));
    lemma_probes(app, trace, i, record, conf);
}

/// Whether the health check that began at exchange `i` gave a negative answer, with which
/// exchange `j` was reached.
pub open spec fn unhealthy_from(
    app: AppSpec,
    trace: Trace,
    i: int,
    j: int,
    record: PidRecord,
) -> bool {
    &&& probes_from(app, trace, i, record)
    &&& i < j <= trace.len()
    &&& exec_run(Shell::Healthcheck, app.command_timeout, trace.subrange(i + 1, j)) == Some(
        ExecNext::Done(Ok(CommandOutcome::Negative)),
    )
}

proof fn lemma_unhealthy(
    app: AppSpec,
    trace: Trace,
    i: int,
    j: int,
    record: PidRecord,
    conf: Option<LogOverrides>,
)
    requires
        check_run(app, trace) is Some,
        unhealthy_from(app, trace, i, j, record),
        loads(trace, conf),
    ensures
        match stop_run(app, record, StopReason::Unhealthy, trace.skip(j)) {
            Some(Next::Ask(stop)) => check_run(app, trace) == Some(
                CheckNext::Ask(Check::Unhealthy { conf, stop }),
            ),
            Some(Next::Done(Ok(()))) => check_run(app, trace) == Some(
                CheckNext::Ask(Check::Starting { start: Start::Opening { conf }, again: true }),
            ),
            Some(Next::Done(Err(failure))) => {
                &&& check_run(app, trace) == Some(CheckNext::Done(AppCheckResult::Failed))
                &&& check_note(app, trace) == Some(Note::Failed(failure))
            },
            None => true,
        },
        trace.len() > j && (stop_run(app, record, StopReason::Unhealthy, trace.skip(j)) matches Some(
            next,
        ) && !(next matches Next::Done(Err(_)))) ==> check_note(app, trace) == stop_note(
            app,
            record,
            StopReason::Unhealthy,
            trace.skip(j),
        ),
    decreases trace.len(),
{
    let before = trace.drop_last();
    let part = trace.skip(j);
    assert(trace[trace.len() - 1] == trace.last());
    if trace.len() == j {
        assert(trace.subrange(i + 1, j) =~= trace.skip(i + 1));
        lemma_probes(app, trace, i, record, conf);
        assert(part =~= Seq::<(Request, Reply)>::empty());
        lemma_stop_begun(app, record, StopReason::Unhealthy);
    } else {
        lemma_unfold(app, trace);
        lemma_decision_stays(trace, i, (ProcessState::Running, Some(record)));
        assert(before.subrange(i + 1, j) =~= trace.subrange(i + 1, j));
        lemma_unhealthy(app, before, i, j, record, conf);
        assert(part.drop_last() =~= before.skip(j));
        assert(part.last() == trace.last());
        lemma_stop_goes_on(app, record, StopReason::Unhealthy, part);
        if let Some(Next::Ask(stop)) = stop_run(
            app,
            record,
            StopReason::Unhealthy,
            before.skip(j),
        ) {
            lemma_unhealthy_moves(app, conf, stop, trace.last().1);
        }
    }
}

/// An unhealthy application is stopped, the leader and the group that its PID file
/// records, and then started again. A stop that fails fails the check, and is told.
pub proof fn an_unhealthy_app_is_stopped_and_started(
    app: AppSpec,
    trace: Trace,
    i: int,
    j: int,
    record: PidRecord,
)
    requires
        check_run(app, trace) is Some,
        unhealthy_from(app, trace, i, j, record),
    ensures
        ({
            let next = check_run(app, trace)->0;
            match stop_run(app, record, StopReason::Unhealthy, trace.skip(j)) {
                Some(Next::Ask(stop)) => check_asks(next, stop.asks()),
                Some(Next::Done(Ok(()))) => check_asks(next, Request::OpenOutputs),
                Some(Next::Done(Err(failure))) => {
                    &&& next == CheckNext::Done(AppCheckResult::Failed)
                    &&& check_note(app, trace) == Some(Note::Failed(failure))
                },
                None => true,
            }
        }),
        trace.len() > j && (stop_run(app, record, StopReason::Unhealthy, trace.skip(j)) matches Some(
            next,
        ) && !(next matches Next::Done(Err(_)))) ==> check_note(app, trace) == stop_note(
            app,
            record,
            StopReason::Unhealthy,
            trace.skip(j),
        ),
{
    let conf = lemma_decides(app, trace, i, (ProcessState::Running, Some(record)));
    lemma_unhealthy(app, trace, i, j, record, conf);
}

/// Whether a start of an application that does not run begins at exchange `k`.
pub open spec fn starts_first_at(trace: Trace, k: int, known: KnownState) -> bool {
    &&& k >= 2
    &&& decides_at(trace, k - 2, known)
    &&& known.0 == ProcessState::Stopped
    &&& trace[k - 2].1 == Reply::Exists(Ok(false))
    &&& k <= trace.len()
    &&& !(trace[k - 1].1 matches Reply::Removed(RemoveReply::Failed(_)))
}

/// Whether a start of an application that was unhealthy begins at exchange `k`.
pub open spec fn starts_again_at(
    app: AppSpec,
    trace: Trace,
    i: int,
    j: int,
    k: int,
    record: PidRecord,
) -> bool {
    &&& unhealthy_from(app, trace, i, j, record)
    &&& j <= k <= trace.len()
    &&& stop_run(app, record, StopReason::Unhealthy, trace.subrange(j, k)) == Some(
        StopNext::Done(Ok(())),
    )
}

spec fn starting_at(
    app: AppSpec,
    trace: Trace,
    k: int,
    conf: Option<LogOverrides>,
    again: bool,
) -> bool {
    &&& 0 <= k <= trace.len()
    &&& check_run(app, trace.take(k)) == Some(
        CheckNext::Ask(Check::Starting { start: Start::Opening { conf }, again }),
    )
}

proof fn lemma_starts(
    app: AppSpec,
    trace: Trace,
    k: int,
    conf: Option<LogOverrides>,
    again: bool,
)
    requires
        check_run(app, trace) is Some,
        starting_at(app, trace, k, conf, again),
    ensures
        match start_run(app, conf, trace.skip(k)) {
            Some(Next::Ask(start)) => check_run(app, trace) == Some(
                CheckNext::Ask(Check::Starting { start, again }),
            ),
            Some(Next::Done(result)) => check_run(app, trace) == Some(
                CheckNext::Done(
                    if again && result == AppCheckResult::Started {
                        AppCheckResult::Restarted
                    } else {
                        result
                    },
                ),
            ),
            None => false,
        },
        trace.len() > k ==> check_note(app, trace) == start_note(app, conf, trace.skip(k)),
    decreases trace.len(),
{
    let before = trace.drop_last();
    let part = trace.skip(k);
    if trace.len() == k {
        assert(trace.take(k) =~= trace);
        assert(part =~= Seq::<(Request, Reply)>::empty());
        lemma_start_begun(app, conf);
    } else {
        lemma_unfold(app, trace);
        assert(before.take(k) =~= trace.take(k));
        lemma_starts(app, before, k, conf, again);
        assert(part.drop_last() =~= before.skip(k));
        assert(part.last() == trace.last());
        lemma_start_goes_on(app, conf, part);
        if let Some(Next::Ask(start)) = start_run(app, conf, before.skip(k)) {
            lemma_starting_moves(app, start, again, trace.last().1);
        }
    }
}

proof fn lemma_first_start(
    app: AppSpec,
    trace: Trace,
    k: int,
    known: KnownState,
    conf: Option<LogOverrides>,
)
    requires
        check_run(app, trace) is Some,
        starts_first_at(trace, k, known),
        loads(trace, conf),
    ensures
        starting_at(app, trace, k, conf, false),
{
    let i = k - 2;
    let loaded = lemma_decides(app, trace, i, known);
    assert(loaded == conf);
    lemma_step(app, trace, i);
    lemma_disabling_moves(app, conf, known, trace[i].1);
    lemma_step(app, trace, i + 1);
    lemma_removal_moves(app, conf, false, trace[i + 1].1);
}

proof fn lemma_prefix(app: AppSpec, trace: Trace, k: int)
    requires
        check_run(app, trace) is Some,
        0 <= k <= trace.len(),
    ensures
        check_run(app, trace.take(k)) is Some,
{
    if k < trace.len() {
        lemma_step(app, trace, k);
    } else {
        assert(trace.take(k) =~= trace);
    }
}

proof fn lemma_second_start(
    app: AppSpec,
    trace: Trace,
    i: int,
    j: int,
    k: int,
    record: PidRecord,
    conf: Option<LogOverrides>,
)
    requires
        check_run(app, trace) is Some,
        starts_again_at(app, trace, i, j, k, record),
        loads(trace, conf),
    ensures
        starting_at(app, trace, k, conf, true),
{
    lemma_prefix(app, trace, k);
    let upto = trace.take(k);
    assert(upto.subrange(3, i) =~= trace.subrange(3, i));
    assert(upto[i] == trace[i] && upto[2] == trace[2]);
    assert(upto.subrange(i + 1, j) =~= trace.subrange(i + 1, j));
    assert(upto.skip(j) =~= trace.subrange(j, k));
    lemma_unhealthy(app, upto, i, j, record, conf);
}

/// Whether a check does what a start does: it makes its requests, opens the output files
/// that the settings name, marks the application for the same cause, and check_note the same.
pub open spec fn goes_as_start(
    app: AppSpec,
    trace: Trace,
    k: int,
    conf: Option<LogOverrides>,
    again: bool,
) -> bool {
    let next = check_run(app, trace)->0;
    &&& match start_run(app, conf, trace.skip(k)) {
        Some(Next::Ask(start)) => {
            &&& check_asks(next, start.asks())
            &&& next->Ask_0.marks() == start.marks()
            &&& trace.len() == k ==> next->Ask_0.opens() == conf
        },
        Some(Next::Done(result)) => next == CheckNext::Done(
            if again && result == AppCheckResult::Started {
                AppCheckResult::Restarted
            } else {
                result
            },
        ),
        None => false,
    }
    &&& trace.len() > k ==> check_note(app, trace) == start_note(app, conf, trace.skip(k))
}

/// An application that does not run and is not disabled is started, with the output files
/// of its settings, `log.conf` included, and the check comes to what the start comes to.
pub proof fn a_stopped_app_is_started(
    app: AppSpec,
    trace: Trace,
    k: int,
    known: KnownState,
    conf: Option<LogOverrides>,
)
    requires
        check_run(app, trace) is Some,
        starts_first_at(trace, k, known),
        loads(trace, conf),
    ensures
        goes_as_start(app, trace, k, conf, false),
{
    lemma_first_start(app, trace, k, known, conf);
    lemma_goes_as_start(app, trace, k, conf, false);
}

proof fn lemma_goes_as_start(
    app: AppSpec,
    trace: Trace,
    k: int,
    conf: Option<LogOverrides>,
    again: bool,
)
    requires
        check_run(app, trace) is Some,
        starting_at(app, trace, k, conf, again),
    ensures
        goes_as_start(app, trace, k, conf, again),
{
    lemma_starts(app, trace, k, conf, again);
    lemma_opens(app, trace, k, conf);
}

/// An unhealthy application that was stopped is started, with the output files of its
/// settings, `log.conf` included; the check comes to what the start comes to, and an
/// application that was started is told to be restarted.
pub proof fn a_stopped_unhealthy_app_is_started(
    app: AppSpec,
    trace: Trace,
    i: int,
    j: int,
    k: int,
    record: PidRecord,
    conf: Option<LogOverrides>,
)
    requires
        check_run(app, trace) is Some,
        starts_again_at(app, trace, i, j, k, record),
        loads(trace, conf),
    ensures
        goes_as_start(app, trace, k, conf, true),
{
    lemma_second_start(app, trace, i, j, k, record, conf);
    lemma_goes_as_start(app, trace, k, conf, true);
}

proof fn lemma_opens(app: AppSpec, trace: Trace, k: int, conf: Option<LogOverrides>)
    requires
        0 <= k <= trace.len(),
    ensures
        trace.len() == k ==> start_run(app, conf, trace.skip(k)) == Some(
            StartNext::Ask(Start::Opening { conf }),
        ),
{
    if trace.len() == k {
        assert(trace.skip(k) =~= Seq::<(Request, Reply)>::empty());
        lemma_start_begun(app, conf);
    }
}

/// A check that goes on with a quarantine of its own goes on as that does, and comes to
/// what that comes to.
pub proof fn a_check_ends_as_its_quarantine(app: AppSpec, trace: Trace, m: int, cause: Cause)
    requires
        check_run(app, trace) is Some,
        0 <= m <= trace.len(),
        check_run(app, trace.take(m)) == Some(
            CheckNext::Ask(Check::Quarantining(Quarantine::Looking(cause))),
        ),
    ensures
        match quarantine_run(cause, trace.skip(m)) {
            Some(Next::Ask(q)) => check_asks(check_run(app, trace)->0, q.asks()) && check_run(
                app,
                trace,
            )->0->Ask_0.marks() == Some(q.why()),
            Some(Next::Done(result)) => check_run(app, trace) == Some(CheckNext::Done(result)),
            None => false,
        },
        trace.len() > m ==> check_note(app, trace) == quarantine_note(cause, trace.skip(m)),
{
    lemma_quarantines(app, trace, m, cause);
}

proof fn lemma_quarantines(app: AppSpec, trace: Trace, m: int, cause: Cause)
    requires
        check_run(app, trace) is Some,
        0 <= m <= trace.len(),
        check_run(app, trace.take(m)) == Some(
            CheckNext::Ask(Check::Quarantining(Quarantine::Looking(cause))),
        ),
    ensures
        match quarantine_run(cause, trace.skip(m)) {
            Some(Next::Ask(q)) => check_run(app, trace) == Some(
                CheckNext::Ask(Check::Quarantining(q)),
            ),
            Some(Next::Done(result)) => check_run(app, trace) == Some(CheckNext::Done(result)),
            None => false,
        },
        trace.len() > m ==> check_note(app, trace) == quarantine_note(cause, trace.skip(m)),
    decreases trace.len(),
{
    let before = trace.drop_last();
    let part = trace.skip(m);
    if trace.len() == m {
        assert(trace.take(m) =~= trace);
        assert(part =~= Seq::<(Request, Reply)>::empty());
    } else {
        lemma_unfold(app, trace);
        assert(before.take(m) =~= trace.take(m));
        lemma_quarantines(app, before, m, cause);
        assert(part.drop_last() =~= before.skip(m));
        assert(part.last() == trace.last());
        if let Some(Next::Ask(q)) = quarantine_run(cause, before.skip(m)) {
            lemma_quarantining_moves(app, q, trace.last().1);
        }
    }
}

/// While nothing is decided there is nothing to tell: up to the question whether the
/// application is disabled, only failures are.
pub proof fn nothing_is_told_before_the_decision(app: AppSpec, trace: Trace)
    requires
        check_run(app, trace) matches Some(Next::Ask(_)),
        trace.len() > 0,
        match trace.last().0 {
            Request::Exists(Place::Invalid) => true,
            Request::InspectStart => true,
            Request::ReadLogConf => true,
            Request::ReadPidFile => true,
            Request::Exists(Place::DisableFile) => true,
            Request::OpenOutputs => true,
            Request::SpawnApp => true,
            Request::WritePidRecord(_) => true,
            Request::MeasureStartup => true,
            _ => false,
        },
    ensures
        check_note(app, trace) is None,
{
    reveal(check_run);
    reveal(check_note);
}

} // verus!

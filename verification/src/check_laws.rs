//! What holds of every run of the check of an application.

use vstd::prelude::*;
use crate::check::Check;
use crate::config::AppSpec;
use crate::host::{ExitReport, MarkReply, Next, PidRecord, Place, Reply, Request, Shell, Target};
use crate::process::{recorded, CommandOutcome, Exec, ProbeResult, ProcessState, Query, Wait};
use crate::report::{AppCheckResult, Cause, Failure};
use crate::start::{group_kill, Quarantine, Start};
use crate::stop_laws::{
    shows_gone, shows_missing, shows_removed, stop_holds, stop_keeps_what_is_known,
};
use crate::trace::{answers, asked, Trace};

verus! {

/// Where the check of an application stands after an exchange of requests and
/// answers, if it makes those requests and they are answered.
#[verifier::opaque]
pub open spec fn check_run(app: AppSpec, trace: Trace) -> Option<Next<Check, AppCheckResult>>
    decreases trace.len(),
{
    if trace.len() == 0 {
        Some(Check::begun(app).next)
    } else {
        match check_run(app, trace.drop_last()) {
            Some(Next::Ask(check)) => {
                let (request, reply) = trace.last();
                if check.asks() == request && answers(request, reply) {
                    Some(check.after(app, reply).next)
                } else {
                    None
                }
            },
            _ => None,
        }
    }
}

/// Whether the PID file was read and there was none.
pub open spec fn no_record_at(trace: Trace, i: int) -> bool {
    &&& 0 <= i < trace.len()
    &&& trace[i].0 == Request::ReadPidFile
    &&& trace[i].1 matches Reply::PidFile(file) && recorded(file) == Ok::<
        Option<PidRecord>,
        Failure,
    >(None)
}

/// Whether the PID file was read and held `record`.
pub open spec fn record_at(trace: Trace, i: int, record: PidRecord) -> bool {
    &&& 0 <= i < trace.len()
    &&& trace[i].0 == Request::ReadPidFile
    &&& trace[i].1 matches Reply::PidFile(file) && recorded(file) == Ok::<
        Option<PidRecord>,
        Failure,
    >(Some(record))
}

/// Whether the leader and then the group of `record` were seen to be gone.
pub open spec fn gone_at(trace: Trace, i: int, record: PidRecord) -> bool {
    &&& 0 <= i < trace.len() - 1
    &&& shows_missing(trace[i], Target::Process(record.pid))
    &&& shows_missing(trace[i + 1], Target::Group(record.process_group))
}

/// Whether it has been seen that the application does not run: there is no PID file,
/// or what it records is gone.
pub open spec fn nothing_runs(trace: Trace) -> bool {
    ||| exists|i: int| #[trigger] no_record_at(trace, i)
    ||| exists|i: int, j: int, record: PidRecord| #[trigger]
        record_at(trace, i, record) && #[trigger] gone_at(trace, j, record)
}

/// Whether the application was seen to be disabled.
pub open spec fn seen_disabled(trace: Trace) -> bool {
    exists|i: int| 0 <= i < trace.len() && #[trigger] trace[i] == (
        Request::Exists(Place::DisableFile),
        Reply::Exists(Ok(true)),
    )
}

/// Whether a child was seen to have ended.
pub open spec fn child_ended(exchange: (Request, Reply)) -> bool {
    &&& exchange.0 == Request::PollChild
    &&& exchange.1 matches Reply::Child(Ok(Some(_)))
}

/// Whether the application, once started, was seen to have ended.
pub open spec fn ended_at(trace: Trace, i: int) -> bool {
    &&& 0 <= i < trace.len()
    &&& asked(trace.take(i), Request::SpawnApp)
    &&& child_ended(trace[i])
}

/// Whether the health check was seen to give a negative answer.
pub open spec fn unhealthy_at(trace: Trace, i: int) -> bool {
    &&& 0 <= i < trace.len()
    &&& asked(trace.take(i), Request::SpawnShell(Shell::Healthcheck))
    &&& !asked(trace.take(i), Request::SpawnShell(Shell::Stop))
    &&& trace[i].0 == Request::PollChild
    &&& trace[i].1 matches Reply::Child(Ok(Some(status))) && status.code == Some(1i32)
}

/// Whether the application was stopped: it was seen to be gone, and its PID file was
/// removed.
pub open spec fn stopped_at(trace: Trace, i: int) -> bool {
    &&& 0 <= i < trace.len() - 2
    &&& exists|record: PidRecord| #[trigger] gone_at(trace, i, record)
    &&& shows_removed(trace[i + 2])
}

/// Whether the application was seen to be unhealthy and then stopped.
pub open spec fn stopped_for_health(trace: Trace) -> bool {
    exists|i: int, j: int| i < j && #[trigger] unhealthy_at(trace, i) && #[trigger] stopped_at(trace, j)
}

/// Whether the application was started as process `pid`, recorded, and then observed
/// for its validation time.
pub open spec fn observed_at(app: AppSpec, trace: Trace, i: int, pid: i32) -> bool {
    &&& 0 <= i < trace.len() - 2
    &&& trace[i] == (Request::SpawnApp, Reply::Spawned(Ok(pid)))
    &&& trace[i + 1] == (
        Request::WritePidRecord(PidRecord { pid, process_group: pid }),
        Reply::Written(Ok(())),
    )
    &&& trace[i + 2] == (
        Request::ArmDeadline { secs: app.startup_validation },
        Reply::Armed(true),
    )
}

spec fn saw_unhealthy(trace: Trace) -> bool {
    exists|i: int| #[trigger] unhealthy_at(trace, i)
}

spec fn saw_record(trace: Trace, record: PidRecord) -> bool {
    exists|i: int| #[trigger] record_at(trace, i, record)
}

spec fn saw_end(trace: Trace) -> bool {
    exists|i: int| #[trigger] ended_at(trace, i)
}

spec fn saw_observation(app: AppSpec, trace: Trace) -> bool {
    exists|i: int, pid: i32| #[trigger] observed_at(app, trace, i, pid)
}

spec fn saw_observation_of(app: AppSpec, trace: Trace, pid: i32) -> bool {
    exists|i: int| #[trigger] observed_at(app, trace, i, pid)
}

spec fn before_spawn(start: Start) -> bool {
    start is Opening || start is Spawning
}

spec fn past_spawn(check: Check) -> bool {
    check matches Check::Starting { start, .. } && !before_spawn(start)
}

spec fn seen_running(check: Check) -> bool {
    check matches Check::Starting { start, .. } && (start is Recording || start is Observing)
}

spec fn after_end(start: Start) -> bool {
    ||| start is EndedKill
    ||| start is EndedRemove
    ||| start is EndedMeasure
    ||| start is Quarantining
}

spec fn past_end(check: Check) -> bool {
    check matches Check::Starting { start, .. } && after_end(start)
}

spec fn start_holds(app: AppSpec, start: Start, trace: Trace) -> bool {
    let n = trace.len() as int;
    match start {
        Start::Recording { pid } => {
            &&& n >= 1
            &&& trace[n - 1] == (Request::SpawnApp, Reply::Spawned(Ok(pid)))
        },
        Start::Observing { pid, wait } => match wait {
            Wait::Arming { secs } => {
                &&& secs == app.startup_validation
                &&& n >= 2
                &&& trace[n - 2] == (Request::SpawnApp, Reply::Spawned(Ok(pid)))
                &&& trace[n - 1] == (
                    Request::WritePidRecord(PidRecord { pid, process_group: pid }),
                    Reply::Written(Ok(())),
                )
            },
            _ => saw_observation_of(app, trace, pid),
        },
        _ => true,
    }
}

spec fn query_holds(query: Query, trace: Trace) -> bool {
    match query {
        Query::Reading => true,
        Query::Leader { record } => saw_record(trace, record),
        Query::Group { record, leader } => {
            &&& saw_record(trace, record)
            &&& leader == ProbeResult::Missing ==> trace.len() >= 1 && shows_missing(
                trace[trace.len() - 1],
                Target::Process(record.pid),
            )
        },
    }
}

spec fn order_holds(next: Next<Check, AppCheckResult>, trace: Trace) -> bool {
    match next {
        Next::Ask(check) => {
            &&& asked(trace, Request::SpawnApp) ==> past_spawn(check)
            &&& seen_running(check) ==> asked(trace, Request::SpawnApp)
            &&& asked(trace, Request::SpawnShell(Shell::Stop)) ==> check is Stopping
                || check is Unhealthy || check is Starting
            &&& seen_disabled(trace) ==> check is Clearing || check is Stopping
            &&& saw_end(trace) ==> past_end(check)
        },
        Next::Done(result) => {
            &&& asked(trace, Request::SpawnApp) ==> !seen_disabled(trace)
            &&& saw_end(trace) ==> result != AppCheckResult::Started && result
                != AppCheckResult::Restarted
        },
    }
}

spec fn result_holds(app: AppSpec, result: AppCheckResult, trace: Trace) -> bool {
    &&& result == AppCheckResult::Started || result == AppCheckResult::Restarted ==> {
        &&& trace.len() >= 1
        &&& trace.last() == (Request::CheckDeadline, Reply::Expired(true))
        &&& saw_observation(app, trace)
    }
    &&& result == AppCheckResult::Restarted ==> stopped_for_health(trace)
    &&& result == AppCheckResult::Stopped ==> {
        &&& trace.len() >= 3
        &&& stopped_at(trace, trace.len() - 3)
    }
}

spec fn check_holds(app: AppSpec, next: Next<Check, AppCheckResult>, trace: Trace) -> bool {
    match next {
        Next::Ask(check) => match check {
            Check::Querying { query, .. } => query_holds(query, trace),
            Check::Disabling { known, .. } => {
                &&& known.0 == ProcessState::Stopped ==> nothing_runs(trace)
                &&& known.1 matches Some(record) ==> saw_record(trace, record)
            },
            Check::Stopping(stop) => stop_holds(Next::Ask(stop), trace, stop.record),
            Check::Preparing { .. } => nothing_runs(trace),
            Check::Probing { record, run, .. } => {
                &&& saw_record(trace, record)
                &&& match run {
                    Exec::Spawning { shell, .. } => shell == Shell::Healthcheck,
                    _ => asked(trace, Request::SpawnShell(Shell::Healthcheck)),
                }
            },
            Check::Unhealthy { stop, .. } => {
                &&& stop_holds(Next::Ask(stop), trace, stop.record)
                &&& saw_record(trace, stop.record)
                &&& saw_unhealthy(trace)
            },
            Check::Starting { start, again } => {
                &&& nothing_runs(trace)
                &&& start_holds(app, start, trace)
                &&& again ==> stopped_for_health(trace)
            },
            _ => true,
        },
        Next::Done(result) => result_holds(app, result, trace),
    }
}

proof fn lemma_grows(trace: Trace)
    requires
        trace.len() > 0,
    ensures
        ({
            let before = trace.drop_last();
            let n = trace.len() - 1;
            &&& forall|request: Request| #[trigger]
                asked(trace, request) <==> asked(before, request) || trace.last().0 == request
            &&& nothing_runs(before) ==> nothing_runs(trace)
            &&& forall|record: PidRecord|
                saw_record(before, record) ==> #[trigger] saw_record(trace, record)
            &&& seen_disabled(trace) <==> seen_disabled(before) || trace.last() == (
                Request::Exists(Place::DisableFile),
                Reply::Exists(Ok(true)),
            )
            &&& saw_end(trace) <==> saw_end(before) || (asked(before, Request::SpawnApp)
                && child_ended(trace.last()))
            &&& saw_unhealthy(before) ==> saw_unhealthy(trace)
            &&& stopped_for_health(before) ==> stopped_for_health(trace)
            &&& forall|app: AppSpec, pid: i32|
                saw_observation_of(app, before, pid) ==> #[trigger] saw_observation_of(
                    app,
                    trace,
                    pid,
                )
        }),
{
    let before = trace.drop_last();
    let n = trace.len() - 1;
    assert(trace[n] == trace.last());
    assert(forall|i: int| 0 <= i < n ==> #[trigger] before[i] == trace[i]);
    assert forall|i: int| 0 <= i <= n implies #[trigger] trace.take(i) == before.take(i) by {
        assert(trace.take(i) =~= before.take(i));
    }
    assert(before.take(n) =~= before);
    assert forall|request: Request| #[trigger]
        asked(trace, request) <==> asked(before, request) || trace.last().0 == request by {
        if asked(before, request) {
            let i = choose|i: int| 0 <= i < before.len() && (#[trigger] before[i]).0 == request;
            assert(trace[i].0 == request);
        }
        if asked(trace, request) && trace.last().0 != request {
            let i = choose|i: int| 0 <= i < trace.len() && (#[trigger] trace[i]).0 == request;
            assert(before[i].0 == request);
        }
    }
    lemma_seen_grows(trace);
    assert forall|app: AppSpec, pid: i32| saw_observation_of(app, before, pid) implies #[trigger]
    saw_observation_of(app, trace, pid) by {
        let i = choose|i: int| #[trigger] observed_at(app, before, i, pid);
        assert(observed_at(app, trace, i, pid));
    }
    if saw_end(before) {
        let i = choose|i: int| #[trigger] ended_at(before, i);
        assert(ended_at(trace, i));
    }
    if asked(before, Request::SpawnApp) && child_ended(trace.last()) {
        assert(ended_at(trace, n));
    }
    if saw_end(trace) {
        let i = choose|i: int| #[trigger] ended_at(trace, i);
        if i < n {
            assert(ended_at(before, i));
        }
    }
    if saw_unhealthy(before) {
        let i = choose|i: int| #[trigger] unhealthy_at(before, i);
        assert(unhealthy_at(trace, i));
    }
    if stopped_for_health(before) {
        let (i, j) = choose|i: int, j: int|
            i < j && #[trigger] unhealthy_at(before, i) && #[trigger] stopped_at(before, j);
        assert(unhealthy_at(trace, i));
        let record = choose|record: PidRecord| #[trigger] gone_at(before, j, record);
        assert(gone_at(trace, j, record));
        assert(stopped_at(trace, j));
    }
}

proof fn lemma_seen_grows(trace: Trace)
    requires
        trace.len() > 0,
    ensures
        nothing_runs(trace.drop_last()) ==> nothing_runs(trace),
        forall|record: PidRecord|
            saw_record(trace.drop_last(), record) ==> #[trigger] saw_record(trace, record),
        seen_disabled(trace) <==> seen_disabled(trace.drop_last()) || trace.last() == (
            Request::Exists(Place::DisableFile),
            Reply::Exists(Ok(true)),
        ),
{
    let before = trace.drop_last();
    let n = trace.len() - 1;
    assert(trace[n] == trace.last());
    assert(forall|i: int| 0 <= i < n ==> #[trigger] before[i] == trace[i]);
    if nothing_runs(before) {
        if exists|i: int| #[trigger] no_record_at(before, i) {
            let i = choose|i: int| #[trigger] no_record_at(before, i);
            assert(no_record_at(trace, i));
        } else {
            let (i, j, record) = choose|i: int, j: int, record: PidRecord| #[trigger]
                record_at(before, i, record) && #[trigger] gone_at(before, j, record);
            assert(record_at(trace, i, record));
            assert(gone_at(trace, j, record));
        }
    }
    assert forall|record: PidRecord| saw_record(before, record) implies #[trigger] saw_record(
        trace,
        record,
    ) by {
        let i = choose|i: int| #[trigger] record_at(before, i, record);
        assert(record_at(trace, i, record));
    }
    let disabled = (Request::Exists(Place::DisableFile), Reply::Exists(Ok(true)));
    if seen_disabled(before) {
        let i = choose|i: int| 0 <= i < before.len() && #[trigger] before[i] == disabled;
        assert(trace[i] == disabled);
    }
    if seen_disabled(trace) && trace.last() != disabled {
        let i = choose|i: int| 0 <= i < trace.len() && #[trigger] trace[i] == disabled;
        assert(before[i] == disabled);
    }
}

#[verifier::spinoff_prover]
proof fn lemma_order_keeps(app: AppSpec, check: Check, trace: Trace)
    requires
        trace.len() > 0,
        order_holds(Next::Ask(check), trace.drop_last()),
        check_holds(app, Next::Ask(check), trace.drop_last()),
        check.asks() == trace.last().0,
        answers(trace.last().0, trace.last().1),
    ensures
        order_holds(check.after(app, trace.last().1).next, trace),
{
    lemma_grows(trace);
}

#[verifier::spinoff_prover]
proof fn lemma_check_keeps(app: AppSpec, check: Check, trace: Trace)
    requires
        trace.len() > 0,
        order_holds(Next::Ask(check), trace.drop_last()),
        check_holds(app, Next::Ask(check), trace.drop_last()),
        check.asks() == trace.last().0,
        answers(trace.last().0, trace.last().1),
    ensures
        check_holds(app, check.after(app, trace.last().1).next, trace),
{
    let reply = trace.last().1;
    match check {
        Check::Querying { query, .. } => {
            lemma_query_keeps(query, trace);
        },
        Check::Disabling { .. } => {
            lemma_seen_grows(trace);
        },
        Check::Stopping(stop) => {
            stop_keeps_what_is_known(app, stop, trace, stop.record);
            if stop.after(app, reply).next matches Next::Done(Ok(())) {
                lemma_stop_seen(trace, stop.record);
            }
        },
        Check::Preparing { .. } => {
            lemma_seen_grows(trace);
        },
        Check::Unhealthy { stop, .. } => {
            lemma_grows(trace);
            stop_keeps_what_is_known(app, stop, trace, stop.record);
            assert(saw_record(trace, stop.record));
            if stop.after(app, reply).next matches Next::Done(Ok(())) {
                lemma_stop_seen(trace, stop.record);
                let j = trace.len() - 3;
                let i = choose|i: int| #[trigger] unhealthy_at(trace, i);
                assert(i != j && i != j + 1 && i != j + 2);
                assert(stopped_for_health(trace));
                let k = choose|k: int| #[trigger] record_at(trace, k, stop.record);
                assert(record_at(trace, k, stop.record));
                assert(gone_at(trace, j, stop.record));
                assert(nothing_runs(trace));
            }
        },
        Check::Probing { record, run, .. } => {
            lemma_grows(trace);
            assert(saw_record(trace, record));
            if run.after(reply) matches Next::Done(Ok(CommandOutcome::Negative)) {
                assert(trace.take(trace.len() - 1) =~= trace.drop_last());
                assert(unhealthy_at(trace, trace.len() - 1));
            }
        },
        Check::Starting { start, .. } => {
            lemma_grows(trace);
            lemma_start_keeps(app, start, trace);
        },
        _ => {},
    }
}

proof fn lemma_stop_seen(trace: Trace, record: PidRecord)
    requires
        trace.len() >= 1,
        shows_removed(trace.last()),
        shows_gone(trace.drop_last(), record),
    ensures
        trace.len() >= 3,
        gone_at(trace, trace.len() - 3, record),
        stopped_at(trace, trace.len() - 3),
{
    let before = trace.drop_last();
    assert(before[before.len() - 2] == trace[trace.len() - 3]);
    assert(before[before.len() - 1] == trace[trace.len() - 2]);
    assert(trace.last() == trace[trace.len() - 1]);
    assert(gone_at(trace, trace.len() - 3, record));
}

proof fn lemma_query_keeps(query: Query, trace: Trace)
    requires
        trace.len() > 0,
        query_holds(query, trace.drop_last()),
        query.asks() == trace.last().0,
        answers(trace.last().0, trace.last().1),
    ensures
        match query.after(trace.last().1) {
            Next::Ask(query) => query_holds(query, trace),
            Next::Done(Ok(known)) => {
                &&& known.0 == ProcessState::Stopped ==> nothing_runs(trace)
                &&& known.1 matches Some(record) ==> saw_record(trace, record)
            },
            Next::Done(Err(_)) => true,
        },
{
    let before = trace.drop_last();
    let n = trace.len() - 1;
    let reply = trace.last().1;
    lemma_grows(trace);
    assert(trace[n] == trace.last());
    assert(forall|i: int| 0 <= i < n ==> #[trigger] before[i] == trace[i]);
    match query {
        Query::Reading => {
            if let Reply::PidFile(file) = reply {
                match recorded(file) {
                    Ok(None) => {
                        assert(no_record_at(trace, n));
                    },
                    Ok(Some(record)) => {
                        assert(record_at(trace, n, record));
                        assert(saw_record(trace, record));
                    },
                    Err(_) => {},
                }
            }
        },
        Query::Leader { record } => {
            assert(saw_record(trace, record));
        },
        Query::Group { record, leader } => {
            assert(saw_record(trace, record));
            if query.after(reply) matches Next::Done(Ok((ProcessState::Stopped, _))) {
                assert(gone_at(trace, n - 1, record));
                let i = choose|i: int| #[trigger] record_at(trace, i, record);
                assert(record_at(trace, i, record));
                assert(nothing_runs(trace));
            }
        },
    }
}

proof fn lemma_start_keeps(app: AppSpec, start: Start, trace: Trace)
    requires
        trace.len() > 0,
        start_holds(app, start, trace.drop_last()),
        start.asks() == trace.last().0,
        answers(trace.last().0, trace.last().1),
    ensures
        match start.after(app, trace.last().1).next {
            Next::Ask(start) => start_holds(app, start, trace),
            Next::Done(result) => result == AppCheckResult::Started ==> {
                &&& trace.last() == (Request::CheckDeadline, Reply::Expired(true))
                &&& saw_observation(app, trace)
            },
        },
{
    let before = trace.drop_last();
    let n = trace.len() - 1;
    let reply = trace.last().1;
    lemma_grows(trace);
    assert(trace[n] == trace.last());
    assert(forall|i: int| 0 <= i < n ==> #[trigger] before[i] == trace[i]);
    match start {
        Start::Recording { pid } => {
            if let Reply::Written(Ok(done)) = reply {
                assert(done == ());
            }
        },
        Start::Observing { pid, wait } => {
            if let (Wait::Arming { .. }, Reply::Armed(true)) = (wait, reply) {
                assert(observed_at(app, trace, n - 2, pid));
            }
            if saw_observation_of(app, before, pid) {
                assert(saw_observation_of(app, trace, pid));
                let i = choose|i: int| #[trigger] observed_at(app, trace, i, pid);
                assert(saw_observation(app, trace));
            }
        },
        _ => {},
    }
}

proof fn lemma_check_holds(app: AppSpec, trace: Trace)
    requires
        check_run(app, trace) is Some,
    ensures
        order_holds(check_run(app, trace)->0, trace),
        check_holds(app, check_run(app, trace)->0, trace),
    decreases trace.len(),
{
    reveal(check_run);
    if trace.len() > 0 {
        lemma_check_holds(app, trace.drop_last());
        let check = check_run(app, trace.drop_last())->0->Ask_0;
        lemma_order_keeps(app, check, trace);
        lemma_check_keeps(app, check, trace);
    }
}

proof fn lemma_check_step(app: AppSpec, trace: Trace, i: int)
    requires
        check_run(app, trace) is Some,
        0 <= i < trace.len(),
    ensures
        check_run(app, trace.take(i)) matches Some(Next::Ask(check)) && {
            &&& check.asks() == trace[i].0
            &&& answers(trace[i].0, trace[i].1)
            &&& check_run(app, trace.take(i + 1)) == Some(check.after(app, trace[i].1).next)
        },
    decreases trace.len(),
{
    reveal(check_run);
    if i < trace.len() - 1 {
        lemma_check_step(app, trace.drop_last(), i);
        assert(trace.drop_last().take(i) == trace.take(i));
        assert(trace.drop_last().take(i + 1) == trace.take(i + 1));
        assert(trace.drop_last()[i] == trace[i]);
    } else {
        assert(trace.take(i) == trace.drop_last());
        assert(trace.take(i + 1) == trace);
    }
}

/// The request of a known state is the next one, and its answer decides what follows.
proof fn lemma_goes_on(app: AppSpec, trace: Trace, i: int, check: Check)
    requires
        check_run(app, trace) is Some,
        0 <= i < trace.len(),
        check_run(app, trace.take(i)) == Some(Next::<Check, AppCheckResult>::Ask(check)),
    ensures
        trace[i].0 == check.asks(),
        answers(trace[i].0, trace[i].1),
        check_run(app, trace.take(i + 1)) == Some(check.after(app, trace[i].1).next),
{
    lemma_check_step(app, trace, i);
}

proof fn lemma_who_spawns(check: Check)
    requires
        check.asks() == Request::SpawnApp,
    ensures
        check matches Check::Starting { start: Start::Spawning, .. },
{
}

proof fn lemma_who_polls(check: Check)
    requires
        check.asks() == Request::PollChild,
        past_spawn(check),
    ensures
        check matches Check::Starting {
            start: Start::Observing { wait: Wait::Polling { .. }, .. },
            ..
        },
{
}

/// The state that marks an application invalid: where it was being started, `again`
/// says whether that was a restart.
spec fn marking(again: Option<bool>, quarantine: Quarantine) -> Check {
    match again {
        Some(again) => starting(Start::Quarantining(quarantine), again),
        None => Check::Quarantining(quarantine),
    }
}

proof fn lemma_looked(app: AppSpec, again: Option<bool>, cause: Cause, reply: Reply)
    requires
        reply is Exists,
        marking(again, Quarantine::Looking(cause)).after(app, reply).next is Ask,
    ensures
        marking(again, Quarantine::Looking(cause)).after(app, reply).next == Next::<
            Check,
            AppCheckResult,
        >::Ask(marking(again, Quarantine::Marking(cause))),
{
    let step = Quarantine::Looking(cause).after(reply);
    assert(step.next is Ask ==> step.next == Next::<Quarantine, AppCheckResult>::Ask(
        Quarantine::Marking(cause),
    ));
}

proof fn lemma_marking_asks(again: Option<bool>, cause: Cause)
    ensures
        marking(again, Quarantine::Looking(cause)).asks() == Request::Exists(Place::Invalid),
        marking(again, Quarantine::Marking(cause)).asks() == Request::MarkInvalid,
{
}

/// The requests that follow where an application is to be marked invalid.
#[verifier::spinoff_prover]
proof fn lemma_marking(app: AppSpec, trace: Trace, i: int, again: Option<bool>, cause: Cause)
    requires
        check_run(app, trace) is Some,
        0 <= i,
        i < trace.len() ==> check_run(app, trace.take(i)) == Some(
            Next::<Check, AppCheckResult>::Ask(marking(again, Quarantine::Looking(cause))),
        ),
    ensures
        i < trace.len() ==> trace[i].0 == Request::Exists(Place::Invalid),
        i + 1 < trace.len() ==> trace[i + 1].0 == Request::MarkInvalid,
{
    if i < trace.len() {
        let looking = marking(again, Quarantine::Looking(cause));
        lemma_marking_asks(again, cause);
        lemma_goes_on(app, trace, i, looking);
        if i + 1 < trace.len() {
            lemma_check_step(app, trace, i + 1);
            assert(looking.after(app, trace[i].1).next is Ask);
            lemma_looked(app, again, cause, trace[i].1);
            lemma_goes_on(app, trace, i + 1, marking(again, Quarantine::Marking(cause)));
        }
    }
}

spec fn starting(start: Start, again: bool) -> Check {
    Check::Starting { start, again }
}

/// An application that is not managed is asked nothing about: its check is over at
/// once.
pub proof fn an_unmanaged_app_is_left_alone(app: AppSpec, trace: Trace)
    requires
        !app.managed,
        check_run(app, trace) is Some,
    ensures
        trace.len() == 0,
        check_run(app, trace) == Some(
            Next::<Check, AppCheckResult>::Done(AppCheckResult::SkippedUnmanaged),
        ),
{
    reveal(check_run);
    if trace.len() > 0 {
        lemma_check_step(app, trace, 0);
        assert(trace.take(0) =~= Seq::<(Request, Reply)>::empty());
    }
}

/// While the invalid marker exists, the check ends with the look at it: the
/// application is not inspected, launched, stopped or health-checked, and the run
/// does not fail for it.
pub proof fn a_quarantined_app_is_left_alone(app: AppSpec, trace: Trace)
    requires
        app.managed,
        check_run(app, trace) is Some,
        trace.len() > 0,
        trace[0].1 == Reply::Exists(Ok(true)),
    ensures
        trace.len() == 1,
        trace[0].0 == Request::Exists(Place::Invalid),
        check_run(app, trace) == Some(
            Next::<Check, AppCheckResult>::Done(AppCheckResult::SkippedInvalid),
        ),
{
    reveal(check_run);
    lemma_check_step(app, trace, 0);
    assert(trace.take(0) =~= Seq::<(Request, Reply)>::empty());
    if trace.len() > 1 {
        lemma_check_step(app, trace, 1);
    }
    assert(trace.take(1) =~= trace);
}

/// An application is launched only after it has been seen that it does not run.
pub proof fn an_app_is_never_started_twice(app: AppSpec, trace: Trace, i: int)
    requires
        check_run(app, trace) is Some,
        0 <= i < trace.len(),
        trace[i].0 == Request::SpawnApp,
    ensures
        nothing_runs(trace.take(i)),
        !asked(trace.take(i), Request::SpawnApp),
{
    lemma_check_step(app, trace, i);
    let check = check_run(app, trace.take(i))->0->Ask_0;
    lemma_who_spawns(check);
    lemma_check_holds(app, trace.take(i));
}

/// A disabled application is not launched.
pub proof fn a_disabled_app_is_not_started(app: AppSpec, trace: Trace)
    requires
        check_run(app, trace) is Some,
        seen_disabled(trace),
    ensures
        !asked(trace, Request::SpawnApp),
{
    lemma_check_holds(app, trace);
}

/// Whether a start failed its validation: what the check may end with then.
pub open spec fn is_no_start(next: Next<Check, AppCheckResult>) -> bool {
    match next {
        Next::Ask(_) => true,
        Next::Done(result) => result != AppCheckResult::Started && result
            != AppCheckResult::Restarted,
    }
}

/// Any end of the application while it is validated, a successful one as well, kills
/// the whole process group that was started, removes the PID file and marks the
/// application invalid, unless it is marked already: these are the next requests, and
/// the application does not count as started.
pub proof fn an_early_exit_quarantines(app: AppSpec, trace: Trace, i: int)
    requires
        check_run(app, trace) is Some,
        ended_at(trace, i),
    ensures
        is_no_start(check_run(app, trace)->0),
        exists|j: int, pid: i32| #[trigger]
            observed_at(app, trace.take(i), j, pid) && (i + 1 < trace.len() ==> trace[i + 1].0
                == group_kill(pid)),
        i + 2 < trace.len() ==> trace[i + 2].0 == Request::RemovePidFile,
        i + 3 < trace.len() ==> trace[i + 3].0 == Request::MeasureStartup,
        i + 4 < trace.len() ==> trace[i + 4].0 == Request::Exists(Place::Invalid),
        i + 5 < trace.len() ==> trace[i + 5].0 == Request::MarkInvalid,
{
    lemma_ended_is_no_start(app, trace, i);
    let (pid, status, again) = lemma_end_is_seen(app, trace, i);
    lemma_after_end(app, trace, i + 1, pid, status, again);
    let j = choose|j: int| #[trigger] observed_at(app, trace.take(i), j, pid);
    assert(observed_at(app, trace.take(i), j, pid));
}

proof fn lemma_ended_is_no_start(app: AppSpec, trace: Trace, i: int)
    requires
        check_run(app, trace) is Some,
        ended_at(trace, i),
    ensures
        is_no_start(check_run(app, trace)->0),
{
    lemma_check_holds(app, trace);
    assert(saw_end(trace));
}

/// The application that ended is the one that was observed, and it is to be killed next.
proof fn lemma_end_is_seen(app: AppSpec, trace: Trace, i: int) -> (r: (i32, ExitReport, bool))
    requires
        check_run(app, trace) is Some,
        ended_at(trace, i),
    ensures
        saw_observation_of(app, trace.take(i), r.0),
        check_run(app, trace.take(i + 1)) == Some(
            Next::<Check, AppCheckResult>::Ask(
                starting(Start::EndedKill { pid: r.0, status: r.1 }, r.2),
            ),
        ),
{
    lemma_check_step(app, trace, i);
    lemma_check_holds(app, trace.take(i));
    let check = check_run(app, trace.take(i))->0->Ask_0;
    lemma_who_polls(check);
    let again = check->Starting_again;
    let pid = check->Starting_start->Observing_pid;
    let status = trace[i].1->Child_0->Ok_0->Some_0;
    let killing = starting(Start::EndedKill { pid, status }, again);
    assert(check.after(app, trace[i].1).next == Next::<Check, AppCheckResult>::Ask(killing));
    (pid, status, again)
}

proof fn lemma_after_end(
    app: AppSpec,
    trace: Trace,
    i: int,
    pid: i32,
    status: ExitReport,
    again: bool,
)
    requires
        check_run(app, trace) is Some,
        0 <= i <= trace.len(),
        check_run(app, trace.take(i)) == Some(
            Next::<Check, AppCheckResult>::Ask(starting(Start::EndedKill { pid, status }, again)),
        ),
    ensures
        i < trace.len() ==> trace[i].0 == group_kill(pid),
        i + 1 < trace.len() ==> trace[i + 1].0 == Request::RemovePidFile,
        i + 2 < trace.len() ==> trace[i + 2].0 == Request::MeasureStartup,
        i + 3 < trace.len() ==> trace[i + 3].0 == Request::Exists(Place::Invalid),
        i + 4 < trace.len() ==> trace[i + 4].0 == Request::MarkInvalid,
{
    if i < trace.len() {
        let killing = starting(Start::EndedKill { pid, status }, again);
        lemma_goes_on(app, trace, i, killing);
        let removing = starting(Start::EndedRemove { pid, status }, again);
        assert(killing.after(app, trace[i].1).next == Next::<Check, AppCheckResult>::Ask(
            removing,
        ));
        lemma_after_removal(app, trace, i + 1, pid, status, again);
    }
}

#[verifier::spinoff_prover]
proof fn lemma_after_removal(
    app: AppSpec,
    trace: Trace,
    i: int,
    pid: i32,
    status: ExitReport,
    again: bool,
)
    requires
        check_run(app, trace) is Some,
        0 <= i,
        i <= trace.len() ==> check_run(app, trace.take(i)) == Some(
            Next::<Check, AppCheckResult>::Ask(
                starting(Start::EndedRemove { pid, status }, again),
            ),
        ),
    ensures
        i < trace.len() ==> trace[i].0 == Request::RemovePidFile,
        i + 1 < trace.len() ==> trace[i + 1].0 == Request::MeasureStartup,
        i + 2 < trace.len() ==> trace[i + 2].0 == Request::Exists(Place::Invalid),
        i + 3 < trace.len() ==> trace[i + 3].0 == Request::MarkInvalid,
{
    if i < trace.len() {
        let removing = starting(Start::EndedRemove { pid, status }, again);
        lemma_goes_on(app, trace, i, removing);
        let measuring = starting(Start::EndedMeasure { pid, status }, again);
        assert(removing.after(app, trace[i].1).next == Next::<Check, AppCheckResult>::Ask(
            measuring,
        ));
        if i + 1 < trace.len() {
            lemma_goes_on(app, trace, i + 1, measuring);
            let millis = trace[i + 1].1->Startup_millis;
            let cause = Cause::StartupExitedEarly { pid, status, millis };
            assert(measuring.after(app, trace[i + 1].1).next == Next::<Check, AppCheckResult>::Ask(
                marking(Some(again), Quarantine::Looking(cause)),
            ));
            lemma_marking(app, trace, i + 2, Some(again), cause);
        }
    }
}

/// An application counts as started only when it was recorded as what was launched,
/// was then observed for its whole validation time, and was not seen to end.
pub proof fn started_means_validated(app: AppSpec, trace: Trace, result: AppCheckResult)
    requires
        check_run(app, trace) == Some(Next::<Check, AppCheckResult>::Done(result)),
        result == AppCheckResult::Started || result == AppCheckResult::Restarted,
    ensures
        trace.len() > 0,
        trace.last() == (Request::CheckDeadline, Reply::Expired(true)),
        exists|i: int, pid: i32| #[trigger] observed_at(app, trace, i, pid),
        forall|i: int| !(#[trigger] ended_at(trace, i)),
{
    lemma_check_holds(app, trace);
    assert forall|i: int| !(#[trigger] ended_at(trace, i)) by {
        if ended_at(trace, i) {
            assert(saw_end(trace));
        }
    }
}

/// An application is restarted only after its health check gave a negative answer,
/// and after it was then stopped, leader, group and PID file.
pub proof fn restarted_means_stopped_before(app: AppSpec, trace: Trace)
    requires
        check_run(app, trace) == Some(
            Next::<Check, AppCheckResult>::Done(AppCheckResult::Restarted),
        ),
    ensures
        stopped_for_health(trace),
        exists|i: int, pid: i32| #[trigger] observed_at(app, trace, i, pid),
{
    lemma_check_holds(app, trace);
}

/// A disabled application counts as stopped only when leader and group are gone and
/// the PID file is removed.
pub proof fn disabled_app_is_stopped_for_good(app: AppSpec, trace: Trace)
    requires
        check_run(app, trace) == Some(Next::<Check, AppCheckResult>::Done(AppCheckResult::Stopped)),
    ensures
        trace.len() >= 3,
        stopped_at(trace, trace.len() - 3),
{
    lemma_check_holds(app, trace);
}

/// A check comes to a quarantine if and only if its last act was to write the invalid
/// marker.
pub proof fn quarantined_means_marked(app: AppSpec, trace: Trace, result: AppCheckResult)
    requires
        check_run(app, trace) == Some(Next::<Check, AppCheckResult>::Done(result)),
    ensures
        result == AppCheckResult::Quarantined <==> trace.len() > 0 && trace.last() == (
            Request::MarkInvalid,
            Reply::Marked(MarkReply::Written),
        ),
{
    reveal(check_run);
    if trace.len() > 0 {
        lemma_check_step(app, trace, trace.len() - 1);
        assert(trace.take(trace.len() as int) =~= trace);
        let check = check_run(app, trace.take(trace.len() - 1))->0->Ask_0;
        let reply = trace.last().1;
        match check {
            Check::Starting { start, .. } => {
                assert(start.after(app, reply).next == Next::<Start, AppCheckResult>::Done(
                    AppCheckResult::Quarantined,
                ) <==> trace.last() == (Request::MarkInvalid, Reply::Marked(MarkReply::Written)));
            },
            _ => {},
        }
    }
}

/// Where the leader is gone and the group is not, and the application is not disabled,
/// the rest of the group is killed, the PID file is removed and the application is
/// marked invalid, unless it is marked already.
#[verifier::spinoff_prover]
pub proof fn an_orphaned_group_is_killed(
    app: AppSpec,
    trace: Trace,
    i: int,
    record: PidRecord,
    check: Check,
)
    requires
        check_run(app, trace) is Some,
        0 <= i < trace.len(),
        trace[i] == (Request::Exists(Place::DisableFile), Reply::Exists(Ok(false))),
        check_run(app, trace.take(i)) == Some(Next::<Check, AppCheckResult>::Ask(check)),
        check matches Check::Disabling { known, .. } && known == (
            ProcessState::OrphanedProcessGroup,
            Some(record),
        ),
    ensures
        i + 1 < trace.len() ==> trace[i + 1].0 == group_kill(record.process_group),
        i + 2 < trace.len() ==> trace[i + 2].0 == Request::RemovePidFile,
        i + 3 < trace.len() ==> trace[i + 3].0 == Request::Exists(Place::Invalid),
        i + 4 < trace.len() ==> trace[i + 4].0 == Request::MarkInvalid,
{
    lemma_goes_on(app, trace, i, check);
    let killing = Check::OrphanKill(record);
    assert(check.after(app, trace[i].1).next == Next::<Check, AppCheckResult>::Ask(killing));
    if i + 1 < trace.len() {
        lemma_goes_on(app, trace, i + 1, killing);
        let removing = Check::OrphanRemove(record);
        assert(killing.after(app, trace[i + 1].1).next == Next::<Check, AppCheckResult>::Ask(
            removing,
        ));
        if i + 2 < trace.len() {
            lemma_goes_on(app, trace, i + 2, removing);
            let cause = Cause::OrphanedProcessGroup { pid: record.pid };
            assert(removing.after(app, trace[i + 2].1).next == Next::<Check, AppCheckResult>::Ask(
                marking(None, Quarantine::Looking(cause)),
            ));
            lemma_marking(app, trace, i + 3, None, cause);
        }
    }
}

/// A health check that ends in any way but with a negative answer is the last that
/// happens: the application is neither stopped nor started again. With success the
/// application is left as it is, and anything else fails the check.
pub proof fn only_a_negative_health_check_restarts(
    app: AppSpec,
    trace: Trace,
    i: int,
    check: Check,
)
    requires
        check_run(app, trace) is Some,
        0 <= i < trace.len(),
        check_run(app, trace.take(i)) == Some(Next::<Check, AppCheckResult>::Ask(check)),
        check matches Check::Probing { run, .. } && run.after(trace[i].1) is Done && !(run.after(
            trace[i].1,
        ) matches Next::Done(Ok(CommandOutcome::Negative))),
    ensures
        i == trace.len() - 1,
        check_run(app, trace) == Some(
            Next::<Check, AppCheckResult>::Done(
                match check->Probing_run.after(trace[i].1) {
                    Next::Done(Ok(CommandOutcome::Success)) => AppCheckResult::Idle,
                    _ => AppCheckResult::Failed,
                },
            ),
        ),
{
    lemma_check_step(app, trace, i);
    if i + 1 < trace.len() {
        lemma_check_step(app, trace, i + 1);
    }
    assert(trace.take(i + 1) =~= trace);
}

/// Whether the application was launched as process `pid`.
pub open spec fn launched_at(trace: Trace, i: int, pid: i32) -> bool {
    &&& 0 <= i < trace.len()
    &&& trace[i] == (Request::SpawnApp, Reply::Spawned(Ok(pid)))
}

/// Whether the whole group of process `pid` was killed after exchange `i`.
pub open spec fn killed_since(trace: Trace, i: int, pid: i32) -> bool {
    exists|j: int| i < j < trace.len() && (#[trigger] trace[j]).0 == group_kill(pid)
}

/// Whether the child was seen to have ended, or was waited for until it had, after
/// exchange `i`.
pub open spec fn ended_since(trace: Trace, i: int) -> bool {
    exists|j: int|
        i < j < trace.len() && (child_ended(#[trigger] trace[j]) || trace[j].0
            == Request::ReapChild)
}

spec fn launch_holds(next: Next<Check, AppCheckResult>, trace: Trace, i: int, pid: i32) -> bool {
    let killed = killed_since(trace, i, pid);
    let ended = ended_since(trace, i);
    match next {
        Next::Ask(Check::Starting { start, .. }) => match start {
            Start::Opening { .. } => false,
            Start::Spawning => false,
            Start::Recording { pid: p } => p == pid,
            Start::Observing { pid: p, .. } => p == pid,
            Start::UnrecordedKill { pid: p, .. } => p == pid,
            Start::UnseenKill { pid: p, .. } => p == pid,
            Start::UnrecordedReap { .. } => killed,
            Start::UnseenReap { .. } => killed,
            Start::EndedKill { pid: p, .. } => p == pid && ended,
            _ => killed && ended,
        },
        Next::Ask(_) => false,
        Next::Done(result) => result == AppCheckResult::Started || result
            == AppCheckResult::Restarted || killed && ended,
    }
}

#[verifier::spinoff_prover]
proof fn lemma_launch(app: AppSpec, trace: Trace, i: int, pid: i32)
    requires
        check_run(app, trace) is Some,
        launched_at(trace, i, pid),
    ensures
        launch_holds(check_run(app, trace)->0, trace, i, pid),
    decreases trace.len(),
{
    reveal(check_run);
    let before = trace.drop_last();
    let n = trace.len() - 1;
    lemma_check_step(app, trace, n);
    assert(trace.take(n) =~= before);
    assert(trace.take(n + 1) =~= trace);
    assert(trace[n] == trace.last());
    let check = check_run(app, before)->0->Ask_0;
    if i == n {
        lemma_who_spawns(check);
    } else {
        assert(before[i] == trace[i]);
        lemma_launch(app, before, i, pid);
        if killed_since(before, i, pid) {
            let j = choose|j: int|
                i < j < before.len() && (#[trigger] before[j]).0 == group_kill(pid);
            assert(trace[j] == before[j]);
        }
        if ended_since(before, i) {
            let j = choose|j: int|
                i < j < before.len() && (child_ended(#[trigger] before[j]) || before[j].0
                    == Request::ReapChild);
            assert(trace[j] == before[j]);
        }
        if trace.last().0 == group_kill(pid) {
            assert(killed_since(trace, i, pid));
        }
        if child_ended(trace.last()) || trace.last().0 == Request::ReapChild {
            assert(ended_since(trace, i));
        }
    }
}

/// A launch that does not end with the application started leaves nothing of it behind:
/// the whole process group was killed, and the child was seen to end or waited for.
pub proof fn a_failed_start_leaves_nothing_running(
    app: AppSpec,
    trace: Trace,
    result: AppCheckResult,
    i: int,
    pid: i32,
)
    requires
        check_run(app, trace) == Some(Next::<Check, AppCheckResult>::Done(result)),
        result != AppCheckResult::Started,
        result != AppCheckResult::Restarted,
        launched_at(trace, i, pid),
    ensures
        killed_since(trace, i, pid),
        ended_since(trace, i),
{
    lemma_launch(app, trace, i, pid);
}

} // verus!

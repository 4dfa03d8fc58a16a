//! The course that the rotation of an application's logs takes.

use vstd::prelude::*;
use crate::check::log_overrides;
use crate::config::{AppSpec, GlobalConfig, LogOverrides};
use crate::copy_laws::{
    a_copy_goes_on_frozen, copy_has_frozen, freeze_begun, freeze_part, RotateNext,
};
use crate::course_laws::QueryNext;
use crate::freeze_laws::RecoverNext;
use crate::host::{Next, PidRecord, Place, Reply, Request};
use crate::logs::{LogNote, RotateLogs, Stream};
use crate::logs_laws::logs_run;
use crate::paths::{joined, same_place};
use crate::process::{KnownState, ProcessState, Query};
use crate::process_laws::query_run;
use crate::report::Failure;
use crate::rotate::{
    CompressionMethod, LogReply, LogRequest, Policy, Rotate, RotatePhase, RotateResult,
    RotationMethod,
};
use crate::rotate_laws::{log_answers, recover_run, rotate_run, LogTrace};
use crate::supervisor::{conf_view, effective_settings};
use crate::suspend::{FreezeReply, FreezeRequest, Recover};
use crate::trace::Trace;

verus! {

pub type LogsNext = Next<RotateLogs, ()>;

/// The size at which a log is rotated: that of `log.conf`, where it gives one, then that of
/// the application's override, then the global one.
pub open spec fn max_size_of(
    global: GlobalConfig,
    app: AppSpec,
    conf: Option<LogOverrides>,
) -> u64 {
    match (conf, app.log_override.max_size) {
        (Some(LogOverrides { max_size: Some(value), .. }), _) => value,
        (_, Some(value)) => value,
        (_, None) => global.log.max_size,
    }
}

/// The number of generations that are kept, given as above.
pub open spec fn max_keep_of(
    global: GlobalConfig,
    app: AppSpec,
    conf: Option<LogOverrides>,
) -> u32 {
    match (conf, app.log_override.max_keep) {
        (Some(LogOverrides { max_keep: Some(value), .. }), _) => value,
        (_, Some(value)) => value,
        (_, None) => global.log.max_keep,
    }
}

/// The last generation that is not compressed, given as above.
pub open spec fn compress_after_of(
    global: GlobalConfig,
    app: AppSpec,
    conf: Option<LogOverrides>,
) -> u32 {
    match (conf, app.log_override.compress_after) {
        (Some(LogOverrides { compress_after: Some(value), .. }), _) => value,
        (_, Some(value)) => value,
        (_, None) => global.log.compress_after,
    }
}

/// How the generations behind it are stored, given as above.
pub open spec fn compression_of(
    global: GlobalConfig,
    app: AppSpec,
    conf: Option<LogOverrides>,
) -> CompressionMethod {
    match (conf, app.log_override.compression) {
        (Some(LogOverrides { compression: Some(value), .. }), _) => value,
        (_, Some(value)) => value,
        (_, None) => global.log.compression,
    }
}

/// How a live file is emptied, given as above.
pub open spec fn rotation_of(
    global: GlobalConfig,
    app: AppSpec,
    conf: Option<LogOverrides>,
) -> RotationMethod {
    match (conf, app.log_override.rotation) {
        (Some(LogOverrides { rotation: Some(value), .. }), _) => value,
        (_, Some(value)) => value,
        (_, None) => global.log.rotation,
    }
}

/// The live file of a stream, given as above and seen from the application's directory.
pub open spec fn live_of(
    global: GlobalConfig,
    app: AppSpec,
    conf: Option<LogOverrides>,
    stream: Stream,
) -> Seq<u8> {
    joined(
        app.dir@,
        match stream {
            Stream::Stdout => match (conf, app.log_override.stdout) {
                (Some(LogOverrides { stdout: Some(value), .. }), _) => value@,
                (_, Some(value)) => value@,
                (_, None) => global.log.stdout@,
            },
            Stream::Stderr => match (conf, app.log_override.stderr) {
                (Some(LogOverrides { stderr: Some(value), .. }), _) => value@,
                (_, Some(value)) => value@,
                (_, None) => global.log.stderr@,
            },
        },
    )
}

/// Every log setting is the one of its own name: that of `log.conf` where it gives one, then
/// that of the application's override, then the global one.
pub proof fn every_log_setting_is_the_first_given(
    global: GlobalConfig,
    app: AppSpec,
    conf: Option<LogOverrides>,
)
    ensures
        ({
            let settings = effective_settings(global, app, conf_view(conf));
            &&& settings.max_size == max_size_of(global, app, conf)
            &&& settings.max_keep == max_keep_of(global, app, conf)
            &&& settings.compress_after == compress_after_of(global, app, conf)
            &&& settings.compression == compression_of(global, app, conf)
            &&& settings.rotation == rotation_of(global, app, conf)
            &&& joined(app.dir@, settings.stdout) == live_of(global, app, conf, Stream::Stdout)
            &&& joined(app.dir@, settings.stderr) == live_of(global, app, conf, Stream::Stderr)
        }),
{
}

/// Whether a policy has the values that the settings of the same names have.
pub open spec fn is_policy_of(
    policy: Policy,
    global: GlobalConfig,
    app: AppSpec,
    conf: Option<LogOverrides>,
) -> bool {
    &&& policy.max_size == max_size_of(global, app, conf)
    &&& policy.max_keep == max_keep_of(global, app, conf)
    &&& policy.compress_after == compress_after_of(global, app, conf)
    &&& policy.compression == compression_of(global, app, conf)
}

/// Whether the rotation of a stream's file begins, by the settings and with the group that
/// is to be frozen for it.
pub open spec fn rotation_begins(
    global: GlobalConfig,
    app: AppSpec,
    supported: bool,
    next: LogsNext,
    conf: Option<LogOverrides>,
    stream: Stream,
    suspend: Option<i32>,
) -> bool {
    next matches Next::Ask(RotateLogs::Rotating { conf: c, stream: s, suspend: g, rotate }) && {
        &&& c == conf
        &&& s == stream
        &&& g == suspend
        &&& is_policy_of(rotate.policy, global, app, conf)
        &&& rotate == Rotate::begun(rotate.policy, suspend, supported)
    }
}

/// Whether the rotation of logs goes on with a request.
pub open spec fn logs_asks(next: LogsNext, request: LogRequest) -> bool {
    next matches Next::Ask(logs) && logs.asks() == request
}

/// What is told with the last answer.
pub open spec fn logs_note(
    global: GlobalConfig,
    app: AppSpec,
    supported: bool,
    trace: LogTrace,
) -> Option<LogNote> {
    match logs_run(global, app, supported, trace.drop_last()) {
        Some(Next::Ask(logs)) => logs.after(global, app, supported, trace.last().1).note,
        _ => None,
    }
}

/// The exchanges with the host from `a` to `b`.
pub open spec fn host_part(trace: LogTrace, a: int, b: int) -> Trace {
    Seq::new((b - a) as nat, |i: int| (trace[a + i].0->Host_0, trace[a + i].1->Host_0))
}

proof fn lemma_recovers(global: GlobalConfig, app: AppSpec, supported: bool, trace: LogTrace)
    requires
        logs_run(global, app, supported, trace) is Some,
    ensures
        match recover_run(freeze_part(trace, 0, trace.len() as int)) {
            Some(Next::Ask(recover)) => (forall|i: int|
                0 <= i < trace.len() ==> (#[trigger] trace[i]).0 is Freeze) ==> logs_run(
                global,
                app,
                supported,
                trace,
            ) == Some(LogsNext::Ask(RotateLogs::Recovering(recover))),
            _ => true,
        },
    decreases trace.len(),
{
    let n = trace.len() as int;
    if n == 0 {
        assert(freeze_part(trace, 0, 0) =~= Seq::<(FreezeRequest, FreezeReply)>::empty());
    } else {
        let before = trace.drop_last();
        lemma_recovers(global, app, supported, before);
        let part = freeze_part(trace, 0, n);
        assert(part.drop_last() =~= freeze_part(before, 0, n - 1));
        assert(part.last() == (trace.last().0->Freeze_0, trace.last().1->Freeze_0));
        assert(forall|i: int| 0 <= i < before.len() ==> #[trigger] before[i] == trace[i]);
        assert(trace[n - 1] == trace.last());
    }
}

/// A rotation begins with the recovery of a group that was left suspended. What the
/// recovery came to is told where a group was resumed or something failed. After it, the
/// logs of an application that is not managed are left alone, and of any other the invalid
/// marker is looked for.
pub proof fn a_rotation_of_logs_begins_with_recovery(
    global: GlobalConfig,
    app: AppSpec,
    supported: bool,
    trace: LogTrace,
)
    requires
        logs_run(global, app, supported, trace) is Some,
        forall|i: int| 0 <= i < trace.len() ==> (#[trigger] trace[i]).0 is Freeze,
        trace.len() > 0 ==> recover_run(
            freeze_part(trace.drop_last(), 0, trace.len() - 1),
        ) matches Some(Next::Ask(_)),
    ensures
        ({
            let next = logs_run(global, app, supported, trace)->0;
            match recover_run(freeze_part(trace, 0, trace.len() as int)) {
                Some(Next::Ask(recover)) => logs_asks(next, LogRequest::Freeze(recover.asks())),
                Some(Next::Done(result)) => {
                    &&& logs_note(global, app, supported, trace) == match result {
                        Ok(Some(group)) => Some(LogNote::Resumed(group)),
                        Ok(None) => None,
                        Err(error) => Some(LogNote::CannotRecover(error)),
                    }
                    &&& if app.managed {
                        logs_asks(next, LogRequest::Host(Request::Exists(Place::Invalid)))
                    } else {
                        next == LogsNext::Done(())
                    }
                },
                None => false,
            }
        }),
{
    let n = trace.len() as int;
    lemma_recovers(global, app, supported, trace);
    if n == 0 {
        assert(freeze_part(trace, 0, 0) =~= Seq::<(FreezeRequest, FreezeReply)>::empty());
        assert(recover_run(freeze_part(trace, 0, 0)) == Some(RecoverNext::Ask(Recover::Reading)));
    } else {
        let before = trace.drop_last();
        assert forall|i: int| 0 <= i < before.len() implies (#[trigger] before[i]).0 is Freeze by {
            assert(before[i] == trace[i]);
        }
        lemma_recovers(global, app, supported, before);
        let part = freeze_part(trace, 0, n);
        assert(part.drop_last() =~= freeze_part(before, 0, n - 1));
        assert(part.last() == (trace.last().0->Freeze_0, trace.last().1->Freeze_0));
        assert(trace[n - 1] == trace.last());
    }
}

proof fn lemma_who_asks(logs: RotateLogs)
    ensures
        logs.asks() == LogRequest::Host(Request::Exists(Place::Invalid)) ==> logs
            == RotateLogs::Marker,
        logs.asks() == LogRequest::Host(Request::ReadLogConf) ==> logs == RotateLogs::LogConf,
{
}

/// A quarantined application's logs are left alone, and so are they where that cannot be
/// told, which is told; otherwise the settings are loaded.
pub proof fn the_invalid_marker_is_looked_for(
    global: GlobalConfig,
    app: AppSpec,
    supported: bool,
    trace: LogTrace,
)
    requires
        logs_run(global, app, supported, trace) is Some,
        trace.len() > 0,
        trace.last().0 == LogRequest::Host(Request::Exists(Place::Invalid)),
    ensures
        ({
            let next = logs_run(global, app, supported, trace)->0;
            let note = logs_note(global, app, supported, trace);
            match trace.last().1 {
                LogReply::Host(Reply::Exists(Ok(true))) => next == LogsNext::Done(()) && note
                    is None,
                LogReply::Host(Reply::Exists(Ok(false))) => {
                    &&& logs_asks(next, LogRequest::Host(Request::ReadLogConf))
                    &&& note is None
                },
                LogReply::Host(Reply::Exists(Err(error))) => {
                    &&& next == LogsNext::Done(())
                    &&& note == Some(LogNote::CannotCheckInvalidMarker(error))
                },
                _ => false,
            }
        }),
{
    lemma_who_asks(logs_run(global, app, supported, trace.drop_last())->0->Ask_0);
}

/// Settings that cannot be loaded are told, and nothing is rotated. Otherwise the rotation
/// of the standard output begins, by the settings; only where the settings ask for a
/// suspension is it first looked at what runs.
pub proof fn the_settings_are_loaded(
    global: GlobalConfig,
    app: AppSpec,
    supported: bool,
    trace: LogTrace,
)
    requires
        logs_run(global, app, supported, trace) is Some,
        trace.len() > 0,
        trace.last().0 == LogRequest::Host(Request::ReadLogConf),
    ensures
        ({
            let next = logs_run(global, app, supported, trace)->0;
            trace.last().1 matches LogReply::Host(Reply::LogConf(file)) && match log_overrides(
                file,
            ) {
                Err(failure) => {
                    &&& next == LogsNext::Done(())
                    &&& logs_note(global, app, supported, trace) == Some(
                        LogNote::BadSettings(failure),
                    )
                },
                Ok(conf) => if rotation_of(global, app, conf) == RotationMethod::Suspend {
                    logs_asks(next, LogRequest::Host(Request::ReadPidFile))
                } else {
                    rotation_begins(global, app, supported, next, conf, Stream::Stdout, None)
                },
            }
        }),
{
    lemma_who_asks(logs_run(global, app, supported, trace.drop_last())->0->Ask_0);
    if let LogReply::Host(Reply::LogConf(file)) = trace.last().1 {
        if let Ok(conf) = log_overrides(file) {
            every_log_setting_is_the_first_given(global, app, conf);
        }
    }
}

/// Whether the settings were loaded at exchange `m`, and ask for a suspension.
pub open spec fn suspends_from(
    global: GlobalConfig,
    app: AppSpec,
    trace: LogTrace,
    m: int,
    conf: Option<LogOverrides>,
) -> bool {
    &&& 0 <= m < trace.len()
    &&& trace[m].0 == LogRequest::Host(Request::ReadLogConf)
    &&& trace[m].1 matches LogReply::Host(Reply::LogConf(file)) && log_overrides(file) == Ok::<
        Option<LogOverrides>,
        Failure,
    >(conf)
    &&& rotation_of(global, app, conf) == RotationMethod::Suspend
}

/// The group that is to be frozen: that of the record of an application that was seen to
/// run, and otherwise none.
pub open spec fn group_seen(known: Result<KnownState, Failure>) -> Option<i32> {
    match known {
        Ok((state, Some(record))) => if state == ProcessState::Running {
            Some(record.process_group)
        } else {
            None
        },
        _ => None,
    }
}

proof fn lemma_targets(
    global: GlobalConfig,
    app: AppSpec,
    supported: bool,
    trace: LogTrace,
    m: int,
    conf: Option<LogOverrides>,
)
    requires
        logs_run(global, app, supported, trace) is Some,
        suspends_from(global, app, trace, m, conf),
    ensures
        match query_run(host_part(trace, m + 1, trace.len() as int)) {
            Some(Next::Ask(query)) => logs_run(global, app, supported, trace) == Some(
                LogsNext::Ask(RotateLogs::Targeting { conf, query }),
            ),
            Some(Next::Done(known)) => host_only(trace, m + 1) ==> rotation_begins(
                global,
                app,
                supported,
                logs_run(global, app, supported, trace)->0,
                conf,
                Stream::Stdout,
                group_seen(known),
            ),
            None => true,
        } || !host_only(trace, m + 1),
    decreases trace.len(),
{
    let n = trace.len() as int;
    let before = trace.drop_last();
    every_log_setting_is_the_first_given(global, app, conf);
    if n == m + 1 {
        assert(trace[m] == trace.last());
        lemma_who_asks(logs_run(global, app, supported, before)->0->Ask_0);
        assert(host_part(trace, m + 1, n) =~= Seq::<(Request, Reply)>::empty());
        assert(query_run(host_part(trace, m + 1, n)) == Some(QueryNext::Ask(Query::Reading)));
    } else {
        assert(before[m] == trace[m]);
        lemma_targets(global, app, supported, before, m, conf);
        let part = host_part(trace, m + 1, n);
        assert(part.drop_last() =~= host_part(before, m + 1, n - 1));
        assert(part.last() == (trace.last().0->Host_0, trace.last().1->Host_0));
        assert(trace[n - 1] == trace.last());
        if host_only(trace, m + 1) {
            assert forall|i: int| m + 1 <= i < before.len() implies (#[trigger] before[i]).0
                is Host by {
                assert(before[i] == trace[i]);
            }
        }
    }
}

/// Whether only the host was asked from `a` on.
pub open spec fn host_only(trace: LogTrace, a: int) -> bool {
    forall|i: int| a <= i < trace.len() ==> (#[trigger] trace[i]).0 is Host
}

/// Where the settings ask for a suspension it is looked at what runs. Then the rotation of
/// the standard output begins, by the settings, and with the group of an application that
/// runs; whatever else was seen, no group is frozen.
pub proof fn the_group_that_runs_is_frozen(
    global: GlobalConfig,
    app: AppSpec,
    supported: bool,
    trace: LogTrace,
    m: int,
    conf: Option<LogOverrides>,
)
    requires
        logs_run(global, app, supported, trace) is Some,
        suspends_from(global, app, trace, m, conf),
        host_only(trace, m + 1),
    ensures
        ({
            let next = logs_run(global, app, supported, trace)->0;
            match query_run(host_part(trace, m + 1, trace.len() as int)) {
                Some(Next::Ask(query)) => logs_asks(next, LogRequest::Host(query.asks())),
                Some(Next::Done(known)) => rotation_begins(
                    global,
                    app,
                    supported,
                    next,
                    conf,
                    Stream::Stdout,
                    group_seen(known),
                ),
                None => true,
            }
        }),
{
    lemma_targets(global, app, supported, trace, m, conf);
}

proof fn lemma_rotates(
    global: GlobalConfig,
    app: AppSpec,
    supported: bool,
    trace: LogTrace,
    k: int,
    conf: Option<LogOverrides>,
    stream: Stream,
    suspend: Option<i32>,
    policy: Policy,
)
    requires
        logs_run(global, app, supported, trace) is Some,
        0 <= k <= trace.len(),
        logs_run(global, app, supported, trace.take(k)) is Some,
        rotation_begins(
            global,
            app,
            supported,
            logs_run(global, app, supported, trace.take(k))->0,
            conf,
            stream,
            suspend,
        ),
        is_policy_of(policy, global, app, conf),
    ensures
        match rotate_run(policy, suspend, supported, trace.skip(k)) {
            Some(Next::Ask(rotate)) => logs_run(global, app, supported, trace) == Some(
                LogsNext::Ask(RotateLogs::Rotating { conf, stream, suspend, rotate }),
            ),
            Some(Next::Done(result)) => {
                &&& logs_note(global, app, supported, trace) == told(result)
                &&& if stream == Stream::Stdout && !same_place(
                    live_of(global, app, conf, Stream::Stdout),
                    live_of(global, app, conf, Stream::Stderr),
                ) {
                    rotation_begins(
                        global,
                        app,
                        supported,
                        logs_run(global, app, supported, trace)->0,
                        conf,
                        Stream::Stderr,
                        suspend,
                    )
                } else {
                    logs_run(global, app, supported, trace) == Some(LogsNext::Done(()))
                }
            },
            None => true,
        },
    decreases trace.len(),
{
    let part = trace.skip(k);
    every_log_setting_is_the_first_given(global, app, conf);
    if trace.len() == k {
        assert(trace.take(k) =~= trace);
        assert(part =~= Seq::<(LogRequest, LogReply)>::empty());
        let rotate = logs_run(global, app, supported, trace)->0->Ask_0->Rotating_rotate;
        assert(rotate.policy == policy);
        assert(rotate_run(policy, suspend, supported, part) == Some(
            RotateNext::Ask(Rotate::begun(policy, suspend, supported)),
        ));
    } else {
        let before = trace.drop_last();
        assert(before.take(k) =~= trace.take(k));
        lemma_rotates(global, app, supported, before, k, conf, stream, suspend, policy);
        assert(part.drop_last() =~= before.skip(k));
        assert(part.last() == trace.last());
    }
}

/// What is told of the rotation of a file: that it was rotated, or why it could not be, and
/// nothing where there was nothing to do.
pub open spec fn told(result: RotateResult) -> Option<LogNote> {
    match result {
        Ok(Some(rotated)) => Some(LogNote::Rotated(rotated)),
        Ok(None) => None,
        Err(error) => Some(LogNote::RotationFailed(error)),
    }
}

/// Each file is rotated by the settings, with the group that is to be frozen, and what came
/// of it is told. The standard error follows the standard output, whatever came of that and
/// with the same group, unless both are one file; after it the rotation is over.
pub proof fn both_files_are_rotated_alike(
    global: GlobalConfig,
    app: AppSpec,
    supported: bool,
    trace: LogTrace,
    k: int,
    conf: Option<LogOverrides>,
    stream: Stream,
    suspend: Option<i32>,
    policy: Policy,
)
    requires
        logs_run(global, app, supported, trace) is Some,
        0 <= k <= trace.len(),
        logs_run(global, app, supported, trace.take(k)) is Some,
        rotation_begins(
            global,
            app,
            supported,
            logs_run(global, app, supported, trace.take(k))->0,
            conf,
            stream,
            suspend,
        ),
        is_policy_of(policy, global, app, conf),
    ensures
        ({
            let next = logs_run(global, app, supported, trace)->0;
            match rotate_run(policy, suspend, supported, trace.skip(k)) {
                Some(Next::Ask(rotate)) => {
                    &&& logs_asks(next, rotate.asks())
                    &&& next->Ask_0.rotates(global, app) == Some(
                        live_of(global, app, conf, stream),
                    )
                },
                Some(Next::Done(result)) => {
                    &&& logs_note(global, app, supported, trace) == told(result)
                    &&& if stream == Stream::Stdout && !same_place(
                        live_of(global, app, conf, Stream::Stdout),
                        live_of(global, app, conf, Stream::Stderr),
                    ) {
                        rotation_begins(
                            global,
                            app,
                            supported,
                            next,
                            conf,
                            Stream::Stderr,
                            suspend,
                        )
                    } else {
                        next == LogsNext::Done(())
                    }
                },
                None => true,
            }
        }),
{
    every_log_setting_is_the_first_given(global, app, conf);
    lemma_rotates(global, app, supported, trace, k, conf, stream, suspend, policy);
}

/// Whether the settings were loaded in a run, and what `log.conf` overrides.
pub open spec fn conf_loaded(trace: LogTrace, conf: Option<LogOverrides>) -> bool {
    exists|m: int| #[trigger] conf_loaded_at(trace, m, conf)
}

/// Whether the settings were loaded at exchange `m`.
pub open spec fn conf_loaded_at(trace: LogTrace, m: int, conf: Option<LogOverrides>) -> bool {
    &&& 0 <= m < trace.len()
    &&& trace[m].0 == LogRequest::Host(Request::ReadLogConf)
    &&& trace[m].1 matches LogReply::Host(Reply::LogConf(file)) && log_overrides(file) == Ok::<
        Option<LogOverrides>,
        Failure,
    >(conf)
}

spec fn policy_holds(
    global: GlobalConfig,
    app: AppSpec,
    next: LogsNext,
    trace: LogTrace,
) -> bool {
    match next {
        Next::Ask(RotateLogs::Targeting { conf, .. }) => conf_loaded(trace, conf),
        Next::Ask(RotateLogs::Rotating { conf, rotate, .. }) => {
            &&& conf_loaded(trace, conf)
            &&& is_policy_of(rotate.policy, global, app, conf)
            &&& rotate.phase matches RotatePhase::Packing { n, .. } ==> rotate.policy.compression
                == CompressionMethod::Gzip && rotate.policy.compress_after < n
                <= rotate.policy.max_keep
        },
        _ => true,
    }
}

proof fn lemma_policy(global: GlobalConfig, app: AppSpec, supported: bool, trace: LogTrace)
    requires
        logs_run(global, app, supported, trace) is Some,
    ensures
        policy_holds(global, app, logs_run(global, app, supported, trace)->0, trace),
    decreases trace.len(),
{
    if trace.len() > 0 {
        let before = trace.drop_last();
        let n = trace.len() - 1;
        lemma_policy(global, app, supported, before);
        assert(trace[n] == trace.last());
        assert forall|conf: Option<LogOverrides>| conf_loaded(before, conf) implies #[trigger]
        conf_loaded(trace, conf) by {
            let m = choose|m: int| #[trigger] conf_loaded_at(before, m, conf);
            assert(before[m] == trace[m]);
            assert(conf_loaded_at(trace, m, conf));
        }
        let logs = logs_run(global, app, supported, before)->0->Ask_0;
        match logs {
            RotateLogs::LogConf => {
                if let LogReply::Host(Reply::LogConf(file)) = trace.last().1 {
                    if let Ok(conf) = log_overrides(file) {
                        assert(conf_loaded_at(trace, n, conf));
                        assert(conf_loaded(trace, conf));
                        every_log_setting_is_the_first_given(global, app, conf);
                    }
                }
            },
            RotateLogs::Targeting { conf, .. } => {
                assert(conf_loaded(trace, conf));
                every_log_setting_is_the_first_given(global, app, conf);
            },
            RotateLogs::Rotating { conf, .. } => {
                assert(conf_loaded(trace, conf));
                every_log_setting_is_the_first_given(global, app, conf);
            },
            _ => {},
        }
    }
}

/// A generation is compressed exactly by the settings: only where they ask for gzip, and
/// only from the one behind `compress_after` to the last that is kept.
pub proof fn logs_are_compressed_by_their_settings(
    global: GlobalConfig,
    app: AppSpec,
    supported: bool,
    trace: LogTrace,
    i: int,
    n: u32,
)
    requires
        logs_run(global, app, supported, trace) is Some,
        0 <= i < trace.len(),
        trace[i].0 == LogRequest::Compress(n),
    ensures
        exists|conf: Option<LogOverrides>| #[trigger]
            conf_loaded(trace.take(i), conf) && compression_of(global, app, conf)
                == CompressionMethod::Gzip && compress_after_of(global, app, conf) < n
                <= max_keep_of(global, app, conf),
{
    lemma_logs_step(global, app, supported, trace, i);
    lemma_policy(global, app, supported, trace.take(i));
    let logs = logs_run(global, app, supported, trace.take(i))->0->Ask_0;
    lemma_who_compresses(logs, n);
    let conf = logs->Rotating_conf;
    assert(conf_loaded(trace.take(i), conf));
}

proof fn lemma_who_compresses(logs: RotateLogs, n: u32)
    requires
        logs.asks() == LogRequest::Compress(n),
    ensures
        logs matches RotateLogs::Rotating { rotate, .. } && (rotate.phase
            matches RotatePhase::Packing { n: m, .. } && m == n),
{
}

proof fn lemma_logs_step(
    global: GlobalConfig,
    app: AppSpec,
    supported: bool,
    trace: LogTrace,
    i: int,
)
    requires
        logs_run(global, app, supported, trace) is Some,
        0 <= i < trace.len(),
    ensures
        logs_run(global, app, supported, trace.take(i)) matches Some(Next::Ask(logs)) && {
            &&& logs.asks() == trace[i].0
            &&& log_answers(trace[i].0, trace[i].1)
        },
    decreases trace.len(),
{
    if i < trace.len() - 1 {
        lemma_logs_step(global, app, supported, trace.drop_last(), i);
        assert(trace.drop_last().take(i) == trace.take(i));
        assert(trace.drop_last()[i] == trace[i]);
    } else {
        assert(trace.take(i) == trace.drop_last());
    }
}

spec fn frozen_holds(next: LogsNext, trace: LogTrace, group: i32) -> bool {
    match next {
        Next::Ask(RotateLogs::Rotating { suspend, rotate, .. }) => {
            &&& suspend == Some(group)
            &&& rotate.suspend == Some(group)
            &&& rotate.supported
            &&& rotate.policy.max_keep > 0
            &&& match rotate.phase {
                RotatePhase::Copying { copy, .. } => copy_has_frozen(copy, trace, group),
                RotatePhase::OpeningEmpty { .. } => false,
                RotatePhase::Emptying { .. } => false,
                _ => true,
            }
        },
        Next::Ask(_) => false,
        Next::Done(()) => true,
    }
}

proof fn lemma_frozen_step(
    global: GlobalConfig,
    app: AppSpec,
    logs: RotateLogs,
    trace: LogTrace,
    group: i32,
    conf: Option<LogOverrides>,
)
    requires
        trace.len() > 0,
        frozen_holds(Next::Ask(logs), trace.drop_last(), group),
        logs matches RotateLogs::Rotating { conf: c, .. } && c == conf,
        max_keep_of(global, app, conf) > 0,
        logs.asks() == trace.last().0,
        log_answers(trace.last().0, trace.last().1),
    ensures
        frozen_holds(logs.after(global, app, true, trace.last().1).next, trace, group),
        logs.after(global, app, true, trace.last().1).next matches Next::Ask(after) ==> (after
            matches RotateLogs::Rotating { conf: c, .. } && c == conf),
{
    every_log_setting_is_the_first_given(global, app, conf);
    let rotate = logs->Rotating_rotate;
    if let RotatePhase::Copying { copy, .. } = rotate.phase {
        a_copy_goes_on_frozen(copy, trace, group);
    }
}

proof fn lemma_frozen(
    global: GlobalConfig,
    app: AppSpec,
    trace: LogTrace,
    k: int,
    conf: Option<LogOverrides>,
    group: i32,
)
    requires
        logs_run(global, app, true, trace) is Some,
        0 <= k <= trace.len(),
        logs_run(global, app, true, trace.take(k)) is Some,
        rotation_begins(
            global,
            app,
            true,
            logs_run(global, app, true, trace.take(k))->0,
            conf,
            Stream::Stdout,
            Some(group),
        ),
        max_keep_of(global, app, conf) > 0,
    ensures
        frozen_holds(logs_run(global, app, true, trace)->0, trace, group),
        logs_run(global, app, true, trace)->0 matches Next::Ask(logs) ==> (logs
            matches RotateLogs::Rotating { conf: c, .. } && c == conf),
    decreases trace.len(),
{
    if trace.len() == k {
        assert(trace.take(k) =~= trace);
    } else {
        let before = trace.drop_last();
        assert(before.take(k) =~= trace.take(k));
        lemma_frozen(global, app, before, k, conf, group);
        let logs = logs_run(global, app, true, before)->0->Ask_0;
        lemma_frozen_step(global, app, logs, trace, group, conf);
    }
}

/// Where the settings ask for a suspension, something is kept and the application was seen
/// to run, no live file is truncated, that of the standard output or that of the standard
/// error, unless a freeze of the application's group was begun for that very file before.
pub proof fn no_file_is_truncated_without_a_freeze(
    global: GlobalConfig,
    app: AppSpec,
    trace: LogTrace,
    m: int,
    k: int,
    conf: Option<LogOverrides>,
    record: PidRecord,
    i: int,
)
    requires
        logs_run(global, app, true, trace) is Some,
        suspends_from(global, app, trace.take(k), m, conf),
        0 <= m < k <= i < trace.len(),
        host_only(trace.take(k), m + 1),
        query_run(host_part(trace, m + 1, k)) == Some(
            QueryNext::Done(Ok((ProcessState::Running, Some(record)))),
        ),
        max_keep_of(global, app, conf) > 0,
        trace[i].0 == LogRequest::Truncate,
    ensures
        freeze_begun(trace.take(i), record.process_group),
{
    lemma_logs_step(global, app, true, trace, k);
    let upto = trace.take(k);
    assert(host_part(upto, m + 1, k) =~= host_part(trace, m + 1, k));
    the_group_that_runs_is_frozen(global, app, true, upto, m, conf);
    lemma_logs_step(global, app, true, trace, i);
    let before = trace.take(i);
    assert(before.take(k) =~= upto);
    lemma_frozen(global, app, before, k, conf, record.process_group);
    let logs = logs_run(global, app, true, before)->0->Ask_0;
    lemma_who_truncates(logs);
}

proof fn lemma_who_truncates(logs: RotateLogs)
    requires
        logs.asks() == LogRequest::Truncate,
    ensures
        logs matches RotateLogs::Rotating { rotate, .. } && (rotate.phase is Emptying || (
        rotate.phase matches RotatePhase::Copying { copy, .. } && copy.phase is Truncating)),
{
}

} // verus!

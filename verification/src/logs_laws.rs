//! What holds of every rotation of an application's logs, and of the names of its files.

use vstd::prelude::*;
use vstd::string::*;
use vstd::utf8::*;
use crate::check::log_overrides;
use crate::config::{AppSpec, GlobalConfig};
use crate::host::{Next, Place, Reply, Request};
use crate::logs::RotateLogs;
use crate::paths::bytes_of;
use crate::rotate::{slot_suffix, LogReply, LogRequest, Slot};
use crate::rotate_laws::{log_answers, LogTrace};
use crate::suspend::{FreezeRequest, Recover};
use crate::text::{decimal, decimal_is_read_back, is_digit};

verus! {

/// Where the rotation of an application's logs stands after an exchange of requests and
/// answers, if it makes those requests and they are answered.
pub open spec fn logs_run(
    global: GlobalConfig,
    app: AppSpec,
    supported: bool,
    trace: LogTrace,
) -> Option<Next<RotateLogs, ()>>
    decreases trace.len(),
{
    if trace.len() == 0 {
        Some(Next::Ask(RotateLogs::Recovering(Recover::Reading)))
    } else {
        match logs_run(global, app, supported, trace.drop_last()) {
            Some(Next::Ask(logs)) => {
                let (request, reply) = trace.last();
                if logs.asks() == request && log_answers(request, reply) {
                    Some(logs.after(global, app, supported, reply).next)
                } else {
                    None
                }
            },
            _ => None,
        }
    }
}

proof fn lemma_logs_step(
    global: GlobalConfig,
    app: AppSpec,
    supported: bool,
    trace: LogTrace,
    i: int,
)
    requires
        logs_run(global, app, supported, trace) is Some,
        0 <= i < trace.len(),
    ensures
        logs_run(global, app, supported, trace.take(i)) matches Some(Next::Ask(logs)) && {
            &&& logs.asks() == trace[i].0
            &&& log_answers(trace[i].0, trace[i].1)
            &&& logs_run(global, app, supported, trace.take(i + 1)) == Some(
                logs.after(global, app, supported, trace[i].1).next,
            )
        },
    decreases trace.len(),
{
    if i < trace.len() - 1 {
        lemma_logs_step(global, app, supported, trace.drop_last(), i);
        assert(trace.drop_last().take(i) == trace.take(i));
        assert(trace.drop_last().take(i + 1) == trace.take(i + 1));
        assert(trace.drop_last()[i] == trace[i]);
    } else {
        assert(trace.take(i) == trace.drop_last());
        assert(trace.take(i + 1) == trace);
    }
}

proof fn lemma_only_recovers(
    global: GlobalConfig,
    app: AppSpec,
    supported: bool,
    trace: LogTrace,
)
    requires
        !app.managed,
    ensures
        logs_run(global, app, supported, trace) matches Some(Next::Ask(logs)) ==> logs
            is Recovering,
    decreases trace.len(),
{
    if trace.len() > 0 {
        lemma_only_recovers(global, app, supported, trace.drop_last());
    }
}

/// Whatever else is to be done, a rotation first looks for a group that was left
/// suspended.
pub proof fn recovery_comes_first(
    global: GlobalConfig,
    app: AppSpec,
    supported: bool,
    trace: LogTrace,
)
    requires
        logs_run(global, app, supported, trace) is Some,
        trace.len() > 0,
    ensures
        trace[0].0 == LogRequest::Freeze(FreezeRequest::ReadMarker),
{
    lemma_logs_step(global, app, supported, trace, 0);
    assert(trace.take(0) =~= Seq::<(LogRequest, LogReply)>::empty());
}

/// A rotation looks for a group that was left suspended only once, at its start: so it
/// never resumes a group that it has stopped itself before its time.
pub proof fn recovery_comes_once(
    global: GlobalConfig,
    app: AppSpec,
    supported: bool,
    trace: LogTrace,
    i: int,
)
    requires
        logs_run(global, app, supported, trace) is Some,
        0 <= i < trace.len(),
        trace[i].0 == LogRequest::Freeze(FreezeRequest::ReadMarker),
    ensures
        i == 0,
{
    lemma_logs_step(global, app, supported, trace, i);
    if i > 0 {
        lemma_reads_once(global, app, supported, trace.take(i));
    }
}

proof fn lemma_reads_once(
    global: GlobalConfig,
    app: AppSpec,
    supported: bool,
    trace: LogTrace,
)
    requires
        trace.len() > 0,
    ensures
        logs_run(global, app, supported, trace) matches Some(Next::Ask(logs)) ==> logs.asks()
            != LogRequest::Freeze(FreezeRequest::ReadMarker),
    decreases trace.len(),
{
    if trace.len() > 1 {
        lemma_reads_once(global, app, supported, trace.drop_last());
    } else {
        assert(trace.drop_last() =~= Seq::<(LogRequest, LogReply)>::empty());
    }
}

/// Logs whose settings cannot be loaded are left alone: the look at `log.conf` is the last
/// thing that happens.
pub proof fn logs_without_settings_are_left_alone(
    global: GlobalConfig,
    app: AppSpec,
    supported: bool,
    trace: LogTrace,
    i: int,
)
    requires
        logs_run(global, app, supported, trace) is Some,
        0 <= i < trace.len(),
        trace[i].0 == LogRequest::Host(Request::ReadLogConf),
        trace[i].1 matches LogReply::Host(Reply::LogConf(file)) && log_overrides(file) is Err,
    ensures
        i == trace.len() - 1,
        logs_run(global, app, supported, trace) == Some(Next::<RotateLogs, ()>::Done(())),
{
    lemma_logs_step(global, app, supported, trace, i);
    lemma_who_reads_settings(logs_run(global, app, supported, trace.take(i))->0->Ask_0);
    if i + 1 < trace.len() {
        lemma_logs_step(global, app, supported, trace, i + 1);
    }
    assert(trace.take(i + 1) =~= trace);
}

proof fn lemma_who_reads_settings(logs: RotateLogs)
    requires
        logs.asks() == LogRequest::Host(Request::ReadLogConf),
    ensures
        logs is LogConf,
{
}

/// The logs of an application that is not managed are left alone: nothing is asked but
/// what a recovery asks.
pub proof fn unmanaged_logs_are_left_alone(
    global: GlobalConfig,
    app: AppSpec,
    supported: bool,
    trace: LogTrace,
    i: int,
)
    requires
        !app.managed,
        logs_run(global, app, supported, trace) is Some,
        0 <= i < trace.len(),
    ensures
        trace[i].0 is Freeze,
{
    lemma_logs_step(global, app, supported, trace, i);
    lemma_only_recovers(global, app, supported, trace.take(i));
}

/// While the invalid marker exists, the application's logs are not rotated: the look at
/// the marker is the last thing that happens.
pub proof fn quarantined_logs_are_left_alone(
    global: GlobalConfig,
    app: AppSpec,
    supported: bool,
    trace: LogTrace,
    i: int,
)
    requires
        logs_run(global, app, supported, trace) is Some,
        0 <= i < trace.len(),
        trace[i].0 == LogRequest::Host(Request::Exists(Place::Invalid)),
        trace[i].1 == LogReply::Host(Reply::Exists(Ok(true))),
    ensures
        i == trace.len() - 1,
        logs_run(global, app, supported, trace) == Some(Next::<RotateLogs, ()>::Done(())),
{
    lemma_logs_step(global, app, supported, trace, i);
    lemma_copies_ask_no_marker(global, app, supported, trace.take(i));
    if i + 1 < trace.len() {
        lemma_logs_step(global, app, supported, trace, i + 1);
    }
    assert(trace.take(i + 1) =~= trace);
}

proof fn lemma_copies_ask_no_marker(
    global: GlobalConfig,
    app: AppSpec,
    supported: bool,
    trace: LogTrace,
)
    ensures
        logs_run(global, app, supported, trace) matches Some(Next::Ask(logs)) ==> (logs.asks()
            == LogRequest::Host(Request::Exists(Place::Invalid)) ==> logs is Marker),
{
}

proof fn lemma_decimal_is_one_to_one(n: nat, m: nat)
    requires
        decimal(n) == decimal(m),
    ensures
        n == m,
{
    decimal_is_read_back(n);
    decimal_is_read_back(m);
}

proof fn lemma_suffixes(a: Slot, b: Slot)
    requires
        slot_suffix(a) == slot_suffix(b),
    ensures
        a == b,
{
    reveal_strlit("");
    reveal_strlit(".");
    reveal_strlit(".gz");
    reveal_strlit(".gz.tmp");
    let x = slot_suffix(a);
    let y = slot_suffix(b);
    lemma_suffix_ends(a);
    lemma_suffix_ends(b);
    match (a, b) {
        (Slot::Plain(n), Slot::Plain(m)) => {
            assert(x.skip(1) =~= decimal(n as nat));
            assert(y.skip(1) =~= decimal(m as nat));
            lemma_decimal_is_one_to_one(n as nat, m as nat);
        },
        (Slot::Packed(n), Slot::Packed(m)) => {
            assert(x.subrange(1, x.len() - 3) =~= decimal(n as nat));
            assert(y.subrange(1, y.len() - 3) =~= decimal(m as nat));
            lemma_decimal_is_one_to_one(n as nat, m as nat);
        },
        (Slot::Partial(n), Slot::Partial(m)) => {
            assert(x.subrange(1, x.len() - 7) =~= decimal(n as nat));
            assert(y.subrange(1, y.len() - 7) =~= decimal(m as nat));
            lemma_decimal_is_one_to_one(n as nat, m as nat);
        },
        _ => {},
    }
}

proof fn lemma_suffix_ends(slot: Slot)
    ensures
        match slot {
            Slot::Live => slot_suffix(slot).len() == 0,
            Slot::Plain(_) => slot_suffix(slot).len() > 0 && is_digit(slot_suffix(slot).last()),
            Slot::Packed(_) => slot_suffix(slot).len() > 0 && slot_suffix(slot).last() == 'z',
            Slot::Partial(_) => slot_suffix(slot).len() > 0 && slot_suffix(slot).last() == 'p',
        },
{
    reveal_strlit("");
    reveal_strlit(".");
    reveal_strlit(".gz");
    reveal_strlit(".gz.tmp");
    match slot {
        Slot::Plain(n) => {
            decimal_is_read_back(n as nat);
            let digits = decimal(n as nat);
            assert(slot_suffix(slot).last() == digits.last());
            assert(is_digit(digits[digits.len() - 1]));
        },
        _ => {},
    }
}

/// No two files of a log have the same name.
pub proof fn log_files_have_distinct_names(live: Seq<u8>, a: Slot, b: Slot)
    requires
        live + bytes_of(slot_suffix(a)) == live + bytes_of(slot_suffix(b)),
    ensures
        a == b,
{
    let x = bytes_of(slot_suffix(a));
    let y = bytes_of(slot_suffix(b));
    assert((live + x).skip(live.len() as int) =~= x);
    assert((live + y).skip(live.len() as int) =~= y);
    encode_utf8_decode_utf8(slot_suffix(a));
    encode_utf8_decode_utf8(slot_suffix(b));
    lemma_suffixes(a, b);
}

} // verus!

//! An answer to another request changes nothing: every machine then asks the same again.

use vstd::prelude::*;
use crate::check::Check;
use crate::config::{AppSpec, GlobalConfig};
use crate::host::{Next, Reply};
use crate::logs::RotateLogs;
use crate::process::{Exec, Gone, Query, Wait};
use crate::rotate::{CopyTruncate, LogReply, Rotate};
use crate::rotate_laws::{freeze_answers, log_answers};
use crate::start::{Quarantine, Start};
use crate::stop::Stop;
use crate::suspend::{Freeze, FreezeReply, Recover, Thaw};
use crate::trace::answers;

verus! {

/// Whether a machine stays in its state.
pub open spec fn stays<S, D>(next: Next<S, D>, state: S) -> bool {
    next matches Next::Ask(same) && same == state
}

/// A wait, a command, a wait for an application to go, and a look at its state stay where
/// they are when the answer is to another request.
pub proof fn processes_wait_for_their_answer(
    wait: Wait,
    exec: Exec,
    gone: Gone,
    query: Query,
    reply: Reply,
)
    ensures
        !answers(wait.asks(), reply) ==> stays(wait.after(reply), wait),
        !answers(exec.asks(), reply) ==> stays(exec.after(reply), exec),
        !answers(gone.asks(), reply) ==> stays(gone.after(reply), gone),
        !answers(query.asks(), reply) ==> stays(query.after(reply), query),
{
}

/// So does a stop, which tells nothing.
pub proof fn a_stop_waits_for_its_answer(app: AppSpec, stop: Stop, reply: Reply)
    requires
        !answers(stop.asks(), reply),
    ensures
        stays(stop.after(app, reply).next, stop),
        stop.after(app, reply).note is None,
{
}

/// So do a quarantine and a start, which tell nothing.
pub proof fn a_start_waits_for_its_answer(
    app: AppSpec,
    quarantine: Quarantine,
    start: Start,
    reply: Reply,
)
    ensures
        !answers(quarantine.asks(), reply) ==> {
            &&& stays(quarantine.after(reply).next, quarantine)
            &&& quarantine.after(reply).note is None
        },
        !answers(start.asks(), reply) ==> {
            &&& stays(start.after(app, reply).next, start)
            &&& start.after(app, reply).note is None
        },
{
}

/// So does a check, which tells nothing.
pub proof fn a_check_waits_for_its_answer(app: AppSpec, check: Check, reply: Reply)
    requires
        !answers(check.asks(), reply),
    ensures
        stays(check.after(app, reply).next, check),
        check.after(app, reply).note is None,
{
    match check {
        Check::Stopping(stop) => a_stop_waits_for_its_answer(app, stop, reply),
        Check::Unhealthy { stop, .. } => a_stop_waits_for_its_answer(app, stop, reply),
        Check::Starting { start, .. } => {
            a_start_waits_for_its_answer(
                app,
                Quarantine::Looking(crate::report::Cause::OrphanedProcessGroup { pid: 1 }),
                start,
                reply,
            );
        },
        _ => {},
    }
}

/// So do a freeze, a thaw and a recovery.
pub proof fn a_freeze_waits_for_its_answer(
    freeze: Freeze,
    thaw: Thaw,
    recover: Recover,
    group: i32,
    reply: FreezeReply,
)
    ensures
        !freeze_answers(freeze.asks(group), reply) ==> stays(freeze.after(reply), freeze),
        !freeze_answers(thaw.asks(group), reply) ==> stays(thaw.after(reply), thaw),
        !freeze_answers(recover.asks(), reply) ==> stays(recover.after(reply), recover),
{
}

/// So do a copy and a rotation.
pub proof fn a_rotation_waits_for_its_answer(copy: CopyTruncate, rotate: Rotate, reply: LogReply)
    ensures
        !log_answers(copy.asks(), reply) ==> stays(copy.after(reply), copy),
        !log_answers(rotate.asks(), reply) ==> stays(rotate.after(reply), rotate),
{
}

/// So does the rotation of an application's logs, which tells nothing.
pub proof fn a_rotation_of_logs_waits_for_its_answer(
    global: GlobalConfig,
    app: AppSpec,
    supported: bool,
    logs: RotateLogs,
    reply: LogReply,
)
    requires
        !log_answers(logs.asks(), reply),
    ensures
        stays(logs.after(global, app, supported, reply).next, logs),
        logs.after(global, app, supported, reply).note is None,
{
}

} // verus!

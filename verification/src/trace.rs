//! Runs of a procedure: what it asked, and what it was answered.

use vstd::prelude::*;
use crate::host::{KillReply, Refusal, Reply, Request, Signal, Target};

verus! {

/// Whether a reply is of the kind that a request calls for.
pub open spec fn answers(request: Request, reply: Reply) -> bool {
    match request {
        Request::Exists(_) => reply is Exists,
        Request::InspectStart => reply is Metadata,
        Request::ReadLogConf => reply is LogConf,
        Request::ReadPidFile => reply is PidFile,
        Request::ReadSignalFile => reply is SignalFile,
        Request::RemovePidFile => reply is Removed,
        Request::Kill { .. } => reply is Killed,
        Request::OpenOutputs => reply is Opened,
        Request::SpawnApp => reply is Spawned,
        Request::SpawnShell(_) => reply is Spawned,
        Request::WritePidRecord(_) => reply is Written,
        Request::ArmDeadline { .. } => reply is Armed,
        Request::PollChild => reply is Child,
        Request::CheckDeadline => reply is Expired,
        Request::Sleep { .. } => reply is Slept,
        Request::ReapChild => reply is Reaped,
        Request::MeasureStartup => reply is Startup,
        Request::MarkInvalid => reply is Marked,
    }
}

/// What was asked and answered, in order.
pub type Trace = Seq<(Request, Reply)>;

/// Whether a request was made.
pub open spec fn asked(trace: Trace, request: Request) -> bool {
    exists|i: int| 0 <= i < trace.len() && (#[trigger] trace[i]).0 == request
}

/// The request that asks whether a process or a group is there.
pub open spec fn look_for(target: Target) -> Request {
    Request::Kill { target, signal: Signal::Probe }
}

/// What a null signal shows: that its target is there, which it is as well where it may
/// not be signalled, that it is not, or, where anything else went wrong, nothing.
pub open spec fn presence(reply: Reply) -> Option<bool> {
    match reply {
        Reply::Killed(KillReply::Delivered) => Some(true),
        Reply::Killed(KillReply::Refused { refusal: Refusal::NotPermitted, .. }) => Some(true),
        Reply::Killed(KillReply::Refused { refusal: Refusal::NoSuchProcess, .. }) => Some(false),
        _ => None,
    }
}

} // verus!

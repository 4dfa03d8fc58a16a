//! What holds of every rotation.

use vstd::prelude::*;
use vstd::string::*;
use crate::host::{
    KillReply, Next, Refusal, Reply, Request, Signal, Target, TextFile,
};
use crate::rotate::{
    CopyPhase, CopyTruncate, LogReply, LogRequest, Policy, Rotate, RotatePhase, RotateResult,
};
use crate::suspend::{
    group_signal, marker_is_read_back, marker_line, stop_deadline, Freeze, FreezeReply, FreezeRequest,
    FreezeResult, Frozen, Recover, RecoverResult, Thaw,
};
use crate::trace::answers;

verus! {

/// Whether a reply is of the kind that a request calls for.
pub open spec fn freeze_answers(request: FreezeRequest, reply: FreezeReply) -> bool {
    match request {
        FreezeRequest::Host(request) => reply matches FreezeReply::Host(reply) && answers(
            request,
            reply,
        ),
        FreezeRequest::WriteMarker(_) => reply is Done,
        FreezeRequest::ReadMarker => reply is Marker,
        FreezeRequest::RemoveMarker => reply is Done,
        FreezeRequest::BlockSignals => reply is Masked,
        FreezeRequest::RestoreSignals => reply is Masked,
        FreezeRequest::ReadClock => reply is Clock,
        FreezeRequest::ScanGroup(_) => reply is Scanned,
    }
}

/// Whether a reply is of the kind that a request calls for.
pub open spec fn log_answers(request: LogRequest, reply: LogReply) -> bool {
    match request {
        LogRequest::Host(request) => reply matches LogReply::Host(reply) && answers(request, reply),
        LogRequest::Freeze(request) => reply matches LogReply::Freeze(reply) && freeze_answers(
            request,
            reply,
        ),
        LogRequest::Exists(_) => reply is Found,
        LogRequest::Measure => reply is Size,
        LogRequest::ListGenerations => reply is Listed,
        _ => reply is Done,
    }
}

/// What was asked and answered, in order.
pub type LogTrace = Seq<(LogRequest, LogReply)>;

/// Where a rotation stands after an exchange of requests and answers, if it makes
/// those requests and they are answered.
pub open spec fn rotate_run(
    policy: Policy,
    suspend: Option<i32>,
    supported: bool,
    trace: LogTrace,
) -> Option<Next<Rotate, RotateResult>>
    decreases trace.len(),
{
    if trace.len() == 0 {
        Some(Next::Ask(Rotate::begun(policy, suspend, supported)))
    } else {
        match rotate_run(policy, suspend, supported, trace.drop_last()) {
            Some(Next::Ask(rotate)) => {
                let (request, reply) = trace.last();
                if rotate.asks() == request && log_answers(request, reply) {
                    Some(rotate.after(reply))
                } else {
                    None
                }
            },
            _ => None,
        }
    }
}

/// What a rotation holds back: the group that was told to stop and not yet to go on,
/// the group that the marker names, and the guard's own signals.
pub struct Hold {
    pub stopped: Option<i32>,
    pub marker: Option<i32>,
    pub blocked: bool,
}

/// Nothing is held back.
pub open spec fn nothing_held() -> Hold {
    Hold { stopped: None, marker: None, blocked: false }
}

/// What is held back after one more exchange.
pub open spec fn held_after(hold: Hold, request: LogRequest, reply: LogReply) -> Hold {
    match (request, reply) {
        (
            LogRequest::Freeze(
                FreezeRequest::Host(
                    Request::Kill { target: Target::Group(group), signal: Signal::Freeze },
                ),
            ),
            _,
        ) => Hold { stopped: Some(group), ..hold },
        (
            LogRequest::Freeze(
                FreezeRequest::Host(
                    Request::Kill { target: Target::Group(group), signal: Signal::Resume },
                ),
            ),
            _,
        ) => if hold.stopped == Some(group) {
            Hold { stopped: None, ..hold }
        } else {
            hold
        },
        (
            LogRequest::Freeze(FreezeRequest::WriteMarker(group)),
            LogReply::Freeze(FreezeReply::Done(Ok(()))),
        ) => Hold { marker: Some(group), ..hold },
        (LogRequest::Freeze(FreezeRequest::RemoveMarker), _) => Hold { marker: None, ..hold },
        (LogRequest::Freeze(FreezeRequest::BlockSignals), _) => Hold { blocked: true, ..hold },
        (LogRequest::Freeze(FreezeRequest::RestoreSignals), _) => Hold { blocked: false, ..hold },
        _ => hold,
    }
}

/// What is held back after an exchange of requests and answers.
pub open spec fn held(trace: LogTrace) -> Hold
    decreases trace.len(),
{
    if trace.len() == 0 {
        nothing_held()
    } else {
        held_after(held(trace.drop_last()), trace.last().0, trace.last().1)
    }
}

spec fn full_hold(group: i32) -> Hold {
    Hold { stopped: Some(group), marker: Some(group), blocked: true }
}

spec fn thaw_hold(thaw: Thaw, group: i32) -> Hold {
    match thaw {
        Thaw::Resuming => full_hold(group),
        Thaw::RemovingMarker => Hold { stopped: None, marker: Some(group), blocked: true },
        Thaw::Restoring => Hold { stopped: None, marker: None, blocked: true },
    }
}

spec fn freeze_hold(freeze: Freeze, group: i32) -> Hold {
    match freeze {
        Freeze::Marking => nothing_held(),
        Freeze::Blocking => Hold { stopped: None, marker: Some(group), blocked: false },
        Freeze::Stamping => Hold { stopped: None, marker: Some(group), blocked: true },
        Freeze::Stopping { .. } => Hold { stopped: None, marker: Some(group), blocked: true },
        Freeze::Arming { .. } => full_hold(group),
        Freeze::Scanning { .. } => full_hold(group),
        Freeze::Deciding { .. } => full_hold(group),
        Freeze::Pausing { .. } => full_hold(group),
        Freeze::Thawing { thaw, .. } => thaw_hold(thaw, group),
    }
}

spec fn frozen_hold(frozen: Option<Frozen>, group: i32) -> Hold {
    if frozen is Some {
        full_hold(group)
    } else {
        nothing_held()
    }
}

spec fn copy_hold(copy: CopyTruncate) -> Hold {
    let group = copy.group();
    match copy.phase {
        CopyPhase::Freezing(freeze) => freeze_hold(freeze, group),
        CopyPhase::Tail { frozen, .. } => frozen_hold(frozen, group),
        CopyPhase::Truncating { frozen } => frozen_hold(frozen, group),
        CopyPhase::Timing(_) => full_hold(group),
        CopyPhase::Thawing { thaw, .. } => thaw_hold(thaw, group),
        _ => nothing_held(),
    }
}

spec fn rotate_hold(next: Next<Rotate, RotateResult>) -> Hold {
    match next {
        Next::Ask(Rotate { phase: RotatePhase::Copying { copy, .. }, .. }) => copy_hold(copy),
        _ => nothing_held(),
    }
}

proof fn lemma_thaw_holds(thaw: Thaw, group: i32, hold: Hold, reply: FreezeReply)
    requires
        hold == thaw_hold(thaw, group),
        freeze_answers(thaw.asks(group), reply),
    ensures
        held_after(hold, LogRequest::Freeze(thaw.asks(group)), LogReply::Freeze(reply))
            == match thaw.after(reply) {
            Next::Ask(thaw) => thaw_hold(thaw, group),
            Next::Done(()) => nothing_held(),
        },
{
}

spec fn freeze_ends_well(freeze: Freeze) -> bool {
    !(freeze matches Freeze::Thawing { end: Ok(Some(_)), .. })
}

proof fn lemma_freeze_holds(freeze: Freeze, group: i32, hold: Hold, reply: FreezeReply)
    requires
        hold == freeze_hold(freeze, group),
        freeze_ends_well(freeze),
        freeze_answers(freeze.asks(group), reply),
    ensures
        held_after(hold, LogRequest::Freeze(freeze.asks(group)), LogReply::Freeze(reply))
            == match freeze.after(reply) {
            Next::Ask(freeze) => freeze_hold(freeze, group),
            Next::Done(Ok(frozen)) => frozen_hold(frozen, group),
            Next::Done(Err(_)) => nothing_held(),
        },
{
    match freeze {
        Freeze::Thawing { thaw, .. } => {
            lemma_thaw_holds(thaw, group, hold, reply);
        },
        Freeze::Marking => {
            if let FreezeReply::Done(Ok(done)) = reply {
                assert(done == ());
            }
        },
        _ => {},
    }
}

spec fn copy_is_sound(copy: CopyTruncate) -> bool {
    copy.phase matches CopyPhase::Freezing(freeze) ==> freeze_ends_well(freeze)
}

proof fn lemma_copy_holds(copy: CopyTruncate, hold: Hold, reply: LogReply)
    requires
        hold == copy_hold(copy),
        copy_is_sound(copy),
        log_answers(copy.asks(), reply),
    ensures
        held_after(hold, copy.asks(), reply) == match copy.after(reply) {
            Next::Ask(copy) => copy_hold(copy),
            Next::Done(_) => nothing_held(),
        },
        copy.after(reply) matches Next::Ask(after) ==> copy_is_sound(after),
{
    match copy.phase {
        CopyPhase::Freezing(freeze) => {
            lemma_freeze_holds(freeze, copy.group(), hold, reply->Freeze_0);
        },
        CopyPhase::Thawing { thaw, .. } => {
            lemma_thaw_holds(thaw, copy.group(), hold, reply->Freeze_0);
        },
        _ => {},
    }
}

spec fn rotate_is_sound(next: Next<Rotate, RotateResult>) -> bool {
    next matches Next::Ask(Rotate { phase: RotatePhase::Copying { copy, .. }, .. })
        ==> copy_is_sound(copy)
}

proof fn lemma_held(policy: Policy, suspend: Option<i32>, supported: bool, trace: LogTrace)
    requires
        rotate_run(policy, suspend, supported, trace) is Some,
    ensures
        held(trace) == rotate_hold(rotate_run(policy, suspend, supported, trace)->0),
        rotate_is_sound(rotate_run(policy, suspend, supported, trace)->0),
    decreases trace.len(),
{
    if trace.len() > 0 {
        let before = trace.drop_last();
        lemma_held(policy, suspend, supported, before);
        let rotate = rotate_run(policy, suspend, supported, before)->0->Ask_0;
        let (request, reply) = trace.last();
        match rotate.phase {
            RotatePhase::Copying { copy, .. } => {
                lemma_copy_holds(copy, held(before), reply);
            },
            _ => {},
        }
    }
}

/// Wherever a rotation is cut off: while a group is stopped, the marker names it and
/// the guard's own signals are blocked. So a guard that dies leaves behind what the
/// next one needs to resume the group.
pub proof fn a_stopped_group_is_always_named(
    policy: Policy,
    suspend: Option<i32>,
    supported: bool,
    trace: LogTrace,
)
    requires
        rotate_run(policy, suspend, supported, trace) is Some,
        held(trace).stopped is Some,
    ensures
        held(trace).marker == held(trace).stopped,
        held(trace).blocked,
{
    lemma_held(policy, suspend, supported, trace);
}

/// However a rotation ends, with success or an error: no group is left stopped, no
/// marker is left behind, and no signal stays blocked.
pub proof fn nothing_stays_frozen(
    policy: Policy,
    suspend: Option<i32>,
    supported: bool,
    trace: LogTrace,
    result: RotateResult,
)
    requires
        rotate_run(policy, suspend, supported, trace) == Some(
            Next::<Rotate, RotateResult>::Done(result),
        ),
    ensures
        held(trace) == nothing_held(),
{
    lemma_held(policy, suspend, supported, trace);
}

/// Where a freeze stands after an exchange of requests and answers, if it makes those
/// requests and they are answered.
pub open spec fn freeze_run(
    group: i32,
    supported: bool,
    trace: Seq<(FreezeRequest, FreezeReply)>,
) -> Option<Next<Freeze, FreezeResult>>
    decreases trace.len(),
{
    if trace.len() == 0 {
        Some(Freeze::begun(supported))
    } else {
        match freeze_run(group, supported, trace.drop_last()) {
            Some(Next::Ask(freeze)) => {
                let (request, reply) = trace.last();
                if freeze.asks(group) == request && freeze_answers(request, reply) {
                    Some(freeze.after(reply))
                } else {
                    None
                }
            },
            _ => None,
        }
    }
}

/// Whether the group was told to stop.
pub open spec fn told_to_stop(trace: Seq<(FreezeRequest, FreezeReply)>, group: i32) -> bool {
    exists|i: int|
        0 <= i < trace.len() && (#[trigger] trace[i]).0 == group_signal(group, Signal::Freeze)
}

/// Whether the last three requests resume the group, remove the marker, and let signals
/// through again.
pub open spec fn ends_thawed(trace: Seq<(FreezeRequest, FreezeReply)>, group: i32) -> bool {
    let n = trace.len() as int;
    &&& n >= 3
    &&& trace[n - 3].0 == group_signal(group, Signal::Resume)
    &&& trace[n - 2].0 == FreezeRequest::RemoveMarker
    &&& trace[n - 1].0 == FreezeRequest::RestoreSignals
}

spec fn freeze_known(
    next: Next<Freeze, FreezeResult>,
    trace: Seq<(FreezeRequest, FreezeReply)>,
    group: i32,
) -> bool {
    let n = trace.len() as int;
    match next {
        Next::Ask(freeze) => match freeze {
            Freeze::Marking => !told_to_stop(trace, group),
            Freeze::Blocking => !told_to_stop(trace, group),
            Freeze::Stamping => !told_to_stop(trace, group),
            Freeze::Stopping { .. } => !told_to_stop(trace, group),
            Freeze::Thawing { thaw, end } => {
                &&& !(end matches Ok(Some(_)))
                &&& match thaw {
                    Thaw::Resuming => true,
                    Thaw::RemovingMarker => n >= 1 && trace[n - 1].0 == group_signal(
                        group,
                        Signal::Resume,
                    ),
                    Thaw::Restoring => {
                        &&& n >= 2
                        &&& trace[n - 2].0 == group_signal(group, Signal::Resume)
                        &&& trace[n - 1].0 == FreezeRequest::RemoveMarker
                    },
                }
            },
            _ => told_to_stop(trace, group),
        },
        Next::Done(Ok(Some(_))) => {
            &&& n >= 1
            &&& trace[n - 1] == (
                FreezeRequest::ScanGroup(group),
                FreezeReply::Scanned(Ok(true)),
            )
            &&& told_to_stop(trace, group)
        },
        Next::Done(_) => told_to_stop(trace, group) ==> ends_thawed(trace, group),
    }
}

proof fn lemma_freeze_known(
    group: i32,
    supported: bool,
    trace: Seq<(FreezeRequest, FreezeReply)>,
)
    requires
        freeze_run(group, supported, trace) is Some,
    ensures
        freeze_known(freeze_run(group, supported, trace)->0, trace, group),
    decreases trace.len(),
{
    if trace.len() > 0 {
        let before = trace.drop_last();
        let n = trace.len() as int;
        lemma_freeze_known(group, supported, before);
        assert(trace[n - 1] == trace.last());
        assert(forall|i: int| 0 <= i < n - 1 ==> #[trigger] before[i] == trace[i]);
        let stop = group_signal(group, Signal::Freeze);
        if told_to_stop(before, group) {
            let i = choose|i: int| 0 <= i < before.len() && (#[trigger] before[i]).0 == stop;
            assert(trace[i].0 == stop);
        }
        if told_to_stop(trace, group) && trace.last().0 != stop {
            let i = choose|i: int| 0 <= i < trace.len() && (#[trigger] trace[i]).0 == stop;
            assert(before[i].0 == stop);
        }
    }
}

/// A group counts as frozen only when it was told to stop and the last look at it
/// confirmed that all of it has stopped.
pub proof fn frozen_means_confirmed(
    group: i32,
    supported: bool,
    trace: Seq<(FreezeRequest, FreezeReply)>,
    frozen: Frozen,
)
    requires
        freeze_run(group, supported, trace) == Some(
            Next::<Freeze, FreezeResult>::Done(Ok(Some(frozen))),
        ),
    ensures
        trace.len() > 0,
        trace.last() == (FreezeRequest::ScanGroup(group), FreezeReply::Scanned(Ok(true))),
        told_to_stop(trace, group),
{
    lemma_freeze_known(group, supported, trace);
}

/// A freeze that does not leave the group frozen, because it could not be confirmed in
/// time or something went wrong, ends by resuming every group that it told to stop,
/// removing the marker, and letting signals through.
pub proof fn an_unconfirmed_freeze_is_undone(
    group: i32,
    supported: bool,
    trace: Seq<(FreezeRequest, FreezeReply)>,
    result: FreezeResult,
)
    requires
        freeze_run(group, supported, trace) == Some(Next::<Freeze, FreezeResult>::Done(result)),
        !(result matches Ok(Some(_))),
        told_to_stop(trace, group),
    ensures
        ends_thawed(trace, group),
{
    lemma_freeze_known(group, supported, trace);
}

/// Whether the clock showed `time`.
pub open spec fn clock_showed(
    trace: Seq<(FreezeRequest, FreezeReply)>,
    i: int,
    time: u64,
) -> bool {
    &&& 0 <= i < trace.len()
    &&& trace[i] == (FreezeRequest::ReadClock, FreezeReply::Clock(time))
}

/// Whether the group was told to stop and there was none.
pub open spec fn group_was_missing(trace: Seq<(FreezeRequest, FreezeReply)>, i: int, group: i32) -> bool {
    &&& 0 <= i < trace.len()
    &&& trace[i].0 == group_signal(group, Signal::Freeze)
    &&& trace[i].1 matches FreezeReply::Host(
        Reply::Killed(KillReply::Refused { refusal: Refusal::NoSuchProcess, .. }),
    )
}

/// Whether the clock showed that the time to stop was over.
pub open spec fn time_was_over(trace: Seq<(FreezeRequest, FreezeReply)>, i: int, j: int) -> bool {
    exists|then: u64, now: u64| #[trigger]
        clock_showed(trace, i, then) && #[trigger] clock_showed(trace, j, now) && i < j && now
            >= stop_deadline(then)
}

spec fn gave_up(trace: Seq<(FreezeRequest, FreezeReply)>, group: i32) -> bool {
    ||| exists|i: int| #[trigger] group_was_missing(trace, i, group)
    ||| exists|i: int, j: int| #[trigger] time_was_over(trace, i, j)
}

spec fn armed(trace: Seq<(FreezeRequest, FreezeReply)>, deadline: u64) -> bool {
    exists|i: int, then: u64| #[trigger]
        clock_showed(trace, i, then) && deadline == stop_deadline(then)
}

spec fn freeze_timed(
    next: Next<Freeze, FreezeResult>,
    trace: Seq<(FreezeRequest, FreezeReply)>,
    group: i32,
    supported: bool,
) -> bool {
    match next {
        Next::Ask(Freeze::Scanning { deadline, .. }) => armed(trace, deadline),
        Next::Ask(Freeze::Deciding { deadline, .. }) => armed(trace, deadline),
        Next::Ask(Freeze::Pausing { deadline, .. }) => armed(trace, deadline),
        Next::Ask(Freeze::Thawing { end: Ok(None), .. }) => gave_up(trace, group),
        Next::Done(Ok(None)) => supported ==> gave_up(trace, group),
        _ => true,
    }
}

proof fn lemma_timing_grows(trace: Seq<(FreezeRequest, FreezeReply)>, group: i32)
    requires
        trace.len() > 0,
    ensures
        gave_up(trace.drop_last(), group) ==> gave_up(trace, group),
        forall|deadline: u64|
            armed(trace.drop_last(), deadline) ==> #[trigger] armed(trace, deadline),
{
    let before = trace.drop_last();
    assert(forall|i: int| 0 <= i < before.len() ==> #[trigger] before[i] == trace[i]);
    if gave_up(before, group) {
        if exists|i: int| #[trigger] group_was_missing(before, i, group) {
            let i = choose|i: int| #[trigger] group_was_missing(before, i, group);
            assert(group_was_missing(trace, i, group));
        } else {
            let (i, j) = choose|i: int, j: int| #[trigger] time_was_over(before, i, j);
            let (then, now) = choose|then: u64, now: u64| #[trigger]
                clock_showed(before, i, then) && #[trigger] clock_showed(before, j, now) && i < j
                    && now >= stop_deadline(then);
            assert(clock_showed(trace, i, then));
            assert(clock_showed(trace, j, now));
            assert(time_was_over(trace, i, j));
        }
    }
    assert forall|deadline: u64| armed(before, deadline) implies #[trigger] armed(
        trace,
        deadline,
    ) by {
        let (i, then) = choose|i: int, then: u64| #[trigger]
            clock_showed(before, i, then) && deadline == stop_deadline(then);
        assert(clock_showed(trace, i, then));
    }
}

proof fn lemma_freeze_timed(
    group: i32,
    supported: bool,
    trace: Seq<(FreezeRequest, FreezeReply)>,
)
    requires
        freeze_run(group, supported, trace) is Some,
    ensures
        freeze_timed(freeze_run(group, supported, trace)->0, trace, group, supported),
    decreases trace.len(),
{
    if trace.len() > 0 {
        let before = trace.drop_last();
        let n = trace.len() - 1;
        lemma_freeze_timed(group, supported, before);
        lemma_timing_grows(trace, group);
        assert(trace[n] == trace.last());
        assert(forall|i: int| 0 <= i < n ==> #[trigger] before[i] == trace[i]);
        let freeze = freeze_run(group, supported, before)->0->Ask_0;
        let reply = trace.last().1;
        match freeze {
            Freeze::Stopping { .. } => {
                if let FreezeReply::Host(
                    Reply::Killed(KillReply::Refused { refusal: Refusal::NoSuchProcess, .. }),
                ) = reply {
                    assert(group_was_missing(trace, n, group));
                }
            },
            Freeze::Arming { .. } => {
                let then = reply->Clock_0;
                assert(clock_showed(trace, n, then));
                assert(armed(trace, stop_deadline(then)));
            },
            Freeze::Scanning { deadline, .. } => {
                assert(armed(trace, deadline));
            },
            Freeze::Deciding { deadline, .. } => {
                assert(armed(trace, deadline));
                let now = reply->Clock_0;
                assert(clock_showed(trace, n, now));
                if now >= deadline {
                    let (i, then) = choose|i: int, then: u64| #[trigger]
                        clock_showed(before, i, then) && deadline == stop_deadline(then);
                    assert(clock_showed(trace, i, then));
                    assert(time_was_over(trace, i, n));
                }
            },
            Freeze::Pausing { deadline, .. } => {
                assert(armed(trace, deadline));
            },
            _ => {},
        }
    }
}

/// Where it is supported, a freeze is given up without an error only where there is no
/// such group, or where the group has not been seen to stop in the time that it gets.
pub proof fn a_group_gets_its_time_to_stop(
    group: i32,
    trace: Seq<(FreezeRequest, FreezeReply)>,
)
    requires
        freeze_run(group, true, trace) == Some(Next::<Freeze, FreezeResult>::Done(Ok(None))),
    ensures
        (exists|i: int| #[trigger] group_was_missing(trace, i, group)) || (exists|i: int, j: int|
         #[trigger]
            time_was_over(trace, i, j)),
{
    lemma_freeze_timed(group, true, trace);
}

/// Where a recovery stands after an exchange of requests and answers.
pub open spec fn recover_run(trace: Seq<(FreezeRequest, FreezeReply)>) -> Option<
    Next<Recover, RecoverResult>,
>
    decreases trace.len(),
{
    if trace.len() == 0 {
        Some(Next::Ask(Recover::Reading))
    } else {
        match recover_run(trace.drop_last()) {
            Some(Next::Ask(recover)) => {
                let (request, reply) = trace.last();
                if recover.asks() == request && freeze_answers(request, reply) {
                    Some(recover.after(reply))
                } else {
                    None
                }
            },
            _ => None,
        }
    }
}

/// The marker that a guard wrote before it stopped a group makes the next guard resume
/// that group, remove the marker, and say which group it was.
pub proof fn a_group_left_stopped_is_resumed(
    group: i32,
    text: String,
    trace: Seq<(FreezeRequest, FreezeReply)>,
)
    requires
        group > 1,
        text@ == marker_line(group),
        recover_run(trace) is Some,
        trace.len() == 3,
        trace[0].1 == FreezeReply::Marker(TextFile::Text(text)),
    ensures
        trace[0].0 == FreezeRequest::ReadMarker,
        trace[1].0 == group_signal(group, Signal::Resume),
        trace[2].0 == FreezeRequest::RemoveMarker,
        trace[2].1 matches FreezeReply::Done(Ok(_)) ==> recover_run(trace) == Some(
            Next::<Recover, RecoverResult>::Done(Ok(Some(group))),
        ),
{
    marker_is_read_back(group);
    let two = trace.drop_last();
    let one = two.drop_last();
    assert(one.drop_last() =~= Seq::<(FreezeRequest, FreezeReply)>::empty());
    assert(recover_run(one.drop_last()) == Some(
        Next::<Recover, RecoverResult>::Ask(Recover::Reading),
    ));
    assert(one.last() == trace[0]);
    assert(two.last() == trace[1]);
    assert(trace.last() == trace[2]);
    assert(recover_run(one) == Some(
        Next::<Recover, RecoverResult>::Ask(Recover::Resuming { group }),
    ));
    assert(recover_run(two) == Some(
        Next::<Recover, RecoverResult>::Ask(Recover::Removing { resumed: Some(group) }),
    ));
}

} // verus!

//! The course that a freeze, a thaw and a recovery take.

use vstd::prelude::*;
use crate::host::{KillReply, Next, Refusal, Reply, Request, Signal, Target, TextFile};
use crate::rotate_laws::{freeze_answers, freeze_run, recover_run};
use crate::suspend::{
    marked_group, Freeze, FreezeReply, FreezeRequest, FreezeResult, Recover, RecoverResult, Thaw,
};

verus! {

pub type FreezeTrace = Seq<(FreezeRequest, FreezeReply)>;

pub type FreezeNext = Next<Freeze, FreezeResult>;

pub type RecoverNext = Next<Recover, RecoverResult>;

/// The request that stops a whole group.
pub open spec fn stop_of(group: i32) -> FreezeRequest {
    FreezeRequest::Host(Request::Kill { target: Target::Group(group), signal: Signal::Freeze })
}

/// The request that lets a whole group go on.
pub open spec fn resume_of(group: i32) -> FreezeRequest {
    FreezeRequest::Host(Request::Kill { target: Target::Group(group), signal: Signal::Resume })
}

/// Where a thaw stands after an exchange of requests and answers, if it makes those
/// requests and they are answered.
pub open spec fn thaw_run(group: i32, trace: FreezeTrace) -> Option<Next<Thaw, ()>>
    decreases trace.len(),
{
    if trace.len() == 0 {
        Some(Next::Ask(Thaw::Resuming))
    } else {
        match thaw_run(group, trace.drop_last()) {
            Some(Next::Ask(thaw)) => {
                let (request, reply) = trace.last();
                if thaw.asks(group) == request && freeze_answers(request, reply) {
                    Some(thaw.after(reply))
                } else {
                    None
                }
            },
            _ => None,
        }
    }
}

/// A thaw lets the group go on, removes the marker and lets signals through, in this order
/// and whatever is answered.
pub proof fn a_thaw_resumes_the_group(group: i32, trace: FreezeTrace)
    requires
        thaw_run(group, trace) is Some,
    ensures
        trace.len() <= 3,
        match thaw_run(group, trace)->0 {
            Next::Ask(thaw) => thaw.asks(group) == if trace.len() == 0 {
                resume_of(group)
            } else if trace.len() == 1 {
                FreezeRequest::RemoveMarker
            } else {
                FreezeRequest::RestoreSignals
            } && trace.len() < 3,
            Next::Done(()) => trace.len() == 3,
        },
    decreases trace.len(),
{
    lemma_thaw(group, trace);
}

proof fn lemma_thaw(group: i32, trace: FreezeTrace)
    requires
        thaw_run(group, trace) is Some,
    ensures
        match thaw_run(group, trace)->0 {
            Next::Ask(Thaw::Resuming) => trace.len() == 0,
            Next::Ask(Thaw::RemovingMarker) => trace.len() == 1,
            Next::Ask(Thaw::Restoring) => trace.len() == 2,
            Next::Done(()) => trace.len() == 3,
        },
    decreases trace.len(),
{
    if trace.len() > 0 {
        lemma_thaw(group, trace.drop_last());
    }
}

/// Whether a freeze goes on with a request.
pub open spec fn freeze_asks(next: FreezeNext, group: i32, request: FreezeRequest) -> bool {
    next matches Next::Ask(freeze) && freeze.asks(group) == request
}

/// Whether a freeze is to be undone, and then ends with `end`.
pub open spec fn freeze_undoes(next: FreezeNext, group: i32, end: FreezeResult) -> bool {
    &&& freeze_asks(next, group, resume_of(group))
    &&& next matches Next::Ask(freeze) && freeze matches Freeze::Thawing { end: e, .. } && e == end
}

/// Where the pause at exchange `i` of a freeze is due, its length: the first lasts fifty
/// microseconds, and every other twice as long as the one before it, but never longer than
/// ten milliseconds.
pub open spec fn stop_pause_due(trace: FreezeTrace, i: int) -> int {
    if i <= 7 {
        50
    } else {
        match trace[i - 3].0 {
            FreezeRequest::Host(Request::Sleep { micros }) => if 2 * micros <= 10000 {
                2 * micros
            } else {
                10000
            },
            _ => 0,
        }
    }
}

/// The time by which a group that is looked at has to have stopped: a second after the
/// clock was read behind the request that stopped it.
pub open spec fn time_to_stop(trace: FreezeTrace) -> int {
    match trace[4].1 {
        FreezeReply::Clock(then) => if then + 1000000000 <= u64::MAX {
            then + 1000000000
        } else {
            u64::MAX as int
        },
        _ => 0,
    }
}

spec fn stamped(trace: FreezeTrace, since: u64) -> bool {
    trace.len() >= 3 && trace[2].1 == FreezeReply::Clock(since)
}

spec fn freeze_is(next: FreezeNext, group: i32, trace: FreezeTrace) -> bool {
    let n = trace.len() as int;
    match next {
        Next::Ask(Freeze::Marking) => n == 0,
        Next::Ask(Freeze::Blocking) => n == 1,
        Next::Ask(Freeze::Stamping) => n == 2,
        Next::Ask(Freeze::Stopping { since }) => n == 3 && stamped(trace, since),
        Next::Ask(Freeze::Arming { since }) => n == 4 && stamped(trace, since),
        Next::Ask(Freeze::Scanning { since, deadline, pause }) => {
            &&& n >= 5
            &&& n % 3 == 2
            &&& stamped(trace, since)
            &&& deadline == time_to_stop(trace)
            &&& pause == stop_pause_due(trace, n + 2)
        },
        Next::Ask(Freeze::Deciding { since, deadline, pause }) => {
            &&& n >= 6
            &&& n % 3 == 0
            &&& stamped(trace, since)
            &&& deadline == time_to_stop(trace)
            &&& pause == stop_pause_due(trace, n + 1)
            &&& trace[n - 1] == (
                FreezeRequest::ScanGroup(group),
                FreezeReply::Scanned(Ok(false)),
            )
        },
        Next::Ask(Freeze::Pausing { since, deadline, pause }) => {
            &&& n >= 7
            &&& n % 3 == 1
            &&& stamped(trace, since)
            &&& deadline == time_to_stop(trace)
            &&& pause == stop_pause_due(trace, n)
        },
        Next::Ask(Freeze::Thawing { .. }) => n >= 4,
        Next::Done(Ok(Some(frozen))) => stamped(trace, frozen.since),
        Next::Done(_) => true,
    }
}

proof fn lemma_freeze_is(group: i32, supported: bool, trace: FreezeTrace)
    requires
        freeze_run(group, supported, trace) is Some,
    ensures
        freeze_is(freeze_run(group, supported, trace)->0, group, trace)
            || freeze_run(group, supported, trace) == Some(FreezeNext::Done(Ok(None))),
    decreases trace.len(),
{
    if trace.len() > 0 {
        let before = trace.drop_last();
        let n = trace.len() - 1;
        lemma_freeze_is(group, supported, before);
        assert(trace[n] == trace.last());
        assert(forall|i: int| 0 <= i < n ==> #[trigger] before[i] == trace[i]);
        let freeze = freeze_run(group, supported, before)->0->Ask_0;
        if let Freeze::Thawing { end: Ok(Some(_)), .. } = freeze {
            lemma_no_good_thaw(group, supported, before);
        }
    }
}

proof fn lemma_no_good_thaw(group: i32, supported: bool, trace: FreezeTrace)
    requires
        freeze_run(group, supported, trace) is Some,
    ensures
        !(freeze_run(group, supported, trace)->0 matches Next::Ask(
            Freeze::Thawing { end: Ok(Some(_)), .. },
        )),
    decreases trace.len(),
{
    if trace.len() > 0 {
        lemma_no_good_thaw(group, supported, trace.drop_last());
    }
}

/// Where the host cannot tell a stopped group, nothing is asked and nothing is frozen.
pub proof fn nothing_is_frozen_unsupported(group: i32, trace: FreezeTrace)
    requires
        freeze_run(group, false, trace) is Some,
    ensures
        trace.len() == 0,
        freeze_run(group, false, trace) == Some(FreezeNext::Done(Ok(None))),
    decreases trace.len(),
{
    if trace.len() > 0 {
        nothing_is_frozen_unsupported(group, trace.drop_last());
    }
}

/// A freeze writes the marker that names the group, keeps signals from the guard, notes
/// the time and stops the group. A marker that cannot be written fails the freeze before
/// anything is stopped; a group that is not there, or that cannot be stopped, is thawed.
/// Then the clock is read and the group is looked at until all of it has stopped, which
/// leaves it frozen since the time that was noted, or until a second is over, and then it
/// is thawed. Between two looks there is a pause.
pub proof fn a_freeze_takes_its_course(group: i32, trace: FreezeTrace)
    requires
        freeze_run(group, true, trace) is Some,
    ensures
        ({
            let next = freeze_run(group, true, trace)->0;
            let n = trace.len();
            if n == 0 {
                freeze_asks(next, group, FreezeRequest::WriteMarker(group))
            } else {
                match trace.last() {
                    (FreezeRequest::WriteMarker(g), FreezeReply::Done(written)) => {
                        &&& n == 1
                        &&& g == group
                        &&& match written {
                            Ok(()) => freeze_asks(next, group, FreezeRequest::BlockSignals),
                            Err(error) => next == FreezeNext::Done(Err(error)),
                        }
                    },
                    (FreezeRequest::BlockSignals, _) => n == 2 && freeze_asks(
                        next,
                        group,
                        FreezeRequest::ReadClock,
                    ),
                    (FreezeRequest::ReadClock, FreezeReply::Clock(now)) => if n == 3 {
                        freeze_asks(next, group, stop_of(group))
                    } else if n == 5 {
                        freeze_asks(next, group, FreezeRequest::ScanGroup(group))
                    } else if now < time_to_stop(trace) {
                        next matches Next::Ask(freeze) && freeze.asks(group) matches FreezeRequest::Host(
                            request,
                        ) && request is Sleep
                    } else {
                        freeze_undoes(next, group, Ok(None))
                    },
                    (
                        FreezeRequest::Host(Request::Kill { signal: Signal::Freeze, target }),
                        FreezeReply::Host(Reply::Killed(reply)),
                    ) => {
                        &&& n == 4
                        &&& target == Target::Group(group)
                        &&& match reply {
                            KillReply::Delivered => freeze_asks(
                                next,
                                group,
                                FreezeRequest::ReadClock,
                            ),
                            KillReply::Refused { refusal, error } => freeze_undoes(
                                next,
                                group,
                                if refusal == Refusal::NoSuchProcess {
                                    Ok(None)
                                } else {
                                    Err(error)
                                },
                            ),
                        }
                    },
                    (FreezeRequest::ScanGroup(g), FreezeReply::Scanned(scanned)) => {
                        &&& g == group
                        &&& match scanned {
                            Ok(true) => next matches Next::Done(Ok(Some(frozen))) && trace[2]
                                == (FreezeRequest::ReadClock, FreezeReply::Clock(frozen.since)),
                            Ok(false) => freeze_asks(next, group, FreezeRequest::ReadClock),
                            Err(error) => freeze_undoes(next, group, Err(error)),
                        }
                    },
                    (FreezeRequest::Host(Request::Sleep { .. }), _) => freeze_asks(
                        next,
                        group,
                        FreezeRequest::ScanGroup(group),
                    ),
                    _ => true,
                }
            }
        }),
{
    if trace.len() > 0 {
        let before = trace.drop_last();
        let n = trace.len() - 1;
        lemma_freeze_is(group, true, before);
        lemma_freeze_is(group, true, trace);
        assert(trace[n] == trace.last());
        assert(forall|i: int| 0 <= i < n ==> #[trigger] before[i] == trace[i]);
        if n >= 3 {
            lemma_stamp(group, trace);
        }
    }
}

proof fn lemma_stamp(group: i32, trace: FreezeTrace)
    requires
        freeze_run(group, true, trace) is Some,
        trace.len() >= 3,
    ensures
        trace[2].0 == FreezeRequest::ReadClock,
    decreases trace.len(),
{
    if trace.len() > 3 {
        lemma_stamp(group, trace.drop_last());
        assert(trace.drop_last()[2] == trace[2]);
    } else {
        let two = trace.drop_last();
        lemma_freeze_is(group, true, two);
        lemma_early_state(group, two);
        assert(trace[2] == trace.last());
    }
}

proof fn lemma_early_state(group: i32, trace: FreezeTrace)
    requires
        freeze_run(group, true, trace) matches Some(Next::Ask(_)),
        trace.len() == 2,
    ensures
        freeze_run(group, true, trace) == Some(FreezeNext::Ask(Freeze::Stamping)),
{
    lemma_freeze_is(group, true, trace);
}

/// Every reading of the clock that decides directly follows a look that showed that not
/// all of the group had stopped, and the pauses between two looks grow from fifty
/// microseconds to ten milliseconds, each twice as long as the one before.
pub proof fn a_group_is_looked_at_before_time_is_over(group: i32, trace: FreezeTrace, i: int)
    requires
        freeze_run(group, true, trace) is Some,
        0 <= i < trace.len(),
    ensures
        trace[i].0 == FreezeRequest::ReadClock && i != 2 && i != 4 ==> i >= 6 && trace[i - 1] == (
            FreezeRequest::ScanGroup(group),
            FreezeReply::Scanned(Ok(false)),
        ),
        trace[i].0 matches FreezeRequest::Host(Request::Sleep { micros }) ==> micros
            == stop_pause_due(trace, i),
{
    lemma_freeze_step(group, trace, i);
    lemma_freeze_is(group, true, trace.take(i));
    if i >= 8 {
        assert(trace.take(i)[i - 3] == trace[i - 3]);
    }
}

proof fn lemma_freeze_step(group: i32, trace: FreezeTrace, i: int)
    requires
        freeze_run(group, true, trace) is Some,
        0 <= i < trace.len(),
    ensures
        freeze_run(group, true, trace.take(i)) matches Some(Next::Ask(freeze)) && freeze.asks(group)
            == trace[i].0 && freeze_answers(trace[i].0, trace[i].1),
    decreases trace.len(),
{
    if i < trace.len() - 1 {
        lemma_freeze_step(group, trace.drop_last(), i);
        assert(trace.drop_last().take(i) == trace.take(i));
        assert(trace.drop_last()[i] == trace[i]);
    } else {
        assert(trace.take(i) == trace.drop_last());
    }
}

/// A freeze that is undone goes on as a thaw does, and ends with what it was undone for.
pub proof fn an_undone_freeze_is_a_thaw(
    group: i32,
    supported: bool,
    trace: FreezeTrace,
    m: int,
    end: FreezeResult,
)
    requires
        freeze_run(group, supported, trace) is Some,
        0 <= m <= trace.len(),
        freeze_run(group, supported, trace.take(m)) is Some,
        freeze_undoes(freeze_run(group, supported, trace.take(m))->0, group, end),
    ensures
        match thaw_run(group, trace.skip(m)) {
            Some(Next::Ask(thaw)) => freeze_asks(
                freeze_run(group, supported, trace)->0,
                group,
                thaw.asks(group),
            ),
            Some(Next::Done(())) => freeze_run(group, supported, trace) == Some(
                FreezeNext::Done(end),
            ),
            None => false,
        },
{
    lemma_undone(group, supported, trace, m, end);
}

proof fn lemma_undone(
    group: i32,
    supported: bool,
    trace: FreezeTrace,
    m: int,
    end: FreezeResult,
)
    requires
        freeze_run(group, supported, trace) is Some,
        0 <= m <= trace.len(),
        freeze_run(group, supported, trace.take(m)) is Some,
        freeze_undoes(freeze_run(group, supported, trace.take(m))->0, group, end),
    ensures
        match thaw_run(group, trace.skip(m)) {
            Some(Next::Ask(thaw)) => freeze_run(group, supported, trace) == Some(
                FreezeNext::Ask(Freeze::Thawing { thaw, end }),
            ),
            Some(Next::Done(())) => freeze_run(group, supported, trace) == Some(
                FreezeNext::Done(end),
            ),
            None => false,
        },
    decreases trace.len(),
{
    let part = trace.skip(m);
    if trace.len() == m {
        assert(trace.take(m) =~= trace);
        assert(part =~= Seq::<(FreezeRequest, FreezeReply)>::empty());
    } else {
        let before = trace.drop_last();
        assert(before.take(m) =~= trace.take(m));
        lemma_undone(group, supported, before, m, end);
        assert(part.drop_last() =~= before.skip(m));
        assert(part.last() == trace.last());
    }
}

/// Whether a recovery goes on with a request.
pub open spec fn recover_asks(next: RecoverNext, request: FreezeRequest) -> bool {
    next matches Next::Ask(recover) && recover.asks() == request
}

/// A recovery reads the marker. Without one there is nothing to do; one that cannot be
/// read fails it; where it names a group that group is resumed, and in any case the marker
/// is removed. The recovery says which group it was, unless the marker could not be
/// removed.
pub proof fn a_recovery_takes_its_course(trace: FreezeTrace)
    requires
        recover_run(trace) is Some,
    ensures
        ({
            let next = recover_run(trace)->0;
            let named = match trace[0].1 {
                FreezeReply::Marker(TextFile::Text(text)) => marked_group(text@),
                _ => None,
            };
            if trace.len() == 0 {
                recover_asks(next, FreezeRequest::ReadMarker)
            } else {
                match trace.last() {
                    (FreezeRequest::ReadMarker, FreezeReply::Marker(file)) => {
                        &&& trace.len() == 1
                        &&& match file {
                            TextFile::Missing => next == RecoverNext::Done(Ok(None)),
                            TextFile::Unreadable(error) => next == RecoverNext::Done(Err(error)),
                            TextFile::Text(_) => match named {
                                Some(group) => recover_asks(next, resume_of(group)),
                                None => recover_asks(next, FreezeRequest::RemoveMarker),
                            },
                        }
                    },
                    (FreezeRequest::Host(_), _) => trace.len() == 2 && recover_asks(
                        next,
                        FreezeRequest::RemoveMarker,
                    ),
                    (FreezeRequest::RemoveMarker, FreezeReply::Done(removed)) => match removed {
                        Ok(()) => next == RecoverNext::Done(Ok(named)),
                        Err(error) => next == RecoverNext::Done(Err(error)),
                    },
                    _ => false,
                }
            }
        }),
{
    lemma_recover_is(trace);
    if trace.len() > 0 {
        let before = trace.drop_last();
        lemma_recover_is(before);
        assert(trace[trace.len() - 1] == trace.last());
        if before.len() > 0 {
            assert(before[0] == trace[0]);
        }
    }
}

proof fn lemma_recover_is(trace: FreezeTrace)
    requires
        recover_run(trace) is Some,
    ensures
        ({
            let named = match trace[0].1 {
                FreezeReply::Marker(TextFile::Text(text)) => marked_group(text@),
                _ => None,
            };
            match recover_run(trace)->0 {
                Next::Ask(Recover::Reading) => trace.len() == 0,
                Next::Ask(Recover::Resuming { group }) => trace.len() == 1 && named == Some(group),
                Next::Ask(Recover::Removing { resumed }) => trace.len() >= 1 && named == resumed,
                Next::Done(_) => trace.len() >= 1,
            }
        }),
    decreases trace.len(),
{
    if trace.len() > 0 {
        let before = trace.drop_last();
        lemma_recover_is(before);
        assert(trace[trace.len() - 1] == trace.last());
        if before.len() > 0 {
            assert(before[0] == trace[0]);
        }
    }
}

} // verus!

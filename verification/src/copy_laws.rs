//! The course that a copy and a rotation take.

use vstd::prelude::*;
use crate::freeze_laws::{resume_of, thaw_run, FreezeNext, FreezeTrace};
use crate::host::Next;
use crate::rotate::{
    CompressionMethod, CopyPhase, CopyResult, CopyTruncate, FileError, LogReply, LogRequest,
    PackStage, Policy, Rotate, RotatePhase, RotateResult, Rotated, Slot, Truncation,
};
use crate::rotate_laws::{freeze_run, log_answers, rotate_run, LogTrace};
use crate::suspend::{Freeze, FreezeReply, FreezeRequest, Frozen, Thaw};

verus! {

pub type CopyNext = Next<CopyTruncate, CopyResult>;

pub type RotateNext = Next<Rotate, RotateResult>;

/// Where a copy stands after an exchange of requests and answers, if it makes those
/// requests and they are answered.
pub open spec fn course(suspend: Option<i32>, supported: bool, trace: LogTrace) -> Option<CopyNext>
    decreases trace.len(),
{
    if trace.len() == 0 {
        Some(Next::Ask(CopyTruncate::begun(suspend, supported)))
    } else {
        match course(suspend, supported, trace.drop_last()) {
            Some(Next::Ask(copy)) => {
                let (request, reply) = trace.last();
                if copy.asks() == request && log_answers(request, reply) {
                    Some(copy.after(reply))
                } else {
                    None
                }
            },
            _ => None,
        }
    }
}

/// Whether a copy goes on with a request.
pub open spec fn copy_asks(next: CopyNext, request: LogRequest) -> bool {
    next matches Next::Ask(copy) && copy.asks() == request
}

/// The exchanges about a frozen group from `a` to `b`.
pub open spec fn freeze_part(trace: LogTrace, a: int, b: int) -> FreezeTrace {
    Seq::new((b - a) as nat, |i: int| (trace[a + i].0->Freeze_0, trace[a + i].1->Freeze_0))
}

/// The live file is opened for reading and for truncating, the newest generation is
/// created, the bulk is copied and brought to the disk, in this order. The first thing that
/// fails ends the copy, with its error.
pub proof fn a_copy_begins_while_the_app_runs(
    suspend: Option<i32>,
    supported: bool,
    trace: LogTrace,
)
    requires
        course(suspend, supported, trace) is Some,
        trace.len() <= 5,
    ensures
        ({
            let next = course(suspend, supported, trace)->0;
            if trace.len() > 0 && trace.last().1 is Done && trace.last().1->Done_0 is Err {
                next == CopyNext::Done(Err(trace.last().1->Done_0->Err_0.message))
            } else if trace.len() == 0 {
                copy_asks(next, LogRequest::OpenLive)
            } else if trace.len() == 1 {
                copy_asks(next, LogRequest::OpenToTruncate)
            } else if trace.len() == 2 {
                copy_asks(next, LogRequest::CreateCopy)
            } else if trace.len() == 3 {
                copy_asks(next, LogRequest::CopyTail)
            } else if trace.len() == 4 {
                copy_asks(next, LogRequest::SyncCopy)
            } else if suspend is Some && supported {
                copy_asks(next, LogRequest::Freeze(FreezeRequest::WriteMarker(suspend->0)))
            } else {
                copy_asks(next, LogRequest::CopyTail)
            }
        }),
{
    lemma_copy_is(suspend, supported, trace);
    if trace.len() > 0 {
        lemma_copy_is(suspend, supported, trace.drop_last());
    }
}

spec fn copy_is(next: CopyNext, suspend: Option<i32>, supported: bool, trace: LogTrace) -> bool {
    let n = trace.len() as int;
    match next {
        Next::Ask(copy) => {
            &&& copy.suspend == suspend
            &&& copy.supported == supported
            &&& match copy.phase {
                CopyPhase::OpeningLive => n == 0,
                CopyPhase::OpeningWrite => n == 1,
                CopyPhase::Creating => n == 2,
                CopyPhase::Bulk => n == 3,
                CopyPhase::Syncing => n == 4,
                CopyPhase::Freezing(freeze) => {
                    &&& n >= 5
                    &&& suspend is Some
                    &&& supported
                    &&& freeze_run(suspend->0, true, freeze_part(trace, 5, n)) == Some(
                        FreezeNext::Ask(freeze),
                    )
                },
                _ => n >= 5,
            }
        },
        Next::Done(_) => n >= 1,
    }
}

proof fn lemma_copy_is(suspend: Option<i32>, supported: bool, trace: LogTrace)
    requires
        course(suspend, supported, trace) is Some,
    ensures
        copy_is(course(suspend, supported, trace)->0, suspend, supported, trace),
    decreases trace.len(),
{
    if trace.len() > 0 {
        let before = trace.drop_last();
        let n = trace.len() - 1;
        lemma_copy_is(suspend, supported, before);
        let copy = course(suspend, supported, before)->0->Ask_0;
        match copy.phase {
            CopyPhase::Syncing => {
                assert(freeze_part(trace, 5, 5) =~= Seq::<(FreezeRequest, FreezeReply)>::empty());
                if suspend is Some && supported {
                    assert(freeze_run(suspend->0, true, freeze_part(trace, 5, 5)) == Some(
                        Freeze::begun(true),
                    ));
                }
            },
            CopyPhase::Freezing(freeze) => {
                lemma_part_grows(trace, 5);
            },
            _ => {},
        }
    }
}

proof fn lemma_part_grows(trace: LogTrace, a: int)
    requires
        0 <= a < trace.len(),
    ensures
        ({
            let n = trace.len() as int;
            let part = freeze_part(trace, a, n);
            &&& part.len() > 0
            &&& part.drop_last() == freeze_part(trace.drop_last(), a, n - 1)
            &&& part.last() == (trace.last().0->Freeze_0, trace.last().1->Freeze_0)
        }),
{
    let n = trace.len() as int;
    let part = freeze_part(trace, a, n);
    assert(part.drop_last() =~= freeze_part(trace.drop_last(), a, n - 1));
}

/// Whether the tail of the live file is copied from exchange `f` on, with the group frozen
/// or not: at once where there is no group to freeze or none can be told to be stopped, and
/// otherwise as soon as the freeze has come to its end.
pub open spec fn tail_begins(
    suspend: Option<i32>,
    supported: bool,
    trace: LogTrace,
    f: int,
    frozen: Option<Frozen>,
) -> bool {
    &&& 5 <= f <= trace.len()
    &&& trace[4] == (LogRequest::SyncCopy, LogReply::Done(Ok(())))
    &&& if suspend is Some && supported {
        freeze_run(suspend->0, true, freeze_part(trace, 5, f)) == Some(
            FreezeNext::Done(Ok(frozen)),
        )
    } else {
        f == 5 && frozen is None
    }
}

/// While the group is being frozen a copy asks what the freeze asks, and a freeze that
/// fails fails the copy with its error.
pub proof fn a_copy_freezes_its_group(group: i32, trace: LogTrace)
    requires
        course(Some(group), true, trace) is Some,
        trace.len() >= 5,
        trace[4] == (LogRequest::SyncCopy, LogReply::Done(Ok(()))),
    ensures
        match freeze_run(group, true, freeze_part(trace, 5, trace.len() as int)) {
            Some(Next::Ask(freeze)) => copy_asks(
                course(Some(group), true, trace)->0,
                LogRequest::Freeze(freeze.asks(group)),
            ),
            Some(Next::Done(Err(error))) => course(Some(group), true, trace) == Some(
                CopyNext::Done(Err(error)),
            ),
            Some(Next::Done(Ok(_))) => copy_asks(
                course(Some(group), true, trace)->0,
                LogRequest::CopyTail,
            ),
            None => true,
        },
{
    lemma_freezing(group, trace);
}

spec fn at_phase(suspend: Option<i32>, supported: bool, phase: CopyPhase) -> Option<CopyNext> {
    Some(Next::Ask(CopyTruncate { suspend, supported, phase }))
}

proof fn lemma_freezing(group: i32, trace: LogTrace)
    requires
        course(Some(group), true, trace) is Some,
        trace.len() >= 5,
        trace[4] == (LogRequest::SyncCopy, LogReply::Done(Ok(()))),
    ensures
        match freeze_run(group, true, freeze_part(trace, 5, trace.len() as int)) {
            Some(Next::Ask(freeze)) => course(Some(group), true, trace) == at_phase(
                Some(group),
                true,
                CopyPhase::Freezing(freeze),
            ),
            Some(Next::Done(Err(error))) => course(Some(group), true, trace) == Some(
                CopyNext::Done(Err(error)),
            ),
            Some(Next::Done(Ok(frozen))) => course(Some(group), true, trace) == at_phase(
                Some(group),
                true,
                CopyPhase::Tail { frozen, again: false },
            ),
            None => true,
        },
    decreases trace.len(),
{
    let before = trace.drop_last();
    if trace.len() == 5 {
        lemma_copy_is(Some(group), true, before);
        lemma_fifth(Some(group), true, before);
        assert(trace[4] == trace.last());
        assert(freeze_part(trace, 5, 5) =~= Seq::<(FreezeRequest, FreezeReply)>::empty());
        assert(freeze_run(group, true, freeze_part(trace, 5, 5)) == Some(Freeze::begun(true)));
    } else {
        assert(before[4] == trace[4]);
        lemma_freezing(group, before);
        lemma_part_grows(trace, 5);
    }
}

proof fn lemma_fifth(suspend: Option<i32>, supported: bool, trace: LogTrace)
    requires
        course(suspend, supported, trace) matches Some(Next::Ask(_)),
        trace.len() == 4,
    ensures
        course(suspend, supported, trace) == at_phase(suspend, supported, CopyPhase::Syncing),
{
    lemma_copy_is(suspend, supported, trace);
}

proof fn lemma_tail(
    suspend: Option<i32>,
    supported: bool,
    trace: LogTrace,
    f: int,
    frozen: Option<Frozen>,
)
    requires
        course(suspend, supported, trace) is Some,
        tail_begins(suspend, supported, trace, f, frozen),
        f == trace.len(),
    ensures
        course(suspend, supported, trace) == at_phase(
            suspend,
            supported,
            CopyPhase::Tail { frozen, again: false },
        ),
{
    if suspend is Some && supported {
        lemma_freezing(suspend->0, trace);
    } else {
        let before = trace.drop_last();
        assert(trace[4] == trace.last());
        lemma_fifth(suspend, supported, before);
    }
}

/// Whether a copy that was stopped by an error ends: where the group is frozen it is to go
/// on first.
pub open spec fn fails_with(
    next: CopyNext,
    suspend: Option<i32>,
    frozen: Option<Frozen>,
    error: String,
) -> bool {
    if frozen is Some {
        thaws_to(next, suspend, Err(error))
    } else {
        next == CopyNext::Done(Err(error))
    }
}

/// Whether the group is to go on before the copy comes to `end`.
pub open spec fn thaws_to(next: CopyNext, suspend: Option<i32>, end: CopyResult) -> bool {
    &&& suspend is Some
    &&& copy_asks(next, LogRequest::Freeze(resume_of(suspend->0)))
    &&& next matches Next::Ask(copy) && copy.suspend == suspend && (copy.phase
        matches CopyPhase::Thawing { end: e, .. } && e == end)
}

proof fn lemma_prefix(suspend: Option<i32>, supported: bool, trace: LogTrace, k: int)
    requires
        course(suspend, supported, trace) is Some,
        0 <= k <= trace.len(),
    ensures
        course(suspend, supported, trace.take(k)) is Some,
        k < trace.len() ==> (course(suspend, supported, trace.take(k)) matches Some(Next::Ask(copy))
            && {
            &&& copy.asks() == trace[k].0
            &&& log_answers(trace[k].0, trace[k].1)
            &&& course(suspend, supported, trace.take(k + 1)) == Some(copy.after(trace[k].1))
        }),
    decreases trace.len(),
{
    if k < trace.len() {
        let before = trace.drop_last();
        if k < before.len() {
            lemma_prefix(suspend, supported, before, k);
            assert(before.take(k) =~= trace.take(k));
            assert(before.take(k + 1) =~= trace.take(k + 1));
        } else {
            assert(trace.take(k) =~= before);
            assert(trace.take(k + 1) =~= trace);
        }
    } else {
        assert(trace.take(k) =~= trace);
    }
}

proof fn lemma_tail_prefix(
    suspend: Option<i32>,
    supported: bool,
    trace: LogTrace,
    f: int,
    frozen: Option<Frozen>,
)
    requires
        course(suspend, supported, trace) is Some,
        tail_begins(suspend, supported, trace, f, frozen),
    ensures
        course(suspend, supported, trace.take(f)) == at_phase(
            suspend,
            supported,
            CopyPhase::Tail { frozen, again: false },
        ),
        frozen is Some ==> suspend is Some,
{
    lemma_prefix(suspend, supported, trace, f);
    let upto = trace.take(f);
    assert(upto[4] == trace[4]);
    assert(freeze_part(upto, 5, f) =~= freeze_part(trace, 5, f));
    lemma_tail(suspend, supported, upto, f, frozen);
}

/// The tail of the live file is copied twice, with the group frozen where it is, before the
/// live file is truncated: a write that was under way when its thread was stopped ends
/// after the first pass. A frozen group then goes on, and without one the copy is synced.
pub proof fn the_tail_is_copied_twice(
    suspend: Option<i32>,
    supported: bool,
    trace: LogTrace,
    f: int,
    frozen: Option<Frozen>,
)
    requires
        course(suspend, supported, trace) is Some,
        tail_begins(suspend, supported, trace, f, frozen),
        trace.len() <= f + 3,
        forall|i: int| f <= i < trace.len() ==> (#[trigger] trace[i]).1 == LogReply::Done(Ok(())),
    ensures
        ({
            let next = course(suspend, supported, trace)->0;
            if trace.len() == f || trace.len() == f + 1 {
                copy_asks(next, LogRequest::CopyTail)
            } else if trace.len() == f + 2 {
                copy_asks(next, LogRequest::Truncate)
            } else if frozen is Some {
                copy_asks(next, LogRequest::Freeze(FreezeRequest::ReadClock))
            } else {
                copy_asks(next, LogRequest::SyncCopy)
            }
        }),
{
    lemma_tail_prefix(suspend, supported, trace, f, frozen);
    assert(trace.take(trace.len() as int) =~= trace);
    if trace.len() > f {
        assert(trace[f].1 == LogReply::Done(Ok(())));
        lemma_prefix(suspend, supported, trace, f);
        if trace.len() > f + 1 {
            assert(trace[f + 1].1 == LogReply::Done(Ok(())));
            lemma_prefix(suspend, supported, trace, f + 1);
            if trace.len() > f + 2 {
                assert(trace[f + 2].1 == LogReply::Done(Ok(())));
                lemma_prefix(suspend, supported, trace, f + 2);
            }
        }
    }
}

/// A tail pass or a truncation that fails ends the copy with its error: at once where the
/// group runs, and once it goes on where it is frozen.
pub proof fn a_failed_tail_fails_the_copy(
    suspend: Option<i32>,
    supported: bool,
    trace: LogTrace,
    f: int,
    frozen: Option<Frozen>,
    error: FileError,
)
    requires
        course(suspend, supported, trace) is Some,
        tail_begins(suspend, supported, trace, f, frozen),
        f < trace.len() <= f + 3,
        forall|i: int| f <= i < trace.len() - 1 ==> (#[trigger] trace[i]).1 == LogReply::Done(
            Ok(()),
        ),
        trace.last().1 == LogReply::Done(Err(error)),
    ensures
        fails_with(course(suspend, supported, trace)->0, suspend, frozen, error.message),
{
    lemma_tail_prefix(suspend, supported, trace, f, frozen);
    assert(trace.take(trace.len() as int) =~= trace);
    lemma_prefix(suspend, supported, trace, f);
    assert(trace[trace.len() - 1] == trace.last());
    if trace.len() > f + 1 {
        assert(trace[f].1 == LogReply::Done(Ok(())));
        lemma_prefix(suspend, supported, trace, f + 1);
        if trace.len() > f + 2 {
            assert(trace[f + 1].1 == LogReply::Done(Ok(())));
            lemma_prefix(suspend, supported, trace, f + 2);
        }
    }
}

/// Whether the live file has been truncated at exchange `f + 2`, after two passes.
pub open spec fn truncated_at(trace: LogTrace, f: int) -> bool {
    &&& 0 <= f
    &&& f + 3 <= trace.len()
    &&& trace[f].1 == LogReply::Done(Ok(()))
    &&& trace[f + 1].1 == LogReply::Done(Ok(()))
    &&& trace[f + 2].1 == LogReply::Done(Ok(()))
}

/// After a truncation without a frozen group the newest generation is brought to the disk,
/// and with that the copy has succeeded: plainly where no group was to be frozen, and
/// otherwise with the word that it could not be.
pub proof fn a_plain_copy_ends_with_a_sync(
    suspend: Option<i32>,
    supported: bool,
    trace: LogTrace,
    f: int,
)
    requires
        course(suspend, supported, trace) is Some,
        tail_begins(suspend, supported, trace, f, None),
        truncated_at(trace, f),
        trace.len() == f + 4,
    ensures
        trace.last().0 == LogRequest::SyncCopy,
        course(suspend, supported, trace)->0 == CopyNext::Done(
            match trace.last().1 {
                LogReply::Done(Err(error)) => Err(error.message),
                _ => Ok(
                    if suspend is Some {
                        Truncation::SuspendFailed
                    } else {
                        Truncation::Plain
                    },
                ),
            },
        ),
{
    lemma_tail_prefix(suspend, supported, trace, f, None);
    assert(trace.take(f + 4) =~= trace);
    lemma_prefix(suspend, supported, trace, f);
    lemma_prefix(suspend, supported, trace, f + 1);
    lemma_prefix(suspend, supported, trace, f + 2);
    lemma_prefix(suspend, supported, trace, f + 3);
    assert(trace[f + 3] == trace.last());
}

/// After a truncation with a frozen group the clock is read, and the group goes on; the copy
/// then tells the time from the reading of the clock before the group was stopped to this
/// one.
pub proof fn a_frozen_group_goes_on_after_the_truncation(
    group: i32,
    trace: LogTrace,
    f: int,
    frozen: Frozen,
    now: u64,
)
    requires
        course(Some(group), true, trace) is Some,
        tail_begins(Some(group), true, trace, f, Some(frozen)),
        truncated_at(trace, f),
        trace.len() == f + 4,
        trace.last().1 == LogReply::Freeze(FreezeReply::Clock(now)),
    ensures
        thaws_to(
            course(Some(group), true, trace)->0,
            Some(group),
            Ok(
                Truncation::Suspended(
                    if frozen.since <= now {
                        (now - frozen.since) as u64
                    } else {
                        0
                    },
                ),
            ),
        ),
{
    lemma_tail_prefix(Some(group), true, trace, f, Some(frozen));
    assert(trace.take(f + 4) =~= trace);
    lemma_prefix(Some(group), true, trace, f);
    lemma_prefix(Some(group), true, trace, f + 1);
    lemma_prefix(Some(group), true, trace, f + 2);
    lemma_prefix(Some(group), true, trace, f + 3);
    assert(trace[f + 3] == trace.last());
}

/// A group that is to go on is thawed. Then a copy that failed has failed, and any other
/// brings the newest generation to the disk, and with that has succeeded.
pub proof fn a_copy_ends_after_its_thaw(
    suspend: Option<i32>,
    supported: bool,
    trace: LogTrace,
    m: int,
    end: CopyResult,
)
    requires
        course(suspend, supported, trace) is Some,
        0 <= m <= trace.len(),
        course(suspend, supported, trace.take(m)) is Some,
        thaws_to(course(suspend, supported, trace.take(m))->0, suspend, end),
        trace.len() <= m + 4,
    ensures
        ({
            let next = course(suspend, supported, trace)->0;
            let group = suspend->0;
            if trace.len() < m + 3 {
                thaw_run(group, freeze_part(trace, m, trace.len() as int)) matches Some(
                    Next::Ask(thaw),
                ) && copy_asks(next, LogRequest::Freeze(thaw.asks(group)))
            } else if trace.len() == m + 3 {
                match end {
                    Ok(_) => copy_asks(next, LogRequest::SyncCopy),
                    Err(error) => next == CopyNext::Done(Err(error)),
                }
            } else {
                &&& end is Ok
                &&& trace.last().0 == LogRequest::SyncCopy
                &&& next == CopyNext::Done(
                    match trace.last().1 {
                        LogReply::Done(Err(error)) => Err(error.message),
                        _ => end,
                    },
                )
            }
        }),
    decreases trace.len(),
{
    lemma_thawing(suspend, supported, trace, m, end);
}

proof fn lemma_thawing(
    suspend: Option<i32>,
    supported: bool,
    trace: LogTrace,
    m: int,
    end: CopyResult,
)
    requires
        course(suspend, supported, trace) is Some,
        0 <= m <= trace.len(),
        course(suspend, supported, trace.take(m)) is Some,
        thaws_to(course(suspend, supported, trace.take(m))->0, suspend, end),
        trace.len() <= m + 4,
    ensures
        ({
            let next = course(suspend, supported, trace)->0;
            let group = suspend->0;
            if trace.len() < m + 3 {
                thaw_run(group, freeze_part(trace, m, trace.len() as int)) matches Some(
                    Next::Ask(thaw),
                ) && next matches Next::Ask(copy) && copy.suspend == suspend && copy.phase == (
                CopyPhase::Thawing { thaw, end }) && thaw == if trace.len() == m {
                    Thaw::Resuming
                } else if trace.len() == m + 1 {
                    Thaw::RemovingMarker
                } else {
                    Thaw::Restoring
                }
            } else if trace.len() == m + 3 {
                match end {
                    Ok(truncation) => next matches Next::Ask(copy) && copy.phase
                        == CopyPhase::Finishing(truncation),
                    Err(error) => next == CopyNext::Done(Err(error)),
                }
            } else {
                &&& end is Ok
                &&& trace.last().0 == LogRequest::SyncCopy
                &&& next == CopyNext::Done(
                    match trace.last().1 {
                        LogReply::Done(Err(error)) => Err(error.message),
                        _ => end,
                    },
                )
            }
        }),
    decreases trace.len(),
{
    let n = trace.len() as int;
    if n == m {
        assert(trace.take(m) =~= trace);
        assert(freeze_part(trace, m, m) =~= Seq::<(FreezeRequest, FreezeReply)>::empty());
    } else {
        let before = trace.drop_last();
        assert(before.take(m) =~= trace.take(m));
        lemma_thawing(suspend, supported, before, m, end);
        lemma_part_grows(trace, m);
    }
}

/// Whether a rotation goes on with a request.
pub open spec fn rotate_asks(next: RotateNext, request: LogRequest) -> bool {
    next matches Next::Ask(rotate) && rotate.asks() == request
}

/// A rotation begins with the first generation that is to be compressed, where there are
/// such generations, and with the size of the live file where there are none.
pub proof fn a_rotation_begins(policy: Policy, suspend: Option<i32>, supported: bool)
    ensures
        rotate_asks(
            RotateNext::Ask(Rotate::begun(policy, suspend, supported)),
            if policy.compression == CompressionMethod::Gzip && policy.compress_after
                < policy.max_keep {
                LogRequest::Exists(Slot::Plain((policy.compress_after + 1) as u32))
            } else {
                LogRequest::Measure
            },
        ),
{
}

/// The size of the live file decides: a log is rotated exactly where its live file is there
/// and has reached `max_size`, and then its generations are listed. A size that cannot be
/// told fails the rotation.
pub proof fn the_size_decides(
    policy: Policy,
    suspend: Option<i32>,
    supported: bool,
    trace: LogTrace,
)
    requires
        rotate_run(policy, suspend, supported, trace) is Some,
        trace.len() > 0,
        trace.last().0 == LogRequest::Measure,
    ensures
        ({
            let next = rotate_run(policy, suspend, supported, trace)->0;
            match trace.last().1 {
                LogReply::Size(Ok(size)) => if size < policy.max_size {
                    next == RotateNext::Done(Ok(None))
                } else {
                    rotate_asks(next, LogRequest::ListGenerations)
                },
                LogReply::Size(Err(error)) => if error.missing {
                    next == RotateNext::Done(Ok(None))
                } else {
                    next == RotateNext::Done(Err(error.message))
                },
                _ => false,
            }
        }),
{
    lemma_rotate_is(policy, suspend, supported, trace.drop_last());
    let rotate = rotate_run(policy, suspend, supported, trace.drop_last())->0->Ask_0;
    lemma_who_measures(rotate);
}

proof fn lemma_who_measures(rotate: Rotate)
    ensures
        rotate.asks() == LogRequest::Measure ==> rotate.phase is Measuring,
{
}

#[verifier::opaque]
spec fn size_seen(trace: LogTrace, size: u64) -> bool {
    exists|i: int|
        0 <= i < trace.len() && #[trigger] trace[i] == (
            LogRequest::Measure,
            LogReply::Size(Ok(size)),
        )
}

spec fn rotate_is(
    next: RotateNext,
    policy: Policy,
    suspend: Option<i32>,
    supported: bool,
    trace: LogTrace,
) -> bool {
    let due = |size: u64| size_seen(trace, size) && size >= policy.max_size;
    match next {
        Next::Ask(rotate) => {
            &&& rotate.policy == policy
            &&& rotate.suspend == suspend
            &&& rotate.supported == supported
            &&& match rotate.phase {
                RotatePhase::Packing { rotated, .. } => rotated matches Some(rotated) ==> due(
                    rotated.size,
                ),
                RotatePhase::Measuring => true,
                RotatePhase::Listing { size } => due(size),
                RotatePhase::Clearing { size, .. } => due(size),
                RotatePhase::OpeningEmpty { size } => due(size) && policy.max_keep == 0,
                RotatePhase::Emptying { size } => due(size) && policy.max_keep == 0,
                RotatePhase::DroppingPlain { size } => due(size) && policy.max_keep > 0,
                RotatePhase::DroppingPacked { size } => due(size) && policy.max_keep > 0,
                RotatePhase::ShiftingPlain { size, .. } => due(size) && policy.max_keep > 0,
                RotatePhase::ShiftingPacked { size, .. } => due(size) && policy.max_keep > 0,
                RotatePhase::Copying { size, .. } => due(size) && policy.max_keep > 0,
            }
        },
        Next::Done(Ok(Some(rotated))) => due(rotated.size),
        Next::Done(_) => true,
    }
}

proof fn lemma_seen_stays(trace: LogTrace)
    requires
        trace.len() > 0,
    ensures
        forall|size: u64|
            size_seen(trace.drop_last(), size) ==> #[trigger] size_seen(trace, size),
        trace.last().0 == LogRequest::Measure ==> (trace.last().1 matches LogReply::Size(Ok(size))
            ==> size_seen(trace, size)),
{
    reveal(size_seen);
    let before = trace.drop_last();
    assert(trace[trace.len() - 1] == trace.last());
    assert forall|size: u64| size_seen(before, size) implies #[trigger] size_seen(trace, size) by {
        let i = choose|i: int|
            0 <= i < before.len() && #[trigger] before[i] == (
                LogRequest::Measure,
                LogReply::Size(Ok(size)),
            );
        assert(trace[i] == before[i]);
    }
}

#[verifier::spinoff_prover]
proof fn lemma_rotate_keeps(
    policy: Policy,
    suspend: Option<i32>,
    supported: bool,
    rotate: Rotate,
    trace: LogTrace,
)
    requires
        trace.len() > 0,
        rotate_is(Next::Ask(rotate), policy, suspend, supported, trace.drop_last()),
        rotate.asks() == trace.last().0,
        log_answers(trace.last().0, trace.last().1),
    ensures
        rotate_is(rotate.after(trace.last().1), policy, suspend, supported, trace),
{
    lemma_seen_stays(trace);
    match rotate.phase {
        RotatePhase::Packing { .. } => {},
        RotatePhase::Copying { .. } => {},
        RotatePhase::Measuring => {},
        _ => {},
    }
}

proof fn lemma_rotate_is(
    policy: Policy,
    suspend: Option<i32>,
    supported: bool,
    trace: LogTrace,
)
    requires
        rotate_run(policy, suspend, supported, trace) is Some,
    ensures
        rotate_is(
            rotate_run(policy, suspend, supported, trace)->0,
            policy,
            suspend,
            supported,
            trace,
        ),
    decreases trace.len(),
{
    if trace.len() > 0 {
        let before = trace.drop_last();
        lemma_rotate_is(policy, suspend, supported, before);
        let rotate = rotate_run(policy, suspend, supported, before)->0->Ask_0;
        lemma_rotate_keeps(policy, suspend, supported, rotate, trace);
    }
}

/// A rotation tells the size that was measured, and that had reached `max_size`.
pub proof fn the_size_told_was_measured(
    policy: Policy,
    suspend: Option<i32>,
    supported: bool,
    trace: LogTrace,
    rotated: Rotated,
)
    requires
        rotate_run(policy, suspend, supported, trace) == Some(RotateNext::Done(Ok(Some(rotated)))),
    ensures
        rotated.size >= policy.max_size,
        exists|i: int|
            0 <= i < trace.len() && #[trigger] trace[i] == (
                LogRequest::Measure,
                LogReply::Size(Ok(rotated.size)),
            ),
{
    reveal(size_seen);
    lemma_rotate_is(policy, suspend, supported, trace);
}

/// Where nothing is kept the live file is opened and truncated, and with that the log is
/// rotated, plainly. What fails ends the rotation with its error.
pub proof fn a_log_of_which_nothing_is_kept_is_emptied(
    policy: Policy,
    suspend: Option<i32>,
    supported: bool,
    trace: LogTrace,
)
    requires
        rotate_run(policy, suspend, supported, trace) is Some,
        policy.max_keep == 0,
        trace.len() > 0,
        trace.last().0 == LogRequest::OpenToTruncate || trace.last().0 == LogRequest::Truncate,
    ensures
        ({
            let next = rotate_run(policy, suspend, supported, trace)->0;
            match trace.last().1 {
                LogReply::Done(Err(error)) => next == RotateNext::Done(Err(error.message)),
                _ => if trace.last().0 == LogRequest::OpenToTruncate {
                    rotate_asks(next, LogRequest::Truncate)
                } else {
                    next matches Next::Done(Ok(Some(rotated))) && rotated.truncation
                        == Truncation::Plain
                },
            }
        }),
{
    lemma_rotate_is(policy, suspend, supported, trace.drop_last());
}

/// Whether the live file is copied from exchange `c` on, which has `size` bytes.
pub open spec fn copy_begins(
    policy: Policy,
    suspend: Option<i32>,
    supported: bool,
    trace: LogTrace,
    c: int,
    size: u64,
) -> bool {
    &&& 0 <= c <= trace.len()
    &&& rotate_run(policy, suspend, supported, trace.take(c)) matches Some(Next::Ask(rotate))
        && rotate.asks() == LogRequest::OpenLive && (rotate.phase matches RotatePhase::Copying {
        size: s,
        ..
    } && s == size)
}

proof fn lemma_copies(
    policy: Policy,
    suspend: Option<i32>,
    supported: bool,
    trace: LogTrace,
    c: int,
    size: u64,
)
    requires
        rotate_run(policy, suspend, supported, trace) is Some,
        copy_begins(policy, suspend, supported, trace, c, size),
    ensures
        match course(suspend, supported, trace.skip(c)) {
            Some(Next::Ask(copy)) => rotate_run(policy, suspend, supported, trace) == Some(
                RotateNext::Ask(
                    Rotate {
                        policy,
                        suspend,
                        supported,
                        phase: RotatePhase::Copying { size, copy },
                    },
                ),
            ),
            Some(Next::Done(Ok(truncation))) => {
                let rotated = Rotated { size, truncation };
                rotate_run(policy, suspend, supported, trace) == Some(
                    if policy.compression == CompressionMethod::Gzip && policy.compress_after
                        < policy.max_keep {
                        RotateNext::Ask(
                            Rotate {
                                policy,
                                suspend,
                                supported,
                                phase: RotatePhase::Packing {
                                    n: (policy.compress_after + 1) as u32,
                                    stage: PackStage::Looking,
                                    rotated: Some(rotated),
                                },
                            },
                        )
                    } else {
                        RotateNext::Done(Ok(Some(rotated)))
                    },
                )
            },
            Some(Next::Done(Err(error))) => rotate_run(policy, suspend, supported, trace) == Some(
                RotateNext::Done(Err(error)),
            ),
            None => true,
        },
    decreases trace.len(),
{
    let part = trace.skip(c);
    if trace.len() == c {
        assert(trace.take(c) =~= trace);
        assert(part =~= Seq::<(LogRequest, LogReply)>::empty());
        lemma_rotate_is(policy, suspend, supported, trace);
        lemma_copy_is_new(policy, suspend, supported, trace);
        assert(course(suspend, supported, part) == Some(
            CopyNext::Ask(CopyTruncate::begun(suspend, supported)),
        ));
    } else {
        let before = trace.drop_last();
        assert(before.take(c) =~= trace.take(c));
        lemma_copies(policy, suspend, supported, before, c, size);
        assert(part.drop_last() =~= before.skip(c));
        assert(part.last() == trace.last());
    }
}

proof fn lemma_copy_is_new(
    policy: Policy,
    suspend: Option<i32>,
    supported: bool,
    trace: LogTrace,
)
    requires
        rotate_run(policy, suspend, supported, trace) is Some,
    ensures
        rotate_run(policy, suspend, supported, trace)->0 matches Next::Ask(rotate) ==> (rotate.phase
            matches RotatePhase::Copying { copy, .. } ==> copy.suspend == suspend && copy.supported
            == supported),
    decreases trace.len(),
{
    lemma_rotate_is(policy, suspend, supported, trace);
    if trace.len() > 0 {
        lemma_copy_is_new(policy, suspend, supported, trace.drop_last());
        lemma_rotate_is(policy, suspend, supported, trace.drop_last());
    }
}

/// A rotation copies the live file with the group that it was given to freeze, and tells
/// how it was truncated. A copy that fails fails the rotation with its error; after one
/// that succeeds the generations that are to be compressed are, and without such
/// generations the log is rotated.
pub proof fn a_rotation_copies_with_its_group(
    policy: Policy,
    suspend: Option<i32>,
    supported: bool,
    trace: LogTrace,
    c: int,
    size: u64,
)
    requires
        rotate_run(policy, suspend, supported, trace) is Some,
        copy_begins(policy, suspend, supported, trace, c, size),
    ensures
        ({
            let next = rotate_run(policy, suspend, supported, trace)->0;
            match course(suspend, supported, trace.skip(c)) {
                Some(Next::Ask(copy)) => rotate_asks(next, copy.asks()),
                Some(Next::Done(Ok(truncation))) => if policy.compression == CompressionMethod::Gzip
                    && policy.compress_after < policy.max_keep {
                    rotate_asks(
                        next,
                        LogRequest::Exists(Slot::Plain((policy.compress_after + 1) as u32)),
                    )
                } else {
                    next == RotateNext::Done(Ok(Some(Rotated { size, truncation })))
                },
                Some(Next::Done(Err(error))) => next == RotateNext::Done(Err(error)),
                None => true,
            }
        }),
{
    lemma_copies(policy, suspend, supported, trace, c, size);
}

/// What is told of a truncation stays what it was while generations are compressed.
pub proof fn compression_does_not_change_what_is_told(
    policy: Policy,
    suspend: Option<i32>,
    supported: bool,
    trace: LogTrace,
    c: int,
    p: int,
    size: u64,
    truncation: Truncation,
    rotated: Option<Rotated>,
)
    requires
        copy_begins(policy, suspend, supported, trace, c, size),
        c <= p <= trace.len(),
        course(suspend, supported, trace.subrange(c, p)) == Some(CopyNext::Done(Ok(truncation))),
        rotate_run(policy, suspend, supported, trace) == Some(RotateNext::Done(Ok(rotated))),
    ensures
        rotated == Some(Rotated { size, truncation }),
{
    lemma_rotate_prefix(policy, suspend, supported, trace, p);
    let upto = trace.take(p);
    assert(upto.take(c) =~= trace.take(c));
    assert(upto.skip(c) =~= trace.subrange(c, p));
    lemma_copies(policy, suspend, supported, upto, c, size);
    lemma_told(policy, suspend, supported, trace, p, Rotated { size, truncation });
}

proof fn lemma_rotate_prefix(
    policy: Policy,
    suspend: Option<i32>,
    supported: bool,
    trace: LogTrace,
    k: int,
)
    requires
        rotate_run(policy, suspend, supported, trace) is Some,
        0 <= k <= trace.len(),
    ensures
        rotate_run(policy, suspend, supported, trace.take(k)) is Some,
    decreases trace.len(),
{
    if k < trace.len() {
        lemma_rotate_prefix(policy, suspend, supported, trace.drop_last(), k);
        assert(trace.drop_last().take(k) =~= trace.take(k));
    } else {
        assert(trace.take(k) =~= trace);
    }
}

spec fn tells(next: RotateNext, rotated: Rotated) -> bool {
    match next {
        Next::Ask(rotate) => rotate.phase matches RotatePhase::Packing { rotated: r, .. } && r
            == Some(rotated),
        Next::Done(Ok(r)) => r == Some(rotated),
        Next::Done(Err(_)) => true,
    }
}

proof fn lemma_told(
    policy: Policy,
    suspend: Option<i32>,
    supported: bool,
    trace: LogTrace,
    p: int,
    rotated: Rotated,
)
    requires
        rotate_run(policy, suspend, supported, trace) is Some,
        0 <= p <= trace.len(),
        rotate_run(policy, suspend, supported, trace.take(p)) is Some,
        tells(rotate_run(policy, suspend, supported, trace.take(p))->0, rotated),
    ensures
        tells(rotate_run(policy, suspend, supported, trace)->0, rotated),
    decreases trace.len(),
{
    if trace.len() == p {
        assert(trace.take(p) =~= trace);
    } else {
        let before = trace.drop_last();
        assert(before.take(p) =~= trace.take(p));
        lemma_told(policy, suspend, supported, before, p, rotated);
    }
}

/// Whether a freeze of `group` was begun since the size of the live file was last asked
/// for, which is once for every file.
pub open spec fn freeze_begun(trace: LogTrace, group: i32) -> bool {
    exists|j: int| #[trigger] begun_at(trace, j, group)
}

/// Whether a freeze of `group` was begun with exchange `j`, for the file whose size was
/// last asked for.
pub open spec fn begun_at(trace: LogTrace, j: int, group: i32) -> bool {
    &&& 0 <= j < trace.len()
    &&& trace[j].0 == LogRequest::Freeze(FreezeRequest::WriteMarker(group))
    &&& forall|l: int| j < l < trace.len() ==> (#[trigger] trace[l]).0 != LogRequest::Measure
}

proof fn lemma_begun_grows(trace: LogTrace, group: i32)
    requires
        trace.len() > 0,
    ensures
        trace.last().0 == LogRequest::Freeze(FreezeRequest::WriteMarker(group)) ==> freeze_begun(
            trace,
            group,
        ),
        trace.last().0 != LogRequest::Measure && freeze_begun(trace.drop_last(), group)
            ==> freeze_begun(trace, group),
{
    let before = trace.drop_last();
    let n = trace.len() - 1;
    assert(trace[n] == trace.last());
    if trace.last().0 == LogRequest::Freeze(FreezeRequest::WriteMarker(group)) {
        assert(begun_at(trace, n, group));
    }
    if trace.last().0 != LogRequest::Measure && freeze_begun(before, group) {
        let j = choose|j: int| #[trigger] begun_at(before, j, group);
        assert forall|l: int| j < l < trace.len() implies (#[trigger] trace[l]).0
            != LogRequest::Measure by {
            if l < n {
                assert(before[l] == trace[l]);
            }
        }
        assert(begun_at(trace, j, group));
    }
}

/// Whether a copy that is to freeze `group` has begun to, where it is past that.
pub open spec fn copy_has_frozen(copy: CopyTruncate, trace: LogTrace, group: i32) -> bool {
    &&& copy.suspend == Some(group)
    &&& copy.supported
    &&& match copy.phase {
        CopyPhase::OpeningLive => true,
        CopyPhase::OpeningWrite => true,
        CopyPhase::Creating => true,
        CopyPhase::Bulk => true,
        CopyPhase::Syncing => true,
        CopyPhase::Freezing(freeze) => freeze is Marking || freeze_begun(trace, group),
        _ => freeze_begun(trace, group),
    }
}

/// A copy begins its freeze before it copies the tail.
pub proof fn a_copy_goes_on_frozen(copy: CopyTruncate, trace: LogTrace, group: i32)
    requires
        trace.len() > 0,
        copy_has_frozen(copy, trace.drop_last(), group),
        copy.asks() == trace.last().0,
        log_answers(trace.last().0, trace.last().1),
    ensures
        copy.after(trace.last().1) matches Next::Ask(after) ==> copy_has_frozen(
            after,
            trace,
            group,
        ),
{
    lemma_begun_grows(trace, group);
}

} // verus!

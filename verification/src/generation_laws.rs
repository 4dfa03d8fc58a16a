//! The course that a rotation takes through the generations of a log.

use vstd::prelude::*;
use crate::copy_laws::{rotate_asks, RotateNext};
use crate::host::Next;
use crate::rotate::{
    LogReply, LogRequest, PackStage, Policy, Rotate, RotatePhase, Slot,
};
use crate::rotate_laws::{log_answers, rotate_run, LogTrace};

verus! {

/// The move of a generation, plain or compressed, up to the next.
pub open spec fn moves_up(n: u32, packed: bool) -> LogRequest {
    if packed {
        LogRequest::Rename { from: Slot::Packed(n), to: Slot::Packed((n + 1) as u32) }
    } else {
        LogRequest::Rename { from: Slot::Plain(n), to: Slot::Plain((n + 1) as u32) }
    }
}

/// The move of a compressed generation that is complete to its name.
pub open spec fn completes(n: u32) -> LogRequest {
    LogRequest::Rename { from: Slot::Partial(n), to: Slot::Packed(n) }
}

/// Whether the size of the live file was asked for.
pub open spec fn measured(trace: LogTrace) -> bool {
    exists|i: int| 0 <= i < trace.len() && (#[trigger] trace[i]).0 == LogRequest::Measure
}

spec fn phase_fits(policy: Policy, phase: RotatePhase, seen: bool) -> bool {
    match phase {
        RotatePhase::Packing { n, rotated, .. } => {
            &&& policy.compress_after < n <= policy.max_keep
            &&& rotated is Some <==> seen
        },
        RotatePhase::Measuring => !seen,
        RotatePhase::ShiftingPlain { n, .. } => seen && 1 <= n < policy.max_keep,
        RotatePhase::ShiftingPacked { n, .. } => seen && 1 <= n < policy.max_keep,
        RotatePhase::DroppingPlain { .. } => seen && policy.max_keep > 0,
        RotatePhase::DroppingPacked { .. } => seen && policy.max_keep > 0,
        RotatePhase::Clearing { slot, .. } => seen && match slot {
            Slot::Plain(n) => n > policy.max_keep,
            Slot::Packed(n) => n > policy.max_keep,
            _ => false,
        },
        _ => seen,
    }
}

#[verifier::spinoff_prover]
proof fn lemma_fits(policy: Policy, rotate: Rotate, reply: LogReply, seen: bool)
    requires
        rotate.policy == policy,
        phase_fits(policy, rotate.phase, seen),
        log_answers(rotate.asks(), reply),
    ensures
        rotate.after(reply) matches Next::Ask(next) ==> next.policy == policy && phase_fits(
            policy,
            next.phase,
            seen || rotate.asks() == LogRequest::Measure,
        ),
{
    match rotate.phase {
        RotatePhase::Listing { size } => {
            if let LogReply::Listed { found, .. } = reply {
                lemma_first_past(found@, 0, policy.max_keep);
            }
        },
        RotatePhase::Clearing { listed, next, .. } => {
            lemma_first_past(listed@, next as int, policy.max_keep);
        },
        RotatePhase::Copying { .. } => {},
        RotatePhase::Packing { .. } => {},
        _ => {},
    }
}

/// Whether a generation is older than those that are kept.
pub open spec fn is_older(slot: Slot, keep: u32) -> bool {
    match slot {
        Slot::Plain(n) => n > keep,
        Slot::Packed(n) => n > keep,
        _ => false,
    }
}

proof fn lemma_first_past(listed: Seq<Slot>, from: int, keep: u32)
    requires
        0 <= from,
    ensures
        ({
            let i = crate::rotate::past_at(listed, from, keep);
            &&& i < listed.len() ==> from <= i && is_older(listed[i], keep)
            &&& forall|j: int| from <= j < i && j < listed.len() ==> !is_older(#[trigger] listed[j], keep)
            &&& i <= listed.len()
        }),
    decreases listed.len() - from,
{
    if from < listed.len() && !crate::rotate::is_past(listed[from], keep) {
        lemma_first_past(listed, from + 1, keep);
    }
}

proof fn lemma_rotation_fits(
    policy: Policy,
    suspend: Option<i32>,
    supported: bool,
    trace: LogTrace,
)
    requires
        rotate_run(policy, suspend, supported, trace) is Some,
    ensures
        rotate_run(policy, suspend, supported, trace) matches Some(Next::Ask(rotate)) ==> rotate.policy
            == policy && phase_fits(policy, rotate.phase, measured(trace)),
    decreases trace.len(),
{
    if trace.len() > 0 {
        let before = trace.drop_last();
        lemma_rotation_fits(policy, suspend, supported, before);
        let rotate = rotate_run(policy, suspend, supported, before)->0->Ask_0;
        lemma_fits(policy, rotate, trace.last().1, measured(before));
        lemma_measured(trace);
    }
}

proof fn lemma_measured(trace: LogTrace)
    requires
        trace.len() > 0,
    ensures
        measured(trace) <==> measured(trace.drop_last()) || trace.last().0 == LogRequest::Measure,
{
    let before = trace.drop_last();
    if measured(before) {
        let i = choose|i: int| 0 <= i < before.len() && (#[trigger] before[i]).0 == LogRequest::Measure;
        assert(trace[i] == before[i]);
    }
    if trace.last().0 == LogRequest::Measure {
        assert(trace[trace.len() - 1].0 == LogRequest::Measure);
    }
    if measured(trace) {
        let i = choose|i: int| 0 <= i < trace.len() && (#[trigger] trace[i]).0 == LogRequest::Measure;
        if i < trace.len() - 1 {
            assert(before[i] == trace[i]);
        }
    }
}

proof fn lemma_who(rotate: Rotate)
    ensures
        match rotate.asks() {
            LogRequest::Exists(Slot::Plain(n)) => rotate.phase matches RotatePhase::Packing {
                n: m,
                stage: PackStage::Looking,
                ..
            } && m == n,
            LogRequest::Compress(n) => rotate.phase matches RotatePhase::Packing {
                n: m,
                stage: PackStage::Compressing,
                ..
            } && m == n,
            LogRequest::Rename { from: Slot::Partial(n), .. } => rotate.phase
                matches RotatePhase::Packing { n: m, stage: PackStage::Renaming, .. } && m == n,
            LogRequest::Rename { from: Slot::Plain(n), .. } => rotate.phase
                matches RotatePhase::ShiftingPlain { n: m, .. } && m == n,
            LogRequest::Rename { from: Slot::Packed(n), .. } => rotate.phase
                matches RotatePhase::ShiftingPacked { n: m, .. } && m == n,
            LogRequest::Rename { .. } => false,
            LogRequest::Remove(slot) => match rotate.phase {
                RotatePhase::Packing { n, stage: PackStage::Removing, .. } => slot == Slot::Plain(
                    n,
                ),
                RotatePhase::Clearing { slot: s, .. } => slot == s,
                RotatePhase::DroppingPlain { .. } => slot == Slot::Plain(rotate.policy.max_keep),
                RotatePhase::DroppingPacked { .. } => slot == Slot::Packed(rotate.policy.max_keep),
                _ => false,
            },
            LogRequest::ListGenerations => rotate.phase is Listing,
            _ => true,
        },
{
}

/// What is asked next of the generations once generation `n` and those above it have
/// moved up: that the one below moves, or that the live file is opened.
pub open spec fn goes_down(next: RotateNext, n: u32) -> bool {
    if n > 1 {
        rotate_asks(next, moves_up((n - 1) as u32, false))
    } else {
        rotate_asks(next, LogRequest::OpenLive)
    }
}

/// Whether a file that need not be there was dealt with.
pub open spec fn dealt_with(reply: LogReply) -> bool {
    reply matches LogReply::Done(done) && match done {
        Ok(()) => true,
        Err(error) => error.missing,
    }
}

/// The generations move up one after the other, the older first: each first plain and then
/// compressed, and when the first has moved the live file's turn comes. A generation that
/// is not there is passed over, and any other failure ends the rotation with its message.
pub proof fn generations_move_from_the_oldest_down(
    policy: Policy,
    suspend: Option<i32>,
    supported: bool,
    trace: LogTrace,
)
    requires
        rotate_run(policy, suspend, supported, trace) is Some,
        trace.len() > 0,
    ensures
        ({
            let next = rotate_run(policy, suspend, supported, trace)->0;
            let reply = trace.last().1;
            match trace.last().0 {
                LogRequest::Rename { from: Slot::Plain(n), to } => {
                    &&& 1 <= n < policy.max_keep
                    &&& to == Slot::Plain((n + 1) as u32)
                    &&& if dealt_with(reply) {
                        rotate_asks(next, moves_up(n, true))
                    } else {
                        next == RotateNext::Done(Err(reply->Done_0->Err_0.message))
                    }
                },
                LogRequest::Rename { from: Slot::Packed(n), to } => {
                    &&& 1 <= n < policy.max_keep
                    &&& to == Slot::Packed((n + 1) as u32)
                    &&& if dealt_with(reply) {
                        goes_down(next, n)
                    } else {
                        next == RotateNext::Done(Err(reply->Done_0->Err_0.message))
                    }
                },
                LogRequest::Remove(Slot::Packed(n)) => n >= policy.max_keep && (n
                    == policy.max_keep ==> if dealt_with(reply) {
                    goes_down(next, n)
                } else {
                    next == RotateNext::Done(Err(reply->Done_0->Err_0.message))
                }),
                _ => true,
            }
        }),
{
    let before = trace.drop_last();
    lemma_rotation_fits(policy, suspend, supported, before);
    let rotate = rotate_run(policy, suspend, supported, before)->0->Ask_0;
    lemma_who(rotate);
}

/// A generation that is to be compressed is looked for; where it is there it is
/// compressed, what was made is given its name, and the plain file is removed. Any failure
/// of these ends the rotation with its message.
pub proof fn a_generation_is_compressed_in_steps(
    policy: Policy,
    suspend: Option<i32>,
    supported: bool,
    trace: LogTrace,
)
    requires
        rotate_run(policy, suspend, supported, trace) is Some,
        trace.len() > 0,
    ensures
        ({
            let next = rotate_run(policy, suspend, supported, trace)->0;
            let seen = measured(trace);
            match trace.last() {
                (LogRequest::Exists(Slot::Plain(n)), LogReply::Found(found)) => if found {
                    rotate_asks(next, LogRequest::Compress(n))
                } else {
                    goes_up(policy, next, n, seen)
                },
                (LogRequest::Compress(n), LogReply::Done(done)) => match done {
                    Ok(()) => rotate_asks(next, completes(n)),
                    Err(error) => next == RotateNext::Done(Err(error.message)),
                },
                (
                    LogRequest::Rename { from: Slot::Partial(n), to },
                    LogReply::Done(done),
                ) => to == Slot::Packed(n) && match done {
                    Ok(()) => rotate_asks(next, LogRequest::Remove(Slot::Plain(n))),
                    Err(error) => next == RotateNext::Done(Err(error.message)),
                },
                _ => true,
            }
        }),
{
    let before = trace.drop_last();
    lemma_rotation_fits(policy, suspend, supported, before);
    let rotate = rotate_run(policy, suspend, supported, before)->0->Ask_0;
    lemma_who(rotate);
    lemma_measured(trace);
}

/// What follows once generation `n` is compressed: the next generation up to `max_keep`
/// is looked for, and after the last the live file is measured, or, where it was, the
/// rotation is over.
pub open spec fn goes_up(policy: Policy, next: RotateNext, n: u32, seen: bool) -> bool {
    if n < policy.max_keep {
        rotate_asks(next, LogRequest::Exists(Slot::Plain((n + 1) as u32)))
    } else if seen {
        next matches Next::Done(Ok(Some(_)))
    } else {
        rotate_asks(next, LogRequest::Measure)
    }
}

/// The plain file of a generation that was compressed is removed, and then the next
/// generation's turn comes; it has to be there. The oldest that is kept is dropped, plain
/// and then compressed, where it is there.
pub proof fn a_plain_generation_is_removed(
    policy: Policy,
    suspend: Option<i32>,
    supported: bool,
    trace: LogTrace,
    n: u32,
)
    requires
        rotate_run(policy, suspend, supported, trace) is Some,
        trace.len() > 1,
        trace.last().0 == LogRequest::Remove(Slot::Plain(n)),
        n <= policy.max_keep,
    ensures
        ({
            let next = rotate_run(policy, suspend, supported, trace)->0;
            let reply = trace.last().1;
            if trace[trace.len() - 2].0 == completes(n) {
                match reply {
                    LogReply::Done(Ok(())) => goes_up(policy, next, n, measured(trace)),
                    LogReply::Done(Err(error)) => next == RotateNext::Done(Err(error.message)),
                    _ => false,
                }
            } else {
                &&& n == policy.max_keep
                &&& if dealt_with(reply) {
                    rotate_asks(next, LogRequest::Remove(Slot::Packed(n)))
                } else {
                    next == RotateNext::Done(Err(reply->Done_0->Err_0.message))
                }
            }
        }),
{
    let before = trace.drop_last();
    lemma_rotation_fits(policy, suspend, supported, before);
    let rotate = rotate_run(policy, suspend, supported, before)->0->Ask_0;
    lemma_who(rotate);
    lemma_measured(trace);
    lemma_rotation_fits(policy, suspend, supported, before.drop_last());
    let earlier = rotate_run(policy, suspend, supported, before.drop_last())->0->Ask_0;
    assert(before.last() == trace[trace.len() - 2]);
    lemma_removes(policy, earlier, before.last().1, rotate);
}

#[verifier::spinoff_prover]
proof fn lemma_removes(policy: Policy, rotate: Rotate, reply: LogReply, next: Rotate)
    requires
        rotate.policy == policy,
        log_answers(rotate.asks(), reply),
        rotate.after(reply) == RotateNext::Ask(next),
    ensures
        next.phase matches RotatePhase::Packing { n, stage: PackStage::Removing, .. }
            ==> rotate.asks() == completes(n),
        next.phase is DroppingPlain ==> !(rotate.asks() is Rename),
{
    match rotate.phase {
        RotatePhase::Copying { .. } => {},
        RotatePhase::Packing { .. } => {},
        _ => {},
    }
}

/// When the generations are listed, those that are older than the oldest that is kept are
/// removed, the first that was listed first; where there is none, the oldest that is kept
/// is dropped, or, where nothing is kept, the live file is opened to be truncated.
pub proof fn older_generations_are_removed_first(
    policy: Policy,
    suspend: Option<i32>,
    supported: bool,
    trace: LogTrace,
    found: Vec<Slot>,
    complete: bool,
    i: int,
)
    requires
        rotate_run(policy, suspend, supported, trace) is Some,
        trace.len() > 0,
        trace.last() == (LogRequest::ListGenerations, LogReply::Listed { found, complete }),
        0 <= i <= found@.len(),
        forall|j: int| 0 <= j < i ==> !is_older(#[trigger] found@[j], policy.max_keep),
        i < found@.len() ==> is_older(found@[i], policy.max_keep),
    ensures
        rotate_asks(
            rotate_run(policy, suspend, supported, trace)->0,
            if i < found@.len() {
                LogRequest::Remove(found@[i])
            } else if policy.max_keep == 0 {
                LogRequest::OpenToTruncate
            } else {
                LogRequest::Remove(Slot::Plain(policy.max_keep))
            },
        ),
{
    let before = trace.drop_last();
    lemma_rotation_fits(policy, suspend, supported, before);
    let rotate = rotate_run(policy, suspend, supported, before)->0->Ask_0;
    lemma_who(rotate);
    lemma_first_past(found@, 0, policy.max_keep);
    let first = crate::rotate::past_at(found@, 0, policy.max_keep);
    assert(first == i) by {
        if i < first {
            assert(!is_older(found@[i], policy.max_keep));
        } else if first < i {
            assert(is_older(found@[first], policy.max_keep));
        }
    }
}

} // verus!

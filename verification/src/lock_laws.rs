//! What the guard's locks keep apart.
//!
//! The lock itself is the system's: a file that one handle has locked is refused to every
//! other until that handle is closed. What follows for the guard from answers that are
//! given by this rule is stated here.

use vstd::prelude::*;
use vstd::string::*;
use vstd::utf8::*;
use crate::paths::{bytes_of, is_absolute, joined};
use crate::supervise::{lock_outcome, turn_of, LockSeen, Turn, GUARD_LOCK, ROTATION_LOCK};

verus! {

/// What happens to lock files: a handle is opened and its lock asked for, or a handle is
/// closed.
pub enum LockEvent {
    Asked { handle: nat, path: Seq<u8>, seen: LockSeen },
    Closed { handle: nat },
}

/// The handle that holds the lock of a path after events.
pub open spec fn holder(events: Seq<LockEvent>, path: Seq<u8>) -> Option<nat>
    decreases events.len(),
{
    if events.len() == 0 {
        None
    } else {
        let before = holder(events.drop_last(), path);
        match events.last() {
            LockEvent::Asked { handle, path: p, seen: LockSeen::Taken } if p == path => Some(
                handle,
            ),
            LockEvent::Closed { handle } if before == Some(handle) => None,
            _ => before,
        }
    }
}

/// Whether an event is what the system's rule allows: a lock is taken only where no handle
/// holds it, and is busy only where one does.
pub open spec fn keeps_the_rule(before: Seq<LockEvent>, event: LockEvent) -> bool {
    match event {
        LockEvent::Asked { path, seen: LockSeen::Taken, .. } => holder(before, path) is None,
        LockEvent::Asked { path, seen: LockSeen::Busy, .. } => holder(before, path) is Some,
        _ => true,
    }
}

/// Whether all events are what the system's rule allows.
pub open spec fn all_keep_the_rule(events: Seq<LockEvent>) -> bool {
    forall|i: int|
        0 <= i < events.len() ==> keeps_the_rule(events.take(i), #[trigger] events[i])
}

/// Whether locks can be opened and locked at all: then they are taken or busy.
pub open spec fn is_supported(seen: LockSeen) -> bool {
    seen is Taken || seen is Busy
}

/// The lock of a name is given where no handle holds it, and refused, without an error,
/// where one does.
pub proof fn a_lock_is_given_where_it_is_free(
    events: Seq<LockEvent>,
    i: int,
    handle: nat,
    dir: Seq<u8>,
    name: Seq<char>,
    seen: LockSeen,
)
    requires
        all_keep_the_rule(events),
        0 <= i < events.len(),
        events[i] == (LockEvent::Asked { handle, path: joined(dir, bytes_of(name)), seen }),
        is_supported(seen),
    ensures
        lock_outcome(dir, name, seen) == Ok::<bool, Seq<char>>(
            holder(events.take(i), joined(dir, bytes_of(name))) is None,
        ),
{
}

/// Whether a handle stays open from event `i` to event `j`.
pub open spec fn stays_open(events: Seq<LockEvent>, handle: nat, i: int, j: int) -> bool {
    forall|k: int| i <= k < j ==> #[trigger] events[k] != (LockEvent::Closed { handle })
}

/// A handle that holds a lock holds it until it is closed.
pub proof fn a_lock_is_held_until_its_handle_is_closed(
    events: Seq<LockEvent>,
    i: int,
    j: int,
    handle: nat,
    path: Seq<u8>,
)
    requires
        all_keep_the_rule(events),
        0 <= i <= j <= events.len(),
        holder(events.take(i), path) == Some(handle),
        stays_open(events, handle, i, j),
    ensures
        holder(events.take(j), path) == Some(handle),
    decreases j - i,
{
    if i < j {
        a_lock_is_held_until_its_handle_is_closed(events, i, j - 1, handle, path);
        assert(events.take(j).drop_last() =~= events.take(j - 1));
        assert(events.take(j).last() == events[j - 1]);
        assert(keeps_the_rule(events.take(j - 1), events[j - 1]));
    }
}

/// A lock whose handle is closed can be taken again.
pub proof fn a_closed_lock_is_free(events: Seq<LockEvent>, i: int, handle: nat, path: Seq<u8>)
    requires
        0 <= i < events.len(),
        events[i] == (LockEvent::Closed { handle }),
        holder(events.take(i), path) == Some(handle),
    ensures
        holder(events.take(i + 1), path) is None,
{
    assert(events.take(i + 1).drop_last() =~= events.take(i));
    assert(events.take(i + 1).last() == events[i]);
}

/// Asking for one lock does not affect another.
pub proof fn locks_do_not_affect_each_other(
    events: Seq<LockEvent>,
    i: int,
    handle: nat,
    path: Seq<u8>,
    other: Seq<u8>,
    seen: LockSeen,
)
    requires
        0 <= i < events.len(),
        events[i] == (LockEvent::Asked { handle, path, seen }),
        path != other,
    ensures
        holder(events.take(i + 1), other) == holder(events.take(i), other),
{
    assert(events.take(i + 1).drop_last() =~= events.take(i));
    assert(events.take(i + 1).last() == events[i]);
}

/// The two locks of the guard are different files.
pub proof fn the_guard_has_two_locks(dir: Seq<u8>)
    ensures
        joined(dir, bytes_of(GUARD_LOCK@)) != joined(dir, bytes_of(ROTATION_LOCK@)),
{
    reveal_strlit(".guard.lock");
    reveal_strlit(".guard.rotate.lock");
    let a = GUARD_LOCK@;
    let b = ROTATION_LOCK@;
    assert(is_ascii_chars(a));
    assert(is_ascii_chars(b));
    is_ascii_chars_encode_utf8(a);
    is_ascii_chars_encode_utf8(b);
    assert(!is_absolute(bytes_of(a)) && !is_absolute(bytes_of(b)));
    assert(joined(dir, bytes_of(a)).len() != joined(dir, bytes_of(b)).len());
}

/// Whether the lock at a path is taken by `handle` at event `i`, and asked for again at
/// event `j` while that handle is still open.
pub open spec fn overlaps(
    events: Seq<LockEvent>,
    i: int,
    j: int,
    handle: nat,
    path: Seq<u8>,
    seen: LockSeen,
) -> bool {
    &&& 0 <= i < j < events.len()
    &&& events[i] == (LockEvent::Asked { handle, path, seen: LockSeen::Taken })
    &&& events[j] matches LockEvent::Asked { path: p, seen: s, .. } && p == path && s == seen
    &&& stays_open(events, handle, i, j)
}

/// While one holds a lock, every other that asks for it is refused.
pub proof fn a_held_lock_is_refused(
    events: Seq<LockEvent>,
    i: int,
    j: int,
    handle: nat,
    dir: Seq<u8>,
    name: Seq<char>,
    seen: LockSeen,
)
    requires
        all_keep_the_rule(events),
        overlaps(events, i, j, handle, joined(dir, bytes_of(name)), seen),
        is_supported(seen),
    ensures
        lock_outcome(dir, name, seen) == Ok::<bool, Seq<char>>(false),
{
    let path = joined(dir, bytes_of(name));
    assert(events.take(i + 1).drop_last() =~= events.take(i));
    assert(events.take(i + 1).last() == events[i]);
    a_lock_is_held_until_its_handle_is_closed(events, i + 1, j, handle, path);
    assert(keeps_the_rule(events.take(j), events[j]));
}

/// Two runs of the guard do not overlap: while one that got its turn holds the lock, every
/// other leaves. Nor do two rotations.
pub proof fn two_runs_do_not_overlap(
    events: Seq<LockEvent>,
    i: int,
    j: int,
    handle: nat,
    config_dir: Seq<u8>,
    seen: LockSeen,
    turn: Turn,
)
    requires
        all_keep_the_rule(events),
        is_supported(seen),
    ensures
        overlaps(events, i, j, handle, joined(config_dir, bytes_of(GUARD_LOCK@)), seen) && turn_of(
            lock_outcome(config_dir, GUARD_LOCK@, seen),
            turn,
        ) ==> turn == Turn::Leave,
        overlaps(events, i, j, handle, joined(config_dir, bytes_of(ROTATION_LOCK@)), seen)
            && turn_of(lock_outcome(config_dir, ROTATION_LOCK@, seen), turn) ==> turn
            == Turn::Leave,
{
    if overlaps(events, i, j, handle, joined(config_dir, bytes_of(GUARD_LOCK@)), seen) {
        a_held_lock_is_refused(events, i, j, handle, config_dir, GUARD_LOCK@, seen);
    }
    if overlaps(events, i, j, handle, joined(config_dir, bytes_of(ROTATION_LOCK@)), seen) {
        a_held_lock_is_refused(events, i, j, handle, config_dir, ROTATION_LOCK@, seen);
    }
}

} // verus!

//! What a rotation does to the contents of a log's files.

use vstd::prelude::*;
use crate::host::Next;
use crate::rotate::{
    is_generation, is_past, next_generation, past_at, CompressionMethod, CopyPhase, CopyResult,
    CopyTruncate, LogReply, LogRequest, PackStage, Policy, Rotate, RotatePhase, RotateResult,
    Rotated, Slot, Truncation,
};
use crate::rotate_laws::{log_answers, rotate_run, LogTrace};

verus! {

/// What happens while a live file is copied: the guard makes a request that is
/// answered, or a writer appends to the live file.
pub enum Event {
    Exchange(LogRequest, LogReply),
    Appended(Seq<u8>),
}

/// The live file, how much of it was read, the newest generation, and all that was
/// ever written to the live file.
pub struct Contents {
    pub live: Seq<u8>,
    pub read: nat,
    pub copy: Seq<u8>,
    pub written: Seq<u8>,
}

/// The contents after a request of the copy that succeeded. One that fails ends the
/// copy with an error.
pub open spec fn contents_after(contents: Contents, request: LogRequest) -> Contents {
    match request {
        LogRequest::OpenLive => Contents { read: 0, ..contents },
        LogRequest::CreateCopy => Contents { copy: Seq::empty(), ..contents },
        LogRequest::CopyTail => Contents {
            copy: contents.copy + contents.live.skip(contents.read as int),
            read: contents.live.len(),
            ..contents
        },
        LogRequest::Truncate => Contents { live: Seq::empty(), ..contents },
        _ => contents,
    }
}

/// The contents after an event.
pub open spec fn contents_with(contents: Contents, event: Event) -> Contents {
    match event {
        Event::Exchange(request, LogReply::Done(Ok(_))) => contents_after(contents, request),
        Event::Exchange(..) => contents,
        Event::Appended(bytes) => Contents {
            live: contents.live + bytes,
            written: contents.written + bytes,
            ..contents
        },
    }
}

/// The contents after events, from a live file that holds `live`.
pub open spec fn contents_of(live: Seq<u8>, copy: Seq<u8>, events: Seq<Event>) -> Contents
    decreases events.len(),
{
    if events.len() == 0 {
        Contents { live, read: 0, copy, written: live }
    } else {
        contents_with(contents_of(live, copy, events.drop_last()), events.last())
    }
}

/// Where a copy stands after events, if it makes the requests in them and they are
/// answered.
pub open spec fn copy_run(suspend: Option<i32>, supported: bool, events: Seq<Event>) -> Option<
    Next<CopyTruncate, CopyResult>,
>
    decreases events.len(),
{
    if events.len() == 0 {
        Some(Next::Ask(CopyTruncate::begun(suspend, supported)))
    } else {
        let before = copy_run(suspend, supported, events.drop_last());
        match events.last() {
            Event::Appended(_) => before,
            Event::Exchange(request, reply) => match before {
                Some(Next::Ask(copy)) => if copy.asks() == request && log_answers(request, reply) {
                    Some(copy.after(reply))
                } else {
                    None
                },
                _ => None,
            },
        }
    }
}

/// Whether the copy is about to truncate the live file: everything that will be copied
/// has been.
pub open spec fn about_to_truncate(next: Option<Next<CopyTruncate, CopyResult>>) -> bool {
    next matches Some(Next::Ask(copy)) && copy.phase is Truncating
}

/// Whether the group has been seen to be stopped, and has not been resumed yet.
pub open spec fn is_frozen(next: Option<Next<CopyTruncate, CopyResult>>) -> bool {
    match next {
        Some(Next::Ask(copy)) => match copy.phase {
            CopyPhase::Tail { frozen, .. } => frozen is Some,
            CopyPhase::Truncating { frozen } => frozen is Some,
            CopyPhase::Timing(_) => true,
            _ => false,
        },
        _ => false,
    }
}

spec fn about_to_truncate_frozen(next: Option<Next<CopyTruncate, CopyResult>>) -> bool {
    next matches Some(Next::Ask(copy)) && copy.phase matches CopyPhase::Truncating {
        frozen,
    } && frozen is Some
}

/// Whether the copy is complete so far; `suspended` asks it only of a live file that
/// is truncated while the group is stopped.
spec fn copy_complete(
    next: Next<CopyTruncate, CopyResult>,
    contents: Contents,
    suspended: bool,
) -> bool {
    let whole = contents.copy + contents.live == contents.written;
    let reading = {
        &&& contents.live == contents.written
        &&& contents.read <= contents.live.len()
        &&& contents.copy == contents.live.take(contents.read as int)
    };
    match next {
        Next::Ask(copy) => match copy.phase {
            CopyPhase::OpeningLive => contents.live == contents.written,
            CopyPhase::OpeningWrite => contents.live == contents.written && contents.read == 0,
            CopyPhase::Creating => contents.live == contents.written && contents.read == 0,
            CopyPhase::Truncating { frozen } => reading && (!suspended || frozen is Some
                ==> contents.read == contents.live.len()),
            CopyPhase::Timing(_) => whole,
            CopyPhase::Thawing { end, .. } => end matches Ok(truncation) ==> whole && truncation
                is Suspended,
            CopyPhase::Finishing(truncation) => !suspended || truncation is Suspended ==> whole,
            _ => reading,
        },
        Next::Done(Ok(truncation)) => !suspended || truncation is Suspended ==> whole,
        Next::Done(Err(_)) => true,
    }
}

proof fn lemma_append(contents: Contents, bytes: Seq<u8>)
    ensures
        contents.copy + contents.live == contents.written ==> contents.copy + (contents.live
            + bytes) == contents.written + bytes,
        contents.read <= contents.live.len() ==> (contents.live + bytes).take(contents.read as int)
            == contents.live.take(contents.read as int),
{
    if contents.copy + contents.live == contents.written {
        assert(contents.copy + (contents.live + bytes) =~= (contents.copy + contents.live) + bytes);
    }
    if contents.read <= contents.live.len() {
        assert((contents.live + bytes).take(contents.read as int) =~= contents.live.take(
            contents.read as int,
        ));
    }
}

proof fn lemma_request(copy: CopyTruncate, contents: Contents, reply: LogReply, suspended: bool)
    requires
        copy_complete(Next::Ask(copy), contents, suspended),
        log_answers(copy.asks(), reply),
    ensures
        copy_complete(
            copy.after(reply),
            contents_with(contents, Event::Exchange(copy.asks(), reply)),
            suspended,
        ),
{
    let live = contents.live;
    let read = contents.read as int;
    assert(contents.read <= live.len() ==> live.take(read) + live.skip(read) =~= live);
    assert(live.take(live.len() as int) =~= live);
    assert(live.take(0) =~= Seq::<u8>::empty());
    assert(live + Seq::<u8>::empty() =~= live);
}

proof fn lemma_copy_complete(
    suspend: Option<i32>,
    supported: bool,
    live: Seq<u8>,
    copy: Seq<u8>,
    events: Seq<Event>,
    suspended: bool,
)
    requires
        copy_run(suspend, supported, events) is Some,
        forall|i: int|
            0 <= i < events.len() && #[trigger] events[i] is Appended ==> if suspended {
                !about_to_truncate_frozen(copy_run(suspend, supported, events.take(i)))
            } else {
                !about_to_truncate(copy_run(suspend, supported, events.take(i)))
            },
    ensures
        copy_complete(
            copy_run(suspend, supported, events)->0,
            contents_of(live, copy, events),
            suspended,
        ),
    decreases events.len(),
{
    if events.len() > 0 {
        let before = events.drop_last();
        let n = events.len() - 1;
        assert(events.take(n) =~= before);
        assert forall|i: int| 0 <= i < before.len() && #[trigger] before[i] is Appended implies if suspended {
            !about_to_truncate_frozen(copy_run(suspend, supported, before.take(i)))
        } else {
            !about_to_truncate(copy_run(suspend, supported, before.take(i)))
        } by {
            assert(events[i] == before[i]);
            assert(before.take(i) =~= events.take(i));
        }
        lemma_copy_complete(suspend, supported, live, copy, before, suspended);
        let contents = contents_of(live, copy, before);
        assert(events[n] == events.last());
        match events.last() {
            Event::Appended(bytes) => {
                lemma_append(contents, bytes);
            },
            Event::Exchange(request, reply) => {
                let state = copy_run(suspend, supported, before)->0->Ask_0;
                lemma_request(state, contents, reply, suspended);
            },
        }
    }
}

/// Nothing is lost by a copy that succeeds if nothing is appended between its last read
/// of the live file and the truncation: all that was ever written is in the newest
/// generation, or behind it in the live file.
pub proof fn a_quiet_copy_loses_nothing(
    suspend: Option<i32>,
    supported: bool,
    live: Seq<u8>,
    copy: Seq<u8>,
    events: Seq<Event>,
    truncation: Truncation,
)
    requires
        copy_run(suspend, supported, events) == Some(
            Next::<CopyTruncate, CopyResult>::Done(Ok(truncation)),
        ),
        forall|i: int|
            0 <= i < events.len() && #[trigger] events[i] is Appended ==> !about_to_truncate(
                copy_run(suspend, supported, events.take(i)),
            ),
    ensures
        contents_of(live, copy, events).copy + contents_of(live, copy, events).live == contents_of(
            live,
            copy,
            events,
        ).written,
{
    lemma_copy_complete(suspend, supported, live, copy, events, false);
}

/// Nothing is lost by a copy that reports that the group was suspended, if a stopped
/// group does not write: all that was ever written is in the newest generation, or
/// behind it in the live file.
pub proof fn a_suspended_copy_loses_nothing(
    suspend: Option<i32>,
    supported: bool,
    live: Seq<u8>,
    copy: Seq<u8>,
    events: Seq<Event>,
    nanos: u64,
)
    requires
        copy_run(suspend, supported, events) == Some(
            Next::<CopyTruncate, CopyResult>::Done(Ok(Truncation::Suspended(nanos))),
        ),
        forall|i: int|
            0 <= i < events.len() && #[trigger] events[i] is Appended ==> !is_frozen(
                copy_run(suspend, supported, events.take(i)),
            ),
    ensures
        contents_of(live, copy, events).copy + contents_of(live, copy, events).live == contents_of(
            live,
            copy,
            events,
        ).written,
{
    lemma_copy_complete(suspend, supported, live, copy, events, true);
}

spec fn copy_tells(next: Next<CopyTruncate, CopyResult>, suspend: Option<i32>) -> bool {
    match next {
        Next::Ask(copy) => copy.suspend == suspend && match copy.phase {
            CopyPhase::Freezing(_) => suspend is Some,
            CopyPhase::Tail { frozen, .. } => frozen is Some ==> suspend is Some,
            CopyPhase::Truncating { frozen } => frozen is Some ==> suspend is Some,
            CopyPhase::Timing(_) => suspend is Some,
            CopyPhase::Thawing { end, .. } => suspend is Some && (end matches Ok(truncation)
                ==> truncation is Suspended),
            CopyPhase::Finishing(truncation) => suspend is None <==> truncation is Plain,
            _ => true,
        },
        Next::Done(Ok(truncation)) => suspend is None <==> truncation is Plain,
        Next::Done(Err(_)) => true,
    }
}

/// A copy that succeeds says how it truncated: plainly if no suspension was asked for,
/// and otherwise with the group suspended or, where that could not be confirmed, without
/// it.
pub proof fn the_truncation_is_told(
    suspend: Option<i32>,
    supported: bool,
    events: Seq<Event>,
    truncation: Truncation,
)
    requires
        copy_run(suspend, supported, events) == Some(
            Next::<CopyTruncate, CopyResult>::Done(Ok(truncation)),
        ),
    ensures
        suspend is None <==> truncation == Truncation::Plain,
{
    lemma_copy_tells(suspend, supported, events);
}

proof fn lemma_copy_tells(suspend: Option<i32>, supported: bool, events: Seq<Event>)
    requires
        copy_run(suspend, supported, events) is Some,
    ensures
        copy_tells(copy_run(suspend, supported, events)->0, suspend),
    decreases events.len(),
{
    if events.len() > 0 {
        lemma_copy_tells(suspend, supported, events.drop_last());
    }
}

/// What a file of a log holds, and whether that is in compressed form.
pub struct Stored {
    pub bytes: Seq<u8>,
    pub packed: bool,
}

/// The files of a log while nobody writes to it: the live file, how much of it was read,
/// and the generations; what they were when the size of the live file was last asked for;
/// and what the generations were when the last pass of compression began.
pub struct Shelf {
    pub live: Seq<u8>,
    pub read: nat,
    pub files: Map<Slot, Stored>,
    pub taken: Seq<u8>,
    pub measured: Map<Slot, Stored>,
    pub pass: Map<Slot, Stored>,
}

/// The file in a slot, where there is one.
pub open spec fn at_slot(files: Map<Slot, Stored>, slot: Slot) -> Option<Stored> {
    if files.dom().contains(slot) {
        Some(files[slot])
    } else {
        None
    }
}

/// What is in a slot once something has been compressed.
pub open spec fn in_packed_form(stored: Stored) -> Stored {
    Stored { bytes: stored.bytes, packed: true }
}

/// The generations after a request of a rotation that succeeded.
pub open spec fn files_after(shelf: Shelf, request: LogRequest) -> Map<Slot, Stored> {
    let files = shelf.files;
    match request {
        LogRequest::CreateCopy => files.insert(
            Slot::Plain(1),
            Stored { bytes: Seq::empty(), packed: false },
        ),
        LogRequest::CopyTail => files.insert(
            Slot::Plain(1),
            Stored {
                bytes: files[Slot::Plain(1)].bytes + shelf.live.skip(shelf.read as int),
                packed: false,
            },
        ),
        LogRequest::Remove(slot) => files.remove(slot),
        LogRequest::Rename { from, to } => files.remove(from).insert(to, files[from]),
        LogRequest::Compress(n) => files.insert(
            Slot::Partial(n),
            in_packed_form(files[Slot::Plain(n)]),
        ),
        _ => files,
    }
}

/// The files after a request of a rotation that succeeded.
pub open spec fn shelf_after(shelf: Shelf, request: LogRequest) -> Shelf {
    Shelf {
        live: if request == LogRequest::Truncate {
            Seq::empty()
        } else {
            shelf.live
        },
        read: match request {
            LogRequest::OpenLive => 0,
            LogRequest::CopyTail => shelf.live.len(),
            _ => shelf.read,
        },
        files: files_after(shelf, request),
        ..shelf
    }
}

/// The files after an exchange.
pub open spec fn shelf_with(shelf: Shelf, policy: Policy, exchange: (LogRequest, LogReply)) -> Shelf {
    match exchange {
        (LogRequest::Measure, _) => Shelf { measured: shelf.files, taken: shelf.live, ..shelf },
        (LogRequest::Exists(slot), _) => if policy.first_packed() matches Some(n) && slot
            == Slot::Plain(n) {
            Shelf { pass: shelf.files, ..shelf }
        } else {
            shelf
        },
        (request, LogReply::Done(Ok(_))) => shelf_after(shelf, request),
        _ => shelf,
    }
}

/// The files after an exchange of requests and answers, from a live file that holds
/// `live` and the generations in `files`.
pub open spec fn shelf_of(
    live: Seq<u8>,
    files: Map<Slot, Stored>,
    policy: Policy,
    trace: LogTrace,
) -> Shelf
    decreases trace.len(),
{
    if trace.len() == 0 {
        Shelf { live, read: 0, files, taken: live, measured: files, pass: files }
    } else {
        shelf_with(shelf_of(live, files, policy, trace.drop_last()), policy, trace.last())
    }
}

/// Whether what was found are generations that are there, and all of them where the list
/// is said to be complete.
pub open spec fn lists(found: Seq<Slot>, complete: bool, files: Map<Slot, Stored>) -> bool {
    forall|slot: Slot|
        {
            &&& #[trigger] found.contains(slot) ==> is_generation(slot) && files.dom().contains(
                slot,
            )
            &&& complete && is_generation(slot) && files.dom().contains(slot) ==> found.contains(
                slot,
            )
        }
}

/// Whether an answer agrees with the files: what succeeds has what it works on, what is
/// said to be missing is missing, and what is listed is there.
pub open spec fn is_true_of(files: Map<Slot, Stored>, exchange: (LogRequest, LogReply)) -> bool {
    let needs = match exchange.0 {
        LogRequest::Exists(slot) => Some(slot),
        LogRequest::Remove(slot) => Some(slot),
        LogRequest::Rename { from, .. } => Some(from),
        LogRequest::Compress(n) => Some(Slot::Plain(n)),
        _ => None,
    };
    match (needs, exchange.1) {
        (_, LogReply::Listed { found, complete }) => lists(found@, complete, files),
        (Some(slot), LogReply::Found(found)) => found == files.dom().contains(slot),
        (Some(slot), LogReply::Done(Ok(_))) => files.dom().contains(slot),
        (Some(slot), LogReply::Done(Err(error))) => error.missing ==> !files.dom().contains(slot),
        _ => true,
    }
}

/// Whether every answer agrees with the files.
pub open spec fn is_true(
    live: Seq<u8>,
    files: Map<Slot, Stored>,
    policy: Policy,
    trace: LogTrace,
) -> bool {
    forall|i: int|
        0 <= i < trace.len() ==> is_true_of(
            shelf_of(live, files, policy, trace.take(i)).files,
            #[trigger] trace[i],
        )
}

proof fn lemma_true_before(
    live: Seq<u8>,
    files: Map<Slot, Stored>,
    policy: Policy,
    trace: LogTrace,
)
    requires
        is_true(live, files, policy, trace),
        trace.len() > 0,
    ensures
        is_true(live, files, policy, trace.drop_last()),
        is_true_of(shelf_of(live, files, policy, trace.drop_last()).files, trace.last()),
{
    let before = trace.drop_last();
    let n = trace.len() - 1;
    assert(trace.take(n) =~= before);
    assert(trace[n] == trace.last());
    assert forall|i: int| 0 <= i < before.len() implies is_true_of(
        shelf_of(live, files, policy, before.take(i)).files,
        #[trigger] before[i],
    ) by {
        assert(before.take(i) =~= trace.take(i));
        assert(before[i] == trace[i]);
    }
}

/// Whether every generation above `plain`, and every compressed one above `packed`, has
/// moved up by one, up to `keep`.
pub open spec fn moved_up(
    before: Map<Slot, Stored>,
    after: Map<Slot, Stored>,
    keep: u32,
    plain: int,
    packed: int,
) -> bool {
    &&& forall|k: u32|
        1 <= k <= keep ==> #[trigger] at_slot(after, Slot::Plain(k)) == if k <= plain {
            at_slot(before, Slot::Plain(k))
        } else if k == plain + 1 {
            None
        } else {
            at_slot(before, Slot::Plain((k - 1) as u32))
        }
    &&& forall|k: u32|
        1 <= k <= keep ==> #[trigger] at_slot(after, Slot::Packed(k)) == if k <= packed {
            at_slot(before, Slot::Packed(k))
        } else if k == packed + 1 {
            None
        } else {
            at_slot(before, Slot::Packed((k - 1) as u32))
        }
}

/// Whether every generation from `first` on and below `n` is in compressed form where it
/// was not, and everything else up to `keep` is as it was.
pub open spec fn packed_up(
    before: Map<Slot, Stored>,
    after: Map<Slot, Stored>,
    first: int,
    n: int,
    keep: int,
) -> bool {
    forall|k: u32|
        1 <= k <= keep ==> {
            &&& #[trigger] at_slot(after, Slot::Plain(k)) == if first <= k < n {
                None
            } else {
                at_slot(before, Slot::Plain(k))
            }
            &&& at_slot(after, Slot::Packed(k)) == if first <= k < n && before.dom().contains(
                Slot::Plain(k),
            ) {
                Some(in_packed_form(before[Slot::Plain(k)]))
            } else {
                at_slot(before, Slot::Packed(k))
            }
        }
}

spec fn packing_holds(
    shelf: Shelf,
    policy: Policy,
    n: u32,
    stage: PackStage,
) -> bool {
    let first = policy.first_packed();
    &&& first is Some
    &&& first->0 <= n <= policy.max_keep
    &&& stage is Looking && n == first->0 || {
        let from = first->0 as int;
        let keep = policy.max_keep as int;
        match stage {
            PackStage::Looking => packed_up(shelf.pass, shelf.files, from, n as int, keep),
            PackStage::Compressing => {
                &&& packed_up(shelf.pass, shelf.files, from, n as int, keep)
                &&& shelf.files.dom().contains(Slot::Plain(n))
            },
            PackStage::Renaming => {
                &&& packed_up(shelf.pass, shelf.files, from, n as int, keep)
                &&& shelf.files.dom().contains(Slot::Plain(n))
                &&& at_slot(shelf.files, Slot::Partial(n)) == Some(
                    in_packed_form(shelf.pass[Slot::Plain(n)]),
                )
            },
            PackStage::Removing => {
                &&& packed_up(
                    shelf.pass,
                    shelf.files.remove(Slot::Plain(n)),
                    from,
                    n + 1,
                    keep,
                )
                &&& shelf.pass.dom().contains(Slot::Plain(n))
            },
        }
    }
}

spec fn shelf_holds(shelf: Shelf, policy: Policy, next: Next<Rotate, RotateResult>) -> bool {
    let keep = policy.max_keep;
    match next {
        Next::Ask(rotate) => {
            &&& rotate.policy == policy
            &&& match rotate.phase {
                RotatePhase::Packing { n, stage, .. } => packing_holds(shelf, policy, n, stage),
                RotatePhase::Measuring => pass_done(shelf, policy),
                RotatePhase::Listing { .. } => shelf.files == shelf.measured,
                RotatePhase::Clearing { slot, .. } => {
                    &&& is_past(slot, keep)
                    &&& moved_up(shelf.measured, shelf.files, keep, keep as int, keep as int)
                },
                RotatePhase::OpeningEmpty { .. } => keep == 0,
                RotatePhase::Emptying { .. } => keep == 0,
                RotatePhase::DroppingPlain { .. } => {
                    &&& keep > 0
                    &&& moved_up(shelf.measured, shelf.files, keep, keep as int, keep as int)
                },
                RotatePhase::DroppingPacked { .. } => {
                    &&& keep > 0
                    &&& moved_up(shelf.measured, shelf.files, keep, keep - 1, keep as int)
                },
                RotatePhase::ShiftingPlain { n, .. } => {
                    &&& 1 <= n < keep
                    &&& moved_up(shelf.measured, shelf.files, keep, n as int, n as int)
                },
                RotatePhase::ShiftingPacked { n, .. } => {
                    &&& 1 <= n < keep
                    &&& moved_up(shelf.measured, shelf.files, keep, n - 1, n as int)
                },
                RotatePhase::Copying { copy, .. } => copy.phase is OpeningLive ==> moved_up(
                    shelf.measured,
                    shelf.files,
                    keep,
                    0,
                    0,
                ),
            }
        },
        Next::Done(Ok(_)) => pass_done(shelf, policy),
        Next::Done(Err(_)) => true,
    }
}

/// Whether the last pass of compression has dealt with every generation that is to be
/// compressed.
spec fn pass_done(shelf: Shelf, policy: Policy) -> bool {
    policy.first_packed() matches Some(n) ==> packed_up(
        shelf.pass,
        shelf.files,
        n as int,
        policy.max_keep + 1,
        policy.max_keep as int,
    )
}

proof fn lemma_past_at(listed: Seq<Slot>, from: int, keep: u32)
    requires
        0 <= from,
    ensures
        ({
            let i = past_at(listed, from, keep);
            &&& 0 <= i <= listed.len()
            &&& from <= listed.len() ==> from <= i
            &&& i < listed.len() ==> is_past(listed[i], keep)
            &&& forall|j: int| from <= j < i ==> !is_past(#[trigger] listed[j], keep)
        }),
    decreases listed.len() - from,
{
    if from < listed.len() && !is_past(listed[from], keep) {
        lemma_past_at(listed, from + 1, keep);
    }
}

/// The requests that clear away what is past `max_keep` leave the rest alone.
proof fn lemma_clear(shelf: Shelf, policy: Policy, rotate: Rotate, reply: LogReply)
    requires
        shelf_holds(shelf, policy, Next::Ask(rotate)),
        log_answers(rotate.asks(), reply),
        rotate.phase is Listing || rotate.phase is Clearing,
    ensures
        shelf_holds(
            shelf_with(shelf, policy, (rotate.asks(), reply)),
            policy,
            rotate.after(reply),
        ),
{
    let keep = policy.max_keep;
    let after = shelf_with(shelf, policy, (rotate.asks(), reply));
    assert forall|k: u32| 1 <= k <= keep implies #[trigger] at_slot(after.files, Slot::Plain(k))
        == at_slot(shelf.files, Slot::Plain(k)) by {}
    assert forall|k: u32| 1 <= k <= keep implies #[trigger] at_slot(after.files, Slot::Packed(k))
        == at_slot(shelf.files, Slot::Packed(k)) by {}
    match (rotate.phase, reply) {
        (RotatePhase::Listing { .. }, LogReply::Listed { found, .. }) => {
            lemma_past_at(found@, 0, keep);
        },
        (RotatePhase::Clearing { listed, next, .. }, _) => {
            lemma_past_at(listed@, next as int, keep);
        },
        _ => {},
    }
}

proof fn lemma_shift_plain(
    before: Map<Slot, Stored>,
    files: Map<Slot, Stored>,
    after: Map<Slot, Stored>,
    keep: u32,
    n: u32,
    reply: LogReply,
)
    requires
        1 <= n < keep,
        moved_up(before, files, keep, n as int, n as int),
        is_true_of(
            files,
            (LogRequest::Rename { from: Slot::Plain(n), to: Slot::Plain((n + 1) as u32) }, reply),
        ),
        match reply {
            LogReply::Done(Ok(_)) => after == files.remove(Slot::Plain(n)).insert(
                Slot::Plain((n + 1) as u32),
                files[Slot::Plain(n)],
            ),
            LogReply::Done(Err(error)) => error.missing && after == files,
            _ => false,
        },
    ensures
        moved_up(before, after, keep, n - 1, n as int),
{
    assert(at_slot(files, Slot::Plain(n)) == at_slot(before, Slot::Plain(n)));
    assert forall|k: u32| 1 <= k <= keep implies #[trigger] at_slot(after, Slot::Plain(k)) == if k
        <= n - 1 {
        at_slot(before, Slot::Plain(k))
    } else if k == n {
        None
    } else {
        at_slot(before, Slot::Plain((k - 1) as u32))
    } by {
        let held = at_slot(files, Slot::Plain(k));
    }
    assert forall|k: u32| 1 <= k <= keep implies #[trigger] at_slot(after, Slot::Packed(k))
        == at_slot(files, Slot::Packed(k)) by {}
}

proof fn lemma_shift_packed(
    before: Map<Slot, Stored>,
    files: Map<Slot, Stored>,
    after: Map<Slot, Stored>,
    keep: u32,
    n: u32,
    reply: LogReply,
)
    requires
        1 <= n < keep,
        moved_up(before, files, keep, n - 1, n as int),
        is_true_of(
            files,
            (LogRequest::Rename { from: Slot::Packed(n), to: Slot::Packed((n + 1) as u32) }, reply),
        ),
        match reply {
            LogReply::Done(Ok(_)) => after == files.remove(Slot::Packed(n)).insert(
                Slot::Packed((n + 1) as u32),
                files[Slot::Packed(n)],
            ),
            LogReply::Done(Err(error)) => error.missing && after == files,
            _ => false,
        },
    ensures
        moved_up(before, after, keep, n - 1, n - 1),
{
    assert(at_slot(files, Slot::Packed(n)) == at_slot(before, Slot::Packed(n)));
    assert forall|k: u32| 1 <= k <= keep implies #[trigger] at_slot(after, Slot::Packed(k)) == if k
        <= n - 1 {
        at_slot(before, Slot::Packed(k))
    } else if k == n {
        None
    } else {
        at_slot(before, Slot::Packed((k - 1) as u32))
    } by {
        let held = at_slot(files, Slot::Packed(k));
    }
    assert forall|k: u32| 1 <= k <= keep implies #[trigger] at_slot(after, Slot::Plain(k))
        == at_slot(files, Slot::Plain(k)) by {}
}

/// The requests that move generations up keep to the plan.
proof fn lemma_shift(shelf: Shelf, policy: Policy, rotate: Rotate, reply: LogReply)
    requires
        shelf_holds(shelf, policy, Next::Ask(rotate)),
        log_answers(rotate.asks(), reply),
        is_true_of(shelf.files, (rotate.asks(), reply)),
        rotate.phase is DroppingPlain || rotate.phase is DroppingPacked || rotate.phase
            is ShiftingPlain || rotate.phase is ShiftingPacked,
    ensures
        shelf_holds(
            shelf_with(shelf, policy, (rotate.asks(), reply)),
            policy,
            rotate.after(reply),
        ),
{
    let keep = policy.max_keep;
    let exchange = (rotate.asks(), reply);
    let after = shelf_with(shelf, policy, exchange);
    match rotate.phase {
        RotatePhase::DroppingPlain { .. } => {
            assert forall|k: u32| 1 <= k <= keep implies #[trigger] at_slot(
                after.files,
                Slot::Packed(k),
            ) == at_slot(shelf.files, Slot::Packed(k)) by {}
            assert forall|k: u32| 1 <= k < keep implies #[trigger] at_slot(
                after.files,
                Slot::Plain(k),
            ) == at_slot(shelf.files, Slot::Plain(k)) by {}
            assert(rotate.after(reply) is Ask ==> moved_up(
                shelf.measured,
                after.files,
                keep,
                keep - 1,
                keep as int,
            ));
        },
        RotatePhase::DroppingPacked { .. } => {
            assert forall|k: u32| 1 <= k <= keep implies #[trigger] at_slot(
                after.files,
                Slot::Plain(k),
            ) == at_slot(shelf.files, Slot::Plain(k)) by {}
            assert forall|k: u32| 1 <= k < keep implies #[trigger] at_slot(
                after.files,
                Slot::Packed(k),
            ) == at_slot(shelf.files, Slot::Packed(k)) by {}
            assert(rotate.after(reply) is Ask ==> moved_up(
                shelf.measured,
                after.files,
                keep,
                keep - 1,
                keep - 1,
            ));
        },
        RotatePhase::ShiftingPlain { n, .. } => {
            assert(next_generation(n) == n + 1);
            if rotate.after(reply) is Ask {
                lemma_shift_plain(shelf.measured, shelf.files, after.files, keep, n, reply);
            }
        },
        RotatePhase::ShiftingPacked { n, .. } => {
            assert(next_generation(n) == n + 1);
            if rotate.after(reply) is Ask {
                lemma_shift_packed(shelf.measured, shelf.files, after.files, keep, n, reply);
            }
        },
        _ => {},
    }
}

/// A pass that has dealt with generation `n` has dealt with all up to it.
proof fn lemma_pass_goes_on(
    before: Map<Slot, Stored>,
    files: Map<Slot, Stored>,
    first: int,
    n: u32,
    keep: int,
)
    requires
        1 <= first <= n <= keep,
        packed_up(before, files, first, n as int, keep),
        !files.dom().contains(Slot::Plain(n)),
    ensures
        packed_up(before, files, first, n + 1, keep),
{
    assert(at_slot(files, Slot::Plain(n)) == at_slot(before, Slot::Plain(n)));
    assert forall|k: u32| 1 <= k <= keep implies {
        &&& #[trigger] at_slot(files, Slot::Plain(k)) == if first <= k < n + 1 {
            None
        } else {
            at_slot(before, Slot::Plain(k))
        }
        &&& at_slot(files, Slot::Packed(k)) == if first <= k < n + 1 && before.dom().contains(
            Slot::Plain(k),
        ) {
            Some(in_packed_form(before[Slot::Plain(k)]))
        } else {
            at_slot(before, Slot::Packed(k))
        }
    } by {}
}

/// Compressing does not touch what the pass has dealt with.
proof fn lemma_compressed(
    before: Map<Slot, Stored>,
    files: Map<Slot, Stored>,
    first: int,
    n: u32,
    keep: int,
    partial: Stored,
)
    requires
        1 <= first <= n <= keep,
        packed_up(before, files, first, n as int, keep),
    ensures
        packed_up(before, files.insert(Slot::Partial(n), partial), first, n as int, keep),
{
    let after = files.insert(Slot::Partial(n), partial);
    assert forall|k: u32| 1 <= k <= keep implies #[trigger] at_slot(after, Slot::Plain(k))
        == at_slot(files, Slot::Plain(k)) && at_slot(after, Slot::Packed(k)) == at_slot(
        files,
        Slot::Packed(k),
    ) by {}
}

/// Renaming the finished form of generation `n` leaves only its plain form to remove.
proof fn lemma_renamed(
    before: Map<Slot, Stored>,
    files: Map<Slot, Stored>,
    first: int,
    n: u32,
    keep: int,
)
    requires
        1 <= first <= n <= keep,
        packed_up(before, files, first, n as int, keep),
        files.dom().contains(Slot::Plain(n)),
        at_slot(files, Slot::Partial(n)) == Some(in_packed_form(before[Slot::Plain(n)])),
    ensures
        before.dom().contains(Slot::Plain(n)),
        packed_up(
            before,
            files.remove(Slot::Partial(n)).insert(
                Slot::Packed(n),
                files[Slot::Partial(n)],
            ).remove(Slot::Plain(n)),
            first,
            n + 1,
            keep,
        ),
{
    assert(at_slot(files, Slot::Plain(n)) == at_slot(before, Slot::Plain(n)));
    let after = files.remove(Slot::Partial(n)).insert(
        Slot::Packed(n),
        files[Slot::Partial(n)],
    ).remove(Slot::Plain(n));
    assert forall|k: u32| 1 <= k <= keep implies {
        &&& #[trigger] at_slot(after, Slot::Plain(k)) == if first <= k < n + 1 {
            None
        } else {
            at_slot(before, Slot::Plain(k))
        }
        &&& at_slot(after, Slot::Packed(k)) == if first <= k < n + 1 && before.dom().contains(
            Slot::Plain(k),
        ) {
            Some(in_packed_form(before[Slot::Plain(k)]))
        } else {
            at_slot(before, Slot::Packed(k))
        }
    } by {
        assert(at_slot(files, Slot::Plain(k)) == if first <= k < n {
            None
        } else {
            at_slot(before, Slot::Plain(k))
        });
    }
}

/// The requests that compress generations keep to the plan.
proof fn lemma_pack(
    shelf: Shelf,
    policy: Policy,
    rotate: Rotate,
    reply: LogReply,
    n: u32,
    stage: PackStage,
)
    requires
        rotate.policy == policy,
        rotate.phase matches RotatePhase::Packing { n: m, stage: t, .. } && m == n && t == stage,
        packing_holds(shelf, policy, n, stage),
        log_answers(rotate.asks(), reply),
        is_true_of(shelf.files, (rotate.asks(), reply)),
    ensures
        shelf_holds(
            shelf_with(shelf, policy, (rotate.asks(), reply)),
            policy,
            rotate.after(reply),
        ),
{
    let first = policy.first_packed()->0 as int;
    let keep = policy.max_keep as int;
    let after = shelf_with(shelf, policy, (rotate.asks(), reply));
    match stage {
        PackStage::Looking => {
            assert(after.files == shelf.files);
            if n == first {
                assert(packed_up(after.pass, after.files, first, n as int, keep));
            }
            if !shelf.files.dom().contains(Slot::Plain(n)) {
                lemma_pass_goes_on(after.pass, after.files, first, n, keep);
            }
        },
        PackStage::Compressing => {
            assert(at_slot(shelf.files, Slot::Plain(n)) == at_slot(shelf.pass, Slot::Plain(n)));
            lemma_compressed(
                shelf.pass,
                shelf.files,
                first,
                n,
                keep,
                in_packed_form(shelf.files[Slot::Plain(n)]),
            );
        },
        PackStage::Renaming => {
            lemma_renamed(shelf.pass, shelf.files, first, n, keep);
        },
        PackStage::Removing => {},
    }
}

proof fn lemma_copy_begins_once(copy: CopyTruncate, reply: LogReply)
    requires
        log_answers(copy.asks(), reply),
    ensures
        copy.after(reply) matches Next::Ask(after) ==> !(after.phase is OpeningLive),
{
}

proof fn lemma_shelf(
    live: Seq<u8>,
    files: Map<Slot, Stored>,
    policy: Policy,
    suspend: Option<i32>,
    supported: bool,
    trace: LogTrace,
)
    requires
        rotate_run(policy, suspend, supported, trace) is Some,
        is_true(live, files, policy, trace),
    ensures
        shelf_holds(
            shelf_of(live, files, policy, trace),
            policy,
            rotate_run(policy, suspend, supported, trace)->0,
        ),
    decreases trace.len(),
{
    if trace.len() > 0 {
        let before = trace.drop_last();
        lemma_true_before(live, files, policy, trace);
        lemma_shelf(live, files, policy, suspend, supported, before);
        let shelf = shelf_of(live, files, policy, before);
        let rotate = rotate_run(policy, suspend, supported, before)->0->Ask_0;
        let reply = trace.last().1;
        match rotate.phase {
            RotatePhase::Packing { n, stage, .. } => {
                lemma_pack(shelf, policy, rotate, reply, n, stage);
            },
            RotatePhase::Listing { .. } => {
                lemma_clear(shelf, policy, rotate, reply);
            },
            RotatePhase::Clearing { .. } => {
                lemma_clear(shelf, policy, rotate, reply);
            },
            RotatePhase::DroppingPlain { .. } => {
                lemma_shift(shelf, policy, rotate, reply);
            },
            RotatePhase::DroppingPacked { .. } => {
                lemma_shift(shelf, policy, rotate, reply);
            },
            RotatePhase::ShiftingPlain { .. } => {
                lemma_shift(shelf, policy, rotate, reply);
            },
            RotatePhase::ShiftingPacked { .. } => {
                lemma_shift(shelf, policy, rotate, reply);
            },
            RotatePhase::Copying { copy, .. } => {
                lemma_copy_begins_once(copy, reply);
            },
            _ => {},
        }
    }
}

/// Whether every generation is where the one before it was, plain or compressed.
pub open spec fn shifted_by_one(
    before: Map<Slot, Stored>,
    after: Map<Slot, Stored>,
    keep: u32,
) -> bool {
    &&& at_slot(after, Slot::Packed(1)) is None
    &&& forall|n: u32|
        1 <= n < keep ==> {
            &&& #[trigger] at_slot(before, Slot::Plain(n)) == at_slot(
                after,
                Slot::Plain((n + 1) as u32),
            )
            &&& at_slot(before, Slot::Packed(n)) == at_slot(after, Slot::Packed((n + 1) as u32))
        }
}

/// When the live file's turn comes, every generation has moved up by one, plain or
/// compressed, the oldest is gone, and there is room for the newest. Nothing else up to
/// `max_keep` was lost or changed.
pub proof fn generations_move_up(
    live: Seq<u8>,
    files: Map<Slot, Stored>,
    policy: Policy,
    suspend: Option<i32>,
    supported: bool,
    trace: LogTrace,
    rotate: Rotate,
)
    requires
        rotate_run(policy, suspend, supported, trace) == Some(
            Next::<Rotate, RotateResult>::Ask(rotate),
        ),
        rotate.phase matches RotatePhase::Copying { copy, .. } && copy.phase is OpeningLive,
        is_true(live, files, policy, trace),
    ensures
        ({
            let shelf = shelf_of(live, files, policy, trace);
            &&& at_slot(shelf.files, Slot::Plain(1)) is None
            &&& shifted_by_one(shelf.measured, shelf.files, policy.max_keep)
        }),
{
    lemma_shelf(live, files, policy, suspend, supported, trace);
    lemma_copy_has_room(policy, suspend, supported, trace);
    let shelf = shelf_of(live, files, policy, trace);
    assert(at_slot(shelf.files, Slot::Plain(1)) is None);
    assert(at_slot(shelf.files, Slot::Packed(1)) is None);
    assert forall|n: u32| 1 <= n < policy.max_keep implies {
        &&& #[trigger] at_slot(shelf.measured, Slot::Plain(n)) == at_slot(
            shelf.files,
            Slot::Plain((n + 1) as u32),
        )
        &&& at_slot(shelf.measured, Slot::Packed(n)) == at_slot(
            shelf.files,
            Slot::Packed((n + 1) as u32),
        )
    } by {
        let k = (n + 1) as u32;
        let plain = at_slot(shelf.files, Slot::Plain(k));
        let packed = at_slot(shelf.files, Slot::Packed(k));
    }
}

proof fn lemma_copy_has_room(
    policy: Policy,
    suspend: Option<i32>,
    supported: bool,
    trace: LogTrace,
)
    requires
        rotate_run(policy, suspend, supported, trace) is Some,
    ensures
        rotate_run(policy, suspend, supported, trace) matches Some(Next::Ask(rotate)) ==> {
            &&& rotate.policy == policy
            &&& rotate.phase is DroppingPlain || rotate.phase is DroppingPacked || rotate.phase
                is ShiftingPlain || rotate.phase is ShiftingPacked || rotate.phase is Copying
                ==> policy.max_keep >= 1
        },
    decreases trace.len(),
{
    if trace.len() > 0 {
        lemma_copy_has_room(policy, suspend, supported, trace.drop_last());
    }
}

/// However a rotation ends without an error, with the log rotated or left as it is, no
/// generation past `compress_after` is left uncompressed where compression is on: each
/// holds in compressed form what the last pass of compression found uncompressed, and
/// what was compressed already is unchanged.
pub proof fn old_generations_are_compressed(
    live: Seq<u8>,
    files: Map<Slot, Stored>,
    policy: Policy,
    suspend: Option<i32>,
    supported: bool,
    trace: LogTrace,
    rotated: Option<Rotated>,
    n: u32,
)
    requires
        rotate_run(policy, suspend, supported, trace) == Some(
            Next::<Rotate, RotateResult>::Done(Ok(rotated)),
        ),
        is_true(live, files, policy, trace),
        policy.compression == CompressionMethod::Gzip,
        policy.compress_after < n <= policy.max_keep,
    ensures
        ({
            let shelf = shelf_of(live, files, policy, trace);
            &&& at_slot(shelf.files, Slot::Plain(n)) is None
            &&& at_slot(shelf.files, Slot::Packed(n)) == match at_slot(shelf.pass, Slot::Plain(n)) {
                Some(stored) => Some(in_packed_form(stored)),
                None => at_slot(shelf.pass, Slot::Packed(n)),
            }
        }),
{
    lemma_shelf(live, files, policy, suspend, supported, trace);
    let shelf = shelf_of(live, files, policy, trace);
    let plain = at_slot(shelf.files, Slot::Plain(n));
}

/// Whether the newest generation holds `bytes`.
pub open spec fn newest_is(files: Map<Slot, Stored>, bytes: Seq<u8>) -> bool {
    at_slot(files, Slot::Plain(1)) == Some(Stored { bytes, packed: false })
}

spec fn copying_holds(shelf: Shelf, copy: CopyTruncate) -> bool {
    let begun = shelf.live == shelf.taken && shelf.read == 0;
    let copied = shelf.live == shelf.taken && shelf.read == shelf.live.len() && newest_is(
        shelf.files,
        shelf.taken,
    );
    let emptied = shelf.live.len() == 0 && newest_is(shelf.files, shelf.taken);
    match copy.phase {
        CopyPhase::OpeningLive => shelf.live == shelf.taken,
        CopyPhase::OpeningWrite => begun,
        CopyPhase::Creating => begun,
        CopyPhase::Bulk => begun && newest_is(shelf.files, Seq::empty()),
        CopyPhase::Timing(_) => emptied,
        CopyPhase::Thawing { end, .. } => end is Ok ==> emptied,
        CopyPhase::Finishing(_) => emptied,
        _ => copied,
    }
}

spec fn kept(shelf: Shelf, files: Map<Slot, Stored>, keep: u32) -> bool {
    &&& shifted_by_one(shelf.measured, files, keep)
    &&& newest_is(files, shelf.taken)
    &&& shelf.live.len() == 0
}

spec fn rotation_holds(shelf: Shelf, policy: Policy, next: Next<Rotate, RotateResult>) -> bool {
    let keep = policy.max_keep;
    match next {
        Next::Ask(rotate) => match rotate.phase {
            RotatePhase::Packing { n, stage, rotated: Some(_) } => {
                &&& keep >= 1
                &&& kept(
                    shelf,
                    if stage is Looking && policy.first_packed() == Some(n) {
                        shelf.files
                    } else {
                        shelf.pass
                    },
                    keep,
                )
            },
            RotatePhase::Listing { .. } => shelf.live == shelf.taken,
            RotatePhase::Clearing { .. } => shelf.live == shelf.taken,
            RotatePhase::DroppingPlain { .. } => shelf.live == shelf.taken,
            RotatePhase::DroppingPacked { .. } => shelf.live == shelf.taken,
            RotatePhase::ShiftingPlain { .. } => shelf.live == shelf.taken,
            RotatePhase::ShiftingPacked { .. } => shelf.live == shelf.taken,
            RotatePhase::Copying { copy, .. } => {
                &&& keep >= 1
                &&& copying_holds(shelf, copy)
                &&& shifted_by_one(shelf.measured, shelf.files, keep)
            },
            _ => true,
        },
        Next::Done(Ok(Some(_))) => keep >= 1 ==> kept(
            shelf,
            if policy.first_packed() is Some {
                shelf.pass
            } else {
                shelf.files
            },
            keep,
        ),
        Next::Done(_) => true,
    }
}

proof fn lemma_newest_changes(
    before: Map<Slot, Stored>,
    files: Map<Slot, Stored>,
    keep: u32,
    newest: Stored,
)
    requires
        shifted_by_one(before, files, keep),
    ensures
        shifted_by_one(before, files.insert(Slot::Plain(1), newest), keep),
{
    let after = files.insert(Slot::Plain(1), newest);
    assert forall|n: u32| 1 <= n < keep implies {
        &&& #[trigger] at_slot(before, Slot::Plain(n)) == at_slot(
            after,
            Slot::Plain((n + 1) as u32),
        )
        &&& at_slot(before, Slot::Packed(n)) == at_slot(after, Slot::Packed((n + 1) as u32))
    } by {}
}

proof fn lemma_copying(shelf: Shelf, policy: Policy, copy: CopyTruncate, reply: LogReply)
    requires
        copying_holds(shelf, copy),
        shifted_by_one(shelf.measured, shelf.files, policy.max_keep),
        log_answers(copy.asks(), reply),
    ensures
        ({
            let after = shelf_with(shelf, policy, (copy.asks(), reply));
            &&& after.measured == shelf.measured
            &&& after.taken == shelf.taken
            &&& match copy.after(reply) {
                Next::Ask(copy) => copying_holds(after, copy) && shifted_by_one(
                    after.measured,
                    after.files,
                    policy.max_keep,
                ),
                Next::Done(Ok(_)) => kept(after, after.files, policy.max_keep),
                Next::Done(Err(_)) => true,
            }
        }),
{
    let live = shelf.live;
    assert(Seq::<u8>::empty() + live.skip(0) =~= live);
    assert(live + live.skip(live.len() as int) =~= live);
    match copy.asks() {
        LogRequest::CreateCopy => {
            lemma_newest_changes(
                shelf.measured,
                shelf.files,
                policy.max_keep,
                Stored { bytes: Seq::empty(), packed: false },
            );
        },
        LogRequest::CopyTail => {
            lemma_newest_changes(
                shelf.measured,
                shelf.files,
                policy.max_keep,
                Stored {
                    bytes: shelf.files[Slot::Plain(1)].bytes + live.skip(shelf.read as int),
                    packed: false,
                },
            );
        },
        _ => {},
    }
}

proof fn lemma_rotation(
    live: Seq<u8>,
    files: Map<Slot, Stored>,
    policy: Policy,
    suspend: Option<i32>,
    supported: bool,
    trace: LogTrace,
)
    requires
        rotate_run(policy, suspend, supported, trace) is Some,
        is_true(live, files, policy, trace),
    ensures
        rotation_holds(
            shelf_of(live, files, policy, trace),
            policy,
            rotate_run(policy, suspend, supported, trace)->0,
        ),
    decreases trace.len(),
{
    lemma_copy_has_room(policy, suspend, supported, trace);
    if trace.len() > 0 {
        let before = trace.drop_last();
        lemma_true_before(live, files, policy, trace);
        lemma_rotation(live, files, policy, suspend, supported, before);
        lemma_copy_has_room(policy, suspend, supported, before);
        lemma_packing_is_asked(policy, suspend, supported, before);
        lemma_shelf(live, files, policy, suspend, supported, before);
        let shelf = shelf_of(live, files, policy, before);
        let rotate = rotate_run(policy, suspend, supported, before)->0->Ask_0;
        let reply = trace.last().1;
        match rotate.phase {
            RotatePhase::Copying { copy, .. } => {
                lemma_copying(shelf, policy, copy, reply);
            },
            RotatePhase::DroppingPacked { .. } => {
                if let Next::Ask(next) = rotate.after(reply) {
                    if next.phase is Copying {
                        generations_move_up(live, files, policy, suspend, supported, trace, next);
                    }
                }
            },
            RotatePhase::ShiftingPacked { .. } => {
                if let Next::Ask(next) = rotate.after(reply) {
                    if next.phase is Copying {
                        generations_move_up(live, files, policy, suspend, supported, trace, next);
                    }
                }
            },
            _ => {},
        }
    }
}

proof fn lemma_pass_keeps(
    before: Map<Slot, Stored>,
    files: Map<Slot, Stored>,
    first: u32,
    keep: u32,
    n: u32,
)
    requires
        packed_up(before, files, first as int, keep + 1, keep as int),
        1 <= n <= keep,
    ensures
        generation(before, n) == generation(files, n),
{
    let plain = at_slot(files, Slot::Plain(n));
}

/// What a generation holds, in whatever form; where there are both, the plain one counts.
pub open spec fn generation(files: Map<Slot, Stored>, n: u32) -> Option<Seq<u8>> {
    match at_slot(files, Slot::Plain(n)) {
        Some(stored) => Some(stored.bytes),
        None => match at_slot(files, Slot::Packed(n)) {
            Some(stored) => Some(stored.bytes),
            None => None,
        },
    }
}

spec fn same_generations(before: Map<Slot, Stored>, after: Map<Slot, Stored>, keep: u32) -> bool {
    forall|n: u32| 1 <= n <= keep ==> generation(after, n) == #[trigger] generation(before, n)
}

/// What is known of the files as the rotation found them.
spec fn origin_holds(
    live: Seq<u8>,
    files: Map<Slot, Stored>,
    shelf: Shelf,
    policy: Policy,
    next: Next<Rotate, RotateResult>,
) -> bool {
    let seen = shelf.taken == live && same_generations(files, shelf.measured, policy.max_keep);
    match next {
        Next::Ask(rotate) => match rotate.phase {
            RotatePhase::Packing { n, stage, rotated: None } => {
                &&& shelf.live == live
                &&& if stage is Looking && policy.first_packed() == Some(n) {
                    shelf.files == files
                } else {
                    shelf.pass == files
                }
            },
            RotatePhase::Measuring => {
                &&& shelf.live == live
                &&& if policy.first_packed() is Some {
                    shelf.pass == files
                } else {
                    shelf.files == files
                }
            },
            _ => seen,
        },
        Next::Done(Ok(Some(_))) => seen,
        Next::Done(_) => true,
    }
}

proof fn lemma_origin(
    live: Seq<u8>,
    files: Map<Slot, Stored>,
    policy: Policy,
    suspend: Option<i32>,
    supported: bool,
    trace: LogTrace,
)
    requires
        rotate_run(policy, suspend, supported, trace) is Some,
        is_true(live, files, policy, trace),
    ensures
        origin_holds(
            live,
            files,
            shelf_of(live, files, policy, trace),
            policy,
            rotate_run(policy, suspend, supported, trace)->0,
        ),
    decreases trace.len(),
{
    if trace.len() > 0 {
        let before = trace.drop_last();
        lemma_true_before(live, files, policy, trace);
        lemma_origin(live, files, policy, suspend, supported, before);
        lemma_shelf(live, files, policy, suspend, supported, before);
        let shelf = shelf_of(live, files, policy, before);
        let rotate = rotate_run(policy, suspend, supported, before)->0->Ask_0;
        if rotate.phase is Measuring {
            if let Some(first) = policy.first_packed() {
                assert forall|n: u32| 1 <= n <= policy.max_keep implies generation(shelf.files, n)
                    == #[trigger] generation(files, n) by {
                    lemma_pass_keeps(files, shelf.files, first, policy.max_keep, n);
                }
            }
        }
    }
}

/// After a rotation of a log that nobody writes to meanwhile, the live file is empty, the
/// newest generation holds what the live file held, and every other one holds what the
/// one before it held when the rotation began.
pub proof fn a_rotation_keeps_every_generation(
    live: Seq<u8>,
    files: Map<Slot, Stored>,
    policy: Policy,
    suspend: Option<i32>,
    supported: bool,
    trace: LogTrace,
    rotated: Rotated,
)
    requires
        rotate_run(policy, suspend, supported, trace) == Some(
            Next::<Rotate, RotateResult>::Done(Ok(Some(rotated))),
        ),
        is_true(live, files, policy, trace),
        policy.max_keep >= 1,
    ensures
        ({
            let shelf = shelf_of(live, files, policy, trace);
            &&& shelf.live.len() == 0
            &&& generation(shelf.files, 1) == Some(live)
            &&& forall|n: u32|
                1 <= n < policy.max_keep ==> generation(shelf.files, (n + 1) as u32)
                    == #[trigger] generation(files, n)
        }),
{
    lemma_rotation(live, files, policy, suspend, supported, trace);
    lemma_shelf(live, files, policy, suspend, supported, trace);
    lemma_origin(live, files, policy, suspend, supported, trace);
    let shelf = shelf_of(live, files, policy, trace);
    let keep = policy.max_keep;
    if let Some(first) = policy.first_packed() {
        lemma_pass_keeps(shelf.pass, shelf.files, first, keep, 1);
    }
    assert forall|n: u32| 1 <= n < keep implies generation(shelf.files, (n + 1) as u32)
        == #[trigger] generation(files, n) by {
        let plain = at_slot(shelf.measured, Slot::Plain(n));
        if let Some(first) = policy.first_packed() {
            lemma_pass_keeps(shelf.pass, shelf.files, first, keep, (n + 1) as u32);
        }
    }
}

/// Whether the host could not find all the generations.
pub open spec fn list_was_cut(trace: LogTrace) -> bool {
    exists|i: int|
        0 <= i < trace.len() && (#[trigger] trace[i]).1 matches LogReply::Listed {
            complete: false,
            ..
        }
}

/// Whether a file was to be removed and could not be, though it was there.
pub open spec fn removal_was_refused(trace: LogTrace, slot: Slot) -> bool {
    exists|i: int|
        0 <= i < trace.len() && (#[trigger] trace[i]).0 == LogRequest::Remove(slot) && {
            trace[i].1 matches LogReply::Done(Err(error)) && !error.missing
        }
}

/// Whether the host kept the guard from removing a file.
pub open spec fn is_out_of_reach(trace: LogTrace, slot: Slot) -> bool {
    list_was_cut(trace) || removal_was_refused(trace, slot)
}

spec fn none_past(files: Map<Slot, Stored>, keep: u32, trace: LogTrace) -> bool {
    forall|slot: Slot| #[trigger]
        is_past(slot, keep) && files.dom().contains(slot) ==> is_out_of_reach(trace, slot)
}

spec fn is_left(listed: Seq<Slot>, from: int, slot: Slot) -> bool {
    exists|j: int| from <= j < listed.len() && #[trigger] listed[j] == slot
}

/// Whether all that is past `keep` and within reach is listed, from `from` on, but for
/// `slot`.
spec fn past_is_left(
    files: Map<Slot, Stored>,
    keep: u32,
    trace: LogTrace,
    slot: Option<Slot>,
    listed: Seq<Slot>,
    from: int,
) -> bool {
    forall|other: Slot| #[trigger]
        is_past(other, keep) && files.dom().contains(other) ==> slot == Some(other) || is_left(
            listed,
            from,
            other,
        ) || is_out_of_reach(trace, other)
}

spec fn clear_holds(
    files: Map<Slot, Stored>,
    policy: Policy,
    trace: LogTrace,
    next: Next<Rotate, RotateResult>,
) -> bool {
    let keep = policy.max_keep;
    match next {
        Next::Ask(rotate) => {
            &&& rotate.policy == policy
            &&& match rotate.phase {
                RotatePhase::Packing { rotated: None, .. } => true,
                RotatePhase::Measuring => true,
                RotatePhase::Listing { .. } => true,
                RotatePhase::Clearing { slot, listed, next, .. } => past_is_left(
                    files,
                    keep,
                    trace,
                    Some(slot),
                    listed@,
                    next as int,
                ),
                _ => none_past(files, keep, trace),
            }
        },
        Next::Done(Ok(Some(_))) => none_past(files, keep, trace),
        Next::Done(_) => true,
    }
}

proof fn lemma_cleared(
    files: Map<Slot, Stored>,
    trace: LogTrace,
    rotate: Rotate,
    size: u64,
    listed: Vec<Slot>,
    from: usize,
)
    requires
        past_is_left(files, rotate.policy.max_keep, trace, None, listed@, from as int),
    ensures
        clear_holds(files, rotate.policy, trace, rotate.cleared(size, listed, from)),
{
    let keep = rotate.policy.max_keep;
    lemma_past_at(listed@, from as int, keep);
    let i = past_at(listed@, from as int, keep);
    assert(listed.len() == listed@.len());
    if i < listed@.len() {
        assert forall|other: Slot| #[trigger]
            is_past(other, keep) && files.dom().contains(other) implies Some(listed@[i]) == Some(
            other,
        ) || is_left(listed@, i + 1, other) || is_out_of_reach(trace, other) by {
            if is_left(listed@, from as int, other) {
                let j = choose|j: int| from <= j < listed@.len() && #[trigger] listed@[j] == other;
                assert(j >= i);
                if j > i {
                    assert(is_left(listed@, i + 1, other));
                }
            }
        }
    } else {
        assert forall|other: Slot| #[trigger]
            is_past(other, keep) && files.dom().contains(other) implies is_out_of_reach(
            trace,
            other,
        ) by {
            if is_left(listed@, from as int, other) {
                let j = choose|j: int| from <= j < listed@.len() && #[trigger] listed@[j] == other;
                assert(j < i);
            }
        }
    }
}

proof fn lemma_reach_grows(trace: LogTrace)
    requires
        trace.len() > 0,
    ensures
        trace.last().1 matches LogReply::Listed { complete: false, .. } ==> list_was_cut(trace),
        forall|slot: Slot| #[trigger]
            is_out_of_reach(trace.drop_last(), slot) ==> is_out_of_reach(trace, slot),
        forall|slot: Slot|
            trace.last().0 == LogRequest::Remove(slot) && (trace.last().1 matches LogReply::Done(
                Err(error),
            ) && !error.missing) ==> #[trigger] removal_was_refused(trace, slot),
{
    let before = trace.drop_last();
    let n = trace.len() - 1;
    assert(trace[n] == trace.last());
    assert(forall|i: int| 0 <= i < n ==> #[trigger] before[i] == trace[i]);
    if list_was_cut(before) {
        let i = choose|i: int|
            0 <= i < before.len() && (#[trigger] before[i]).1 matches LogReply::Listed {
                complete: false,
                ..
            };
        assert(trace[i] == before[i]);
    }
    assert forall|slot: Slot| #[trigger] is_out_of_reach(before, slot) implies is_out_of_reach(
        trace,
        slot,
    ) by {
        if removal_was_refused(before, slot) {
            let i = choose|i: int|
                0 <= i < before.len() && (#[trigger] before[i]).0 == LogRequest::Remove(slot) && {
                    before[i].1 matches LogReply::Done(Err(error)) && !error.missing
                };
            assert(trace[i] == before[i]);
        }
    }
}

proof fn lemma_clear_keeps(shelf: Shelf, policy: Policy, rotate: Rotate, trace: LogTrace)
    requires
        trace.len() > 0,
        clear_holds(shelf.files, policy, trace.drop_last(), Next::Ask(rotate)),
        shelf_holds(shelf, policy, Next::Ask(rotate)),
        rotate.phase is Copying ==> policy.max_keep >= 1,
        trace.last().0 == rotate.asks(),
        log_answers(rotate.asks(), trace.last().1),
        is_true_of(shelf.files, trace.last()),
    ensures
        clear_holds(
            shelf_with(shelf, policy, trace.last()).files,
            policy,
            trace,
            rotate.after(trace.last().1),
        ),
{
    let keep = policy.max_keep;
    let reply = trace.last().1;
    let after = shelf_with(shelf, policy, trace.last());
    lemma_reach_grows(trace);
    match rotate.phase {
        RotatePhase::Listing { size } => {
            if let LogReply::Listed { found, complete } = reply {
                assert forall|other: Slot| #[trigger]
                    is_past(other, keep) && after.files.dom().contains(other) implies is_left(
                    found@,
                    0,
                    other,
                ) || is_out_of_reach(trace, other) by {
                    if complete {
                        assert(found@.contains(other));
                        let j = choose|j: int| 0 <= j < found@.len() && found@[j] == other;
                        assert(found@[j] == other);
                    }
                }
                lemma_cleared(after.files, trace, rotate, size, found, 0);
            }
        },
        RotatePhase::Clearing { size, slot, listed, next } => {
            assert forall|other: Slot| #[trigger]
                is_past(other, keep) && after.files.dom().contains(other) implies is_left(
                listed@,
                next as int,
                other,
            ) || is_out_of_reach(trace, other) by {
                if other == slot {
                    assert(removal_was_refused(trace, slot));
                } else if is_out_of_reach(trace.drop_last(), other) {
                    assert(is_out_of_reach(trace, other));
                }
            }
            lemma_cleared(after.files, trace, rotate, size, listed, next);
        },
        _ => {
            assert forall|other: Slot| #[trigger]
                is_past(other, keep) && shelf.files.dom().contains(other) && is_out_of_reach(
                    trace.drop_last(),
                    other,
                ) implies is_out_of_reach(trace, other) by {}
        },
    }
}

proof fn lemma_past_is_cleared(
    live: Seq<u8>,
    files: Map<Slot, Stored>,
    policy: Policy,
    suspend: Option<i32>,
    supported: bool,
    trace: LogTrace,
)
    requires
        rotate_run(policy, suspend, supported, trace) is Some,
        is_true(live, files, policy, trace),
    ensures
        clear_holds(
            shelf_of(live, files, policy, trace).files,
            policy,
            trace,
            rotate_run(policy, suspend, supported, trace)->0,
        ),
    decreases trace.len(),
{
    if trace.len() > 0 {
        let before = trace.drop_last();
        lemma_true_before(live, files, policy, trace);
        lemma_past_is_cleared(live, files, policy, suspend, supported, before);
        lemma_shelf(live, files, policy, suspend, supported, before);
        lemma_copy_has_room(policy, suspend, supported, before);
        let shelf = shelf_of(live, files, policy, before);
        let rotate = rotate_run(policy, suspend, supported, before)->0->Ask_0;
        lemma_clear_keeps(shelf, policy, rotate, trace);
    }
}

/// After a rotation there is no generation past `max_keep`, plain or compressed, however
/// many there were before: none but those that the host could not find or would not
/// remove.
pub proof fn generations_past_max_keep_are_deleted(
    live: Seq<u8>,
    files: Map<Slot, Stored>,
    policy: Policy,
    suspend: Option<i32>,
    supported: bool,
    trace: LogTrace,
    rotated: Rotated,
    n: u32,
)
    requires
        rotate_run(policy, suspend, supported, trace) == Some(
            Next::<Rotate, RotateResult>::Done(Ok(Some(rotated))),
        ),
        is_true(live, files, policy, trace),
        n > policy.max_keep,
    ensures
        is_out_of_reach(trace, Slot::Plain(n)) || at_slot(
            shelf_of(live, files, policy, trace).files,
            Slot::Plain(n),
        ) is None,
        is_out_of_reach(trace, Slot::Packed(n)) || at_slot(
            shelf_of(live, files, policy, trace).files,
            Slot::Packed(n),
        ) is None,
{
    lemma_past_is_cleared(live, files, policy, suspend, supported, trace);
    assert(is_past(Slot::Plain(n), policy.max_keep));
    assert(is_past(Slot::Packed(n), policy.max_keep));
}

/// Whatever is answered when generations past `max_keep` are looked for or removed, the
/// rotation goes on.
pub proof fn clearing_never_stops_a_rotation(
    policy: Policy,
    suspend: Option<i32>,
    supported: bool,
    trace: LogTrace,
)
    requires
        rotate_run(policy, suspend, supported, trace) is Some,
        trace.len() > 0,
        match trace.last().0 {
            LogRequest::ListGenerations => true,
            LogRequest::Remove(slot) => is_past(slot, policy.max_keep),
            _ => false,
        },
    ensures
        rotate_run(policy, suspend, supported, trace)->0 is Ask,
{
    lemma_packing_is_asked(policy, suspend, supported, trace.drop_last());
}

/// Where compression is off, nothing is compressed.
pub proof fn nothing_is_compressed_unasked(
    policy: Policy,
    suspend: Option<i32>,
    supported: bool,
    trace: LogTrace,
    i: int,
    n: u32,
)
    requires
        rotate_run(policy, suspend, supported, trace) is Some,
        0 <= i < trace.len(),
        trace[i].0 == LogRequest::Compress(n),
    ensures
        policy.compression == CompressionMethod::Gzip,
        policy.compress_after < n <= policy.max_keep,
{
    lemma_rotate_prefix(policy, suspend, supported, trace, i + 1);
    let upto = trace.take(i + 1);
    assert(upto.last() == trace[i]);
    lemma_rotate_prefix(policy, suspend, supported, trace, i);
    assert(upto.drop_last() =~= trace.take(i));
    lemma_packing_is_asked(policy, suspend, supported, trace.take(i));
}

proof fn lemma_rotate_prefix(
    policy: Policy,
    suspend: Option<i32>,
    supported: bool,
    trace: LogTrace,
    i: int,
)
    requires
        rotate_run(policy, suspend, supported, trace) is Some,
        0 <= i <= trace.len(),
    ensures
        rotate_run(policy, suspend, supported, trace.take(i)) is Some,
    decreases trace.len(),
{
    if i < trace.len() {
        lemma_rotate_prefix(policy, suspend, supported, trace.drop_last(), i);
        assert(trace.drop_last().take(i) =~= trace.take(i));
    } else {
        assert(trace.take(i) =~= trace);
    }
}

proof fn lemma_packing_is_asked(
    policy: Policy,
    suspend: Option<i32>,
    supported: bool,
    trace: LogTrace,
)
    ensures
        rotate_run(policy, suspend, supported, trace) matches Some(Next::Ask(rotate)) ==> {
            &&& rotate.policy == policy
            &&& rotate.phase matches RotatePhase::Packing { n, .. } ==> policy.compression
                == CompressionMethod::Gzip && policy.compress_after < n <= policy.max_keep
        },
    decreases trace.len(),
{
    if trace.len() > 0 {
        lemma_packing_is_asked(policy, suspend, supported, trace.drop_last());
    }
}

/// A live file that has not reached `max_size`, or that is not there, is left alone:
/// the rotation ends with the look at its size.
pub proof fn a_small_log_is_left_alone(
    policy: Policy,
    suspend: Option<i32>,
    supported: bool,
    trace: LogTrace,
    i: int,
)
    requires
        rotate_run(policy, suspend, supported, trace) is Some,
        0 <= i < trace.len(),
        trace[i].0 == LogRequest::Measure,
        match trace[i].1 {
            LogReply::Size(Ok(size)) => size < policy.max_size,
            LogReply::Size(Err(error)) => error.missing,
            _ => false,
        },
    ensures
        i == trace.len() - 1,
        rotate_run(policy, suspend, supported, trace) == Some(
            Next::<Rotate, RotateResult>::Done(Ok(None)),
        ),
{
    let upto = trace.take(i + 1);
    lemma_rotate_prefix(policy, suspend, supported, trace, i + 1);
    lemma_packing_is_asked(policy, suspend, supported, upto.drop_last());
    assert(upto.last() == trace[i]);
    assert(rotate_run(policy, suspend, supported, upto) == Some(
        Next::<Rotate, RotateResult>::Done(Ok(None)),
    ));
    if i + 1 < trace.len() {
        lemma_rotate_prefix(policy, suspend, supported, trace, i + 2);
        assert(trace.take(i + 2).drop_last() =~= upto);
    } else {
        assert(upto =~= trace);
    }
}

} // verus!

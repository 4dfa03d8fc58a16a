//! Size-based rotation of an application's log files.
//!
//! The application holds the live file open, so it cannot be renamed away: it is
//! copied to `<file>.1` and truncated in place, where asked for with the
//! application frozen for the final step, so that nothing is lost. Older
//! generations shift up (`.1` to `.2` and so on), those past `compress_after` are
//! compressed, and those past `max_keep` are deleted.

use vstd::prelude::*;
use vstd::string::*;
use vstd::utf8::*;
use crate::host::{Next, Reply, Request};
use crate::logs_laws::log_files_have_distinct_names;
use crate::paths::{bytes_of, copy_of, same_bytes, slice_of, suffixed, FilePath};
use crate::suspend::{
    time_between, Freeze, FreezeReply, FreezeRequest, Frozen, Suspend, Thaw,
};
use crate::text::{
    decimal, decimal_is_read_back, digits_to_u64, digits_value, is_digit, is_number, same_text,
    show_u64,
};

verus! {

/// How a live log file is emptied.
#[derive(Clone, Copy, Debug, PartialEq, Eq, Structural)]
pub enum RotationMethod {
    /// Copy, then truncate. Output written in the instant between the two is lost.
    CopyTruncate,
    /// As above, with the app's process group stopped across the final copy
    /// and the truncate, so nothing is lost.
    Suspend,
}

impl Default for RotationMethod {
    fn default() -> (r: RotationMethod)
        ensures
            r == RotationMethod::CopyTruncate,
    {
        RotationMethod::CopyTruncate
    }
}

/// How an old generation is stored.
#[derive(Clone, Copy, Debug, PartialEq, Eq, Structural)]
pub enum CompressionMethod {
    Gzip,
    Uncompressed,
}

/// When a log file is rotated and what is kept of it.
#[derive(Clone, Copy, Debug, PartialEq, Eq, Structural)]
pub struct Policy {
    pub max_size: u64,
    pub max_keep: u32,
    pub compress_after: u32,
    pub compression: CompressionMethod,
}

impl Policy {
    /// The first generation that is stored compressed, where one is.
    pub open spec fn first_packed(self) -> Option<u32> {
        if self.compression == CompressionMethod::Gzip && self.compress_after < self.max_keep {
            Some((self.compress_after + 1) as u32)
        } else {
            None
        }
    }

    fn first_to_pack(&self) -> (r: Option<u32>)
        ensures
            r == self.first_packed(),
    {
        if self.compression == CompressionMethod::Gzip && self.compress_after < self.max_keep {
            Some(self.compress_after + 1)
        } else {
            None
        }
    }
}

/// A rotation that took place: the size that the live file had, and how it was
/// truncated.
#[derive(Clone, Copy, Debug, PartialEq, Eq, Structural)]
pub struct Rotated {
    pub size: u64,
    pub truncation: Truncation,
}

/// How a live file was truncated.
#[derive(Clone, Copy, Debug, PartialEq, Eq, Structural)]
pub enum Truncation {
    /// No suspension was asked for, or nothing is kept, so nothing can be lost.
    Plain,
    /// The application was frozen for so many nanoseconds.
    Suspended(u64),
    /// Suspension was asked for, but the group could not be confirmed stopped.
    SuspendFailed,
}

/// A file of a log: the live file, a generation, or a compressed generation,
/// finished or not.
#[derive(Clone, Copy, Debug, PartialEq, Eq, Structural)]
pub enum Slot {
    Live,
    Plain(u32),
    Packed(u32),
    Partial(u32),
}

/// What the name of a file has behind that of the live file.
pub open spec fn slot_suffix(slot: Slot) -> Seq<char> {
    match slot {
        Slot::Live => ""@,
        Slot::Plain(n) => "."@ + decimal(n as nat),
        Slot::Packed(n) => "."@ + decimal(n as nat) + ".gz"@,
        Slot::Partial(n) => "."@ + decimal(n as nat) + ".gz.tmp"@,
    }
}

/// The path of a file of the log whose live file is `live`.
pub fn slot_path(live: &FilePath, slot: Slot) -> (r: FilePath)
    ensures
        r@ == live@ + bytes_of(slot_suffix(slot)),
{
    suffixed(live, suffix_text(slot).as_str())
}

fn suffix_text(slot: Slot) -> (r: String)
    ensures
        r@ == slot_suffix(slot),
{
    match slot {
        Slot::Live => "".to_owned(),
        Slot::Plain(n) => ".".to_owned().concat(show_u64(n as u64).as_str()),
        Slot::Packed(n) => ".".to_owned().concat(show_u64(n as u64).as_str()).concat(".gz"),
        Slot::Partial(n) => ".".to_owned().concat(show_u64(n as u64).as_str()).concat(".gz.tmp"),
    }
}

/// Whether a file is a generation, plain or compressed.
pub open spec fn is_generation(slot: Slot) -> bool {
    slot is Plain || slot is Packed
}

/// Whether a file is a generation past `keep`.
pub open spec fn is_past(slot: Slot, keep: u32) -> bool {
    match slot {
        Slot::Plain(n) => n > keep,
        Slot::Packed(n) => n > keep,
        _ => false,
    }
}

/// Where the first generation past `keep` stands in `listed`, at `from` or behind it;
/// the length where there is none.
pub open spec fn past_at(listed: Seq<Slot>, from: int, keep: u32) -> int
    decreases listed.len() - from,
{
    if from >= listed.len() {
        listed.len() as int
    } else if is_past(listed[from], keep) {
        from
    } else {
        past_at(listed, from + 1, keep)
    }
}

fn find_past(listed: &Vec<Slot>, from: usize, keep: u32) -> (r: usize)
    ensures
        r == past_at(listed@, from as int, keep),
        r <= listed@.len(),
{
    let mut i: usize = from;
    while i < listed.len()
        invariant
            past_at(listed@, i as int, keep) == past_at(listed@, from as int, keep),
        decreases listed.len() - i,
    {
        let past: bool = match listed[i] {
            Slot::Plain(n) => n > keep,
            Slot::Packed(n) => n > keep,
            _ => false,
        };
        if past {
            return i;
        }
        i = i + 1;
    }
    listed.len()
}

/// The generation whose name has `suffix` behind that of the live file, where there is
/// such a generation.
fn generation_with(suffix: &str) -> (r: Option<Slot>)
    ensures
        match r {
            Some(slot) => is_generation(slot) && slot_suffix(slot) == suffix@,
            None => forall|slot: Slot|
                is_generation(slot) ==> #[trigger] slot_suffix(slot) != suffix@,
        },
{
    let len: usize = suffix.unicode_len();
    proof {
        assert forall|slot: Slot|
            is_generation(slot) && #[trigger] slot_suffix(slot) == suffix@ implies {
            let n = match slot {
                Slot::Plain(n) => n,
                Slot::Packed(n) => n,
                _ => 0,
            };
            let packed = len > 4 && suffix@[len - 1] == 'z';
            &&& len >= 2
            &&& slot == if packed {
                Slot::Packed(n)
            } else {
                Slot::Plain(n)
            }
            &&& suffix@.subrange(
                1,
                if packed {
                    len - 3
                } else {
                    len as int
                },
            ) == decimal(n as nat)
            &&& is_number(decimal(n as nat))
            &&& digits_value(decimal(n as nat)) == n
        } by {
            lemma_suffix(slot);
        }
    }
    if len < 2 {
        return None;
    }
    let packed: bool = len > 4 && suffix.get_char(len - 1) == 'z';
    let body = if packed {
        suffix.substring_char(1, len - 3)
    } else {
        suffix.substring_char(1, len)
    };
    match digits_to_u64(body) {
        Some(n) if n <= 0xffff_ffff => {
            let slot = if packed {
                Slot::Packed(n as u32)
            } else {
                Slot::Plain(n as u32)
            };
            if same_text(suffix_text(slot).as_str(), suffix) {
                Some(slot)
            } else {
                None
            }
        },
        _ => None,
    }
}

proof fn lemma_suffix(slot: Slot)
    ensures
        match slot {
            Slot::Plain(n) => {
                let s = slot_suffix(slot);
                &&& s.len() >= 2
                &&& is_digit(s.last())
                &&& is_number(decimal(n as nat))
                &&& digits_value(decimal(n as nat)) == n
                &&& s.subrange(1, s.len() as int) == decimal(n as nat)
            },
            Slot::Packed(n) => {
                let s = slot_suffix(slot);
                &&& s.len() > 4
                &&& s.last() == 'z'
                &&& is_number(decimal(n as nat))
                &&& digits_value(decimal(n as nat)) == n
                &&& s.subrange(1, s.len() - 3) == decimal(n as nat)
            },
            _ => true,
        },
{
    reveal_strlit(".");
    reveal_strlit(".gz");
    let s = slot_suffix(slot);
    match slot {
        Slot::Plain(n) => {
            decimal_is_read_back(n as nat);
            assert(s.subrange(1, s.len() as int) =~= decimal(n as nat));
            assert(is_digit(decimal(n as nat)[s.len() - 2]));
        },
        Slot::Packed(n) => {
            decimal_is_read_back(n as nat);
            assert(s.subrange(1, s.len() - 3) =~= decimal(n as nat));
        },
        _ => {},
    }
}

/// The generation that `name` is the name of, where it is one of the log whose live
/// file is called `live`.
pub fn generation_named(live: &FilePath, name: &FilePath) -> (r: Option<Slot>)
    ensures
        match r {
            Some(slot) => is_generation(slot) && name@ == live@ + bytes_of(slot_suffix(slot)),
            None => forall|slot: Slot|
                is_generation(slot) ==> name@ != live@ + bytes_of(#[trigger] slot_suffix(slot)),
        },
{
    let len: usize = live.bytes.len();
    proof {
        assert forall|slot: Slot|
            is_generation(slot) && name@ == live@ + bytes_of(
                #[trigger] slot_suffix(slot),
            ) implies {
            &&& name@.len() >= len
            &&& valid_utf8(name@.skip(len as int))
            &&& decode_utf8(name@.skip(len as int)) == slot_suffix(slot)
        } by {
            assert(name@.skip(len as int) =~= bytes_of(slot_suffix(slot)));
            encode_utf8_valid_utf8(slot_suffix(slot));
            encode_utf8_decode_utf8(slot_suffix(slot));
        }
    }
    if name.bytes.len() < len {
        return None;
    }
    let suffix = FilePath {
        bytes: copy_of(slice_of(name.bytes.as_slice(), len, name.bytes.len())),
    };
    assert(suffix@ =~= name@.skip(len as int));
    match generation_with(suffix.display().as_str()) {
        Some(slot) => if same_bytes(
            slot_path(live, slot).bytes.as_slice(),
            name.bytes.as_slice(),
        ) {
            Some(slot)
        } else {
            None
        },
        None => None,
    }
}

/// The generation that `name` is the name of, where it is one: no two have the same name.
pub open spec fn named_generation(live: Seq<u8>, name: Seq<u8>) -> Option<Slot> {
    if exists|slot: Slot|
        is_generation(slot) && name == live + bytes_of(#[trigger] slot_suffix(slot)) {
        Some(
            choose|slot: Slot|
                is_generation(slot) && name == live + bytes_of(#[trigger] slot_suffix(slot)),
        )
    } else {
        None
    }
}

/// The generations that `names` are the names of, in their order.
pub open spec fn named_generations(live: Seq<u8>, names: Seq<FilePath>) -> Seq<Slot>
    decreases names.len(),
{
    if names.len() == 0 {
        Seq::empty()
    } else {
        let before = named_generations(live, names.drop_last());
        match named_generation(live, names.last()@) {
            Some(slot) => before.push(slot),
            None => before,
        }
    }
}

proof fn lemma_named(live: Seq<u8>, name: Seq<u8>, slot: Slot)
    requires
        is_generation(slot),
        name == live + bytes_of(slot_suffix(slot)),
    ensures
        named_generation(live, name) == Some(slot),
{
    log_files_have_distinct_names(live, slot, named_generation(live, name)->0);
}

/// Whether one of `names` is that of a file of the log whose live file is called `live`.
pub open spec fn is_among(slot: Slot, live: Seq<u8>, names: Seq<FilePath>) -> bool {
    exists|i: int|
        0 <= i < names.len() && (#[trigger] names[i])@ == live + bytes_of(slot_suffix(slot))
}

/// The generations among the files called `names`, of the log whose live file is called
/// `live`.
pub fn generations_among(live: &FilePath, names: &Vec<FilePath>) -> (r: Vec<Slot>)
    ensures
        r@ == named_generations(live@, names@),
        forall|slot: Slot| #[trigger]
            r@.contains(slot) <==> is_generation(slot) && is_among(slot, live@, names@),
{
    let mut found: Vec<Slot> = Vec::new();
    let mut i: usize = 0;
    while i < names.len()
        invariant
            i <= names.len(),
            found@ == named_generations(live@, names@.take(i as int)),
            forall|slot: Slot| #[trigger]
                found@.contains(slot) <==> is_generation(slot) && is_among(
                    slot,
                    live@,
                    names@.take(i as int),
                ),
        decreases names.len() - i,
    {
        let ghost before = found@;
        let seen = generation_named(live, &names[i]);
        if let Some(slot) = seen {
            found.push(slot);
        }
        proof {
            assert(names@.take(i + 1).drop_last() =~= names@.take(i as int));
            if let Some(slot) = seen {
                lemma_named(live@, names@[i as int]@, slot);
            }
            assert forall|slot: Slot| #[trigger]
                found@.contains(slot) <==> is_generation(slot) && is_among(
                    slot,
                    live@,
                    names@.take(i + 1),
                ) by {
                lemma_one_more(slot, live@, names@, i as int);
                if before.contains(slot) {
                    let j = choose|j: int| 0 <= j < before.len() && before[j] == slot;
                    assert(found@[j] == slot);
                }
                if seen == Some(slot) {
                    assert(found@[found@.len() - 1] == slot);
                }
                if found@.contains(slot) && seen != Some(slot) {
                    let j = choose|j: int| 0 <= j < found@.len() && found@[j] == slot;
                    assert(before[j] == slot);
                }
                if is_generation(slot) && names@[i as int]@ == live@ + bytes_of(
                    slot_suffix(slot),
                ) {
                    lemma_named(live@, names@[i as int]@, slot);
                }
            }
        }
        i = i + 1;
    }
    assert(names@.take(i as int) =~= names@);
    found
}

proof fn lemma_one_more(slot: Slot, live: Seq<u8>, names: Seq<FilePath>, i: int)
    requires
        0 <= i < names.len(),
    ensures
        is_among(slot, live, names.take(i + 1)) <==> is_among(slot, live, names.take(i))
            || names[i]@ == live + bytes_of(slot_suffix(slot)),
{
    let upto = names.take(i);
    let more = names.take(i + 1);
    let path = live + bytes_of(slot_suffix(slot));
    if is_among(slot, live, upto) {
        let j = choose|j: int| 0 <= j < upto.len() && (#[trigger] upto[j])@ == path;
        assert(more[j] == upto[j]);
    }
    if names[i]@ == path {
        assert(more[i]@ == path);
    }
    if is_among(slot, live, more) && names[i]@ != path {
        let j = choose|j: int| 0 <= j < more.len() && (#[trigger] more[j])@ == path;
        assert(upto[j] == more[j]);
    }
}

/// Why something could not be done to a file; `missing` where it is not there.
#[derive(Debug, PartialEq, Eq)]
pub struct FileError {
    pub missing: bool,
    pub message: String,
}

/// What a rotation asks of its host.
#[derive(Clone, Copy, Debug, PartialEq, Eq, Structural)]
pub enum LogRequest {
    /// What any procedure may ask.
    Host(Request),
    Freeze(FreezeRequest),
    /// Whether a file is there.
    Exists(Slot),
    /// The size of the live file.
    Measure,
    /// The generations that are there, plain and compressed.
    ListGenerations,
    /// Open the live file, to read it from its start.
    OpenLive,
    /// Open the live file, to truncate it.
    OpenToTruncate,
    /// Create the newest generation, or empty it.
    CreateCopy,
    /// Append to the newest generation what the live file holds beyond what was
    /// read of it.
    CopyTail,
    /// Bring the newest generation to the disk.
    SyncCopy,
    /// Empty the live file.
    Truncate,
    /// Compress a generation into its unfinished compressed form.
    Compress(u32),
    Rename { from: Slot, to: Slot },
    Remove(Slot),
}

/// What the host answers.
#[derive(Debug)]
pub enum LogReply {
    Host(Reply),
    Freeze(FreezeReply),
    Found(bool),
    Size(Result<u64, FileError>),
    /// The generations that were found; `complete` where nothing kept the host from
    /// finding them all.
    Listed { found: Vec<Slot>, complete: bool },
    Done(Result<(), FileError>),
}

/// What came of removing or renaming a file that need not be there.
pub open spec fn unless_missing(done: Result<(), FileError>) -> Result<(), String> {
    match done {
        Err(error) => if error.missing {
            Ok(())
        } else {
            Err(error.message)
        },
        Ok(()) => Ok(()),
    }
}

fn tolerate_missing(done: Result<(), FileError>) -> (r: Result<(), String>)
    ensures
        r == unless_missing(done),
{
    match done {
        Err(error) => if error.missing {
            Ok(())
        } else {
            Err(error.message)
        },
        Ok(()) => Ok(()),
    }
}

pub type CopyResult = Result<Truncation, String>;

/// The copy of the live file to the newest generation, and the truncation of the
/// live file.
///
/// Without a group to suspend, what is written between the last read and the
/// truncation is lost; the second tail pass keeps that time short. With one, the
/// group is frozen for the tail passes and the truncation. The bulk of the copy and
/// its way to the disk, which are slow, come while the application still runs.
#[derive(Debug)]
pub struct CopyTruncate {
    pub suspend: Option<i32>,
    pub supported: bool,
    pub phase: CopyPhase,
}

#[derive(Debug)]
pub enum CopyPhase {
    OpeningLive,
    OpeningWrite,
    Creating,
    Bulk,
    Syncing,
    Freezing(Freeze),
    /// A write that was under way when its thread was told to stop ends after the
    /// first pass, so there are two.
    Tail { frozen: Option<Frozen>, again: bool },
    Truncating { frozen: Option<Frozen> },
    Timing(Frozen),
    /// The group is to run again; `end` is what comes of the copy.
    Thawing { thaw: Thaw, end: CopyResult },
    Finishing(Truncation),
}

impl CopyTruncate {
    pub open spec fn begun(suspend: Option<i32>, supported: bool) -> CopyTruncate {
        CopyTruncate { suspend, supported, phase: CopyPhase::OpeningLive }
    }

    /// The procedure at its start.
    pub fn new(suspend: Option<i32>, supported: bool) -> (r: CopyTruncate)
        ensures
            r == CopyTruncate::begun(suspend, supported),
    {
        CopyTruncate { suspend, supported, phase: CopyPhase::OpeningLive }
    }

    pub open spec fn at(self, phase: CopyPhase) -> Next<CopyTruncate, CopyResult> {
        Next::Ask(CopyTruncate { suspend: self.suspend, supported: self.supported, phase })
    }

    fn to(self, phase: CopyPhase) -> (r: Next<CopyTruncate, CopyResult>)
        ensures
            r == self.at(phase),
    {
        Next::Ask(CopyTruncate { suspend: self.suspend, supported: self.supported, phase })
    }

    /// The group that may be frozen.
    pub open spec fn group(self) -> i32 {
        match self.suspend {
            Some(group) => group,
            None => 0,
        }
    }

    pub open spec fn asks(self) -> LogRequest {
        match self.phase {
            CopyPhase::OpeningLive => LogRequest::OpenLive,
            CopyPhase::OpeningWrite => LogRequest::OpenToTruncate,
            CopyPhase::Creating => LogRequest::CreateCopy,
            CopyPhase::Bulk => LogRequest::CopyTail,
            CopyPhase::Syncing => LogRequest::SyncCopy,
            CopyPhase::Freezing(freeze) => LogRequest::Freeze(freeze.asks(self.group())),
            CopyPhase::Tail { .. } => LogRequest::CopyTail,
            CopyPhase::Truncating { .. } => LogRequest::Truncate,
            CopyPhase::Timing(_) => LogRequest::Freeze(FreezeRequest::ReadClock),
            CopyPhase::Thawing { thaw, .. } => LogRequest::Freeze(thaw.asks(self.group())),
            CopyPhase::Finishing(_) => LogRequest::SyncCopy,
        }
    }

    /// The request that the procedure stands at.
    pub fn request(&self) -> (r: LogRequest)
        ensures
            r == self.asks(),
    {
        let group: i32 = match self.suspend {
            Some(group) => group,
            None => 0,
        };
        match &self.phase {
            CopyPhase::OpeningLive => LogRequest::OpenLive,
            CopyPhase::OpeningWrite => LogRequest::OpenToTruncate,
            CopyPhase::Creating => LogRequest::CreateCopy,
            CopyPhase::Bulk => LogRequest::CopyTail,
            CopyPhase::Syncing => LogRequest::SyncCopy,
            CopyPhase::Freezing(freeze) => LogRequest::Freeze(freeze.request(group)),
            CopyPhase::Tail { .. } => LogRequest::CopyTail,
            CopyPhase::Truncating { .. } => LogRequest::Truncate,
            CopyPhase::Timing(_) => LogRequest::Freeze(FreezeRequest::ReadClock),
            CopyPhase::Thawing { thaw, .. } => LogRequest::Freeze(thaw.request(group)),
            CopyPhase::Finishing(_) => LogRequest::SyncCopy,
        }
    }

    /// The end on an error: a frozen group is resumed first.
    pub open spec fn failing(self, frozen: Option<Frozen>, error: String) -> Next<
        CopyTruncate,
        CopyResult,
    > {
        if frozen is Some {
            self.at(CopyPhase::Thawing { thaw: Thaw::Resuming, end: Err(error) })
        } else {
            Next::Done(Err(error))
        }
    }

    fn fail(self, frozen: Option<Frozen>, error: String) -> (r: Next<CopyTruncate, CopyResult>)
        ensures
            r == self.failing(frozen, error),
    {
        if frozen.is_some() {
            self.to(CopyPhase::Thawing { thaw: Thaw::Resuming, end: Err(error) })
        } else {
            Next::Done(Err(error))
        }
    }

    /// What follows the bulk of the copy.
    pub open spec fn copied(self) -> Next<CopyTruncate, CopyResult> {
        match self.suspend {
            Some(_) => match Freeze::begun(self.supported) {
                Next::Ask(freeze) => self.at(CopyPhase::Freezing(freeze)),
                Next::Done(_) => self.at(CopyPhase::Tail { frozen: None, again: false }),
            },
            None => self.at(CopyPhase::Tail { frozen: None, again: false }),
        }
    }

    /// What follows the truncation.
    pub open spec fn truncated(self, frozen: Option<Frozen>) -> Next<CopyTruncate, CopyResult> {
        match frozen {
            Some(frozen) => self.at(CopyPhase::Timing(frozen)),
            None => self.at(
                CopyPhase::Finishing(
                    if self.suspend is Some {
                        Truncation::SuspendFailed
                    } else {
                        Truncation::Plain
                    },
                ),
            ),
        }
    }

    pub open spec fn after(self, reply: LogReply) -> Next<CopyTruncate, CopyResult> {
        match (self.phase, reply) {
            (CopyPhase::OpeningLive, LogReply::Done(done)) => match done {
                Ok(()) => self.at(CopyPhase::OpeningWrite),
                Err(error) => Next::Done(Err(error.message)),
            },
            (CopyPhase::OpeningWrite, LogReply::Done(done)) => match done {
                Ok(()) => self.at(CopyPhase::Creating),
                Err(error) => Next::Done(Err(error.message)),
            },
            (CopyPhase::Creating, LogReply::Done(done)) => match done {
                Ok(()) => self.at(CopyPhase::Bulk),
                Err(error) => Next::Done(Err(error.message)),
            },
            (CopyPhase::Bulk, LogReply::Done(done)) => match done {
                Ok(()) => self.at(CopyPhase::Syncing),
                Err(error) => Next::Done(Err(error.message)),
            },
            (CopyPhase::Syncing, LogReply::Done(done)) => match done {
                Ok(()) => self.copied(),
                Err(error) => Next::Done(Err(error.message)),
            },
            (CopyPhase::Freezing(freeze), LogReply::Freeze(reply)) => match freeze.after(reply) {
                Next::Ask(freeze) => self.at(CopyPhase::Freezing(freeze)),
                Next::Done(Ok(frozen)) => self.at(CopyPhase::Tail { frozen, again: false }),
                Next::Done(Err(error)) => Next::Done(Err(error)),
            },
            (CopyPhase::Tail { frozen, again }, LogReply::Done(done)) => match done {
                Ok(()) => if again {
                    self.at(CopyPhase::Truncating { frozen })
                } else {
                    self.at(CopyPhase::Tail { frozen, again: true })
                },
                Err(error) => self.failing(frozen, error.message),
            },
            (CopyPhase::Truncating { frozen }, LogReply::Done(done)) => match done {
                Ok(()) => self.truncated(frozen),
                Err(error) => self.failing(frozen, error.message),
            },
            (
                CopyPhase::Timing(frozen),
                LogReply::Freeze(FreezeReply::Clock(now)),
            ) => self.at(
                CopyPhase::Thawing {
                    thaw: Thaw::Resuming,
                    end: Ok(Truncation::Suspended(time_between(frozen.since, now))),
                },
            ),
            (CopyPhase::Thawing { thaw, end }, LogReply::Freeze(reply)) => match thaw.after(reply) {
                Next::Ask(thaw) => self.at(CopyPhase::Thawing { thaw, end }),
                Next::Done(()) => match end {
                    Ok(truncation) => self.at(CopyPhase::Finishing(truncation)),
                    Err(error) => Next::Done(Err(error)),
                },
            },
            (CopyPhase::Finishing(truncation), LogReply::Done(done)) => match done {
                Ok(()) => Next::Done(Ok(truncation)),
                Err(error) => Next::Done(Err(error.message)),
            },
            _ => Next::Ask(self),
        }
    }

    /// Goes on with the host's answer. An answer to another request changes
    /// nothing.
    pub fn step(self, reply: LogReply) -> (r: Next<CopyTruncate, CopyResult>)
        ensures
            r == self.after(reply),
    {
        let rest = CopyTruncate {
            suspend: self.suspend,
            supported: self.supported,
            phase: CopyPhase::OpeningLive,
        };
        match (self.phase, reply) {
            (CopyPhase::OpeningLive, LogReply::Done(done)) => match done {
                Ok(()) => rest.to(CopyPhase::OpeningWrite),
                Err(error) => Next::Done(Err(error.message)),
            },
            (CopyPhase::OpeningWrite, LogReply::Done(done)) => match done {
                Ok(()) => rest.to(CopyPhase::Creating),
                Err(error) => Next::Done(Err(error.message)),
            },
            (CopyPhase::Creating, LogReply::Done(done)) => match done {
                Ok(()) => rest.to(CopyPhase::Bulk),
                Err(error) => Next::Done(Err(error.message)),
            },
            (CopyPhase::Bulk, LogReply::Done(done)) => match done {
                Ok(()) => rest.to(CopyPhase::Syncing),
                Err(error) => Next::Done(Err(error.message)),
            },
            (CopyPhase::Syncing, LogReply::Done(done)) => match done {
                Ok(()) => {
                    if rest.suspend.is_some() {
                        match Freeze::begin(rest.supported) {
                            Next::Ask(freeze) => rest.to(CopyPhase::Freezing(freeze)),
                            Next::Done(_) => rest.to(
                                CopyPhase::Tail { frozen: None, again: false },
                            ),
                        }
                    } else {
                        rest.to(CopyPhase::Tail { frozen: None, again: false })
                    }
                },
                Err(error) => Next::Done(Err(error.message)),
            },
            (CopyPhase::Freezing(freeze), LogReply::Freeze(reply)) => match freeze.step(reply) {
                Next::Ask(freeze) => rest.to(CopyPhase::Freezing(freeze)),
                Next::Done(Ok(frozen)) => rest.to(CopyPhase::Tail { frozen, again: false }),
                Next::Done(Err(error)) => Next::Done(Err(error)),
            },
            (CopyPhase::Tail { frozen, again }, LogReply::Done(done)) => match done {
                Ok(()) => if again {
                    rest.to(CopyPhase::Truncating { frozen })
                } else {
                    rest.to(CopyPhase::Tail { frozen, again: true })
                },
                Err(error) => rest.fail(frozen, error.message),
            },
            (CopyPhase::Truncating { frozen }, LogReply::Done(done)) => match done {
                Ok(()) => match frozen {
                    Some(frozen) => rest.to(CopyPhase::Timing(frozen)),
                    None => {
                        let truncation = if rest.suspend.is_some() {
                            Truncation::SuspendFailed
                        } else {
                            Truncation::Plain
                        };
                        rest.to(CopyPhase::Finishing(truncation))
                    },
                },
                Err(error) => rest.fail(frozen, error.message),
            },
            (
                CopyPhase::Timing(frozen),
                LogReply::Freeze(FreezeReply::Clock(now)),
            ) => rest.to(
                CopyPhase::Thawing {
                    thaw: Thaw::Resuming,
                    end: Ok(Truncation::Suspended(frozen.elapsed(now))),
                },
            ),
            (CopyPhase::Thawing { thaw, end }, LogReply::Freeze(reply)) => match thaw.step(&reply) {
                Next::Ask(thaw) => rest.to(CopyPhase::Thawing { thaw, end }),
                Next::Done(()) => match end {
                    Ok(truncation) => rest.to(CopyPhase::Finishing(truncation)),
                    Err(error) => Next::Done(Err(error)),
                },
            },
            (CopyPhase::Finishing(truncation), LogReply::Done(done)) => match done {
                Ok(()) => Next::Done(Ok(truncation)),
                Err(error) => Next::Done(Err(error.message)),
            },
            (phase, _) => rest.to(phase),
        }
    }
}

pub type RotateResult = Result<Option<Rotated>, String>;

/// The rotation of one log.
#[derive(Debug)]
pub struct Rotate {
    pub policy: Policy,
    pub suspend: Option<i32>,
    pub supported: bool,
    pub phase: RotatePhase,
}

#[derive(Debug)]
pub enum RotatePhase {
    /// Compressing the generations that are to be: before the rotation those that
    /// an interrupted run left, and after it, with what the rotation came to, the
    /// one that has just got so far.
    Packing { n: u32, stage: PackStage, rotated: Option<Rotated> },
    Measuring,
    /// The log is to be rotated.
    Listing { size: u64 },
    /// A generation past `max_keep` goes, if it can; from `next` on, `listed` may hold
    /// more.
    Clearing { size: u64, slot: Slot, listed: Vec<Slot>, next: usize },
    /// Nothing is kept: the live file is emptied.
    OpeningEmpty { size: u64 },
    Emptying { size: u64 },
    /// The oldest generation goes.
    DroppingPlain { size: u64 },
    DroppingPacked { size: u64 },
    /// Every other one moves up, the oldest first.
    ShiftingPlain { size: u64, n: u32 },
    ShiftingPacked { size: u64, n: u32 },
    Copying { size: u64, copy: CopyTruncate },
}

/// The compression of one generation.
#[derive(Clone, Copy, Debug, PartialEq, Eq, Structural)]
pub enum PackStage {
    Looking,
    Compressing,
    Renaming,
    Removing,
}

/// Begins the rotation of a log: it is rotated if it has reached `max_size`.
/// `suspend` names the writers to stop while the live file is truncated. Only for
/// the holder of the rotation lock.
pub fn rotate(policy: &Policy, suspend: Option<&Suspend>, supported: bool) -> (r: Rotate)
    ensures
        r == Rotate::begun(
            *policy,
            match suspend {
                Some(suspend) => Some(suspend.process_group),
                None => None,
            },
            supported,
        ),
{
    Rotate::new(
        *policy,
        match suspend {
            Some(suspend) => Some(suspend.process_group),
            None => None,
        },
        supported,
    )
}

impl Rotate {
    pub open spec fn begun(policy: Policy, suspend: Option<i32>, supported: bool) -> Rotate {
        Rotate {
            policy,
            suspend,
            supported,
            phase: match policy.first_packed() {
                Some(n) => RotatePhase::Packing { n, stage: PackStage::Looking, rotated: None },
                None => RotatePhase::Measuring,
            },
        }
    }

    /// The rotation at its start.
    pub fn new(policy: Policy, suspend: Option<i32>, supported: bool) -> (r: Rotate)
        ensures
            r == Rotate::begun(policy, suspend, supported),
    {
        let phase = match policy.first_to_pack() {
            Some(n) => RotatePhase::Packing { n, stage: PackStage::Looking, rotated: None },
            None => RotatePhase::Measuring,
        };
        Rotate { policy, suspend, supported, phase }
    }

    pub open spec fn at(self, phase: RotatePhase) -> Next<Rotate, RotateResult> {
        Next::Ask(
            Rotate {
                policy: self.policy,
                suspend: self.suspend,
                supported: self.supported,
                phase,
            },
        )
    }

    fn to(self, phase: RotatePhase) -> (r: Next<Rotate, RotateResult>)
        ensures
            r == self.at(phase),
    {
        Next::Ask(
            Rotate {
                policy: self.policy,
                suspend: self.suspend,
                supported: self.supported,
                phase,
            },
        )
    }

    pub open spec fn asks(self) -> LogRequest {
        match self.phase {
            RotatePhase::Packing { n, stage, .. } => match stage {
                PackStage::Looking => LogRequest::Exists(Slot::Plain(n)),
                PackStage::Compressing => LogRequest::Compress(n),
                PackStage::Renaming => LogRequest::Rename {
                    from: Slot::Partial(n),
                    to: Slot::Packed(n),
                },
                PackStage::Removing => LogRequest::Remove(Slot::Plain(n)),
            },
            RotatePhase::Measuring => LogRequest::Measure,
            RotatePhase::Listing { .. } => LogRequest::ListGenerations,
            RotatePhase::Clearing { slot, .. } => LogRequest::Remove(slot),
            RotatePhase::OpeningEmpty { .. } => LogRequest::OpenToTruncate,
            RotatePhase::Emptying { .. } => LogRequest::Truncate,
            RotatePhase::DroppingPlain { .. } => LogRequest::Remove(
                Slot::Plain(self.policy.max_keep),
            ),
            RotatePhase::DroppingPacked { .. } => LogRequest::Remove(
                Slot::Packed(self.policy.max_keep),
            ),
            RotatePhase::ShiftingPlain { n, .. } => LogRequest::Rename {
                from: Slot::Plain(n),
                to: Slot::Plain(next_generation(n)),
            },
            RotatePhase::ShiftingPacked { n, .. } => LogRequest::Rename {
                from: Slot::Packed(n),
                to: Slot::Packed(next_generation(n)),
            },
            RotatePhase::Copying { copy, .. } => copy.asks(),
        }
    }

    /// The request that the rotation stands at.
    pub fn request(&self) -> (r: LogRequest)
        ensures
            r == self.asks(),
    {
        match &self.phase {
            RotatePhase::Packing { n, stage, .. } => match stage {
                PackStage::Looking => LogRequest::Exists(Slot::Plain(*n)),
                PackStage::Compressing => LogRequest::Compress(*n),
                PackStage::Renaming => LogRequest::Rename {
                    from: Slot::Partial(*n),
                    to: Slot::Packed(*n),
                },
                PackStage::Removing => LogRequest::Remove(Slot::Plain(*n)),
            },
            RotatePhase::Measuring => LogRequest::Measure,
            RotatePhase::Listing { .. } => LogRequest::ListGenerations,
            RotatePhase::Clearing { slot, .. } => LogRequest::Remove(*slot),
            RotatePhase::OpeningEmpty { .. } => LogRequest::OpenToTruncate,
            RotatePhase::Emptying { .. } => LogRequest::Truncate,
            RotatePhase::DroppingPlain { .. } => LogRequest::Remove(
                Slot::Plain(self.policy.max_keep),
            ),
            RotatePhase::DroppingPacked { .. } => LogRequest::Remove(
                Slot::Packed(self.policy.max_keep),
            ),
            RotatePhase::ShiftingPlain { n, .. } => LogRequest::Rename {
                from: Slot::Plain(*n),
                to: Slot::Plain(generation_after(*n)),
            },
            RotatePhase::ShiftingPacked { n, .. } => LogRequest::Rename {
                from: Slot::Packed(*n),
                to: Slot::Packed(generation_after(*n)),
            },
            RotatePhase::Copying { copy, .. } => copy.request(),
        }
    }

    /// What follows the compression of generation `n`: that of the next one, or
    /// what the compression came before.
    pub open spec fn packed(self, n: u32, rotated: Option<Rotated>) -> Next<Rotate, RotateResult> {
        if n < self.policy.max_keep {
            self.at(
                RotatePhase::Packing { n: (n + 1) as u32, stage: PackStage::Looking, rotated },
            )
        } else {
            match rotated {
                None => self.at(RotatePhase::Measuring),
                Some(_) => Next::Done(Ok(rotated)),
            }
        }
    }

    fn pack_next(self, n: u32, rotated: Option<Rotated>) -> (r: Next<Rotate, RotateResult>)
        ensures
            r == self.packed(n, rotated),
    {
        if n < self.policy.max_keep {
            self.to(RotatePhase::Packing { n: n + 1, stage: PackStage::Looking, rotated })
        } else {
            match rotated {
                None => self.to(RotatePhase::Measuring),
                Some(_) => Next::Done(Ok(rotated)),
            }
        }
    }

    /// What follows the move of every generation above `n`.
    pub open spec fn shifted_to(self, size: u64, n: u32) -> Next<Rotate, RotateResult> {
        if n >= 1 {
            self.at(RotatePhase::ShiftingPlain { size, n })
        } else {
            self.at(
                RotatePhase::Copying {
                    size,
                    copy: CopyTruncate::begun(self.suspend, self.supported),
                },
            )
        }
    }

    fn shift_next(self, size: u64, n: u32) -> (r: Next<Rotate, RotateResult>)
        ensures
            r == self.shifted_to(size, n),
    {
        if n >= 1 {
            self.to(RotatePhase::ShiftingPlain { size, n })
        } else {
            let copy = CopyTruncate::new(self.suspend, self.supported);
            self.to(RotatePhase::Copying { size, copy })
        }
    }

    /// What follows the truncation of the live file.
    pub open spec fn finished(self, rotated: Rotated) -> Next<Rotate, RotateResult> {
        match self.policy.first_packed() {
            Some(n) => self.at(
                RotatePhase::Packing { n, stage: PackStage::Looking, rotated: Some(rotated) },
            ),
            None => Next::Done(Ok(Some(rotated))),
        }
    }

    /// What follows the look at the live file's size.
    pub open spec fn measured(self, size: u64) -> Next<Rotate, RotateResult> {
        if size < self.policy.max_size {
            Next::Done(Ok(None))
        } else {
            self.at(RotatePhase::Listing { size })
        }
    }

    /// What follows the removal of the generations past `max_keep` that stand before
    /// `from`: that of the next one, or the rotation of what is kept.
    pub open spec fn cleared(self, size: u64, listed: Vec<Slot>, from: usize) -> Next<
        Rotate,
        RotateResult,
    > {
        let i = past_at(listed@, from as int, self.policy.max_keep);
        if i < listed@.len() {
            self.at(
                RotatePhase::Clearing { size, slot: listed@[i], listed, next: (i + 1) as usize },
            )
        } else if self.policy.max_keep == 0 {
            self.at(RotatePhase::OpeningEmpty { size })
        } else {
            self.at(RotatePhase::DroppingPlain { size })
        }
    }

    fn clear_next(self, size: u64, listed: Vec<Slot>, from: usize) -> (r: Next<
        Rotate,
        RotateResult,
    >)
        ensures
            r == self.cleared(size, listed, from),
    {
        let i: usize = find_past(&listed, from, self.policy.max_keep);
        if i < listed.len() {
            let slot = listed[i];
            self.to(RotatePhase::Clearing { size, slot, listed, next: i + 1 })
        } else if self.policy.max_keep == 0 {
            self.to(RotatePhase::OpeningEmpty { size })
        } else {
            self.to(RotatePhase::DroppingPlain { size })
        }
    }

    pub open spec fn after(self, reply: LogReply) -> Next<Rotate, RotateResult> {
        match (self.phase, reply) {
            (
                RotatePhase::Packing { n, stage: PackStage::Looking, rotated },
                LogReply::Found(found),
            ) => if found {
                self.at(RotatePhase::Packing { n, stage: PackStage::Compressing, rotated })
            } else {
                self.packed(n, rotated)
            },
            (
                RotatePhase::Packing { n, stage: PackStage::Compressing, rotated },
                LogReply::Done(done),
            ) => match done {
                Ok(()) => self.at(RotatePhase::Packing { n, stage: PackStage::Renaming, rotated }),
                Err(error) => Next::Done(Err(error.message)),
            },
            (
                RotatePhase::Packing { n, stage: PackStage::Renaming, rotated },
                LogReply::Done(done),
            ) => match done {
                Ok(()) => self.at(RotatePhase::Packing { n, stage: PackStage::Removing, rotated }),
                Err(error) => Next::Done(Err(error.message)),
            },
            (
                RotatePhase::Packing { n, stage: PackStage::Removing, rotated },
                LogReply::Done(done),
            ) => match done {
                Ok(()) => self.packed(n, rotated),
                Err(error) => Next::Done(Err(error.message)),
            },
            (RotatePhase::Measuring, LogReply::Size(size)) => match size {
                Ok(size) => self.measured(size),
                Err(error) => if error.missing {
                    Next::Done(Ok(None))
                } else {
                    Next::Done(Err(error.message))
                },
            },
            (RotatePhase::Listing { size }, LogReply::Listed { found, .. }) => self.cleared(
                size,
                found,
                0,
            ),
            (
                RotatePhase::Clearing { size, listed, next, .. },
                LogReply::Done(_),
            ) => self.cleared(size, listed, next),
            (RotatePhase::OpeningEmpty { size }, LogReply::Done(done)) => match done {
                Ok(()) => self.at(RotatePhase::Emptying { size }),
                Err(error) => Next::Done(Err(error.message)),
            },
            (RotatePhase::Emptying { size }, LogReply::Done(done)) => match done {
                Ok(()) => Next::Done(Ok(Some(Rotated { size, truncation: Truncation::Plain }))),
                Err(error) => Next::Done(Err(error.message)),
            },
            (RotatePhase::DroppingPlain { size }, LogReply::Done(done)) => match unless_missing(
                done,
            ) {
                Ok(()) => self.at(RotatePhase::DroppingPacked { size }),
                Err(error) => Next::Done(Err(error)),
            },
            (RotatePhase::DroppingPacked { size }, LogReply::Done(done)) => match unless_missing(
                done,
            ) {
                Ok(()) => self.shifted_to(size, previous_generation(self.policy.max_keep)),
                Err(error) => Next::Done(Err(error)),
            },
            (RotatePhase::ShiftingPlain { size, n }, LogReply::Done(done)) => match unless_missing(
                done,
            ) {
                Ok(()) => self.at(RotatePhase::ShiftingPacked { size, n }),
                Err(error) => Next::Done(Err(error)),
            },
            (RotatePhase::ShiftingPacked { size, n }, LogReply::Done(done)) => match unless_missing(
                done,
            ) {
                Ok(()) => self.shifted_to(size, previous_generation(n)),
                Err(error) => Next::Done(Err(error)),
            },
            (RotatePhase::Copying { size, copy }, reply) => match copy.after(reply) {
                Next::Ask(copy) => self.at(RotatePhase::Copying { size, copy }),
                Next::Done(Ok(truncation)) => self.finished(Rotated { size, truncation }),
                Next::Done(Err(error)) => Next::Done(Err(error)),
            },
            _ => Next::Ask(self),
        }
    }

    /// Goes on with the host's answer. An answer to another request changes
    /// nothing.
    pub fn step(self, reply: LogReply) -> (r: Next<Rotate, RotateResult>)
        ensures
            r == self.after(reply),
    {
        let rest = Rotate {
            policy: self.policy,
            suspend: self.suspend,
            supported: self.supported,
            phase: RotatePhase::Measuring,
        };
        match (self.phase, reply) {
            (
                RotatePhase::Packing { n, stage: PackStage::Looking, rotated },
                LogReply::Found(found),
            ) => if found {
                rest.to(RotatePhase::Packing { n, stage: PackStage::Compressing, rotated })
            } else {
                rest.pack_next(n, rotated)
            },
            (
                RotatePhase::Packing { n, stage: PackStage::Compressing, rotated },
                LogReply::Done(done),
            ) => match done {
                Ok(()) => rest.to(RotatePhase::Packing { n, stage: PackStage::Renaming, rotated }),
                Err(error) => Next::Done(Err(error.message)),
            },
            (
                RotatePhase::Packing { n, stage: PackStage::Renaming, rotated },
                LogReply::Done(done),
            ) => match done {
                Ok(()) => rest.to(RotatePhase::Packing { n, stage: PackStage::Removing, rotated }),
                Err(error) => Next::Done(Err(error.message)),
            },
            (
                RotatePhase::Packing { n, stage: PackStage::Removing, rotated },
                LogReply::Done(done),
            ) => match done {
                Ok(()) => rest.pack_next(n, rotated),
                Err(error) => Next::Done(Err(error.message)),
            },
            (RotatePhase::Measuring, LogReply::Size(size)) => match size {
                Ok(size) => if size < rest.policy.max_size {
                    Next::Done(Ok(None))
                } else {
                    rest.to(RotatePhase::Listing { size })
                },
                Err(error) => if error.missing {
                    Next::Done(Ok(None))
                } else {
                    Next::Done(Err(error.message))
                },
            },
            (RotatePhase::Listing { size }, LogReply::Listed { found, .. }) => rest.clear_next(
                size,
                found,
                0,
            ),
            (
                RotatePhase::Clearing { size, listed, next, .. },
                LogReply::Done(_),
            ) => rest.clear_next(size, listed, next),
            (RotatePhase::OpeningEmpty { size }, LogReply::Done(done)) => match done {
                Ok(()) => rest.to(RotatePhase::Emptying { size }),
                Err(error) => Next::Done(Err(error.message)),
            },
            (RotatePhase::Emptying { size }, LogReply::Done(done)) => match done {
                Ok(()) => Next::Done(Ok(Some(Rotated { size, truncation: Truncation::Plain }))),
                Err(error) => Next::Done(Err(error.message)),
            },
            (RotatePhase::DroppingPlain { size }, LogReply::Done(done)) => match tolerate_missing(
                done,
            ) {
                Ok(()) => rest.to(RotatePhase::DroppingPacked { size }),
                Err(error) => Next::Done(Err(error)),
            },
            (RotatePhase::DroppingPacked { size }, LogReply::Done(done)) => match tolerate_missing(
                done,
            ) {
                Ok(()) => {
                    let oldest: u32 = generation_before(rest.policy.max_keep);
                    rest.shift_next(size, oldest)
                },
                Err(error) => Next::Done(Err(error)),
            },
            (RotatePhase::ShiftingPlain { size, n }, LogReply::Done(done)) => match tolerate_missing(
                done,
            ) {
                Ok(()) => rest.to(RotatePhase::ShiftingPacked { size, n }),
                Err(error) => Next::Done(Err(error)),
            },
            (
                RotatePhase::ShiftingPacked { size, n },
                LogReply::Done(done),
            ) => match tolerate_missing(done) {
                Ok(()) => rest.shift_next(size, generation_before(n)),
                Err(error) => Next::Done(Err(error)),
            },
            (RotatePhase::Copying { size, copy }, reply) => match copy.step(reply) {
                Next::Ask(copy) => rest.to(RotatePhase::Copying { size, copy }),
                Next::Done(Ok(truncation)) => {
                    let rotated = Rotated { size, truncation };
                    match rest.policy.first_to_pack() {
                        Some(n) => rest.to(
                            RotatePhase::Packing {
                                n,
                                stage: PackStage::Looking,
                                rotated: Some(rotated),
                            },
                        ),
                        None => Next::Done(Ok(Some(rotated))),
                    }
                },
                Next::Done(Err(error)) => Next::Done(Err(error)),
            },
            (phase, _) => rest.to(phase),
        }
    }
}

/// The generation that generation `n` becomes.
pub open spec fn next_generation(n: u32) -> u32 {
    if n < u32::MAX {
        (n + 1) as u32
    } else {
        n
    }
}

/// The generation that becomes generation `n`.
pub open spec fn previous_generation(n: u32) -> u32 {
    if n > 0 {
        (n - 1) as u32
    } else {
        0
    }
}

fn generation_after(n: u32) -> (r: u32)
    ensures
        r == next_generation(n),
{
    if n < u32::MAX {
        n + 1
    } else {
        n
    }
}

fn generation_before(n: u32) -> (r: u32)
    ensures
        r == previous_generation(n),
{
    if n > 0 {
        n - 1
    } else {
        0
    }
}

} // verus!

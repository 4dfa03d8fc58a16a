//! Briefly freezes an application's process group, so that a log can be truncated
//! without losing output.
//!
//! `SIGSTOP` cannot be caught or ignored, and a stopped process cannot write: from
//! the moment every process is stopped until `SIGCONT`, the log changes by the
//! guard's hand only. A marker file names the frozen group for that time. If the
//! guard dies before it resumes the group, the next run finds the marker.

use vstd::prelude::*;
use vstd::string::*;
use crate::host::{KillReply, Next, Refusal, Reply, Request, Signal, Target, TextFile};
use crate::paths::FilePath;
use crate::text::{
    decimal_int, decimal_is_read_back, is_space, parse_i32,
    parsed_i32, show_i32, trim, trimmed, without_leading_space, without_trailing_space,
};

verus! {

/// Nanoseconds that a group gets to come to a stop before it is resumed.
pub const STOP_TIMEOUT: u64 = 1000000000;

/// Microseconds between the first two looks at a group that is to stop.
pub const FIRST_STOP_PAUSE: u64 = 50;

/// The most microseconds between two looks at a group that is to stop.
pub const LONGEST_STOP_PAUSE: u64 = 10000;

/// A process group that may be frozen, and the file that names it meanwhile.
#[derive(Debug)]
pub struct Suspend {
    pub process_group: i32,
    pub marker: FilePath,
}

/// A group that is stopped, and since when, by the host's clock.
#[derive(Clone, Copy, Debug, PartialEq, Eq, Structural)]
pub struct Frozen {
    pub since: u64,
}

/// Nanoseconds from one reading of the clock to another; none where the clock
/// did not move.
pub open spec fn time_between(since: u64, now: u64) -> u64 {
    if since <= now {
        (now - since) as u64
    } else {
        0
    }
}

impl Frozen {
    /// How many nanoseconds the group has been stopped when the clock shows `now`.
    pub fn elapsed(&self, now: u64) -> (r: u64)
        ensures
            r == time_between(self.since, now),
    {
        if self.since <= now {
            now - self.since
        } else {
            0
        }
    }
}

/// What is asked for a frozen group, besides what any procedure may ask.
#[derive(Clone, Copy, Debug, PartialEq, Eq, Structural)]
pub enum FreezeRequest {
    /// A signal, or a pause.
    Host(Request),
    /// Write the marker, to name a group.
    WriteMarker(i32),
    ReadMarker,
    RemoveMarker,
    /// Keep signals from the guard.
    BlockSignals,
    /// Let through the signals that were let through before.
    RestoreSignals,
    /// The nanoseconds that a clock shows which never goes back.
    ReadClock,
    /// Whether every process of a group is stopped.
    ScanGroup(i32),
}

/// What is answered.
#[derive(Debug)]
pub enum FreezeReply {
    Host(Reply),
    Marker(TextFile),
    /// A file was written or removed, or was not.
    Done(Result<(), String>),
    Masked,
    Clock(u64),
    Scanned(Result<bool, String>),
}

/// The text of the marker that names a group.
pub open spec fn marker_line(group: i32) -> Seq<char> {
    decimal_int(group as int) + "\n"@
}

/// The text of the marker that names a group.
pub fn marker_text(group: i32) -> (r: String)
    ensures
        r@ == marker_line(group),
{
    show_i32(group).concat("\n")
}

/// The group that a marker names. Groups up to 1 are not an application's.
pub open spec fn marked_group(text: Seq<char>) -> Option<i32> {
    match parsed_i32(trimmed(text)) {
        Some(group) if group > 1 => Some(group),
        _ => None,
    }
}

/// The group that a marker names.
pub fn read_marker(text: &str) -> (r: Option<i32>)
    ensures
        r == marked_group(text@),
{
    match parse_i32(trim(text)) {
        Some(group) => if group > 1 {
            Some(group)
        } else {
            None
        },
        None => None,
    }
}

/// A marker that names a group is read back as that group.
pub proof fn marker_is_read_back(group: i32)
    requires
        group > 1,
    ensures
        marked_group(marker_line(group)) == Some(group),
{
    let digits = decimal_int(group as int);
    decimal_is_read_back(group as nat);
    reveal_strlit("\n");
    let line = marker_line(group);
    assert(line.drop_last() == digits);
    assert(line.last() == '\n');
    assert(!is_space(digits.first()));
    assert(!is_space(digits.last()));
    assert(without_leading_space(line) == line);
    assert(without_trailing_space(line) == without_trailing_space(digits));
    assert(without_trailing_space(digits) == digits);
}

/// A marker names the number that stands in it, whatever space is around it, and only
/// where that is the number of a group that can be an application's.
pub proof fn a_marker_names_a_group_above_one(text: Seq<char>)
    ensures
        match parsed_i32(trimmed(text)) {
            None => marked_group(text) is None,
            Some(0) => marked_group(text) is None,
            Some(1) => marked_group(text) is None,
            Some(group) => if group < 0 {
                marked_group(text) is None
            } else {
                marked_group(text) == Some(group)
            },
        },
{
}

/// The end of a freeze: the group is resumed, the marker is removed, and signals
/// come through again. Nothing that goes wrong on the way stops it.
#[derive(Clone, Copy, Debug, PartialEq, Eq, Structural)]
pub enum Thaw {
    Resuming,
    RemovingMarker,
    Restoring,
}

/// The request that sends a signal to a whole group.
pub open spec fn group_signal(group: i32, signal: Signal) -> FreezeRequest {
    FreezeRequest::Host(Request::Kill { target: Target::Group(group), signal })
}

/// The request that sends a signal to a whole group.
pub fn signal_group(group: i32, signal: Signal) -> (r: FreezeRequest)
    ensures
        r == group_signal(group, signal),
{
    FreezeRequest::Host(Request::Kill { target: Target::Group(group), signal })
}

impl Thaw {
    pub open spec fn asks(self, group: i32) -> FreezeRequest {
        match self {
            Thaw::Resuming => group_signal(group, Signal::Resume),
            Thaw::RemovingMarker => FreezeRequest::RemoveMarker,
            Thaw::Restoring => FreezeRequest::RestoreSignals,
        }
    }

    /// The request that the thaw stands at.
    pub fn request(&self, group: i32) -> (r: FreezeRequest)
        ensures
            r == self.asks(group),
    {
        match self {
            Thaw::Resuming => signal_group(group, Signal::Resume),
            Thaw::RemovingMarker => FreezeRequest::RemoveMarker,
            Thaw::Restoring => FreezeRequest::RestoreSignals,
        }
    }

    pub open spec fn after(self, reply: FreezeReply) -> Next<Thaw, ()> {
        match (self, reply) {
            (Thaw::Resuming, FreezeReply::Host(Reply::Killed(_))) => Next::Ask(
                Thaw::RemovingMarker,
            ),
            (Thaw::RemovingMarker, FreezeReply::Done(_)) => Next::Ask(Thaw::Restoring),
            (Thaw::Restoring, FreezeReply::Masked) => Next::Done(()),
            _ => Next::Ask(self),
        }
    }

    /// Goes on with the host's answer. An answer to another request changes
    /// nothing.
    pub fn step(self, reply: &FreezeReply) -> (r: Next<Thaw, ()>)
        ensures
            r == self.after(*reply),
    {
        match (self, reply) {
            (Thaw::Resuming, FreezeReply::Host(Reply::Killed(_))) => Next::Ask(
                Thaw::RemovingMarker,
            ),
            (Thaw::RemovingMarker, FreezeReply::Done(_)) => Next::Ask(Thaw::Restoring),
            (Thaw::Restoring, FreezeReply::Masked) => Next::Done(()),
            (state, _) => Next::Ask(state),
        }
    }
}

pub type FreezeResult = Result<Option<Frozen>, String>;

/// The freeze of a group: it is told to stop and then watched until all of it has
/// stopped. Where that cannot be confirmed in time the group is resumed.
#[derive(Debug)]
pub enum Freeze {
    Marking,
    Blocking,
    Stamping,
    Stopping { since: u64 },
    Arming { since: u64 },
    Scanning { since: u64, deadline: u64, pause: u64 },
    Deciding { since: u64, deadline: u64, pause: u64 },
    Pausing { since: u64, deadline: u64, pause: u64 },
    /// The group is not to stay frozen; `end` is what comes of it.
    Thawing { thaw: Thaw, end: FreezeResult },
}

/// The pause that follows a pause.
pub open spec fn longer_stop_pause(pause: u64) -> u64 {
    if pause < LONGEST_STOP_PAUSE / 2 {
        (2 * pause) as u64
    } else {
        LONGEST_STOP_PAUSE
    }
}

/// The time by which a group has to have stopped.
pub open spec fn stop_deadline(now: u64) -> u64 {
    if now <= u64::MAX - STOP_TIMEOUT {
        (now + STOP_TIMEOUT) as u64
    } else {
        u64::MAX
    }
}

impl Suspend {
    /// Begins a freeze. Where the host cannot tell whether a group has stopped,
    /// nothing is frozen.
    pub fn freeze(&self, supported: bool) -> (r: Next<Freeze, FreezeResult>)
        ensures
            r == Freeze::begun(supported),
    {
        Freeze::begin(supported)
    }
}

impl Freeze {
    pub open spec fn begun(supported: bool) -> Next<Freeze, FreezeResult> {
        if supported {
            Next::Ask(Freeze::Marking)
        } else {
            Next::Done(Ok(None))
        }
    }

    /// Begins a freeze, where it is supported.
    pub fn begin(supported: bool) -> (r: Next<Freeze, FreezeResult>)
        ensures
            r == Freeze::begun(supported),
    {
        if supported {
            Next::Ask(Freeze::Marking)
        } else {
            Next::Done(Ok(None))
        }
    }

    pub open spec fn asks(self, group: i32) -> FreezeRequest {
        match self {
            Freeze::Marking => FreezeRequest::WriteMarker(group),
            Freeze::Blocking => FreezeRequest::BlockSignals,
            Freeze::Stamping => FreezeRequest::ReadClock,
            Freeze::Stopping { .. } => group_signal(group, Signal::Freeze),
            Freeze::Arming { .. } => FreezeRequest::ReadClock,
            Freeze::Scanning { .. } => FreezeRequest::ScanGroup(group),
            Freeze::Deciding { .. } => FreezeRequest::ReadClock,
            Freeze::Pausing { pause, .. } => FreezeRequest::Host(Request::Sleep { micros: pause }),
            Freeze::Thawing { thaw, .. } => thaw.asks(group),
        }
    }

    /// The request that the freeze stands at.
    pub fn request(&self, group: i32) -> (r: FreezeRequest)
        ensures
            r == self.asks(group),
    {
        match self {
            Freeze::Marking => FreezeRequest::WriteMarker(group),
            Freeze::Blocking => FreezeRequest::BlockSignals,
            Freeze::Stamping => FreezeRequest::ReadClock,
            Freeze::Stopping { .. } => signal_group(group, Signal::Freeze),
            Freeze::Arming { .. } => FreezeRequest::ReadClock,
            Freeze::Scanning { .. } => FreezeRequest::ScanGroup(group),
            Freeze::Deciding { .. } => FreezeRequest::ReadClock,
            Freeze::Pausing { pause, .. } => FreezeRequest::Host(Request::Sleep { micros: *pause }),
            Freeze::Thawing { thaw, .. } => thaw.request(group),
        }
    }

    pub open spec fn thawing(end: FreezeResult) -> Next<Freeze, FreezeResult> {
        Next::Ask(Freeze::Thawing { thaw: Thaw::Resuming, end })
    }

    pub open spec fn after(self, reply: FreezeReply) -> Next<Freeze, FreezeResult> {
        match (self, reply) {
            (Freeze::Marking, FreezeReply::Done(written)) => match written {
                Ok(()) => Next::Ask(Freeze::Blocking),
                Err(error) => Next::Done(Err(error)),
            },
            (Freeze::Blocking, FreezeReply::Masked) => Next::Ask(Freeze::Stamping),
            (Freeze::Stamping, FreezeReply::Clock(since)) => Next::Ask(Freeze::Stopping { since }),
            (Freeze::Stopping { since }, FreezeReply::Host(Reply::Killed(reply))) => match reply {
                KillReply::Delivered => Next::Ask(Freeze::Arming { since }),
                // No such group: nothing runs, so nothing can write.
                KillReply::Refused {
                    refusal: Refusal::NoSuchProcess,
                    ..
                } => Freeze::thawing(Ok(None)),
                KillReply::Refused { error, .. } => Freeze::thawing(Err(error)),
            },
            (Freeze::Arming { since }, FreezeReply::Clock(now)) => Next::Ask(
                Freeze::Scanning { since, deadline: stop_deadline(now), pause: FIRST_STOP_PAUSE },
            ),
            (
                Freeze::Scanning { since, deadline, pause },
                FreezeReply::Scanned(scanned),
            ) => match scanned {
                Ok(true) => Next::Done(Ok(Some(Frozen { since }))),
                Ok(false) => Next::Ask(Freeze::Deciding { since, deadline, pause }),
                Err(error) => Freeze::thawing(Err(error)),
            },
            (Freeze::Deciding { since, deadline, pause }, FreezeReply::Clock(now)) => if now
                < deadline {
                Next::Ask(Freeze::Pausing { since, deadline, pause })
            } else {
                Freeze::thawing(Ok(None))
            },
            (
                Freeze::Pausing { since, deadline, pause },
                FreezeReply::Host(Reply::Slept),
            ) => Next::Ask(
                Freeze::Scanning { since, deadline, pause: longer_stop_pause(pause) },
            ),
            (Freeze::Thawing { thaw, end }, reply) => match thaw.after(reply) {
                Next::Ask(thaw) => Next::Ask(Freeze::Thawing { thaw, end }),
                Next::Done(()) => Next::Done(end),
            },
            _ => Next::Ask(self),
        }
    }

    /// Goes on with the host's answer. An answer to another request changes
    /// nothing.
    pub fn step(self, reply: FreezeReply) -> (r: Next<Freeze, FreezeResult>)
        ensures
            r == self.after(reply),
    {
        match (self, reply) {
            (Freeze::Marking, FreezeReply::Done(written)) => match written {
                Ok(()) => Next::Ask(Freeze::Blocking),
                Err(error) => Next::Done(Err(error)),
            },
            (Freeze::Blocking, FreezeReply::Masked) => Next::Ask(Freeze::Stamping),
            (Freeze::Stamping, FreezeReply::Clock(since)) => Next::Ask(Freeze::Stopping { since }),
            (Freeze::Stopping { since }, FreezeReply::Host(Reply::Killed(reply))) => match reply {
                KillReply::Delivered => Next::Ask(Freeze::Arming { since }),
                KillReply::Refused { refusal, error } => if refusal == Refusal::NoSuchProcess {
                    thaw_to(Ok(None))
                } else {
                    thaw_to(Err(error))
                },
            },
            (Freeze::Arming { since }, FreezeReply::Clock(now)) => {
                let deadline: u64 = if now <= u64::MAX - STOP_TIMEOUT {
                    now + STOP_TIMEOUT
                } else {
                    u64::MAX
                };
                Next::Ask(Freeze::Scanning { since, deadline, pause: FIRST_STOP_PAUSE })
            },
            (
                Freeze::Scanning { since, deadline, pause },
                FreezeReply::Scanned(scanned),
            ) => match scanned {
                Ok(true) => Next::Done(Ok(Some(Frozen { since }))),
                Ok(false) => Next::Ask(Freeze::Deciding { since, deadline, pause }),
                Err(error) => thaw_to(Err(error)),
            },
            (Freeze::Deciding { since, deadline, pause }, FreezeReply::Clock(now)) => if now
                < deadline {
                Next::Ask(Freeze::Pausing { since, deadline, pause })
            } else {
                thaw_to(Ok(None))
            },
            (Freeze::Pausing { since, deadline, pause }, FreezeReply::Host(Reply::Slept)) => {
                let longer: u64 = if pause < LONGEST_STOP_PAUSE / 2 {
                    2 * pause
                } else {
                    LONGEST_STOP_PAUSE
                };
                Next::Ask(Freeze::Scanning { since, deadline, pause: longer })
            },
            (Freeze::Thawing { thaw, end }, reply) => match thaw.step(&reply) {
                Next::Ask(thaw) => Next::Ask(Freeze::Thawing { thaw, end }),
                Next::Done(()) => Next::Done(end),
            },
            (state, _) => Next::Ask(state),
        }
    }
}

fn thaw_to(end: FreezeResult) -> (r: Next<Freeze, FreezeResult>)
    ensures
        r == Freeze::thawing(end),
{
    Next::Ask(Freeze::Thawing { thaw: Thaw::Resuming, end })
}

pub type RecoverResult = Result<Option<i32>, String>;

/// The recovery from a guard that died while a group was frozen: the group that
/// the marker names is resumed, and the marker is removed.
#[derive(Debug)]
pub enum Recover {
    Reading,
    Resuming { group: i32 },
    Removing { resumed: Option<i32> },
}

/// Begins a recovery. Only for the holder of the rotation lock, so that a freeze
/// that is going on is not undone.
pub fn recover() -> (r: Recover)
    ensures
        r == Recover::Reading,
{
    Recover::Reading
}

impl Recover {
    pub open spec fn asks(self) -> FreezeRequest {
        match self {
            Recover::Reading => FreezeRequest::ReadMarker,
            Recover::Resuming { group } => group_signal(group, Signal::Resume),
            Recover::Removing { .. } => FreezeRequest::RemoveMarker,
        }
    }

    /// The request that the recovery stands at.
    pub fn request(&self) -> (r: FreezeRequest)
        ensures
            r == self.asks(),
    {
        match self {
            Recover::Reading => FreezeRequest::ReadMarker,
            Recover::Resuming { group } => signal_group(*group, Signal::Resume),
            Recover::Removing { .. } => FreezeRequest::RemoveMarker,
        }
    }

    pub open spec fn after(self, reply: FreezeReply) -> Next<Recover, RecoverResult> {
        match (self, reply) {
            (Recover::Reading, FreezeReply::Marker(file)) => match file {
                TextFile::Missing => Next::Done(Ok(None)),
                TextFile::Unreadable(error) => Next::Done(Err(error)),
                TextFile::Text(text) => match marked_group(text@) {
                    Some(group) => Next::Ask(Recover::Resuming { group }),
                    None => Next::Ask(Recover::Removing { resumed: None }),
                },
            },
            (Recover::Resuming { group }, FreezeReply::Host(Reply::Killed(_))) => Next::Ask(
                Recover::Removing { resumed: Some(group) },
            ),
            (Recover::Removing { resumed }, FreezeReply::Done(removed)) => match removed {
                Ok(()) => Next::Done(Ok(resumed)),
                Err(error) => Next::Done(Err(error)),
            },
            _ => Next::Ask(self),
        }
    }

    /// Goes on with the host's answer. An answer to another request changes
    /// nothing.
    pub fn step(self, reply: FreezeReply) -> (r: Next<Recover, RecoverResult>)
        ensures
            r == self.after(reply),
    {
        match (self, reply) {
            (Recover::Reading, FreezeReply::Marker(file)) => match file {
                TextFile::Missing => Next::Done(Ok(None)),
                TextFile::Unreadable(error) => Next::Done(Err(error)),
                TextFile::Text(text) => match read_marker(text.as_str()) {
                    Some(group) => Next::Ask(Recover::Resuming { group }),
                    None => Next::Ask(Recover::Removing { resumed: None }),
                },
            },
            (Recover::Resuming { group }, FreezeReply::Host(Reply::Killed(_))) => Next::Ask(
                Recover::Removing { resumed: Some(group) },
            ),
            (Recover::Removing { resumed }, FreezeReply::Done(removed)) => match removed {
                Ok(()) => Next::Done(Ok(resumed)),
                Err(error) => Next::Done(Err(error)),
            },
            (state, _) => Next::Ask(state),
        }
    }
}

} // verus!

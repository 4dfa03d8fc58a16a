//! What the kernel says of a process group on systems without a Linux `/proc`.

use vstd::prelude::*;
use vstd::string::*;
use crate::host::Next;

verus! {

/// How many entries more than the kernel counted the buffer of a table has room for:
/// processes come and go between the two calls.
pub const SPARE_ENTRIES: usize = 16;

/// How many processes the first buffer of a list has room for.
pub const FIRST_LIST: usize = 256;

/// What the kernel answers when it is asked for the table of a group's threads.
#[derive(Debug, PartialEq, Eq)]
pub enum TableReply {
    /// The table takes so many bytes, or so many were filled.
    Bytes(usize),
    /// `ESRCH`: there is no such group.
    NoGroup,
    /// `ENOMEM`: the table does not fit any more.
    TooSmall(String),
    Failed(String),
}

/// The reading of a group's table: its size is asked for, and then the table itself.
#[derive(Clone, Copy, Debug, PartialEq, Eq, Structural)]
pub enum TableScan {
    /// How many bytes does the table take? One entry takes `entry` bytes.
    Sizing { entry: usize },
    /// Fill a buffer of `room` bytes.
    Filling { entry: usize, room: usize },
}

/// What came of reading a table: nothing is left of the group, or so many bytes of the
/// buffer hold entries.
#[derive(Clone, Copy, Debug, PartialEq, Eq, Structural)]
pub enum TableRead {
    NoGroup,
    Filled(usize),
}

pub type TableResult = Result<TableRead, String>;

/// The room for a table of `size` bytes and some entries more, as far as there is such
/// room.
pub open spec fn room_for(size: usize, entry: usize) -> usize {
    if size + SPARE_ENTRIES * entry <= usize::MAX {
        (size + SPARE_ENTRIES * entry) as usize
    } else {
        usize::MAX
    }
}

impl TableScan {
    pub open spec fn after(self, reply: TableReply) -> Next<TableScan, TableResult> {
        match (self, reply) {
            (_, TableReply::NoGroup) => Next::Done(Ok(TableRead::NoGroup)),
            (_, TableReply::Failed(error)) => Next::Done(Err(error)),
            (TableScan::Sizing { entry }, TableReply::Bytes(size)) => Next::Ask(
                TableScan::Filling { entry, room: room_for(size, entry) },
            ),
            (TableScan::Filling { .. }, TableReply::Bytes(size)) => Next::Done(
                Ok(TableRead::Filled(size)),
            ),
            (TableScan::Filling { entry, .. }, TableReply::TooSmall(_)) => Next::Ask(
                TableScan::Sizing { entry },
            ),
            (TableScan::Sizing { .. }, TableReply::TooSmall(error)) => Next::Done(Err(error)),
        }
    }

    /// Goes on with the kernel's answer.
    pub fn step(self, reply: TableReply) -> (r: Next<TableScan, TableResult>)
        ensures
            r == self.after(reply),
    {
        match (self, reply) {
            (_, TableReply::NoGroup) => Next::Done(Ok(TableRead::NoGroup)),
            (_, TableReply::Failed(error)) => Next::Done(Err(error)),
            (TableScan::Sizing { entry }, TableReply::Bytes(size)) => {
                let room: usize = match entry.checked_mul(SPARE_ENTRIES) {
                    Some(spare) => match size.checked_add(spare) {
                        Some(room) => room,
                        None => usize::MAX,
                    },
                    None => usize::MAX,
                };
                proof {
                    assert(entry * SPARE_ENTRIES == SPARE_ENTRIES * entry) by (nonlinear_arith);
                }
                Next::Ask(TableScan::Filling { entry, room })
            },
            (TableScan::Filling { .. }, TableReply::Bytes(size)) => Next::Done(
                Ok(TableRead::Filled(size)),
            ),
            (TableScan::Filling { entry, .. }, TableReply::TooSmall(_)) => Next::Ask(
                TableScan::Sizing { entry },
            ),
            (TableScan::Sizing { .. }, TableReply::TooSmall(error)) => Next::Done(Err(error)),
        }
    }
}

/// What the answer to a request for the list of a group's processes means: the list is
/// complete with so many entries, or it may not be and is asked for again with more
/// room.
pub open spec fn listed(room: usize, count: i32) -> Next<usize, Option<usize>> {
    if count < 0 {
        Next::Done(None)
    } else if count < room {
        Next::Done(Some(count as usize))
    } else {
        Next::Ask(
            if room <= usize::MAX / 2 {
                (2 * room) as usize
            } else {
                usize::MAX
            },
        )
    }
}

/// Interprets the number of processes that were listed in a buffer with room for `room`:
/// the list is complete, or there has to be more room, or, for a negative number, the
/// call failed.
pub fn list_processes(room: usize, count: i32) -> (r: Next<usize, Option<usize>>)
    ensures
        r == listed(room, count),
{
    if count < 0 {
        Next::Done(None)
    } else if (count as u64) < room as u64 {
        Next::Done(Some(count as usize))
    } else {
        let more: usize = if room <= usize::MAX / 2 {
            2 * room
        } else {
            usize::MAX
        };
        Next::Ask(more)
    }
}

/// What a process, or a thread, was seen to be.
#[derive(Clone, Copy, Debug, PartialEq, Eq, Structural)]
pub enum Seen {
    Stopped,
    Zombie,
    /// It was gone when it was looked at.
    Vanished,
    Other,
}

/// Whether nothing that was seen can still run.
pub fn all_stopped(seen: &Vec<Seen>) -> (r: bool)
    ensures
        r <==> forall|i: int| 0 <= i < seen@.len() ==> #[trigger] seen@[i] != Seen::Other,
{
    let mut i: usize = 0;
    while i < seen.len()
        invariant
            i <= seen.len(),
            forall|j: int| 0 <= j < i ==> #[trigger] seen@[j] != Seen::Other,
        decreases seen.len() - i,
    {
        if seen[i] == Seen::Other {
            return false;
        }
        i = i + 1;
    }
    true
}

/// The table of a group is asked for with room for at least as many bytes as were counted
/// and sixteen entries more, as far as there is such room; where it does not fit any more
/// its size is asked for again. What was filled is what is read, a group that is not there
/// is told as such, and any other failure is one.
pub proof fn a_table_is_read_when_it_fits(scan: TableScan, reply: TableReply)
    ensures
        match reply {
            TableReply::NoGroup => scan.after(reply) == Next::<TableScan, TableResult>::Done(
                Ok(TableRead::NoGroup),
            ),
            TableReply::Failed(error) => scan.after(reply) == Next::<TableScan, TableResult>::Done(
                Err(error),
            ),
            TableReply::Bytes(size) => match scan {
                TableScan::Sizing { entry } => scan.after(reply) matches Next::Ask(
                    TableScan::Filling { entry: e, room },
                ) && e == entry && (room == size + 16 * entry || room == usize::MAX && size + 16
                    * entry > usize::MAX),
                TableScan::Filling { .. } => scan.after(reply) == Next::<
                    TableScan,
                    TableResult,
                >::Done(Ok(TableRead::Filled(size))),
            },
            TableReply::TooSmall(error) => match scan {
                TableScan::Sizing { .. } => scan.after(reply) == Next::<
                    TableScan,
                    TableResult,
                >::Done(Err(error)),
                TableScan::Filling { entry, .. } => scan.after(reply) == Next::<
                    TableScan,
                    TableResult,
                >::Ask(TableScan::Sizing { entry }),
            },
        },
{
}

/// A list of processes is complete where it did not fill its room; where it did, it is asked
/// for with twice the room. A negative count is a failure.
pub proof fn a_list_is_complete_when_there_is_room(room: usize, count: i32)
    ensures
        count < 0 ==> listed(room, count) == Next::<usize, Option<usize>>::Done(None),
        0 <= count < room ==> listed(room, count) == Next::<usize, Option<usize>>::Done(
            Some(count as usize),
        ),
        0 <= count && count >= room ==> (listed(room, count) matches Next::Ask(more) && (more == 2
            * room || more == usize::MAX && 2 * room > usize::MAX)),
{
}

} // verus!

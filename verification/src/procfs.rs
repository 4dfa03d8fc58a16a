//! What `/proc` says of a process group on Linux.

use vstd::prelude::*;
use vstd::string::*;
use crate::paths::FilePath;
use crate::text::{agrees, parse_i32, parsed_i32};

verus! {

/// Whether `c` separates the fields of a `stat` line.
pub open spec fn separates_fields(c: char) -> bool {
    c == ' ' || c == '\t' || c == '\n' || c == '\x0C' || c == '\r'
}

fn separator(c: char) -> (r: bool)
    ensures
        r == separates_fields(c),
{
    c == ' ' || c == '\t' || c == '\n' || c == '\x0C' || c == '\r'
}

/// The number of characters before the first separator.
pub open spec fn field_len(s: Seq<char>) -> nat
    decreases s.len(),
{
    if s.len() == 0 || separates_fields(s[0]) {
        0
    } else {
        1 + field_len(s.drop_first())
    }
}

/// What stands between separators.
pub open spec fn fields(s: Seq<char>) -> Seq<Seq<char>>
    decreases s.len(),
{
    if s.len() == 0 {
        Seq::empty()
    } else if separates_fields(s[0]) {
        fields(s.drop_first())
    } else {
        let len = field_len(s);
        if 0 < len <= s.len() {
            seq![s.take(len as int)] + fields(s.skip(len as int))
        } else {
            Seq::empty()
        }
    }
}

/// Where the last `)` stands.
pub open spec fn last_bracket(s: Seq<char>) -> Option<int>
    decreases s.len(),
{
    if s.len() == 0 {
        None
    } else if s.last() == ')' {
        Some(s.len() - 1)
    } else {
        last_bracket(s.drop_last())
    }
}

/// The state of a process and its group, as its `stat` line gives them:
/// `pid (name) state parent group ..`, where the name may hold spaces and brackets.
pub open spec fn stat_of(stat: Seq<char>) -> Option<(char, i32)> {
    match last_bracket(stat) {
        None => None,
        Some(at) => {
            let rest = fields(stat.skip(at + 1));
            if rest.len() < 3 {
                None
            } else {
                match parsed_i32(rest[2]) {
                    Some(group) => Some((rest[0][0], group)),
                    None => None,
                }
            }
        },
    }
}

proof fn lemma_field_len(s: Seq<char>, len: int)
    requires
        0 <= len <= s.len(),
        forall|i: int| 0 <= i < len ==> !separates_fields(#[trigger] s[i]),
        len < s.len() ==> separates_fields(s[len]),
    ensures
        field_len(s) == len,
    decreases len,
{
    if len > 0 {
        let rest = s.drop_first();
        assert forall|i: int| 0 <= i < len - 1 implies !separates_fields(#[trigger] rest[i]) by {
            assert(rest[i] == s[i + 1]);
        }
        lemma_field_len(rest, len - 1);
    }
}

/// Where the next field begins and ends.
fn next_field(text: &str, from: usize) -> (r: Option<(usize, usize)>)
    requires
        from <= text@.len(),
    ensures
        match r {
            None => fields(text@.skip(from as int)) == Seq::<Seq<char>>::empty(),
            Some((start, end)) => {
                &&& from <= start < end <= text@.len()
                &&& fields(text@.skip(from as int)) == seq![
                    text@.subrange(start as int, end as int),
                ] + fields(text@.skip(end as int))
            },
        },
{
    let len: usize = text.unicode_len();
    let mut start: usize = from;
    while start < len && separator(text.get_char(start))
        invariant
            from <= start <= len,
            len == text@.len(),
            fields(text@.skip(from as int)) == fields(text@.skip(start as int)),
        ensures
            from <= start <= len,
            fields(text@.skip(from as int)) == fields(text@.skip(start as int)),
            start < len ==> !separates_fields(text@[start as int]),
        decreases len - start,
    {
        assert(text@.skip(start as int).drop_first() == text@.skip(start + 1));
        start = start + 1;
    }
    if start == len {
        return None;
    }
    let ghost rest = text@.skip(start as int);
    assert(rest[0] == text@[start as int]);
    let mut end: usize = start + 1;
    while end < len && !separator(text.get_char(end))
        invariant
            start < end <= len,
            len == text@.len(),
            rest == text@.skip(start as int),
            forall|i: int| 0 <= i < end - start ==> !separates_fields(#[trigger] rest[i]),
        ensures
            start < end <= len,
            forall|i: int| 0 <= i < end - start ==> !separates_fields(#[trigger] rest[i]),
            end < len ==> separates_fields(text@[end as int]),
        decreases len - end,
    {
        assert(rest[end - start] == text@[end as int]);
        end = end + 1;
    }
    proof {
        if end < len {
            assert(rest[end - start] == text@[end as int]);
        }
        lemma_field_len(rest, end - start);
        assert(rest.take(end - start) == text@.subrange(start as int, end as int));
        assert(rest.skip(end - start) == text@.skip(end as int));
    }
    Some((start, end))
}

/// The state of a process and its group, as its `stat` line gives them.
pub fn state_and_group(stat: &str) -> (r: Option<(char, i32)>)
    ensures
        r == stat_of(stat@),
{
    let len: usize = stat.unicode_len();
    let mut from: usize = len;
    assert(stat@.take(len as int) == stat@);
    while from > 0 && stat.get_char(from - 1) != ')'
        invariant
            from <= len,
            len == stat@.len(),
            last_bracket(stat@.take(from as int)) == last_bracket(stat@),
        ensures
            from <= len,
            last_bracket(stat@) == (if from == 0 {
                None
            } else {
                Some(from - 1)
            }),
        decreases from,
    {
        assert(stat@.take(from as int).drop_last() == stat@.take(from - 1));
        from = from - 1;
    }
    if from == 0 {
        return None;
    }
    let ghost rest = fields(stat@.skip(from as int));
    let (state_start, state_end) = match next_field(stat, from) {
        Some(field) => field,
        None => return None,
    };
    let (_, parent_end) = match next_field(stat, state_end) {
        Some(field) => field,
        None => return None,
    };
    let (group_start, group_end) = match next_field(stat, parent_end) {
        Some(field) => field,
        None => return None,
    };
    assert(rest[0] == stat@.subrange(state_start as int, state_end as int));
    assert(rest[2] == stat@.subrange(group_start as int, group_end as int));
    let state = stat.get_char(state_start);
    match parse_i32(stat.substring_char(group_start, group_end)) {
        Some(group) => Some((state, group)),
        None => None,
    }
}

/// Whether a thread in this state cannot run: it is stopped, or it has ended.
pub open spec fn cannot_run(state: char) -> bool {
    state == 'T' || state == 't' || state == 'Z' || state == 'X' || state == 'x'
}

/// A thread of a process: what its `stat` file says, where it could be read.
pub type TaskSeen = Result<Option<String>, String>;

/// An entry of `/proc`.
#[derive(Debug)]
pub enum ProcessSeen {
    /// The entry could not be read.
    Broken(String),
    /// An entry with its name; its `stat` file, where it could be read; and its
    /// threads, where they could be listed.
    Entry { name: FilePath, stat: Option<String>, tasks: Option<Vec<TaskSeen>> },
}

/// Whether the name of an entry of `/proc` is that of a process.
pub open spec fn names_process(name: Seq<u8>) -> bool {
    forall|i: int| 0 <= i < name.len() ==> 48 <= #[trigger] name[i] <= 57
}

/// Whether the name of an entry of `/proc` is that of a process: its `stat` file
/// is worth reading.
pub fn is_process_name(name: &FilePath) -> (r: bool)
    ensures
        r == names_process(name@),
{
    let mut i: usize = 0;
    while i < name.bytes.len()
        invariant
            i <= name.bytes.len(),
            forall|j: int| 0 <= j < i ==> 48 <= #[trigger] name@[j] <= 57,
        decreases name.bytes.len() - i,
    {
        let byte: u8 = name.bytes[i];
        if byte < 48 || byte > 57 {
            assert(!(48 <= name@[i as int] <= 57));
            return false;
        }
        i = i + 1;
    }
    true
}

/// Whether a `stat` line is that of a process in `group`.
pub open spec fn is_member(stat: Seq<char>, group: i32) -> bool {
    stat_of(stat) matches Some((_, g)) && g == group
}

/// Whether a `stat` line is that of a process in `group`: its threads are worth
/// listing.
pub fn in_group(stat: &str, group: i32) -> (r: bool)
    ensures
        r == is_member(stat@, group),
{
    match state_and_group(stat) {
        Some((_, g)) => g == group,
        None => false,
    }
}

/// What a thread decides: that the scan fails, or that the group runs, or, if it is
/// stopped or has vanished, nothing.
pub open spec fn task_verdict(task: TaskSeen) -> Option<Result<bool, Seq<char>>> {
    match task {
        Err(error) => Some(Err(error@)),
        Ok(None) => None,
        Ok(Some(stat)) => match stat_of(stat@) {
            Some((state, _)) => if cannot_run(state) {
                None
            } else {
                Some(Ok(false))
            },
            None => None,
        },
    }
}

/// What the first thread decides that decides anything.
pub open spec fn tasks_verdict(tasks: Seq<TaskSeen>) -> Option<Result<bool, Seq<char>>>
    decreases tasks.len(),
{
    if tasks.len() == 0 {
        None
    } else {
        match task_verdict(tasks[0]) {
            Some(verdict) => Some(verdict),
            None => tasks_verdict(tasks.drop_first()),
        }
    }
}

/// What an entry of `/proc` decides about a group.
pub open spec fn entry_verdict(entry: ProcessSeen, group: i32) -> Option<Result<bool, Seq<char>>> {
    match entry {
        ProcessSeen::Broken(error) => Some(Err(error@)),
        ProcessSeen::Entry { name, stat: Some(stat), tasks: Some(tasks) } => if names_process(name@)
            && is_member(stat@, group) {
            tasks_verdict(tasks@)
        } else {
            None
        },
        _ => None,
    }
}

/// Whether every process of `group` is stopped: the first entry that decides
/// anything decides it, and where none does they all are.
pub open spec fn group_verdict(seen: Seq<ProcessSeen>, group: i32) -> Result<bool, Seq<char>>
    decreases seen.len(),
{
    if seen.len() == 0 {
        Ok(true)
    } else {
        match entry_verdict(seen[0], group) {
            Some(verdict) => verdict,
            None => group_verdict(seen.drop_first(), group),
        }
    }
}

/// What the library holds for a verdict.
pub open spec fn holds_verdict(
    held: Option<Result<bool, String>>,
    verdict: Option<Result<bool, Seq<char>>>,
) -> bool {
    match (held, verdict) {
        (None, None) => true,
        (Some(held), Some(verdict)) => agrees(held, verdict),
        _ => false,
    }
}

fn judge_task(task: &TaskSeen) -> (r: Option<Result<bool, String>>)
    ensures
        holds_verdict(r, task_verdict(*task)),
{
    match task {
        Err(error) => Some(Err(error.clone())),
        Ok(None) => None,
        Ok(Some(stat)) => match state_and_group(stat.as_str()) {
            Some((state, _)) => if state == 'T' || state == 't' || state == 'Z' || state == 'X'
                || state == 'x' {
                None
            } else {
                Some(Ok(false))
            },
            None => None,
        },
    }
}

fn judge_tasks(tasks: &Vec<TaskSeen>) -> (r: Option<Result<bool, String>>)
    ensures
        holds_verdict(r, tasks_verdict(tasks@)),
{
    let mut i: usize = 0;
    assert(tasks@.skip(0) == tasks@);
    while i < tasks.len()
        invariant
            i <= tasks.len(),
            tasks_verdict(tasks@.skip(i as int)) == tasks_verdict(tasks@),
        decreases tasks.len() - i,
    {
        assert(tasks@.skip(i as int).drop_first() == tasks@.skip(i + 1));
        if let Some(verdict) = judge_task(&tasks[i]) {
            return Some(verdict);
        }
        i = i + 1;
    }
    None
}

fn judge_entry(entry: &ProcessSeen, group: i32) -> (r: Option<Result<bool, String>>)
    ensures
        holds_verdict(r, entry_verdict(*entry, group)),
{
    match entry {
        ProcessSeen::Broken(error) => Some(Err(error.clone())),
        ProcessSeen::Entry { name, stat, tasks } => match (stat, tasks) {
            (Some(stat), Some(tasks)) => if is_process_name(name) && in_group(
                stat.as_str(),
                group,
            ) {
                judge_tasks(tasks)
            } else {
                None
            },
            _ => None,
        },
    }
}

/// Whether no thread of the group can still run. A process that vanished while
/// `/proc` was read is simply gone.
pub fn group_stopped(seen: &Vec<ProcessSeen>, group: i32) -> (r: Result<bool, String>)
    ensures
        agrees(r, group_verdict(seen@, group)),
{
    let mut i: usize = 0;
    assert(seen@.skip(0) == seen@);
    while i < seen.len()
        invariant
            i <= seen.len(),
            group_verdict(seen@.skip(i as int), group) == group_verdict(seen@, group),
        decreases seen.len() - i,
    {
        assert(seen@.skip(i as int).drop_first() == seen@.skip(i + 1));
        if let Some(verdict) = judge_entry(&seen[i], group) {
            return verdict;
        }
        i = i + 1;
    }
    Ok(true)
}

proof fn lemma_no_task_decides(tasks: Seq<TaskSeen>, i: int)
    requires
        tasks_verdict(tasks) is None,
        0 <= i < tasks.len(),
    ensures
        task_verdict(tasks[i]) is None,
    decreases tasks.len(),
{
    if i > 0 {
        lemma_no_task_decides(tasks.drop_first(), i - 1);
    }
}

proof fn lemma_no_entry_decides(seen: Seq<ProcessSeen>, group: i32, i: int)
    requires
        group_verdict(seen, group) == Ok::<bool, Seq<char>>(true),
        0 <= i < seen.len(),
    ensures
        entry_verdict(seen[i], group) is None,
    decreases seen.len(),
{
    lemma_never_true(seen[0], group);
    if i > 0 {
        lemma_no_entry_decides(seen.drop_first(), group, i - 1);
    }
}

proof fn lemma_never_true(entry: ProcessSeen, group: i32)
    ensures
        entry_verdict(entry, group) != Some(Ok::<bool, Seq<char>>(true)),
{
    if let ProcessSeen::Entry { tasks: Some(tasks), .. } = entry {
        lemma_tasks_never_true(tasks@);
    }
}

proof fn lemma_tasks_never_true(tasks: Seq<TaskSeen>)
    ensures
        tasks_verdict(tasks) != Some(Ok::<bool, Seq<char>>(true)),
    decreases tasks.len(),
{
    if tasks.len() > 0 {
        lemma_tasks_never_true(tasks.drop_first());
    }
}

/// A group counts as stopped only where every thread that was seen of a process in
/// it is in a state in which it cannot run.
pub proof fn stopped_group_has_no_running_thread(
    seen: Seq<ProcessSeen>,
    group: i32,
    i: int,
    name: FilePath,
    stat: String,
    tasks: Vec<TaskSeen>,
    t: int,
    task: String,
)
    requires
        group_verdict(seen, group) == Ok::<bool, Seq<char>>(true),
        0 <= i < seen.len(),
        seen[i] == (ProcessSeen::Entry { name, stat: Some(stat), tasks: Some(tasks) }),
        names_process(name@),
        is_member(stat@, group),
        0 <= t < tasks@.len(),
        tasks@[t] == Ok::<Option<String>, String>(Some(task)),
        stat_of(task@) is Some,
    ensures
        stat_of(task@) matches Some((state, _)) && cannot_run(state),
{
    lemma_no_entry_decides(seen, group, i);
    lemma_no_task_decides(tasks@, t);
}

} // verus!

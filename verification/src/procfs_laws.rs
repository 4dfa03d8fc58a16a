//! What holds of every look at the threads of a process group.

use vstd::prelude::*;
use crate::procfs::{
    entry_verdict, field_len, fields, group_verdict, last_bracket, separates_fields, stat_of,
    task_verdict, tasks_verdict, ProcessSeen, TaskSeen,
};
use crate::text::parsed_i32;

verus! {

/// Whether a text is a field: it is not empty, and neither white space nor a closing
/// bracket stands in it.
pub open spec fn is_field(s: Seq<char>) -> bool {
    &&& s.len() > 0
    &&& forall|i: int|
        0 <= i < s.len() ==> {
            let c = #[trigger] s[i];
            c != ' ' && c != '\t' && c != '\n' && c != '\x0C' && c != '\r' && c != ')'
        }
}

/// Whether a character separates fields: a space, a tab, or the end of a line or a page.
pub open spec fn is_gap(c: char) -> bool {
    c == ' ' || c == '\t' || c == '\n' || c == '\x0C' || c == '\r'
}

proof fn lemma_field(gap: char, field: Seq<char>, rest: Seq<char>)
    requires
        is_gap(gap),
        is_field(field),
        rest.len() > 0 ==> separates_fields(rest[0]),
    ensures
        fields(seq![gap] + field + rest) == seq![field] + fields(rest),
{
    let all = seq![gap] + field + rest;
    let tail = all.drop_first();
    assert(tail =~= field + rest);
    lemma_len(field, rest);
    assert(tail.take(field.len() as int) =~= field);
    assert(tail.skip(field.len() as int) =~= rest);
    assert(!separates_fields(tail[0])) by {
        assert(tail[0] == field[0]);
    }
    assert(all[0] == gap);
    assert(fields(all) == fields(tail));
    assert(field_len(tail) == field.len());
    assert(fields(tail) == seq![tail.take(field.len() as int)] + fields(
        tail.skip(field.len() as int),
    ));
}

spec fn unbracketed(s: Seq<char>) -> bool {
    forall|i: int| 0 <= i < s.len() ==> #[trigger] s[i] != ')'
}

proof fn lemma_unbracketed(gap: char, field: Seq<char>, rest: Seq<char>)
    requires
        is_gap(gap),
        is_field(field),
        unbracketed(rest),
    ensures
        unbracketed(seq![gap] + field + rest),
        (seq![gap] + field + rest)[0] == gap,
{
    let all = seq![gap] + field + rest;
    assert forall|i: int| 0 <= i < all.len() implies #[trigger] all[i] != ')' by {
        if 1 <= i < 1 + field.len() {
            assert(all[i] == field[i - 1]);
        } else if i >= 1 + field.len() {
            assert(all[i] == rest[i - 1 - field.len()]);
        }
    }
}

proof fn lemma_len(field: Seq<char>, rest: Seq<char>)
    requires
        forall|i: int| 0 <= i < field.len() ==> !separates_fields(#[trigger] field[i]),
        rest.len() > 0 ==> separates_fields(rest[0]),
    ensures
        field_len(field + rest) == field.len(),
    decreases field.len(),
{
    if field.len() == 0 {
        assert(field + rest =~= rest);
    } else {
        let less = field.drop_first();
        assert forall|i: int| 0 <= i < less.len() implies !separates_fields(#[trigger] less[i]) by {
            assert(less[i] == field[i + 1]);
        }
        lemma_len(less, rest);
        assert((field + rest).drop_first() =~= less + rest);
        assert((field + rest)[0] == field[0]);
    }
}

proof fn lemma_bracket(head: Seq<char>, tail: Seq<char>)
    requires
        forall|i: int| 0 <= i < tail.len() ==> #[trigger] tail[i] != ')',
    ensures
        last_bracket(head.push(')') + tail) == Some(head.len() as int),
    decreases tail.len(),
{
    let all = head.push(')') + tail;
    if tail.len() == 0 {
        assert(all =~= head.push(')'));
    } else {
        let less = tail.drop_last();
        assert forall|i: int| 0 <= i < less.len() implies #[trigger] less[i] != ')' by {
            assert(less[i] == tail[i]);
        }
        lemma_bracket(head, less);
        assert(all.drop_last() =~= head.push(')') + less);
        assert(all.last() == tail.last());
        assert(tail[tail.len() - 1] == tail.last());
    }
}

proof fn lemma_three<A>(a: A, b: A, c: A, rest: Seq<A>)
    ensures
        (seq![a] + (seq![b] + (seq![c] + rest))).len() >= 3,
        (seq![a] + (seq![b] + (seq![c] + rest)))[0] == a,
        (seq![a] + (seq![b] + (seq![c] + rest)))[2] == c,
{
}

/// The state and the group of a process are read from behind the last bracket of its
/// `stat` line, whatever its name is: the state is the first letter there, and the group
/// the third field.
pub proof fn a_stat_line_gives_state_and_group(
    head: Seq<char>,
    gaps: (char, char, char),
    state: Seq<char>,
    parent: Seq<char>,
    group: Seq<char>,
    rest: Seq<char>,
)
    requires
        is_gap(gaps.0) && is_gap(gaps.1) && is_gap(gaps.2),
        is_field(state),
        is_field(parent),
        is_field(group),
        rest.len() > 0 ==> is_gap(rest[0]),
        forall|i: int| 0 <= i < rest.len() ==> #[trigger] rest[i] != ')',
    ensures
        stat_of(
            head.push(')') + (seq![gaps.0] + state + (seq![gaps.1] + parent + (seq![gaps.2] + group
                + rest))),
        ) == match parsed_i32(group) {
            Some(number) => Some((state[0], number)),
            None => None,
        },
{
    let third = seq![gaps.2] + group + rest;
    let second = seq![gaps.1] + parent + third;
    let first = seq![gaps.0] + state + second;
    lemma_unbracketed(gaps.2, group, rest);
    lemma_unbracketed(gaps.1, parent, third);
    lemma_unbracketed(gaps.0, state, second);
    lemma_bracket(head, first);
    assert((head.push(')') + first).skip(head.len() as int + 1) =~= first);
    lemma_field(gaps.0, state, second);
    lemma_field(gaps.1, parent, third);
    lemma_field(gaps.2, group, rest);
    lemma_three(state, parent, group, fields(rest));
}

/// A `stat` line without a closing bracket says nothing.
pub proof fn a_line_without_a_bracket_says_nothing(stat: Seq<char>)
    requires
        forall|i: int| 0 <= i < stat.len() ==> #[trigger] stat[i] != ')',
    ensures
        stat_of(stat) is None,
{
    lemma_no_bracket(stat);
}

proof fn lemma_no_bracket(s: Seq<char>)
    requires
        forall|i: int| 0 <= i < s.len() ==> #[trigger] s[i] != ')',
    ensures
        last_bracket(s) is None,
    decreases s.len(),
{
    if s.len() > 0 {
        assert(s[s.len() - 1] == s.last());
        let less = s.drop_last();
        assert forall|i: int| 0 <= i < less.len() implies #[trigger] less[i] != ')' by {
            assert(less[i] == s[i]);
        }
        lemma_no_bracket(less);
    }
}

/// Whether a thread can run: its `stat` line shows a state, and neither that it is
/// stopped (`T`, `t`) nor that it has ended (`Z`, `X`, `x`).
pub open spec fn can_run(stat: Seq<char>) -> bool {
    stat_of(stat) matches Some((state, _)) && !(seq!['T', 't', 'Z', 'X', 'x'].contains(state))
}

/// Whether the look at a thread is enough to tell that its group has not stopped.
pub open spec fn tells_of_thread(task: TaskSeen) -> bool {
    match task {
        Err(_) => true,
        Ok(Some(stat)) => can_run(stat@),
        Ok(None) => false,
    }
}

/// Whether an entry is that of a process in a group: its name is all digits, and its
/// `stat` line names the group.
pub open spec fn is_process_of(name: Seq<u8>, stat: Seq<char>, group: i32) -> bool {
    &&& forall|i: int| 0 <= i < name.len() ==> '0' as u8 <= #[trigger] name[i] <= '9' as u8
    &&& stat_of(stat) matches Some((_, g)) && g == group
}

/// Whether an entry is enough to tell that a group has not stopped.
pub open spec fn tells_of_group(entry: ProcessSeen, group: i32) -> bool {
    match entry {
        ProcessSeen::Broken(_) => true,
        ProcessSeen::Entry { name, stat: Some(stat), tasks: Some(tasks) } => {
            &&& is_process_of(name@, stat@, group)
            &&& exists|t: int| 0 <= t < tasks@.len() && tells_of_thread(#[trigger] tasks@[t])
        },
        _ => false,
    }
}

proof fn lemma_states(state: char)
    ensures
        seq!['T', 't', 'Z', 'X', 'x'].contains(state) <==> crate::procfs::cannot_run(state),
{
    let states = seq!['T', 't', 'Z', 'X', 'x'];
    assert(states[0] == 'T' && states[1] == 't' && states[2] == 'Z' && states[3] == 'X'
        && states[4] == 'x');
    assert(states.len() == 5);
}

proof fn lemma_thread(task: TaskSeen)
    ensures
        match task {
            Err(error) => task_verdict(task) == Some(Err::<bool, Seq<char>>(error@)),
            _ => if tells_of_thread(task) {
                task_verdict(task) == Some(Ok::<bool, Seq<char>>(false))
            } else {
                task_verdict(task) is None
            },
        },
{
    if let Ok(Some(stat)) = task {
        if let Some((state, _)) = stat_of(stat@) {
            lemma_states(state);
        }
    }
}

proof fn lemma_threads(tasks: Seq<TaskSeen>, t: int)
    requires
        0 <= t <= tasks.len(),
        forall|u: int| 0 <= u < t ==> !tells_of_thread(#[trigger] tasks[u]),
        t < tasks.len() ==> tells_of_thread(tasks[t]),
    ensures
        tasks_verdict(tasks) == if t < tasks.len() {
            task_verdict(tasks[t])
        } else {
            None
        },
    decreases t,
{
    if tasks.len() > 0 {
        lemma_thread(tasks[0]);
        if t > 0 {
            let rest = tasks.drop_first();
            assert forall|u: int| 0 <= u < t - 1 implies !tells_of_thread(#[trigger] rest[u]) by {
                assert(rest[u] == tasks[u + 1]);
            }
            lemma_threads(rest, t - 1);
        }
    }
}

proof fn lemma_silent(entry: ProcessSeen, group: i32)
    requires
        !tells_of_group(entry, group),
    ensures
        entry_verdict(entry, group) is None,
{
    if let ProcessSeen::Entry { name, stat: Some(stat), tasks: Some(tasks) } = entry {
        if is_process_of(name@, stat@, group) {
            lemma_threads(tasks@, tasks@.len() as int);
        } else if crate::procfs::names_process(name@) {
            assert forall|i: int| 0 <= i < name@.len() implies '0' as u8 <= #[trigger] name@[i]
                <= '9' as u8 by {}
        }
    }
}

/// A group counts as stopped where nothing that was seen tells otherwise: no entry was
/// broken, and of its processes no thread can run or could not be looked at.
pub proof fn a_group_is_stopped_where_nothing_tells_otherwise(seen: Seq<ProcessSeen>, group: i32)
    requires
        forall|i: int| 0 <= i < seen.len() ==> !tells_of_group(#[trigger] seen[i], group),
    ensures
        group_verdict(seen, group) == Ok::<bool, Seq<char>>(true),
    decreases seen.len(),
{
    if seen.len() > 0 {
        lemma_silent(seen[0], group);
        let rest = seen.drop_first();
        assert forall|i: int| 0 <= i < rest.len() implies !tells_of_group(
            #[trigger] rest[i],
            group,
        ) by {
            assert(rest[i] == seen[i + 1]);
        }
        a_group_is_stopped_where_nothing_tells_otherwise(rest, group);
    }
}

/// The first broken entry fails the look, where no earlier one tells anything.
pub proof fn a_broken_entry_fails_the_look(
    seen: Seq<ProcessSeen>,
    group: i32,
    i: int,
    error: String,
)
    requires
        0 <= i < seen.len(),
        forall|j: int| 0 <= j < i ==> !tells_of_group(#[trigger] seen[j], group),
        seen[i] == ProcessSeen::Broken(error),
    ensures
        group_verdict(seen, group) == Err::<bool, Seq<char>>(error@),
{
    lemma_entry_decides(seen, group, i);
}

/// The first thread of the group that tells anything decides: one that could not be
/// looked at fails the look, and one that can run shows that the group has not stopped.
pub proof fn the_first_thread_that_tells_decides(
    seen: Seq<ProcessSeen>,
    group: i32,
    i: int,
    name: crate::paths::FilePath,
    stat: String,
    tasks: Vec<TaskSeen>,
    t: int,
)
    requires
        0 <= i < seen.len(),
        forall|j: int| 0 <= j < i ==> !tells_of_group(#[trigger] seen[j], group),
        seen[i] == (ProcessSeen::Entry { name, stat: Some(stat), tasks: Some(tasks) }),
        is_process_of(name@, stat@, group),
        0 <= t < tasks@.len(),
        forall|u: int| 0 <= u < t ==> !tells_of_thread(#[trigger] tasks@[u]),
        tells_of_thread(tasks@[t]),
    ensures
        match tasks@[t] {
            Err(error) => group_verdict(seen, group) == Err::<bool, Seq<char>>(error@),
            Ok(_) => group_verdict(seen, group) == Ok::<bool, Seq<char>>(false),
        },
{
    lemma_threads(tasks@, t);
    lemma_thread(tasks@[t]);
    assert(crate::procfs::names_process(name@));
    assert(crate::procfs::is_member(stat@, group));
    lemma_entry_decides(seen, group, i);
}

proof fn lemma_entry_decides(seen: Seq<ProcessSeen>, group: i32, i: int)
    requires
        0 <= i < seen.len(),
        forall|j: int| 0 <= j < i ==> !tells_of_group(#[trigger] seen[j], group),
        entry_verdict(seen[i], group) is Some,
    ensures
        group_verdict(seen, group) == entry_verdict(seen[i], group)->0,
    decreases i,
{
    if i > 0 {
        lemma_silent(seen[0], group);
        let rest = seen.drop_first();
        assert forall|j: int| 0 <= j < i - 1 implies !tells_of_group(#[trigger] rest[j], group) by {
            assert(rest[j] == seen[j + 1]);
        }
        lemma_entry_decides(rest, group, i - 1);
    }
}

} // verus!

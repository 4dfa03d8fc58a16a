//! What holds of every wait: for a child to end, and for an application to go.

use vstd::prelude::*;
use crate::host::{Next, PidRecord, Reply, Request, Target};
use crate::process::{Gone, Wait, WaitResult};
use crate::report::{Failure, WaitFailure};
use crate::trace::{answers, look_for, presence, Trace};

verus! {

pub type WaitNext = Next<Wait, WaitResult>;

/// Where the wait for a child stands after an exchange of requests and answers, if it
/// makes those requests and they are answered.
pub open spec fn wait_run(secs: u64, trace: Trace) -> Option<WaitNext>
    decreases trace.len(),
{
    if trace.len() == 0 {
        Some(Next::Ask(Wait::Arming { secs }))
    } else {
        match wait_run(secs, trace.drop_last()) {
            Some(Next::Ask(wait)) => {
                let (request, reply) = trace.last();
                if wait.asks() == request && answers(request, reply) {
                    Some(wait.after(reply))
                } else {
                    None
                }
            },
            _ => None,
        }
    }
}

/// Whether the wait goes on with a request.
pub open spec fn wait_asks(next: WaitNext, request: Request) -> bool {
    next matches Next::Ask(wait) && wait.asks() == request
}

/// Where the pause at exchange `i` is due, its length: the first lasts a millisecond, and
/// every other twice as long as the one before it, but never longer than fifty.
pub open spec fn pause_due(trace: Trace, i: int) -> int {
    if i <= 3 {
        1000
    } else {
        match trace[i - 3].0 {
            Request::Sleep { micros } => if 2 * micros <= 50000 {
                2 * micros
            } else {
                50000
            },
            _ => 0,
        }
    }
}

spec fn wait_holds(next: WaitNext, secs: u64, trace: Trace) -> bool {
    let n = trace.len() as int;
    match next {
        Next::Ask(Wait::Arming { secs: s }) => n == 0 && s == secs,
        Next::Ask(Wait::Polling { pause }) => n % 3 == 1 && pause == pause_due(trace, n + 2),
        Next::Ask(Wait::Deciding { pause }) => {
            &&& n % 3 == 2
            &&& pause == pause_due(trace, n + 1)
            &&& trace[n - 1] == (Request::PollChild, Reply::Child(Ok(None)))
        },
        Next::Ask(Wait::Pausing { pause }) => {
            &&& n % 3 == 0
            &&& n >= 3
            &&& pause == pause_due(trace, n)
            &&& trace[n - 1] == (Request::CheckDeadline, Reply::Expired(false))
        },
        Next::Done(_) => true,
    }
}

proof fn lemma_wait_holds(secs: u64, trace: Trace)
    requires
        wait_run(secs, trace) is Some,
    ensures
        wait_holds(wait_run(secs, trace)->0, secs, trace),
    decreases trace.len(),
{
    if trace.len() > 0 {
        let before = trace.drop_last();
        lemma_wait_holds(secs, before);
        assert(trace[trace.len() - 1] == trace.last());
        assert(forall|i: int| 0 <= i < before.len() ==> #[trigger] before[i] == trace[i]);
    }
}

proof fn lemma_wait_step(secs: u64, trace: Trace, i: int)
    requires
        wait_run(secs, trace) is Some,
        0 <= i < trace.len(),
    ensures
        wait_run(secs, trace.take(i)) matches Some(Next::Ask(wait)) && {
            &&& wait.asks() == trace[i].0
            &&& answers(trace[i].0, trace[i].1)
            &&& wait_run(secs, trace.take(i + 1)) == Some(wait.after(trace[i].1))
        },
    decreases trace.len(),
{
    if i < trace.len() - 1 {
        lemma_wait_step(secs, trace.drop_last(), i);
        assert(trace.drop_last().take(i) == trace.take(i));
        assert(trace.drop_last().take(i + 1) == trace.take(i + 1));
        assert(trace.drop_last()[i] == trace[i]);
    } else {
        assert(trace.take(i) == trace.drop_last());
        assert(trace.take(i + 1) == trace);
    }
}

/// A wait notes its time first. Then the child is polled: where it has ended, that is what
/// comes of the wait; where it has not, the clock decides whether the time is over or the
/// child is polled once more after a pause.
pub proof fn a_wait_goes_by_child_and_clock(secs: u64, trace: Trace)
    requires
        wait_run(secs, trace) is Some,
    ensures
        ({
            let next = wait_run(secs, trace)->0;
            if trace.len() == 0 {
                wait_asks(next, Request::ArmDeadline { secs })
            } else {
                match trace.last() {
                    (Request::ArmDeadline { secs: s }, Reply::Armed(armed)) => {
                        &&& trace.len() == 1
                        &&& s == secs
                        &&& if armed {
                            wait_asks(next, Request::PollChild)
                        } else {
                            next == WaitNext::Done(WaitResult::Failed(WaitFailure::TimeoutTooLarge))
                        }
                    },
                    (Request::PollChild, Reply::Child(Ok(Some(status)))) => next == WaitNext::Done(
                        WaitResult::Exited(status),
                    ),
                    (Request::PollChild, Reply::Child(Ok(None))) => wait_asks(
                        next,
                        Request::CheckDeadline,
                    ),
                    (Request::PollChild, Reply::Child(Err(error))) => next == WaitNext::Done(
                        WaitResult::Failed(WaitFailure::Os(error)),
                    ),
                    (Request::CheckDeadline, Reply::Expired(expired)) => if expired {
                        next == WaitNext::Done(WaitResult::TimedOut)
                    } else {
                        next matches Next::Ask(wait) && wait.asks() is Sleep
                    },
                    (Request::Sleep { .. }, _) => wait_asks(next, Request::PollChild),
                    _ => false,
                }
            }
        }),
{
    if trace.len() > 0 {
        lemma_wait_holds(secs, trace.drop_last());
    }
}

/// Every look at the deadline directly follows a poll that showed that the child had not
/// ended, and every pause is followed by another poll: so no end within the time is
/// missed for longer than a pause.
pub proof fn a_child_is_polled_before_its_time_is_over(secs: u64, trace: Trace, i: int)
    requires
        wait_run(secs, trace) is Some,
        0 <= i < trace.len(),
    ensures
        trace[i].0 == Request::CheckDeadline ==> i >= 1 && trace[i - 1] == (
            Request::PollChild,
            Reply::Child(Ok(None)),
        ),
        trace[i].0 is Sleep && i + 1 < trace.len() ==> trace[i + 1].0 == Request::PollChild,
{
    lemma_wait_step(secs, trace, i);
    lemma_wait_holds(secs, trace.take(i));
    if i + 1 < trace.len() {
        lemma_wait_step(secs, trace, i + 1);
    }
}

/// A wait says that the time is over only where the clock said so right after a poll that
/// showed that the child had not ended.
pub proof fn a_wait_that_is_over_has_just_polled(secs: u64, trace: Trace)
    requires
        wait_run(secs, trace) == Some(WaitNext::Done(WaitResult::TimedOut)),
    ensures
        trace.len() >= 3,
        trace[trace.len() - 1] == (Request::CheckDeadline, Reply::Expired(true)),
        trace[trace.len() - 2] == (Request::PollChild, Reply::Child(Ok(None))),
{
    let n = trace.len() as int;
    if n > 0 {
        lemma_wait_holds(secs, trace.drop_last());
        lemma_wait_step(secs, trace, n - 1);
        assert(trace.take(n - 1) =~= trace.drop_last());
        assert(trace[n - 1] == trace.last());
    }
}

/// The pauses of a wait grow from a millisecond to fifty, each twice as long as the one
/// before.
pub proof fn the_pauses_of_a_wait_double(secs: u64, trace: Trace, i: int, micros: u64)
    requires
        wait_run(secs, trace) is Some,
        0 <= i < trace.len(),
        trace[i].0 == (Request::Sleep { micros }),
    ensures
        i == 3 || i >= 6 && trace[i - 3].0 is Sleep,
        micros == pause_due(trace, i),
{
    lemma_wait_step(secs, trace, i);
    lemma_wait_holds(secs, trace.take(i));
    if i >= 6 {
        lemma_wait_step(secs, trace, i - 3);
        lemma_wait_holds(secs, trace.take(i - 3));
        lemma_wait_turns(secs, trace, i - 3);
        assert(trace.take(i)[i - 3] == trace[i - 3]);
    }
}

proof fn lemma_wait_turns(secs: u64, trace: Trace, i: int)
    requires
        wait_run(secs, trace) is Some,
        3 <= i < trace.len(),
        i % 3 == 0,
    ensures
        trace[i].0 is Sleep,
{
    lemma_wait_step(secs, trace, i);
    lemma_wait_holds(secs, trace.take(i));
}

pub type GoneNext = Next<Gone, Result<bool, Failure>>;

/// Where the wait for an application to go stands after an exchange of requests and
/// answers, if it makes those requests and they are answered.
pub open spec fn gone_run(record: PidRecord, secs: u64, trace: Trace) -> Option<GoneNext>
    decreases trace.len(),
{
    if trace.len() == 0 {
        Some(Next::Ask(Gone::Arming { record, secs }))
    } else {
        match gone_run(record, secs, trace.drop_last()) {
            Some(Next::Ask(gone)) => {
                let (request, reply) = trace.last();
                if gone.asks() == request && answers(request, reply) {
                    Some(gone.after(reply))
                } else {
                    None
                }
            },
            _ => None,
        }
    }
}

/// Whether the wait goes on with a request.
pub open spec fn gone_asks(next: GoneNext, request: Request) -> bool {
    next matches Next::Ask(gone) && gone.asks() == request
}

spec fn wait_for_holds(next: GoneNext, record: PidRecord, secs: u64, trace: Trace) -> bool {
    let n = trace.len() as int;
    match next {
        Next::Ask(Gone::Arming { record: r, secs: s }) => n == 0 && r == record && s == secs,
        Next::Ask(Gone::Leader { record: r }) => n >= 1 && r == record,
        Next::Ask(Gone::Group { record: r }) => {
            &&& r == record
            &&& n >= 1
            &&& trace[n - 1].0 == look_for(Target::Process(record.pid))
            &&& presence(trace[n - 1].1) == Some(false)
        },
        Next::Ask(Gone::Deciding { record: r }) => {
            &&& r == record
            &&& n >= 1
            &&& trace[n - 1].0 == look_for(Target::Process(record.pid)) || trace[n - 1].0
                == look_for(Target::Group(record.process_group))
            &&& presence(trace[n - 1].1) == Some(true)
        },
        Next::Ask(Gone::Pausing { record: r }) => n >= 1 && r == record,
        Next::Done(_) => true,
    }
}

proof fn lemma_gone_holds(record: PidRecord, secs: u64, trace: Trace)
    requires
        gone_run(record, secs, trace) is Some,
    ensures
        wait_for_holds(gone_run(record, secs, trace)->0, record, secs, trace),
    decreases trace.len(),
{
    if trace.len() > 0 {
        lemma_gone_holds(record, secs, trace.drop_last());
        assert(trace[trace.len() - 1] == trace.last());
    }
}

proof fn lemma_gone_step(record: PidRecord, secs: u64, trace: Trace, i: int)
    requires
        gone_run(record, secs, trace) is Some,
        0 <= i < trace.len(),
    ensures
        gone_run(record, secs, trace.take(i)) matches Some(Next::Ask(gone)) && {
            &&& gone.asks() == trace[i].0
            &&& answers(trace[i].0, trace[i].1)
            &&& gone_run(record, secs, trace.take(i + 1)) == Some(gone.after(trace[i].1))
        },
    decreases trace.len(),
{
    if i < trace.len() - 1 {
        lemma_gone_step(record, secs, trace.drop_last(), i);
        assert(trace.drop_last().take(i) == trace.take(i));
        assert(trace.drop_last().take(i + 1) == trace.take(i + 1));
        assert(trace.drop_last()[i] == trace[i]);
    } else {
        assert(trace.take(i) == trace.drop_last());
        assert(trace.take(i + 1) == trace);
    }
}

/// The wait for an application to go notes its time first. Then it looks for the leader
/// and, where there is none, for the group: where both are missing the application is
/// gone; where one is there, the clock decides whether the time is over or whether the
/// wait looks again after a tenth of a second. A look that shows nothing is a failure.
pub proof fn an_application_is_looked_for_until_it_is_gone(
    record: PidRecord,
    secs: u64,
    trace: Trace,
)
    requires
        gone_run(record, secs, trace) is Some,
    ensures
        ({
            let next = gone_run(record, secs, trace)->0;
            let leader = look_for(Target::Process(record.pid));
            let group = look_for(Target::Group(record.process_group));
            if trace.len() == 0 {
                gone_asks(next, Request::ArmDeadline { secs })
            } else {
                let (request, reply) = trace.last();
                match request {
                    Request::ArmDeadline { secs: s } => trace.len() == 1 && s == secs && if reply
                        == Reply::Armed(true) {
                        gone_asks(next, leader)
                    } else {
                        next == GoneNext::Done(Err(Failure::StopTimeoutTooLarge))
                    },
                    Request::Kill { .. } => {
                        &&& request == leader || request == group
                        &&& match presence(reply) {
                            Some(true) => gone_asks(next, Request::CheckDeadline),
                            Some(false) => if request == leader {
                                gone_asks(next, group)
                            } else {
                                next == GoneNext::Done(Ok(true))
                            },
                            None => next matches Next::Done(Err(Failure::CannotProbe { .. })),
                        }
                    },
                    Request::CheckDeadline => if reply == Reply::Expired(true) {
                        next == GoneNext::Done(Ok(false))
                    } else {
                        gone_asks(next, Request::Sleep { micros: 100000 })
                    },
                    Request::Sleep { .. } => gone_asks(next, leader),
                    _ => false,
                }
            }
        }),
{
    if trace.len() > 0 {
        lemma_gone_holds(record, secs, trace.drop_last());
    }
}

/// Every look at the deadline directly follows a look that showed that the leader or the
/// group was there, and every pause is followed by another look for the leader.
pub proof fn an_application_is_looked_for_before_its_time_is_over(
    record: PidRecord,
    secs: u64,
    trace: Trace,
    i: int,
)
    requires
        gone_run(record, secs, trace) is Some,
        0 <= i < trace.len(),
    ensures
        trace[i].0 == Request::CheckDeadline ==> {
            &&& i >= 1
            &&& trace[i - 1].0 == look_for(Target::Process(record.pid)) || trace[i - 1].0
                == look_for(Target::Group(record.process_group))
            &&& presence(trace[i - 1].1) == Some(true)
        },
        trace[i].0 is Sleep && i + 1 < trace.len() ==> trace[i + 1].0 == look_for(
            Target::Process(record.pid),
        ),
{
    lemma_gone_step(record, secs, trace, i);
    lemma_gone_holds(record, secs, trace.take(i));
    if i + 1 < trace.len() {
        lemma_gone_step(record, secs, trace, i + 1);
    }
}

/// The wait ends with the application gone exactly where the last two looks missed the
/// leader and then the group, and with the application still there exactly where the time
/// was over right after a look that showed leader or group.
pub proof fn what_a_wait_says_was_just_seen(
    record: PidRecord,
    secs: u64,
    trace: Trace,
    gone: bool,
)
    requires
        gone_run(record, secs, trace) == Some(GoneNext::Done(Ok(gone))),
    ensures
        trace.len() >= 3,
        ({
            let n = trace.len() as int;
            let leader = look_for(Target::Process(record.pid));
            let group = look_for(Target::Group(record.process_group));
            if gone {
                &&& trace[n - 2].0 == leader
                &&& presence(trace[n - 2].1) == Some(false)
                &&& trace[n - 1].0 == group
                &&& presence(trace[n - 1].1) == Some(false)
            } else {
                &&& trace[n - 1] == (Request::CheckDeadline, Reply::Expired(true))
                &&& trace[n - 2].0 == leader || trace[n - 2].0 == group
                &&& presence(trace[n - 2].1) == Some(true)
            }
        }),
{
    let n = trace.len() as int;
    if n > 0 {
        lemma_gone_holds(record, secs, trace.drop_last());
        lemma_gone_step(record, secs, trace, n - 1);
        assert(trace.take(n - 1) =~= trace.drop_last());
        assert(trace[n - 1] == trace.last());
        if n == 2 {
            lemma_gone_step(record, secs, trace, 0);
            assert(trace.take(0) =~= Seq::<(Request, Reply)>::empty());
        }
    }
}

} // verus!

//! What holds of every run of a command, and of every look at an application's state.

use vstd::prelude::*;
use crate::host::{
    ExitReport, KillReply, Next, PidFile, PidRecord, Place, Reply, Request, Shell, Signal, Target,
};
use crate::process::{
    outcome_of, probed, recorded, signalled, CommandOutcome, Exec, KnownState, ProbeResult,
    ProcessState, Query, Wait,
};
use crate::report::{ExecFailure, Failure, WaitFailure};
use crate::signal::StopSignal;
use crate::start::group_kill;
use crate::text::{parsed_i32, trimmed};
use crate::trace::{answers, look_for, presence, Trace};

verus! {

pub type ExecNext = Next<Exec, Result<CommandOutcome, ExecFailure>>;

/// Where the run of a command stands after an exchange of requests and answers, if it
/// makes those requests and they are answered.
pub open spec fn exec_run(shell: Shell, timeout: u64, trace: Trace) -> Option<ExecNext>
    decreases trace.len(),
{
    if trace.len() == 0 {
        Some(Next::Ask(Exec::Spawning { shell, timeout }))
    } else {
        match exec_run(shell, timeout, trace.drop_last()) {
            Some(Next::Ask(exec)) => {
                let (request, reply) = trace.last();
                if exec.asks() == request && answers(request, reply) {
                    Some(exec.after(reply))
                } else {
                    None
                }
            },
            _ => None,
        }
    }
}

spec fn exec_known(next: ExecNext, shell: Shell, timeout: u64, trace: Trace) -> bool {
    let n = trace.len() as int;
    let spawned = |pid: i32|
        n >= 1 && trace[0] == (Request::SpawnShell(shell), Reply::Spawned(Ok(pid)));
    match next {
        Next::Ask(Exec::Spawning { shell: s, timeout: t }) => n == 0 && s == shell && t == timeout,
        Next::Ask(Exec::Waiting { pid, wait }) => spawned(pid) && match wait {
            Wait::Arming { secs } => n == 1 && secs == timeout,
            _ => n >= 2 && trace[1].0 == (Request::ArmDeadline { secs: timeout }),
        },
        Next::Ask(Exec::Killing { pid }) => {
            &&& spawned(pid)
            &&& n >= 3
            &&& trace[1].0 == (Request::ArmDeadline { secs: timeout })
            &&& trace[n - 1] == (Request::CheckDeadline, Reply::Expired(true))
        },
        Next::Ask(Exec::Reaping) => {
            &&& n >= 4
            &&& trace[1].0 == (Request::ArmDeadline { secs: timeout })
            &&& trace[n - 2] == (Request::CheckDeadline, Reply::Expired(true))
            &&& exists|pid: i32| #[trigger] killed_at(trace, n - 1, shell, pid)
        },
        Next::Done(Err(ExecFailure::TimedOut)) => {
            &&& n >= 5
            &&& trace[1].0 == (Request::ArmDeadline { secs: timeout })
            &&& trace[n - 3] == (Request::CheckDeadline, Reply::Expired(true))
            &&& exists|pid: i32| #[trigger] killed_at(trace, n - 2, shell, pid)
            &&& trace[n - 1].0 == Request::ReapChild
        },
        Next::Done(Ok(outcome)) => {
            &&& n >= 1
            &&& trace[n - 1].0 == Request::PollChild
            &&& trace[n - 1].1 matches Reply::Child(Ok(Some(status))) && outcome_of(status) == Ok::<
                CommandOutcome,
                ExecFailure,
            >(outcome)
        },
        Next::Done(Err(_)) => true,
    }
}

/// Whether the group of the command that was started was killed.
pub open spec fn killed_at(trace: Trace, i: int, shell: Shell, pid: i32) -> bool {
    &&& 0 <= i < trace.len()
    &&& trace[0] == (Request::SpawnShell(shell), Reply::Spawned(Ok(pid)))
    &&& trace[i].0 == group_kill(pid)
}

proof fn lemma_exec_known(shell: Shell, timeout: u64, trace: Trace)
    requires
        exec_run(shell, timeout, trace) is Some,
    ensures
        exec_known(exec_run(shell, timeout, trace)->0, shell, timeout, trace),
    decreases trace.len(),
{
    if trace.len() > 0 {
        let before = trace.drop_last();
        let n = trace.len() as int;
        lemma_exec_known(shell, timeout, before);
        assert(trace[n - 1] == trace.last());
        assert(forall|i: int| 0 <= i < n - 1 ==> #[trigger] before[i] == trace[i]);
        let exec = exec_run(shell, timeout, before)->0->Ask_0;
        match exec {
            Exec::Killing { pid } => {
                assert(killed_at(trace, n - 1, shell, pid));
            },
            Exec::Reaping => {
                let pid = choose|pid: i32| #[trigger] killed_at(before, n - 2, shell, pid);
                assert(killed_at(trace, n - 2, shell, pid));
            },
            _ => {},
        }
    }
}

/// A command that has not ended when its time is over is killed with its whole group and
/// waited for: these are the last things that happen.
pub proof fn a_command_out_of_time_is_killed(shell: Shell, timeout: u64, trace: Trace)
    requires
        exec_run(shell, timeout, trace) == Some(ExecNext::Done(Err(ExecFailure::TimedOut))),
    ensures
        trace.len() >= 5,
        trace[1].0 == (Request::ArmDeadline { secs: timeout }),
        trace[trace.len() - 3] == (Request::CheckDeadline, Reply::Expired(true)),
        exists|pid: i32| #[trigger] killed_at(trace, trace.len() - 2, shell, pid),
        trace[trace.len() - 1].0 == Request::ReapChild,
{
    lemma_exec_known(shell, timeout, trace);
}

/// A command has an outcome only where it was seen to end, and the outcome is what its
/// exit code says.
pub proof fn an_outcome_is_an_exit_code(
    shell: Shell,
    timeout: u64,
    trace: Trace,
    outcome: CommandOutcome,
)
    requires
        exec_run(shell, timeout, trace) == Some(ExecNext::Done(Ok(outcome))),
    ensures
        trace.len() > 0,
        trace.last().1 matches Reply::Child(Ok(Some(status))) && status.code == Some(
            match outcome {
                CommandOutcome::Success => 0i32,
                CommandOutcome::Negative => 1i32,
                CommandOutcome::Unexpected(code) => code,
            },
        ),
{
    lemma_exec_known(shell, timeout, trace);
}

/// Where a look at an application's state stands after an exchange of requests and
/// answers, if it makes those requests and they are answered.
pub open spec fn query_run(trace: Trace) -> Option<Next<Query, Result<KnownState, Failure>>>
    decreases trace.len(),
{
    if trace.len() == 0 {
        Some(Next::Ask(Query::Reading))
    } else {
        match query_run(trace.drop_last()) {
            Some(Next::Ask(query)) => {
                let (request, reply) = trace.last();
                if query.asks() == request && answers(request, reply) {
                    Some(query.after(reply))
                } else {
                    None
                }
            },
            _ => None,
        }
    }
}

/// Whether an exchange probes a target, and with what result.
pub open spec fn probes(exchange: (Request, Reply), target: Target, result: ProbeResult) -> bool {
    &&& exchange.0 == (Request::Kill { target, signal: Signal::Probe })
    &&& exchange.1 matches Reply::Killed(reply) && probed(target, reply) == Ok::<
        ProbeResult,
        Failure,
    >(result)
}

/// What is known of an application is what was seen: without a PID file it is stopped,
/// and with one its state is that of the leader and the group that the file records, each
/// probed once.
pub proof fn the_state_is_what_was_seen(trace: Trace, known: KnownState)
    requires
        query_run(trace) == Some(Next::<Query, Result<KnownState, Failure>>::Done(Ok(known))),
    ensures
        trace.len() == 1 || trace.len() == 3,
        trace[0].0 == Request::ReadPidFile,
        trace[0].1 matches Reply::PidFile(file) && recorded(file) == Ok::<
            Option<PidRecord>,
            Failure,
        >(known.1),
        match known.1 {
            None => trace.len() == 1 && known.0 == ProcessState::Stopped,
            Some(record) => {
                let leader = if known.0 == ProcessState::Running {
                    ProbeResult::Exists
                } else {
                    ProbeResult::Missing
                };
                let group = if known.0 == ProcessState::Stopped {
                    ProbeResult::Missing
                } else {
                    ProbeResult::Exists
                };
                &&& trace.len() == 3
                &&& probes(trace[1], Target::Process(record.pid), leader)
                &&& probes(trace[2], Target::Group(record.process_group), group)
            },
        },
{
    lemma_query_known(trace);
}

spec fn query_known(next: Next<Query, Result<KnownState, Failure>>, trace: Trace) -> bool {
    let read = |record: Option<PidRecord>|
        {
            &&& trace.len() >= 1
            &&& trace[0].0 == Request::ReadPidFile
            &&& trace[0].1 matches Reply::PidFile(file) && recorded(file) == Ok::<
                Option<PidRecord>,
                Failure,
            >(record)
        };
    match next {
        Next::Ask(Query::Reading) => trace.len() == 0,
        Next::Ask(Query::Leader { record }) => trace.len() == 1 && read(Some(record)),
        Next::Ask(Query::Group { record, leader }) => {
            &&& trace.len() == 2
            &&& read(Some(record))
            &&& probes(trace[1], Target::Process(record.pid), leader)
        },
        Next::Done(Ok(known)) => {
            &&& read(known.1)
            &&& match known.1 {
                None => trace.len() == 1 && known.0 == ProcessState::Stopped,
                Some(record) => {
                    let leader = if known.0 == ProcessState::Running {
                        ProbeResult::Exists
                    } else {
                        ProbeResult::Missing
                    };
                    let group = if known.0 == ProcessState::Stopped {
                        ProbeResult::Missing
                    } else {
                        ProbeResult::Exists
                    };
                    &&& trace.len() == 3
                    &&& probes(trace[1], Target::Process(record.pid), leader)
                    &&& probes(trace[2], Target::Group(record.process_group), group)
                },
            }
        },
        Next::Done(Err(_)) => true,
    }
}

proof fn lemma_query_known(trace: Trace)
    requires
        query_run(trace) is Some,
    ensures
        query_known(query_run(trace)->0, trace),
    decreases trace.len(),
{
    if trace.len() > 0 {
        let before = trace.drop_last();
        lemma_query_known(before);
        assert(trace[trace.len() - 1] == trace.last());
        assert(forall|i: int| 0 <= i < before.len() ==> #[trigger] before[i] == trace[i]);
    }
}

/// The request that kills a group sends `SIGKILL` to all of it.
pub proof fn a_group_is_killed_whole(group: i32)
    ensures
        group_kill(group) == (Request::Kill {
            target: Target::Group(group),
            signal: Signal::Deliver(StopSignal::Kill),
        }),
{
}

/// A probe says what the answer shows, and fails with the answer's error where it shows
/// nothing.
pub proof fn a_probe_says_what_was_shown(target: Target, reply: KillReply)
    ensures
        match presence(Reply::Killed(reply)) {
            Some(true) => probed(target, reply) == Ok::<ProbeResult, Failure>(ProbeResult::Exists),
            Some(false) => probed(target, reply) == Ok::<ProbeResult, Failure>(
                ProbeResult::Missing,
            ),
            None => reply matches KillReply::Refused { error, .. } && probed(target, reply) == Err::<
                ProbeResult,
                Failure,
            >(Failure::CannotProbe { target, error }),
        },
{
}

/// A signal has done its work where it was delivered or its target is gone, and in no
/// other case: a target that is there and may not be signalled is a failure.
pub proof fn a_signal_reaches_its_target_or_none_is_there(target: Target, reply: KillReply)
    ensures
        match reply {
            KillReply::Delivered => signalled(target, reply) == Ok::<(), Failure>(()),
            KillReply::Refused { error, .. } => if presence(Reply::Killed(reply)) == Some(false) {
                signalled(target, reply) == Ok::<(), Failure>(())
            } else {
                signalled(target, reply) == Err::<(), Failure>(
                    Failure::CannotSignal { target, error },
                )
            },
        },
{
}

/// An exit code of 0 is success, 1 is a negative answer, any other is reported as it is,
/// and an end without a code is a failure that tells the signal.
pub proof fn an_exit_code_has_its_meaning(status: ExitReport)
    ensures
        match status.code {
            Some(code) => outcome_of(status) == Ok::<CommandOutcome, ExecFailure>(
                if code == 0 {
                    CommandOutcome::Success
                } else if code == 1 {
                    CommandOutcome::Negative
                } else {
                    CommandOutcome::Unexpected(code)
                },
            ),
            None => outcome_of(status) == Err::<CommandOutcome, ExecFailure>(
                ExecFailure::KilledBySignal(status.signal),
            ),
        },
{
}

/// There is no record exactly where there is no PID file. A file that cannot be read, one
/// that is neither a number nor a record, and a record of numbers that are not positive
/// are failures of their own.
pub proof fn a_pid_file_is_a_record_or_a_failure(file: PidFile)
    ensures
        recorded(file) == Ok::<Option<PidRecord>, Failure>(None) <==> file is Missing,
        file matches PidFile::Unreadable(error) ==> recorded(file) == Err::<
            Option<PidRecord>,
            Failure,
        >(Failure::CannotRead { place: Place::PidFile, error }),
        file matches PidFile::Text { text, toml } ==> {
            let bare = parsed_i32(trimmed(text@)) matches Some(pid) && pid > 0;
            &&& toml matches Err(error) ==> !bare ==> recorded(file) == Err::<
                Option<PidRecord>,
                Failure,
            >(Failure::InvalidPidFile { error })
            &&& toml matches Ok(record) ==> !bare && (record.pid <= 0 || record.process_group <= 0)
                ==> recorded(file) == Err::<Option<PidRecord>, Failure>(Failure::InvalidPidValues)
        },
{
}

/// Whether the run of a command goes on with a request.
pub open spec fn exec_asks(next: ExecNext, request: Request) -> bool {
    next matches Next::Ask(exec) && exec.asks() == request
}

/// A command is spawned and gets its time. It is polled until it has ended, which gives
/// the outcome that its exit code means, or until its time is over: then its whole group
/// is killed and it is waited for.
pub proof fn a_command_runs_until_its_time_is_over(shell: Shell, timeout: u64, trace: Trace)
    requires
        exec_run(shell, timeout, trace) is Some,
    ensures
        ({
            let next = exec_run(shell, timeout, trace)->0;
            if trace.len() == 0 {
                exec_asks(next, Request::SpawnShell(shell))
            } else {
                match trace.last() {
                    (Request::SpawnShell(s), Reply::Spawned(spawned)) => {
                        &&& s == shell
                        &&& trace.len() == 1
                        &&& match spawned {
                            Ok(_) => exec_asks(next, Request::ArmDeadline { secs: timeout }),
                            Err(error) => next == ExecNext::Done(
                                Err(ExecFailure::CannotRun(error)),
                            ),
                        }
                    },
                    (Request::ArmDeadline { .. }, Reply::Armed(armed)) => if armed {
                        exec_asks(next, Request::PollChild)
                    } else {
                        next == ExecNext::Done(
                            Err(ExecFailure::Waiting(WaitFailure::TimeoutTooLarge)),
                        )
                    },
                    (Request::PollChild, Reply::Child(Ok(Some(status)))) => match status.code {
                        Some(code) => next == ExecNext::Done(
                            Ok(
                                if code == 0 {
                                    CommandOutcome::Success
                                } else if code == 1 {
                                    CommandOutcome::Negative
                                } else {
                                    CommandOutcome::Unexpected(code)
                                },
                            ),
                        ),
                        None => next == ExecNext::Done(
                            Err(ExecFailure::KilledBySignal(status.signal)),
                        ),
                    },
                    (Request::PollChild, Reply::Child(Ok(None))) => exec_asks(
                        next,
                        Request::CheckDeadline,
                    ),
                    (Request::PollChild, Reply::Child(Err(error))) => next == ExecNext::Done(
                        Err(ExecFailure::Waiting(WaitFailure::Os(error))),
                    ),
                    (Request::CheckDeadline, Reply::Expired(true)) => {
                        trace[0].1 matches Reply::Spawned(Ok(pid)) && exec_asks(
                            next,
                            Request::Kill {
                                target: Target::Group(pid),
                                signal: Signal::Deliver(StopSignal::Kill),
                            },
                        )
                    },
                    (Request::CheckDeadline, Reply::Expired(false)) => {
                        next matches Next::Ask(exec) && exec.asks() is Sleep
                    },
                    (Request::Sleep { .. }, _) => exec_asks(next, Request::PollChild),
                    (Request::Kill { .. }, _) => exec_asks(next, Request::ReapChild),
                    (Request::ReapChild, _) => next == ExecNext::Done(Err(ExecFailure::TimedOut)),
                    _ => false,
                }
            }
        }),
{
    if trace.len() > 0 {
        let before = trace.drop_last();
        lemma_exec_known(shell, timeout, before);
        if before.len() > 0 {
            assert(before[0] == trace[0]);
        } else {
            assert(trace[0] == trace.last());
        }
    }
}

/// Whether a look at an application's state goes on with a request.
pub open spec fn query_asks(
    next: Next<Query, Result<KnownState, Failure>>,
    request: Request,
) -> bool {
    next matches Next::Ask(query) && query.asks() == request
}

/// The state of an application is read off its PID file, its leader and its group, in this
/// order: both there is running, both missing is stopped, a group without its leader is
/// orphaned, and a leader without its group is a failure. What cannot be read or probed is
/// a failure.
pub proof fn the_state_follows_from_the_probes(trace: Trace)
    requires
        query_run(trace) is Some,
    ensures
        ({
            let next = query_run(trace)->0;
            if trace.len() == 0 {
                query_asks(next, Request::ReadPidFile)
            } else if trace.len() == 1 {
                trace[0].1 matches Reply::PidFile(file) && match recorded(file) {
                    Ok(None) => next == Next::<Query, Result<KnownState, Failure>>::Done(
                        Ok((ProcessState::Stopped, None)),
                    ),
                    Ok(Some(record)) => query_asks(next, look_for(Target::Process(record.pid))),
                    Err(failure) => next == Next::<Query, Result<KnownState, Failure>>::Done(
                        Err(failure),
                    ),
                }
            } else {
                trace[0].1 matches Reply::PidFile(file) && (recorded(file) matches Ok(Some(record))
                    && {
                    if trace.len() == 2 {
                        &&& trace[1].0 == look_for(Target::Process(record.pid))
                        &&& if presence(trace[1].1) is Some {
                            query_asks(next, look_for(Target::Group(record.process_group)))
                        } else {
                            next matches Next::Done(Err(Failure::CannotProbe { .. }))
                        }
                    } else {
                        &&& trace.len() == 3
                        &&& trace[2].0 == look_for(Target::Group(record.process_group))
                        &&& match (presence(trace[1].1), presence(trace[2].1)) {
                            (Some(true), Some(true)) => next == Next::<
                                Query,
                                Result<KnownState, Failure>,
                            >::Done(Ok((ProcessState::Running, Some(record)))),
                            (Some(false), Some(false)) => next == Next::<
                                Query,
                                Result<KnownState, Failure>,
                            >::Done(Ok((ProcessState::Stopped, Some(record)))),
                            (Some(false), Some(true)) => next == Next::<
                                Query,
                                Result<KnownState, Failure>,
                            >::Done(Ok((ProcessState::OrphanedProcessGroup, Some(record)))),
                            (Some(true), Some(false)) => next == Next::<
                                Query,
                                Result<KnownState, Failure>,
                            >::Done(Err(Failure::OutsideGroup { record })),
                            _ => next matches Next::Done(Err(Failure::CannotProbe { .. })),
                        }
                    }
                })
            }
        }),
{
    if trace.len() > 0 {
        let before = trace.drop_last();
        let n = trace.len() - 1;
        lemma_query_known(before);
        assert(trace[n] == trace.last());
        assert(forall|i: int| 0 <= i < n ==> #[trigger] before[i] == trace[i]);
    }
}

} // verus!

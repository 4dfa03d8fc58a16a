//! Processes: probing, signalling, waiting, and running commands.

use vstd::prelude::*;
use vstd::string::*;
use crate::host::{
    ExitReport, KillReply, Next, PidFile, PidRecord, Refusal, Reply, Request, Shell, Signal, Target,
    Place,
};
use crate::report::{ExecFailure, Failure, WaitFailure};
use crate::signal::StopSignal;
use crate::text::{
    decimal_int, decimal_is_read_back, is_space, parse_i32, parsed_i32, trim, trimmed,
    without_leading_space, without_trailing_space,
};

verus! {

/// Seconds that a killed process group gets to disappear.
pub const FORCE_KILL_WAIT: u64 = 5;

/// Microseconds between two looks at a process that is being stopped.
pub const PROCESS_POLL_INTERVAL: u64 = 100000;

/// Microseconds between the first two looks at a child.
pub const FIRST_CHILD_PAUSE: u64 = 1000;

/// The most microseconds between two looks at a child.
pub const LONGEST_CHILD_PAUSE: u64 = 50000;

/// What a command's exit code says.
#[derive(Clone, Copy, Debug, PartialEq, Eq, Structural)]
pub enum CommandOutcome {
    Success,
    Negative,
    Unexpected(i32),
}

/// What is left of an application.
#[derive(Clone, Copy, Debug, PartialEq, Eq, Structural)]
pub enum ProcessState {
    Stopped,
    Running,
    OrphanedProcessGroup,
}

/// Whether a probed process or group exists.
#[derive(Clone, Copy, Debug, PartialEq, Eq, Structural)]
pub enum ProbeResult {
    Exists,
    Missing,
}

/// What an exit means: 0 is success, 1 is a negative answer, any other code is
/// unexpected, and an end without a code is a failure.
pub open spec fn outcome_of(status: ExitReport) -> Result<CommandOutcome, ExecFailure> {
    match status.code {
        Some(0) => Ok(CommandOutcome::Success),
        Some(1) => Ok(CommandOutcome::Negative),
        Some(code) => Ok(CommandOutcome::Unexpected(code)),
        None => Err(ExecFailure::KilledBySignal(status.signal)),
    }
}

impl CommandOutcome {
    /// Interprets how a command ended.
    pub fn from_status(status: &ExitReport) -> (r: Result<CommandOutcome, ExecFailure>)
        ensures
            r == outcome_of(*status),
    {
        match status.code {
            Some(code) => if code == 0 {
                Ok(CommandOutcome::Success)
            } else if code == 1 {
                Ok(CommandOutcome::Negative)
            } else {
                Ok(CommandOutcome::Unexpected(code))
            },
            None => Err(ExecFailure::KilledBySignal(status.signal)),
        }
    }
}

/// What a probe shows: a target that may not be signalled exists all the same.
pub open spec fn probed(target: Target, reply: KillReply) -> Result<ProbeResult, Failure> {
    match reply {
        KillReply::Delivered => Ok(ProbeResult::Exists),
        KillReply::Refused { refusal, error } => match refusal {
            Refusal::NoSuchProcess => Ok(ProbeResult::Missing),
            Refusal::NotPermitted => Ok(ProbeResult::Exists),
            Refusal::Other => Err(Failure::CannotProbe { target, error }),
        },
    }
}

/// Interprets the answer to the null signal.
pub fn probe_process(target: Target, reply: KillReply) -> (r: Result<ProbeResult, Failure>)
    ensures
        r == probed(target, reply),
{
    match reply {
        KillReply::Delivered => Ok(ProbeResult::Exists),
        KillReply::Refused { refusal, error } => match refusal {
            Refusal::NoSuchProcess => Ok(ProbeResult::Missing),
            Refusal::NotPermitted => Ok(ProbeResult::Exists),
            Refusal::Other => Err(Failure::CannotProbe { target, error }),
        },
    }
}

/// What a sent signal came to: a target that is gone is no failure.
pub open spec fn signalled(target: Target, reply: KillReply) -> Result<(), Failure> {
    match reply {
        KillReply::Delivered => Ok(()),
        KillReply::Refused { refusal: Refusal::NoSuchProcess, .. } => Ok(()),
        KillReply::Refused { error, .. } => Err(Failure::CannotSignal { target, error }),
    }
}

/// Interprets the answer to a signal.
pub fn signal_target(target: Target, reply: KillReply) -> (r: Result<(), Failure>)
    ensures
        r == signalled(target, reply),
{
    match reply {
        KillReply::Delivered => Ok(()),
        KillReply::Refused { refusal, error } => if refusal == Refusal::NoSuchProcess {
            Ok(())
        } else {
            Err(Failure::CannotSignal { target, error })
        },
    }
}

/// What a PID file says. A positive number alone is both the leader and the
/// group; anything else has to be a record with positive numbers.
pub open spec fn recorded(file: PidFile) -> Result<Option<PidRecord>, Failure> {
    match file {
        PidFile::Missing => Ok(None),
        PidFile::Unreadable(error) => Err(Failure::CannotRead { place: Place::PidFile, error }),
        PidFile::Text { text, toml } => match parsed_i32(trimmed(text@)) {
            Some(pid) if pid > 0 => Ok(Some(PidRecord { pid, process_group: pid })),
            _ => match toml {
                Err(error) => Err(Failure::InvalidPidFile { error }),
                Ok(record) => if record.pid <= 0 || record.process_group <= 0 {
                    Err(Failure::InvalidPidValues)
                } else {
                    Ok(Some(record))
                },
            },
        },
    }
}

/// Interprets a PID file.
pub fn pid_record(file: PidFile) -> (r: Result<Option<PidRecord>, Failure>)
    ensures
        r == recorded(file),
{
    match file {
        PidFile::Missing => Ok(None),
        PidFile::Unreadable(error) => Err(Failure::CannotRead { place: Place::PidFile, error }),
        PidFile::Text { text, toml } => {
            if let Some(pid) = parse_i32(trim(text.as_str())) {
                if pid > 0 {
                    return Ok(Some(PidRecord { pid, process_group: pid }));
                }
            }
            match toml {
                Err(error) => Err(Failure::InvalidPidFile { error }),
                Ok(record) => if record.pid <= 0 || record.process_group <= 0 {
                    Err(Failure::InvalidPidValues)
                } else {
                    Ok(Some(record))
                },
            }
        },
    }
}

/// What the leader and the group say together.
pub open spec fn state_of(
    record: PidRecord,
    leader: ProbeResult,
    group: ProbeResult,
) -> Result<ProcessState, Failure> {
    match (leader, group) {
        (ProbeResult::Missing, ProbeResult::Missing) => Ok(ProcessState::Stopped),
        (ProbeResult::Exists, ProbeResult::Exists) => Ok(ProcessState::Running),
        (ProbeResult::Missing, ProbeResult::Exists) => Ok(ProcessState::OrphanedProcessGroup),
        (ProbeResult::Exists, ProbeResult::Missing) => Err(Failure::OutsideGroup { record }),
    }
}

/// The state of a recorded application.
pub fn process_state(record: PidRecord, leader: ProbeResult, group: ProbeResult) -> (r: Result<
    ProcessState,
    Failure,
>)
    ensures
        r == state_of(record, leader, group),
{
    match (leader, group) {
        (ProbeResult::Missing, ProbeResult::Missing) => Ok(ProcessState::Stopped),
        (ProbeResult::Exists, ProbeResult::Exists) => Ok(ProcessState::Running),
        (ProbeResult::Missing, ProbeResult::Exists) => Ok(ProcessState::OrphanedProcessGroup),
        (ProbeResult::Exists, ProbeResult::Missing) => Err(Failure::OutsideGroup { record }),
    }
}

/// How the wait for a child ended.
#[derive(Debug)]
pub enum WaitResult {
    Exited(ExitReport),
    TimedOut,
    Failed(WaitFailure),
}

/// The wait for a child: it is polled at growing intervals until it has ended or
/// the time is over.
#[derive(Debug)]
pub enum Wait {
    Arming { secs: u64 },
    Polling { pause: u64 },
    Deciding { pause: u64 },
    Pausing { pause: u64 },
}

/// The pause that follows a pause.
pub open spec fn longer_pause(pause: u64) -> u64 {
    if pause < LONGEST_CHILD_PAUSE / 2 {
        (2 * pause) as u64
    } else {
        LONGEST_CHILD_PAUSE
    }
}

impl Wait {
    pub open spec fn asks(self) -> Request {
        match self {
            Wait::Arming { secs } => Request::ArmDeadline { secs },
            Wait::Polling { .. } => Request::PollChild,
            Wait::Deciding { .. } => Request::CheckDeadline,
            Wait::Pausing { pause } => Request::Sleep { micros: pause },
        }
    }

    /// The request that the wait stands at.
    pub fn request(&self) -> (r: Request)
        ensures
            r == self.asks(),
    {
        match self {
            Wait::Arming { secs } => Request::ArmDeadline { secs: *secs },
            Wait::Polling { .. } => Request::PollChild,
            Wait::Deciding { .. } => Request::CheckDeadline,
            Wait::Pausing { pause } => Request::Sleep { micros: *pause },
        }
    }

    pub open spec fn after(self, reply: Reply) -> Next<Wait, WaitResult> {
        match (self, reply) {
            (Wait::Arming { .. }, Reply::Armed(armed)) => if armed {
                Next::Ask(Wait::Polling { pause: FIRST_CHILD_PAUSE })
            } else {
                Next::Done(WaitResult::Failed(WaitFailure::TimeoutTooLarge))
            },
            (Wait::Polling { pause }, Reply::Child(child)) => match child {
                Ok(Some(status)) => Next::Done(WaitResult::Exited(status)),
                Ok(None) => Next::Ask(Wait::Deciding { pause }),
                Err(error) => Next::Done(WaitResult::Failed(WaitFailure::Os(error))),
            },
            (Wait::Deciding { pause }, Reply::Expired(expired)) => if expired {
                Next::Done(WaitResult::TimedOut)
            } else {
                Next::Ask(Wait::Pausing { pause })
            },
            (Wait::Pausing { pause }, Reply::Slept) => Next::Ask(
                Wait::Polling { pause: longer_pause(pause) },
            ),
            _ => Next::Ask(self),
        }
    }

    /// Goes on with the host's answer. An answer to another request changes
    /// nothing.
    pub fn step(self, reply: Reply) -> (r: Next<Wait, WaitResult>)
        ensures
            r == self.after(reply),
    {
        match (self, reply) {
            (Wait::Arming { .. }, Reply::Armed(armed)) => if armed {
                Next::Ask(Wait::Polling { pause: FIRST_CHILD_PAUSE })
            } else {
                Next::Done(WaitResult::Failed(WaitFailure::TimeoutTooLarge))
            },
            (Wait::Polling { pause }, Reply::Child(child)) => match child {
                Ok(Some(status)) => Next::Done(WaitResult::Exited(status)),
                Ok(None) => Next::Ask(Wait::Deciding { pause }),
                Err(error) => Next::Done(WaitResult::Failed(WaitFailure::Os(error))),
            },
            (Wait::Deciding { pause }, Reply::Expired(expired)) => if expired {
                Next::Done(WaitResult::TimedOut)
            } else {
                Next::Ask(Wait::Pausing { pause })
            },
            (Wait::Pausing { pause }, Reply::Slept) => {
                let longer: u64 = if pause < LONGEST_CHILD_PAUSE / 2 {
                    2 * pause
                } else {
                    LONGEST_CHILD_PAUSE
                };
                Next::Ask(Wait::Polling { pause: longer })
            },
            (state, _) => Next::Ask(state),
        }
    }
}

/// The run of a shell command: it is spawned, waited for, and killed with its
/// whole group when its time is over.
#[derive(Debug)]
pub enum Exec {
    Spawning { shell: Shell, timeout: u64 },
    Waiting { pid: i32, wait: Wait },
    Killing { pid: i32 },
    Reaping,
}

impl Exec {
    pub open spec fn asks(self) -> Request {
        match self {
            Exec::Spawning { shell, .. } => Request::SpawnShell(shell),
            Exec::Waiting { wait, .. } => wait.asks(),
            Exec::Killing { pid } => Request::Kill {
                target: Target::Group(pid),
                signal: Signal::Deliver(StopSignal::Kill),
            },
            Exec::Reaping => Request::ReapChild,
        }
    }

    /// The request that the run stands at.
    pub fn request(&self) -> (r: Request)
        ensures
            r == self.asks(),
    {
        match self {
            Exec::Spawning { shell, .. } => Request::SpawnShell(*shell),
            Exec::Waiting { wait, .. } => wait.request(),
            Exec::Killing { pid } => Request::Kill {
                target: Target::Group(*pid),
                signal: Signal::Deliver(StopSignal::Kill),
            },
            Exec::Reaping => Request::ReapChild,
        }
    }

    pub open spec fn after(self, reply: Reply) -> Next<Exec, Result<CommandOutcome, ExecFailure>> {
        match (self, reply) {
            (Exec::Spawning { timeout, .. }, Reply::Spawned(spawned)) => match spawned {
                Ok(pid) => Next::Ask(Exec::Waiting { pid, wait: Wait::Arming { secs: timeout } }),
                Err(error) => Next::Done(Err(ExecFailure::CannotRun(error))),
            },
            (Exec::Waiting { pid, wait }, reply) => match wait.after(reply) {
                Next::Ask(wait) => Next::Ask(Exec::Waiting { pid, wait }),
                Next::Done(WaitResult::Exited(status)) => Next::Done(outcome_of(status)),
                Next::Done(WaitResult::TimedOut) => Next::Ask(Exec::Killing { pid }),
                Next::Done(WaitResult::Failed(failure)) => Next::Done(
                    Err(ExecFailure::Waiting(failure)),
                ),
            },
            (Exec::Killing { .. }, Reply::Killed(_)) => Next::Ask(Exec::Reaping),
            (Exec::Reaping, Reply::Reaped) => Next::Done(Err(ExecFailure::TimedOut)),
            _ => Next::Ask(self),
        }
    }

    /// Goes on with the host's answer. An answer to another request changes
    /// nothing.
    pub fn step(self, reply: Reply) -> (r: Next<Exec, Result<CommandOutcome, ExecFailure>>)
        ensures
            r == self.after(reply),
    {
        match (self, reply) {
            (Exec::Spawning { timeout, .. }, Reply::Spawned(spawned)) => match spawned {
                Ok(pid) => Next::Ask(Exec::Waiting { pid, wait: Wait::Arming { secs: timeout } }),
                Err(error) => Next::Done(Err(ExecFailure::CannotRun(error))),
            },
            (Exec::Waiting { pid, wait }, reply) => match wait.step(reply) {
                Next::Ask(wait) => Next::Ask(Exec::Waiting { pid, wait }),
                Next::Done(WaitResult::Exited(status)) => Next::Done(
                    CommandOutcome::from_status(&status),
                ),
                Next::Done(WaitResult::TimedOut) => Next::Ask(Exec::Killing { pid }),
                Next::Done(WaitResult::Failed(failure)) => Next::Done(
                    Err(ExecFailure::Waiting(failure)),
                ),
            },
            (Exec::Killing { .. }, Reply::Killed(_)) => Next::Ask(Exec::Reaping),
            (Exec::Reaping, Reply::Reaped) => Next::Done(Err(ExecFailure::TimedOut)),
            (state, _) => Next::Ask(state),
        }
    }
}

/// The wait until a recorded application is gone, leader and group.
#[derive(Debug)]
pub enum Gone {
    Arming { record: PidRecord, secs: u64 },
    Leader { record: PidRecord },
    Group { record: PidRecord },
    Deciding { record: PidRecord },
    Pausing { record: PidRecord },
}

impl Gone {
    pub open spec fn asks(self) -> Request {
        match self {
            Gone::Arming { secs, .. } => Request::ArmDeadline { secs },
            Gone::Leader { record } => Request::Kill {
                target: Target::Process(record.pid),
                signal: Signal::Probe,
            },
            Gone::Group { record } => Request::Kill {
                target: Target::Group(record.process_group),
                signal: Signal::Probe,
            },
            Gone::Deciding { .. } => Request::CheckDeadline,
            Gone::Pausing { .. } => Request::Sleep { micros: PROCESS_POLL_INTERVAL },
        }
    }

    /// The request that the wait stands at.
    pub fn request(&self) -> (r: Request)
        ensures
            r == self.asks(),
    {
        match self {
            Gone::Arming { secs, .. } => Request::ArmDeadline { secs: *secs },
            Gone::Leader { record } => Request::Kill {
                target: Target::Process(record.pid),
                signal: Signal::Probe,
            },
            Gone::Group { record } => Request::Kill {
                target: Target::Group(record.process_group),
                signal: Signal::Probe,
            },
            Gone::Deciding { .. } => Request::CheckDeadline,
            Gone::Pausing { .. } => Request::Sleep { micros: PROCESS_POLL_INTERVAL },
        }
    }

    pub open spec fn after(self, reply: Reply) -> Next<Gone, Result<bool, Failure>> {
        match (self, reply) {
            (Gone::Arming { record, .. }, Reply::Armed(armed)) => if armed {
                Next::Ask(Gone::Leader { record })
            } else {
                Next::Done(Err(Failure::StopTimeoutTooLarge))
            },
            (Gone::Leader { record }, Reply::Killed(reply)) => match probed(
                Target::Process(record.pid),
                reply,
            ) {
                Ok(ProbeResult::Missing) => Next::Ask(Gone::Group { record }),
                Ok(ProbeResult::Exists) => Next::Ask(Gone::Deciding { record }),
                Err(failure) => Next::Done(Err(failure)),
            },
            (Gone::Group { record }, Reply::Killed(reply)) => match probed(
                Target::Group(record.process_group),
                reply,
            ) {
                Ok(ProbeResult::Missing) => Next::Done(Ok(true)),
                Ok(ProbeResult::Exists) => Next::Ask(Gone::Deciding { record }),
                Err(failure) => Next::Done(Err(failure)),
            },
            (Gone::Deciding { record }, Reply::Expired(expired)) => if expired {
                Next::Done(Ok(false))
            } else {
                Next::Ask(Gone::Pausing { record })
            },
            (Gone::Pausing { record }, Reply::Slept) => Next::Ask(Gone::Leader { record }),
            _ => Next::Ask(self),
        }
    }

    /// Goes on with the host's answer. An answer to another request changes
    /// nothing.
    pub fn step(self, reply: Reply) -> (r: Next<Gone, Result<bool, Failure>>)
        ensures
            r == self.after(reply),
    {
        match (self, reply) {
            (Gone::Arming { record, .. }, Reply::Armed(armed)) => if armed {
                Next::Ask(Gone::Leader { record })
            } else {
                Next::Done(Err(Failure::StopTimeoutTooLarge))
            },
            (Gone::Leader { record }, Reply::Killed(reply)) => match probe_process(
                Target::Process(record.pid),
                reply,
            ) {
                Ok(ProbeResult::Missing) => Next::Ask(Gone::Group { record }),
                Ok(ProbeResult::Exists) => Next::Ask(Gone::Deciding { record }),
                Err(failure) => Next::Done(Err(failure)),
            },
            (Gone::Group { record }, Reply::Killed(reply)) => match probe_process(
                Target::Group(record.process_group),
                reply,
            ) {
                Ok(ProbeResult::Missing) => Next::Done(Ok(true)),
                Ok(ProbeResult::Exists) => Next::Ask(Gone::Deciding { record }),
                Err(failure) => Next::Done(Err(failure)),
            },
            (Gone::Deciding { record }, Reply::Expired(expired)) => if expired {
                Next::Done(Ok(false))
            } else {
                Next::Ask(Gone::Pausing { record })
            },
            (Gone::Pausing { record }, Reply::Slept) => Next::Ask(Gone::Leader { record }),
            (state, _) => Next::Ask(state),
        }
    }
}

/// What is known of an application: its state, and its record where it has one.
pub type KnownState = (ProcessState, Option<PidRecord>);

/// The look at an application's current state.
#[derive(Debug)]
pub enum Query {
    Reading,
    Leader { record: PidRecord },
    Group { record: PidRecord, leader: ProbeResult },
}

impl Query {
    pub open spec fn asks(self) -> Request {
        match self {
            Query::Reading => Request::ReadPidFile,
            Query::Leader { record } => Request::Kill {
                target: Target::Process(record.pid),
                signal: Signal::Probe,
            },
            Query::Group { record, .. } => Request::Kill {
                target: Target::Group(record.process_group),
                signal: Signal::Probe,
            },
        }
    }

    /// The request that the look stands at.
    pub fn request(&self) -> (r: Request)
        ensures
            r == self.asks(),
    {
        match self {
            Query::Reading => Request::ReadPidFile,
            Query::Leader { record } => Request::Kill {
                target: Target::Process(record.pid),
                signal: Signal::Probe,
            },
            Query::Group { record, .. } => Request::Kill {
                target: Target::Group(record.process_group),
                signal: Signal::Probe,
            },
        }
    }

    pub open spec fn after(self, reply: Reply) -> Next<Query, Result<KnownState, Failure>> {
        match (self, reply) {
            (Query::Reading, Reply::PidFile(file)) => match recorded(file) {
                Ok(None) => Next::Done(Ok((ProcessState::Stopped, None))),
                Ok(Some(record)) => Next::Ask(Query::Leader { record }),
                Err(failure) => Next::Done(Err(failure)),
            },
            (Query::Leader { record }, Reply::Killed(reply)) => match probed(
                Target::Process(record.pid),
                reply,
            ) {
                Ok(leader) => Next::Ask(Query::Group { record, leader }),
                Err(failure) => Next::Done(Err(failure)),
            },
            (Query::Group { record, leader }, Reply::Killed(reply)) => match probed(
                Target::Group(record.process_group),
                reply,
            ) {
                Ok(group) => match state_of(record, leader, group) {
                    Ok(state) => Next::Done(Ok((state, Some(record)))),
                    Err(failure) => Next::Done(Err(failure)),
                },
                Err(failure) => Next::Done(Err(failure)),
            },
            _ => Next::Ask(self),
        }
    }

    /// Goes on with the host's answer. An answer to another request changes
    /// nothing.
    pub fn step(self, reply: Reply) -> (r: Next<Query, Result<KnownState, Failure>>)
        ensures
            r == self.after(reply),
    {
        match (self, reply) {
            (Query::Reading, Reply::PidFile(file)) => match pid_record(file) {
                Ok(None) => Next::Done(Ok((ProcessState::Stopped, None))),
                Ok(Some(record)) => Next::Ask(Query::Leader { record }),
                Err(failure) => Next::Done(Err(failure)),
            },
            (Query::Leader { record }, Reply::Killed(reply)) => match probe_process(
                Target::Process(record.pid),
                reply,
            ) {
                Ok(leader) => Next::Ask(Query::Group { record, leader }),
                Err(failure) => Next::Done(Err(failure)),
            },
            (Query::Group { record, leader }, Reply::Killed(reply)) => match probe_process(
                Target::Group(record.process_group),
                reply,
            ) {
                Ok(group) => match process_state(record, leader, group) {
                    Ok(state) => Next::Done(Ok((state, Some(record)))),
                    Err(failure) => Next::Done(Err(failure)),
                },
                Err(failure) => Next::Done(Err(failure)),
            },
            (state, _) => Next::Ask(state),
        }
    }
}

/// A PID file that holds one positive number, with or without whitespace around it,
/// records that number as leader and group, whatever it is as TOML.
pub proof fn a_bare_number_is_a_record(pid: i32, text: String, toml: Result<PidRecord, String>)
    requires
        pid > 0,
        trimmed(text@) == decimal_int(pid as int),
    ensures
        recorded(PidFile::Text { text, toml }) == Ok::<Option<PidRecord>, Failure>(
            Some(PidRecord { pid, process_group: pid }),
        ),
{
    decimal_is_read_back(pid as nat);
}

/// A PID file that is no bare number and that is, as TOML, a record of positive numbers
/// gives that record back, leader and group as they were written.
pub proof fn a_written_record_is_read_back(record: PidRecord, text: String)
    requires
        record.pid > 0,
        record.process_group > 0,
        !(parsed_i32(trimmed(text@)) matches Some(pid) && pid > 0),
    ensures
        recorded(PidFile::Text { text, toml: Ok(record) }) == Ok::<Option<PidRecord>, Failure>(
            Some(record),
        ),
{
}

/// A text with an equals sign, as the TOML of a record has, is no bare number.
pub proof fn a_table_is_no_bare_number(text: Seq<char>)
    requires
        text.contains('='),
    ensures
        parsed_i32(trimmed(text)) is None,
{
    let i = choose|i: int| 0 <= i < text.len() && text[i] == '=';
    lemma_trimming_keeps(text, i);
    let body = trimmed(text);
    let k = choose|k: int| 0 <= k < body.len() && body[k] == '=';
    if k > 0 {
        assert(body.drop_first()[k - 1] == '=');
    }
}

/// Trimming keeps what is no whitespace.
proof fn lemma_trimming_keeps(text: Seq<char>, i: int)
    requires
        0 <= i < text.len(),
        !is_space(text[i]),
    ensures
        trimmed(text).contains(text[i]),
{
    lemma_leading_keeps(text, i);
    let rest = without_leading_space(text);
    let k = choose|k: int| 0 <= k < rest.len() && rest[k] == text[i];
    lemma_trailing_keeps(rest, k);
}

proof fn lemma_leading_keeps(text: Seq<char>, i: int)
    requires
        0 <= i < text.len(),
        !is_space(text[i]),
    ensures
        without_leading_space(text).contains(text[i]),
    decreases text.len(),
{
    if is_space(text.first()) {
        assert(text.drop_first()[i - 1] == text[i]);
        lemma_leading_keeps(text.drop_first(), i - 1);
    } else {
        assert(without_leading_space(text)[i] == text[i]);
    }
}

proof fn lemma_trailing_keeps(text: Seq<char>, i: int)
    requires
        0 <= i < text.len(),
        !is_space(text[i]),
    ensures
        without_trailing_space(text).contains(text[i]),
    decreases text.len(),
{
    if is_space(text.last()) {
        assert(text.drop_last()[i] == text[i]);
        lemma_trailing_keeps(text.drop_last(), i);
    } else {
        assert(without_trailing_space(text)[i] == text[i]);
    }
}

/// What a PID file records has positive numbers.
pub proof fn recorded_numbers_are_positive(file: PidFile, record: PidRecord)
    requires
        recorded(file) == Ok::<Option<PidRecord>, Failure>(Some(record)),
    ensures
        record.pid > 0,
        record.process_group > 0,
{
}

/// The pauses between two looks at a child never get shorter and never get long.
pub proof fn child_pauses_stay_short(pause: u64)
    requires
        pause <= LONGEST_CHILD_PAUSE,
    ensures
        pause <= longer_pause(pause) <= LONGEST_CHILD_PAUSE,
{
}

} // verus!

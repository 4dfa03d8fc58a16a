//! Checks of an application against a simulated host.

use processguard::check::Check;
use processguard::config::{resolve_app, AppSpec, GlobalConfig, LogOverrides};
use processguard::host::{
    ExitReport, FileMetadata, KillReply, LogFile, MarkReply, Next, PidFile, PidRecord, Place,
    Refusal, RemoveReply, Reply, Request, Shell, Signal, Target, TextFile,
};
use processguard::paths::FilePath;
use processguard::process::{
    pid_record, probe_process, process_state, signal_target, CommandOutcome, ProbeResult,
    ProcessState,
};
use processguard::report::{
    AppCheckResult, Cause, ExecFailure, Failure, Note, StopReason, WaitFailure,
};
use processguard::signal::StopSignal;
use processguard::supervisor::{log_line, OutputFailure, Supervisor};

fn exit(code: i32) -> ExitReport {
    ExitReport { code: Some(code), signal: None, text: format!("exit status: {code}") }
}

fn spec() -> AppSpec {
    let mut app = resolve_app(
        &GlobalConfig::default(),
        "api".to_string(),
        FilePath::from_text("/srv/apps/api"),
        None,
    );
    app.startup_validation = 1;
    app.stop_grace = 2;
    app.command_timeout = 3;
    app
}

/// A host with one application.
struct Host {
    marker: Result<bool, String>,
    metadata: Result<FileMetadata, String>,
    disabled: bool,
    pid_text: Option<String>,
    /// The leader that lives, and the group that lives.
    leader: Option<i32>,
    group: Option<i32>,
    /// The deadline that was armed, and the time that has passed, in microseconds.
    deadline: u64,
    now: u64,
    stop_program: Option<i32>,
    health: i32,
    signal_file: Option<String>,
    /// Whether the application goes when its leader is signalled.
    obeys: bool,
    /// Whether it goes when it is killed.
    mortal: bool,
    /// How the child that runs ends, if it does.
    ends: Option<i32>,
    child: Option<i32>,
    /// Whether a command of the shell never ends.
    hangs: bool,
    /// Whether a deadline can be armed.
    arms: bool,
    spawn: Result<i32, String>,
    written: Result<(), String>,
    opened: Result<(), String>,
    marking: Result<(), String>,
    requests: Vec<Request>,
    notes: Vec<Note>,
    longest_pause: u64,
}

impl Host {
    fn new() -> Host {
        Host {
            marker: Ok(false),
            metadata: Ok(FileMetadata { is_file: true, mode: 0o755 }),
            disabled: false,
            pid_text: None,
            leader: None,
            group: None,
            deadline: 0,
            now: 0,
            stop_program: None,
            health: 0,
            signal_file: None,
            obeys: true,
            mortal: true,
            ends: None,
            child: None,
            hangs: false,
            arms: true,
            spawn: Ok(100),
            written: Ok(()),
            opened: Ok(()),
            marking: Ok(()),
            requests: Vec::new(),
            notes: Vec::new(),
            longest_pause: 0,
        }
    }

    fn running(pid: i32) -> Host {
        let mut host = Host::new();
        host.pid_text = Some(format!("{pid}\n"));
        host.leader = Some(pid);
        host.group = Some(pid);
        host
    }

    fn kill(&mut self, target: Target, signal: Signal) -> KillReply {
        let known = match target {
            Target::Process(pid) => self.leader == Some(pid),
            Target::Group(group) => self.group == Some(group),
        };
        if !known {
            return KillReply::Refused {
                refusal: Refusal::NoSuchProcess,
                error: "no such process".to_string(),
            };
        }
        if let Signal::Deliver(signal) = signal {
            let goes = if signal == StopSignal::Kill { self.mortal } else { self.obeys };
            if goes {
                self.leader = None;
                self.group = None;
            }
        }
        KillReply::Delivered
    }

    fn answer(&mut self, request: Request) -> Reply {
        match request {
            Request::Exists(Place::Invalid) => Reply::Exists(self.marker.clone()),
            Request::Exists(Place::DisableFile) => Reply::Exists(Ok(self.disabled)),
            Request::Exists(Place::Stop) => Reply::Exists(Ok(self.stop_program.is_some())),
            Request::Exists(_) => panic!("nobody asks that"),
            Request::InspectStart => Reply::Metadata(self.metadata.clone()),
            Request::ReadLogConf => Reply::LogConf(LogFile::Missing),
            Request::ReadPidFile => Reply::PidFile(match &self.pid_text {
                Some(text) => PidFile::Text {
                    text: text.clone(),
                    toml: Err("not a table".to_string()),
                },
                None => PidFile::Missing,
            }),
            Request::ReadSignalFile => Reply::SignalFile(match &self.signal_file {
                Some(text) => TextFile::Text(text.clone()),
                None => TextFile::Missing,
            }),
            Request::RemovePidFile => Reply::Removed(match self.pid_text.take() {
                Some(_) => RemoveReply::Removed,
                None => RemoveReply::Missing,
            }),
            Request::Kill { target, signal } => Reply::Killed(self.kill(target, signal)),
            Request::OpenOutputs => Reply::Opened(self.opened.clone()),
            Request::SpawnApp => {
                if let Ok(pid) = self.spawn {
                    self.leader = Some(pid);
                    self.group = Some(pid);
                    self.child = self.ends;
                }
                Reply::Spawned(self.spawn.clone())
            }
            Request::SpawnShell(shell) => {
                self.child = match shell {
                    _ if self.hangs => None,
                    Shell::Stop => self.stop_program,
                    Shell::Healthcheck => Some(self.health),
                };
                if shell == Shell::Stop && self.stop_program == Some(0) && self.obeys {
                    self.leader = None;
                    self.group = None;
                }
                Reply::Spawned(Ok(555))
            }
            Request::WritePidRecord(record) => {
                self.pid_text = Some(format!("{}", record.pid));
                Reply::Written(self.written.clone())
            }
            Request::ArmDeadline { secs } => {
                self.deadline = self.now + secs * 1_000_000;
                Reply::Armed(self.arms)
            }
            Request::PollChild => Reply::Child(Ok(self.child.map(exit))),
            Request::CheckDeadline => Reply::Expired(self.now >= self.deadline),
            Request::Sleep { micros } => {
                self.longest_pause = self.longest_pause.max(micros);
                self.now += micros;
                Reply::Slept
            }
            Request::ReapChild => Reply::Reaped,
            Request::MeasureStartup => Reply::Startup { millis: 12 },
            Request::MarkInvalid => Reply::Marked(match &self.marking {
                Ok(()) => {
                    self.marker = Ok(true);
                    MarkReply::Written
                }
                Err(error) => MarkReply::NotWritten(error.clone()),
            }),
        }
    }

    fn check(&mut self, app: &AppSpec) -> AppCheckResult {
        let mut step = Check::begin(app);
        for _ in 0..100_000 {
            if let Some(note) = step.note {
                self.notes.push(note);
            }
            match step.next {
                Next::Done(result) => return result,
                Next::Ask(check) => {
                    let request = check.request();
                    assert!(request != Request::MarkInvalid || check.cause().is_some());
                    self.requests.push(request);
                    let reply = self.answer(request);
                    step = check.step(app, reply);
                }
            }
        }
        panic!("the check does not end");
    }

    fn asked(&self, request: Request) -> bool {
        self.requests.contains(&request)
    }
}

fn group_kill(group: i32) -> Request {
    Request::Kill {
        target: Target::Group(group),
        signal: Signal::Deliver(StopSignal::Kill),
    }
}

#[test]
fn early_exit_creates_invalid_marker_and_future_runs_skip() {
    let app = spec();
    let mut host = Host::new();
    host.ends = Some(0);
    assert_eq!(host.check(&app), AppCheckResult::Quarantined);
    let global = GlobalConfig::default();
    let supervisor = Supervisor { global: &global, app: &app, guard_log: &global.guard_log };
    let cause = match &host.notes[0] {
        Note::MarkedInvalid(cause) => cause,
        note => panic!("unexpected note {note:?}"),
    };
    let marker = supervisor.invalid_record(cause, "now".to_string());
    assert_eq!(marker.reason, "startup_exited_early");
    assert_eq!(host.check(&app), AppCheckResult::SkippedInvalid);
    assert_eq!(*host.requests.last().expect("request"), Request::Exists(Place::Invalid));

    assert_eq!(marker.detected_at, "now");
    assert_eq!(
        marker.detail,
        "/srv/apps/api/./run.sh exited before startup validation completed (exit status: 0)"
    );
    assert_eq!(marker.observed_for_ms, Some(12));
    assert_eq!(marker.pid, Some(100));
    assert_eq!(marker.exit_code, Some(0));
    assert_eq!(marker.signal, None);
}

#[test]
fn an_early_exit_kills_the_group_and_removes_the_record() {
    let mut host = Host::new();
    host.ends = Some(3);
    assert_eq!(host.check(&spec()), AppCheckResult::Quarantined);
    let at = host
        .requests
        .iter()
        .position(|request| *request == Request::PollChild)
        .expect("poll");
    assert_eq!(
        host.requests[at + 1..],
        [
            group_kill(100),
            Request::RemovePidFile,
            Request::MeasureStartup,
            Request::Exists(Place::Invalid),
            Request::MarkInvalid,
        ]
    );
    assert_eq!(host.pid_text, None);
}

#[test]
fn a_stopped_app_is_started_recorded_and_validated() {
    let mut host = Host::new();
    assert_eq!(host.check(&spec()), AppCheckResult::Started);
    assert_eq!(host.pid_text, Some("100".to_string()));
    assert!(host.asked(Request::WritePidRecord(PidRecord { pid: 100, process_group: 100 })));
    assert!(host.asked(Request::ArmDeadline { secs: 1 }));
    assert!(host.now >= 1_000_000);
    assert_eq!(host.longest_pause, 50_000);
    assert_eq!(host.notes, vec![Note::Started { pid: 100 }]);
}

#[test]
fn a_running_app_without_health_check_is_idle() {
    let mut host = Host::running(77);
    assert_eq!(host.check(&spec()), AppCheckResult::Idle);
    assert!(!host.asked(Request::SpawnApp));
    assert!(host.notes.is_empty());
}

#[test]
fn an_unmanaged_app_is_not_asked_about() {
    let mut app = spec();
    app.managed = false;
    let mut host = Host::running(77);
    assert_eq!(host.check(&app), AppCheckResult::SkippedUnmanaged);
    assert!(host.requests.is_empty());
}

#[test]
fn a_bad_start_program_quarantines() {
    let cases = [
        Err("not found".to_string()),
        Ok(FileMetadata { is_file: false, mode: 0o755 }),
        Ok(FileMetadata { is_file: true, mode: 0o644 }),
    ];
    for metadata in cases {
        let mut host = Host::new();
        host.metadata = metadata;
        assert_eq!(host.check(&spec()), AppCheckResult::Quarantined);
        assert!(matches!(
            host.notes[0],
            Note::MarkedInvalid(Cause::InvalidStartProgram(_))
        ));
        assert!(!host.asked(Request::SpawnApp));
    }
    let mut host = Host::new();
    host.metadata = Ok(FileMetadata { is_file: true, mode: 0o001 });
    assert_eq!(host.check(&spec()), AppCheckResult::Started);
}

#[test]
fn a_failure_to_mark_fails_the_check() {
    let mut host = Host::new();
    host.ends = Some(1);
    host.marking = Err("disk full".to_string());
    assert_eq!(host.check(&spec()), AppCheckResult::Failed);
    assert_eq!(host.notes, vec![Note::CannotWriteMarker("disk full".to_string())]);
}

#[test]
fn an_unreadable_marker_fails_the_check() {
    let mut host = Host::new();
    host.marker = Err("denied".to_string());
    assert_eq!(host.check(&spec()), AppCheckResult::Failed);
    assert_eq!(host.requests.len(), 1);
}

#[test]
fn spawn_record_and_output_failures_quarantine() {
    let mut host = Host::new();
    host.opened = Err("no space".to_string());
    assert_eq!(host.check(&spec()), AppCheckResult::Quarantined);
    assert!(matches!(host.notes[0], Note::MarkedInvalid(Cause::LogOpenFailed(_))));

    let mut host = Host::new();
    host.spawn = Err("exec format error".to_string());
    assert_eq!(host.check(&spec()), AppCheckResult::Quarantined);
    assert!(matches!(host.notes[0], Note::MarkedInvalid(Cause::StartupSpawnFailed(_))));

    let mut host = Host::new();
    host.written = Err("read-only".to_string());
    assert_eq!(host.check(&spec()), AppCheckResult::Quarantined);
    assert!(matches!(
        host.notes[0],
        Note::MarkedInvalid(Cause::PidFileWriteFailed { pid: 100, .. })
    ));
    assert!(host.asked(group_kill(100)));
    assert!(host.asked(Request::ReapChild));
}

#[test]
fn a_failed_start_leaves_no_process() {
    let mut ended = Host::new();
    ended.ends = Some(3);
    let mut unrecorded = Host::new();
    unrecorded.written = Err("disk full".to_string());
    let mut unseen = Host::new();
    unseen.arms = false;
    for mut host in [ended, unrecorded, unseen] {
        assert_eq!(host.check(&spec()), AppCheckResult::Quarantined);
        let launched = host.requests.iter().position(|r| *r == Request::SpawnApp).expect("launch");
        let rest = &host.requests[launched..];
        assert!(rest.contains(&group_kill(100)));
        assert!(rest.contains(&Request::PollChild) || rest.contains(&Request::ReapChild));
        assert_eq!(host.group, None);
    }
}

#[test]
fn a_failed_stop_keeps_the_record() {
    let mut host = Host::running(42);
    host.disabled = true;
    host.obeys = false;
    host.mortal = false;
    assert_eq!(host.check(&spec()), AppCheckResult::Failed);
    assert!(!host.asked(Request::RemovePidFile));
    assert!(host.pid_text.is_some());
}

#[test]
fn a_disabled_app_is_stopped_by_term() {
    let mut host = Host::running(77);
    host.disabled = true;
    assert_eq!(host.check(&spec()), AppCheckResult::Stopped);
    assert!(host.asked(Request::Kill {
        target: Target::Process(77),
        signal: Signal::Deliver(StopSignal::Terminate),
    }));
    assert!(!host.asked(group_kill(77)));
    assert_eq!(host.pid_text, None);
    assert_eq!(
        host.notes,
        vec![Note::Stopped { reason: StopReason::Disabled, pid: 77 }]
    );
    assert_eq!(host.check(&spec()), AppCheckResult::Idle);
    assert!(!host.asked(Request::SpawnApp));
}

#[test]
fn survivors_of_the_grace_period_are_killed() {
    let mut host = Host::running(77);
    host.disabled = true;
    host.obeys = false;
    assert_eq!(host.check(&spec()), AppCheckResult::Stopped);
    assert!(host.now >= 2_000_000);
    assert!(host.asked(group_kill(77)));
    assert_eq!(
        host.notes[0],
        Note::SendingKill { reason: StopReason::Disabled, process_group: 77 }
    );
}

#[test]
fn kill_as_signal_skips_the_grace_period() {
    let mut host = Host::running(77);
    host.disabled = true;
    host.obeys = false;
    host.signal_file = Some("kill".to_string());
    assert_eq!(host.check(&spec()), AppCheckResult::Stopped);
    assert_eq!(host.now, 0);
    let at = host
        .requests
        .iter()
        .position(|request| *request == Request::ReadSignalFile)
        .expect("signal file");
    assert_eq!(host.requests[at + 1], group_kill(77));
    assert_eq!(host.requests[at + 2], Request::ArmDeadline { secs: 5 });
}

#[test]
fn what_survives_kill_fails_the_check() {
    let mut host = Host::running(77);
    host.disabled = true;
    host.obeys = false;
    host.mortal = false;
    assert_eq!(host.check(&spec()), AppCheckResult::Failed);
    assert_eq!(
        *host.notes.last().expect("note"),
        Note::Failed(Failure::SurvivedKill { process_group: 77 })
    );
    assert_eq!(host.pid_text, Some("77\n".to_string()));
}

#[test]
fn a_stop_program_that_succeeds_is_followed_by_no_signal() {
    let mut host = Host::running(77);
    host.disabled = true;
    host.stop_program = Some(0);
    assert_eq!(host.check(&spec()), AppCheckResult::Stopped);
    assert!(!host.asked(Request::ReadSignalFile));
    assert!(host.asked(Request::ArmDeadline { secs: 2 }));
}

#[test]
fn a_stop_program_that_fails_is_followed_by_the_signal() {
    let mut host = Host::running(77);
    host.disabled = true;
    host.stop_program = Some(4);
    host.signal_file = Some("INT".to_string());
    assert_eq!(host.check(&spec()), AppCheckResult::Stopped);
    assert_eq!(host.notes[0], Note::StopCommandReturned(CommandOutcome::Unexpected(4)));
    assert!(host.asked(Request::Kill {
        target: Target::Process(77),
        signal: Signal::Deliver(StopSignal::Interrupt),
    }));
}

#[test]
fn a_command_that_does_not_end_is_killed() {
    let mut host = Host::running(77);
    host.disabled = true;
    host.stop_program = Some(3);
    host.hangs = true;
    assert_eq!(host.check(&spec()), AppCheckResult::Stopped);
    assert_eq!(host.notes[0], Note::StopCommandFailed(ExecFailure::TimedOut));
    let at = host
        .requests
        .iter()
        .position(|request| *request == group_kill(555))
        .expect("kill");
    assert_eq!(host.requests[at - 1], Request::CheckDeadline);
    assert_eq!(host.requests[at + 1], Request::ReapChild);
    assert_eq!(host.requests[at + 2], Request::ReadSignalFile);
    assert!(host.now >= 3_000_000);

    let mut app = spec();
    app.healthcheck = Some("true".to_string());
    let mut host = Host::running(77);
    host.hangs = true;
    assert_eq!(host.check(&app), AppCheckResult::Failed);
    assert_eq!(host.notes, vec![Note::HealthcheckFailed(ExecFailure::TimedOut)]);
    assert_eq!(host.leader, Some(77));
}

#[test]
fn a_deadline_that_does_not_fit_is_a_failure() {
    let mut host = Host::new();
    host.arms = false;
    assert_eq!(host.check(&spec()), AppCheckResult::Quarantined);
    assert!(matches!(
        host.notes[0],
        Note::MarkedInvalid(Cause::StartupObservationFailed {
            pid: 100,
            failure: WaitFailure::TimeoutTooLarge,
            millis: 12,
        })
    ));
    assert!(host.asked(group_kill(100)));
    assert!(host.asked(Request::ReapChild));
    assert_eq!(host.pid_text, None);

    let mut host = Host::running(77);
    host.disabled = true;
    host.arms = false;
    assert_eq!(host.check(&spec()), AppCheckResult::Failed);
    assert_eq!(host.notes, vec![Note::Failed(Failure::StopTimeoutTooLarge)]);
}

#[test]
fn a_bad_signal_name_fails_the_check() {
    let mut host = Host::running(77);
    host.disabled = true;
    host.signal_file = Some("PIPE".to_string());
    assert_eq!(host.check(&spec()), AppCheckResult::Failed);
    assert_eq!(
        host.notes,
        vec![Note::Failed(Failure::BadStopSignal { text: "PIPE".to_string() })]
    );
    assert_eq!(host.leader, Some(77));
}

#[test]
fn health_decides_about_a_restart() {
    let mut app = spec();
    app.healthcheck = Some("./health.sh".to_string());
    let mut host = Host::running(77);
    assert_eq!(host.check(&app), AppCheckResult::Idle);

    let mut host = Host::running(77);
    host.health = 1;
    assert_eq!(host.check(&app), AppCheckResult::Restarted);
    assert_eq!(host.pid_text, Some("100".to_string()));
    assert_eq!(
        host.notes,
        vec![
            Note::Stopped { reason: StopReason::Unhealthy, pid: 77 },
            Note::Started { pid: 100 },
        ]
    );

    let mut host = Host::running(77);
    host.health = 2;
    assert_eq!(host.check(&app), AppCheckResult::Failed);
    assert_eq!(host.leader, Some(77));
    assert_eq!(host.notes, vec![Note::UnexpectedHealth(2)]);
}

#[test]
fn an_unhealthy_app_that_does_not_start_again_is_quarantined() {
    let mut app = spec();
    app.healthcheck = Some("./health.sh".to_string());
    let mut host = Host::running(77);
    host.health = 1;
    host.ends = Some(0);
    assert_eq!(host.check(&app), AppCheckResult::Quarantined);
}

#[test]
fn an_orphaned_group_is_killed_and_quarantined() {
    let mut host = Host::running(77);
    host.leader = None;
    assert_eq!(host.check(&spec()), AppCheckResult::Quarantined);
    assert!(host.asked(group_kill(77)));
    assert_eq!(host.pid_text, None);
    assert_eq!(
        host.notes,
        vec![Note::MarkedInvalid(Cause::OrphanedProcessGroup { pid: 77 })]
    );
}

#[test]
fn a_leader_outside_its_group_is_an_invalid_state() {
    let mut host = Host::running(77);
    host.group = None;
    assert_eq!(host.check(&spec()), AppCheckResult::Quarantined);
    assert_eq!(
        host.notes,
        vec![Note::MarkedInvalid(Cause::InvalidProcessState(Failure::OutsideGroup {
            record: PidRecord { pid: 77, process_group: 77 },
        }))]
    );
    assert_eq!(host.leader, Some(77));
}

#[test]
fn a_stale_record_is_replaced() {
    let mut host = Host::new();
    host.pid_text = Some("77".to_string());
    assert_eq!(host.check(&spec()), AppCheckResult::Started);
    assert_eq!(host.pid_text, Some("100".to_string()));
}

#[test]
fn answers_to_other_requests_change_nothing() {
    let app = spec();
    let check = match Check::begin(&app).next {
        Next::Ask(check) => check,
        Next::Done(_) => panic!("managed"),
    };
    match check.step(&app, Reply::Reaped).next {
        Next::Ask(check) => assert_eq!(check.request(), Request::Exists(Place::Invalid)),
        Next::Done(_) => panic!("ended"),
    }
}

#[test]
fn pid_files_hold_a_number_or_a_record() {
    let record = PidRecord { pid: 5, process_group: 6 };
    let text = |text: &str, toml: Result<PidRecord, String>| {
        pid_record(PidFile::Text { text: text.to_string(), toml })
    };
    let bad = || Err("bad".to_string());
    assert_eq!(pid_record(PidFile::Missing), Ok(None));
    assert_eq!(text(" 42\n", bad()), Ok(Some(PidRecord { pid: 42, process_group: 42 })));
    assert_eq!(text("pid = 5", Ok(record)), Ok(Some(record)));
    assert_eq!(text("-42", bad()), Err(Failure::InvalidPidFile { error: "bad".to_string() }));
    assert_eq!(
        text("x", Ok(PidRecord { pid: 5, process_group: 0 })),
        Err(Failure::InvalidPidValues)
    );
    assert_eq!(
        text("x", Ok(PidRecord { pid: -1, process_group: 6 })),
        Err(Failure::InvalidPidValues)
    );
    assert_eq!(
        pid_record(PidFile::Unreadable("denied".to_string())),
        Err(Failure::CannotRead { place: Place::PidFile, error: "denied".to_string() })
    );
}

#[test]
fn a_written_record_is_read_back_from_its_toml() {
    let record = PidRecord { pid: 4711, process_group: 4700 };
    let mut table = toml::Table::new();
    table.insert("pid".to_string(), toml::Value::Integer(i64::from(record.pid)));
    table.insert(
        "process_group".to_string(),
        toml::Value::Integer(i64::from(record.process_group)),
    );
    let text = toml::to_string(&table).expect("encode");
    assert!(text.contains('='));
    let read: toml::Table = text.parse().expect("parse");
    let number = |key: &str| read[key].as_integer().expect("number") as i32;
    let parsed = PidRecord { pid: number("pid"), process_group: number("process_group") };
    assert_eq!(pid_record(PidFile::Text { text, toml: Ok(parsed) }), Ok(Some(record)));
}

#[test]
fn what_may_not_be_signalled_exists() {
    let refused = |refusal| KillReply::Refused { refusal, error: "e".to_string() };
    let target = Target::Group(9);
    assert_eq!(probe_process(target, KillReply::Delivered), Ok(ProbeResult::Exists));
    assert_eq!(
        probe_process(target, refused(Refusal::NotPermitted)),
        Ok(ProbeResult::Exists)
    );
    assert_eq!(
        probe_process(target, refused(Refusal::NoSuchProcess)),
        Ok(ProbeResult::Missing)
    );
    assert_eq!(
        probe_process(target, refused(Refusal::Other)),
        Err(Failure::CannotProbe { target, error: "e".to_string() })
    );
    assert_eq!(signal_target(target, refused(Refusal::NoSuchProcess)), Ok(()));
    assert_eq!(
        signal_target(target, refused(Refusal::NotPermitted)),
        Err(Failure::CannotSignal { target, error: "e".to_string() })
    );
    assert_eq!(Target::Group(9).raw(), -9);
    assert_eq!(Target::Process(9).raw(), 9);
}

#[test]
fn leader_and_group_give_the_state() {
    let record = PidRecord { pid: 1, process_group: 2 };
    let state = |leader, group| process_state(record, leader, group);
    assert_eq!(
        state(ProbeResult::Missing, ProbeResult::Missing),
        Ok(ProcessState::Stopped)
    );
    assert_eq!(state(ProbeResult::Exists, ProbeResult::Exists), Ok(ProcessState::Running));
    assert_eq!(
        state(ProbeResult::Missing, ProbeResult::Exists),
        Ok(ProcessState::OrphanedProcessGroup)
    );
    assert_eq!(
        state(ProbeResult::Exists, ProbeResult::Missing),
        Err(Failure::OutsideGroup { record })
    );
}

#[test]
fn exit_codes_have_meanings() {
    assert_eq!(CommandOutcome::from_status(&exit(0)), Ok(CommandOutcome::Success));
    assert_eq!(CommandOutcome::from_status(&exit(1)), Ok(CommandOutcome::Negative));
    assert_eq!(CommandOutcome::from_status(&exit(-2)), Ok(CommandOutcome::Unexpected(-2)));
    let killed = ExitReport { code: None, signal: Some(9), text: "killed".to_string() };
    assert_eq!(
        CommandOutcome::from_status(&killed),
        Err(ExecFailure::KilledBySignal(Some(9)))
    );
}

#[test]
fn every_failure_has_a_message() {
    let global = GlobalConfig::default();
    let app = spec();
    let supervisor = Supervisor { global: &global, app: &app, guard_log: &global.guard_log };
    let e = || "e".to_string();
    let record = PidRecord { pid: 1, process_group: 2 };
    let cases = [
        (
            Failure::CannotProbe { target: Target::Group(3), error: e() },
            "cannot probe process target -3: e",
        ),
        (
            Failure::CannotSignal { target: Target::Process(3), error: e() },
            "cannot signal process target 3: e",
        ),
        (
            Failure::OutsideGroup { record },
            "pid 1 exists outside expected process group 2",
        ),
        (
            Failure::CannotRead { place: Place::PidFile, error: e() },
            "cannot read /srv/apps/api/./app.pid: e",
        ),
        (
            Failure::CannotRemove { place: Place::PidFile, error: e() },
            "cannot remove /srv/apps/api/./app.pid: e",
        ),
        (
            Failure::CannotCheck { place: Place::Stop, error: e() },
            "cannot check /srv/apps/api/./stop.sh: e",
        ),
        (
            Failure::InvalidPidFile { error: e() },
            "invalid pid file /srv/apps/api/./app.pid: e",
        ),
        (
            Failure::InvalidPidValues,
            "invalid pid values in /srv/apps/api/./app.pid",
        ),
        (Failure::StopTimeoutTooLarge, "stop timeout is too large"),
        (
            Failure::SurvivedKill { process_group: 7 },
            "process group 7 survived SIGKILL",
        ),
        (
            Failure::BadStopSignal { text: " pipe\n".to_string() },
            "/srv/apps/api/./signal: unsupported stop signal PIPE",
        ),
        (
            Failure::CannotInspectStart { error: e() },
            "cannot inspect start program /srv/apps/api/./run.sh: e",
        ),
        (
            Failure::StartNotAFile,
            "start program /srv/apps/api/./run.sh is not a file",
        ),
        (
            Failure::StartNotExecutable,
            "start program /srv/apps/api/./run.sh is not executable",
        ),
        (
            Failure::BadLogConf { error: e() },
            "/srv/apps/api/log.conf: e",
        ),
        (
            Failure::CannotCheckDisableFile { error: e() },
            "cannot check disable file: e",
        ),
    ];
    for (failure, text) in cases {
        assert_eq!(supervisor.describe(&failure), text);
        assert_eq!(
            supervisor.message(&Note::Failed(failure)),
            format!("error: {text}")
        );
    }
    assert_eq!(
        supervisor.disabled(Err(e())),
        Err(Failure::CannotCheckDisableFile { error: e() })
    );
    assert_eq!(supervisor.disabled(Ok(true)), Ok(true));
}

#[test]
fn every_note_has_a_message() {
    let global = GlobalConfig::default();
    let mut app = spec();
    app.healthcheck = Some("check it".to_string());
    let supervisor = Supervisor { global: &global, app: &app, guard_log: &global.guard_log };
    let e = || "e".to_string();
    let cases = [
        (
            Note::CannotCheckInvalidMarker(e()),
            "error: cannot check invalid marker: e",
        ),
        (
            Note::CannotEncodeMarker(e()),
            "error: cannot encode invalid marker: e",
        ),
        (Note::CannotWriteMarker(e()), "error: e"),
        (
            Note::MarkedInvalid(Cause::OrphanedProcessGroup { pid: 3 }),
            "marked invalid: application leader exited while child processes remained",
        ),
        (
            Note::StopCommandReturned(CommandOutcome::Unexpected(-3)),
            "warning: stop command returned Unexpected(-3); continuing shutdown",
        ),
        (
            Note::StopCommandReturned(CommandOutcome::Negative),
            "warning: stop command returned Negative; continuing shutdown",
        ),
        (
            Note::StopCommandFailed(ExecFailure::TimedOut),
            "warning: stop command failed: ./stop.sh timed out after 3s; killed; continuing shutdown",
        ),
        (
            Note::SendingKill { reason: StopReason::Unhealthy, process_group: 7 },
            "unhealthy; process group 7 survived 2s; sending SIGKILL",
        ),
        (
            Note::Stopped { reason: StopReason::Disabled, pid: 7 },
            "disabled; stopped pid 7",
        ),
        (
            Note::Started { pid: 7 },
            "started /srv/apps/api/./run.sh (pid 7); survived 1s validation",
        ),
        (
            Note::UnexpectedHealth(3),
            "error: healthcheck exited with 3; not restarting",
        ),
        (
            Note::HealthcheckFailed(ExecFailure::CannotRun(e())),
            "error: healthcheck: cannot run check it: e",
        ),
        (
            Note::HealthcheckFailed(ExecFailure::Waiting(WaitFailure::TimeoutTooLarge)),
            "error: healthcheck: waiting for check it: timeout is too large",
        ),
        (
            Note::HealthcheckFailed(ExecFailure::Waiting(WaitFailure::Os(e()))),
            "error: healthcheck: waiting for check it: e",
        ),
        (
            Note::HealthcheckFailed(ExecFailure::KilledBySignal(Some(9))),
            "error: healthcheck: command was killed by signal Some(9)",
        ),
        (
            Note::HealthcheckFailed(ExecFailure::KilledBySignal(None)),
            "error: healthcheck: command was killed by signal None",
        ),
    ];
    for (note, text) in cases {
        assert_eq!(supervisor.message(&note), text);
    }
}

#[test]
fn every_cause_has_a_record() {
    let global = GlobalConfig::default();
    let app = spec();
    let supervisor = Supervisor { global: &global, app: &app, guard_log: &global.guard_log };
    let e = || "e".to_string();
    let killed = ExitReport { code: None, signal: Some(11), text: "signal: 11".to_string() };
    let cases = [
        (
            Cause::InvalidStartProgram(Failure::StartNotAFile),
            "invalid_start_program",
            "start program /srv/apps/api/./run.sh is not a file",
            (None, None, None, None),
        ),
        (
            Cause::InvalidLogConfiguration(Failure::BadLogConf { error: e() }),
            "invalid_log_configuration",
            "/srv/apps/api/log.conf: e",
            (None, None, None, None),
        ),
        (
            Cause::InvalidProcessState(Failure::InvalidPidValues),
            "invalid_process_state",
            "invalid pid values in /srv/apps/api/./app.pid",
            (None, None, None, None),
        ),
        (Cause::LogOpenFailed(e()), "log_open_failed", "e", (None, None, None, None)),
        (
            Cause::StartupSpawnFailed(e()),
            "startup_spawn_failed",
            "cannot start /srv/apps/api/./run.sh: e",
            (None, None, None, None),
        ),
        (
            Cause::PidFileWriteFailed { pid: 4, error: e() },
            "pid_file_write_failed",
            "e",
            (None, Some(4), None, None),
        ),
        (
            Cause::StartupExitedEarly { pid: 4, status: killed, millis: u128::MAX },
            "startup_exited_early",
            "/srv/apps/api/./run.sh exited before startup validation completed (signal: 11)",
            (Some(u64::MAX), Some(4), None, Some(11)),
        ),
        (
            Cause::StartupObservationFailed { pid: 4, failure: WaitFailure::Os(e()), millis: 9 },
            "startup_observation_failed",
            "cannot observe /srv/apps/api/./run.sh: e",
            (Some(9), Some(4), None, None),
        ),
        (
            Cause::OrphanedProcessGroup { pid: 4 },
            "orphaned_process_group",
            "application leader exited while child processes remained",
            (None, Some(4), None, None),
        ),
    ];
    for (cause, reason, detail, numbers) in cases {
        let record = supervisor.invalid_record(&cause, "then".to_string());
        assert_eq!(record.detected_at, "then");
        assert_eq!(record.reason, reason);
        assert_eq!(record.detail, detail);
        assert_eq!(
            (record.observed_for_ms, record.pid, record.exit_code, record.signal),
            numbers
        );
    }
}

#[test]
fn commands_get_directory_and_environment() {
    let global = GlobalConfig::default();
    let app = spec();
    let supervisor = Supervisor { global: &global, app: &app, guard_log: &global.guard_log };
    let shell = supervisor.shell_command(Shell::Stop, Some(FilePath::from_text("/bin:/usr/bin")));
    assert_eq!(shell.program.display(), "/bin/sh");
    assert_eq!(shell.arguments, vec!["-c".to_string(), "./stop.sh".to_string()]);
    assert_eq!(shell.dir.display(), "/srv/apps/api");
    let variables: Vec<(String, String)> = shell
        .variables
        .iter()
        .map(|variable| (variable.name.clone(), variable.value.display()))
        .collect();
    assert_eq!(
        variables,
        vec![
            ("PATH".to_string(), "/srv/apps/api:/bin:/usr/bin".to_string()),
            ("GUARD_APP_NAME".to_string(), "api".to_string()),
        ]
    );
    let bare = supervisor.shell_command(Shell::Healthcheck, None);
    assert_eq!(bare.variables[0].value.display(), "/srv/apps/api");
    assert_eq!(bare.arguments[1], "");

    let start = supervisor.start_command();
    assert_eq!(start.program.display(), "/srv/apps/api/./run.sh");
    assert!(start.arguments.is_empty());
    assert_eq!(start.variables[0].name, "GUARD_APP_NAME");
    assert_eq!(start.variables[1].name, "GUARD_PID_FILE");
    assert_eq!(start.variables[1].value.display(), "/srv/apps/api/./app.pid");
}

#[test]
fn output_failures_name_the_file() {
    let global = GlobalConfig::default();
    let app = spec();
    let supervisor = Supervisor { global: &global, app: &app, guard_log: &global.guard_log };
    let plan = supervisor.output_files(&supervisor.settings_with(None::<&LogOverrides>));
    let e = || "e".to_string();
    assert_eq!(plan.failure_text(&OutputFailure::Directory(e())), "e");
    assert_eq!(
        plan.failure_text(&OutputFailure::OpenStdout(e())),
        "cannot open /srv/apps/api/logs/stdout.log: e"
    );
    assert_eq!(
        plan.failure_text(&OutputFailure::OpenStderr(e())),
        "cannot open /srv/apps/api/logs/stderr.log: e"
    );
    assert_eq!(plan.failure_text(&OutputFailure::Share(e())), "e");
}

#[test]
fn log_lines_carry_time_and_name() {
    assert_eq!(
        log_line("2024-01-31 23:59:59", "api", "hello"),
        "2024-01-31 23:59:59 [api] hello\n"
    );
    let global = GlobalConfig::default();
    let app = spec();
    let supervisor = Supervisor { global: &global, app: &app, guard_log: &global.guard_log };
    let line = supervisor.log("hello");
    let bytes = line.as_bytes();
    assert!(line.ends_with(" [api] hello\n"));
    assert!(!line.contains('%'));
    assert_eq!(bytes.len(), 19 + " [api] hello\n".len());
    assert_eq!((bytes[4], bytes[7], bytes[10], bytes[13]), (b'-', b'-', b' ', b':'));
}

#[test]
fn invalid_records_carry_a_time_with_offset() {
    let global = GlobalConfig::default();
    let app = spec();
    let supervisor = Supervisor { global: &global, app: &app, guard_log: &global.guard_log };
    let record = supervisor.quarantine(&Cause::OrphanedProcessGroup { pid: 4 });
    let bytes = record.detected_at.as_bytes();
    assert!(bytes.len() >= 25);
    assert_eq!(bytes[10], b'T');
    assert_eq!(bytes[bytes.len() - 3], b':');
    assert!(matches!(bytes[bytes.len() - 6], b'+' | b'-'));
    assert_eq!(record.reason, "orphaned_process_group");
}

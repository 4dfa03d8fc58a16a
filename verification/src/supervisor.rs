//! One application under supervision: its files, its commands and its messages.

use vstd::prelude::*;
use vstd::string::*;
use crate::check::{disabled_state, log_overrides, read_disabled, read_log_conf};
use crate::clock::{is_log_time, is_marker_time, log_time, marker_time};
use crate::config::{
    AppSpec, GlobalConfig, LogOverrides, LogOverridesView, LogSettings, LogSettingsView,
    no_overrides, or_default,
};
use crate::host::{ExitReport, LogFile, Place, Shell};
use crate::paths::{
    at_path, at_path_text, bytes_of, cannot, cannot_text, joined, lossy_text, resolve_from,
    same_place, FilePath,
};
use crate::process::CommandOutcome;
use crate::report::{Cause, ExecFailure, Failure, Note, StopReason, WaitFailure};
use crate::signal::{signal_of, StopSignal};
use crate::text::{decimal, decimal_int, show_i32, show_u64};

verus! {

/// One application, the settings that hold for all of them, and the guard's log.
pub struct Supervisor<'a> {
    pub global: &'a GlobalConfig,
    pub app: &'a AppSpec,
    pub guard_log: &'a FilePath,
}

/// Where a file of an application lies.
pub open spec fn place_path(app: AppSpec, place: Place) -> Seq<u8> {
    let name = match place {
        Place::Invalid => "invalid"@,
        Place::Suspended => "suspended"@,
        Place::LogConf => "log.conf"@,
        Place::Start => app.start@,
        Place::PidFile => app.pid_file@,
        Place::DisableFile => app.disable_file@,
        Place::Stop => app.stop@,
        Place::SignalFile => app.signal_file@,
    };
    joined(app.dir@, bytes_of(name))
}

/// What `log.conf` overrides, where there is one.
pub open spec fn conf_view(conf: Option<LogOverrides>) -> LogOverridesView {
    match conf {
        Some(conf) => conf@,
        None => no_overrides(),
    }
}

/// The log settings of an application: the global ones, overridden by those of its
/// override, overridden by those of its `log.conf`.
pub open spec fn effective_settings(
    global: GlobalConfig,
    app: AppSpec,
    conf: LogOverridesView,
) -> LogSettingsView {
    conf.applied_to(app.log_override@.applied_to(global.log@))
}

/// The command that the shell runs.
pub open spec fn shell_text(app: AppSpec, shell: Shell) -> Seq<char> {
    match shell {
        Shell::Stop => app.stop@,
        Shell::Healthcheck => match app.healthcheck {
            Some(command) => command@,
            None => ""@,
        },
    }
}

pub open spec fn reason_text(reason: StopReason) -> Seq<char> {
    match reason {
        StopReason::Disabled => "disabled"@,
        StopReason::Unhealthy => "unhealthy"@,
    }
}

pub open spec fn wait_text(failure: WaitFailure) -> Seq<char> {
    match failure {
        WaitFailure::TimeoutTooLarge => "timeout is too large"@,
        WaitFailure::Os(error) => error@,
    }
}

pub open spec fn optional_number_text(number: Option<i32>) -> Seq<char> {
    match number {
        Some(number) => "Some("@ + decimal_int(number as int) + ")"@,
        None => "None"@,
    }
}

pub open spec fn outcome_text(outcome: CommandOutcome) -> Seq<char> {
    match outcome {
        CommandOutcome::Success => "Success"@,
        CommandOutcome::Negative => "Negative"@,
        CommandOutcome::Unexpected(code) => "Unexpected("@ + decimal_int(code as int) + ")"@,
    }
}

pub open spec fn exec_text(app: AppSpec, shell: Shell, failure: ExecFailure) -> Seq<char> {
    let command = shell_text(app, shell);
    match failure {
        ExecFailure::CannotRun(error) => "cannot run "@ + command + ": "@ + error@,
        ExecFailure::Waiting(failure) => "waiting for "@ + command + ": "@ + wait_text(failure),
        ExecFailure::TimedOut => command + " timed out after "@ + decimal(
            app.command_timeout as nat,
        ) + "s; killed"@,
        ExecFailure::KilledBySignal(signal) => "command was killed by signal "@
            + optional_number_text(signal),
    }
}

pub open spec fn failure_text(app: AppSpec, failure: Failure) -> Seq<char> {
    match failure {
        Failure::CannotProbe { target, error } => "cannot probe process target "@ + decimal_int(
            target.number() as int,
        ) + ": "@ + error@,
        Failure::CannotSignal { target, error } => "cannot signal process target "@ + decimal_int(
            target.number() as int,
        ) + ": "@ + error@,
        Failure::OutsideGroup { record } => "pid "@ + decimal_int(record.pid as int)
            + " exists outside expected process group "@ + decimal_int(record.process_group as int),
        Failure::CannotRead { place, error } => cannot_text(
            "read"@,
            place_path(app, place),
            error@,
        ),
        Failure::CannotRemove { place, error } => cannot_text(
            "remove"@,
            place_path(app, place),
            error@,
        ),
        Failure::CannotCheck { place, error } => cannot_text(
            "check"@,
            place_path(app, place),
            error@,
        ),
        Failure::InvalidPidFile { error } => "invalid pid file "@ + at_path_text(
            place_path(app, Place::PidFile),
            error@,
        ),
        Failure::InvalidPidValues => "invalid pid values in "@ + lossy_text(
            place_path(app, Place::PidFile),
        ),
        Failure::StopTimeoutTooLarge => "stop timeout is too large"@,
        Failure::SurvivedKill { process_group } => "process group "@ + decimal_int(
            process_group as int,
        ) + " survived SIGKILL"@,
        Failure::BadStopSignal { text } => at_path_text(
            place_path(app, Place::SignalFile),
            match signal_of(text@) {
                Ok(_) => ""@,
                Err(message) => message,
            },
        ),
        Failure::CannotInspectStart { error } => cannot_text(
            "inspect start program"@,
            place_path(app, Place::Start),
            error@,
        ),
        Failure::StartNotAFile => "start program "@ + lossy_text(place_path(app, Place::Start))
            + " is not a file"@,
        Failure::StartNotExecutable => "start program "@ + lossy_text(place_path(app, Place::Start))
            + " is not executable"@,
        Failure::BadLogConf { error } => at_path_text(place_path(app, Place::LogConf), error@),
        Failure::CannotCheckDisableFile { error } => "cannot check disable file: "@ + error@,
    }
}

/// The key of a cause, as an invalid marker records it.
pub open spec fn cause_key(cause: Cause) -> Seq<char> {
    match cause {
        Cause::InvalidStartProgram(_) => "invalid_start_program"@,
        Cause::InvalidLogConfiguration(_) => "invalid_log_configuration"@,
        Cause::InvalidProcessState(_) => "invalid_process_state"@,
        Cause::LogOpenFailed(_) => "log_open_failed"@,
        Cause::StartupSpawnFailed(_) => "startup_spawn_failed"@,
        Cause::PidFileWriteFailed { .. } => "pid_file_write_failed"@,
        Cause::StartupExitedEarly { .. } => "startup_exited_early"@,
        Cause::StartupObservationFailed { .. } => "startup_observation_failed"@,
        Cause::OrphanedProcessGroup { .. } => "orphaned_process_group"@,
    }
}

pub open spec fn cause_detail(app: AppSpec, cause: Cause) -> Seq<char> {
    let program = lossy_text(place_path(app, Place::Start));
    match cause {
        Cause::InvalidStartProgram(failure) => failure_text(app, failure),
        Cause::InvalidLogConfiguration(failure) => failure_text(app, failure),
        Cause::InvalidProcessState(failure) => failure_text(app, failure),
        Cause::LogOpenFailed(error) => error@,
        Cause::StartupSpawnFailed(error) => cannot_text(
            "start"@,
            place_path(app, Place::Start),
            error@,
        ),
        Cause::PidFileWriteFailed { error, .. } => error@,
        Cause::StartupExitedEarly { status, .. } => program
            + " exited before startup validation completed ("@ + status.text@ + ")"@,
        Cause::StartupObservationFailed { failure, .. } => cannot_text(
            "observe"@,
            place_path(app, Place::Start),
            wait_text(failure),
        ),
        Cause::OrphanedProcessGroup {
            ..
        } => "application leader exited while child processes remained"@,
    }
}

/// The process that a cause is about.
pub open spec fn cause_pid(cause: Cause) -> Option<i32> {
    match cause {
        Cause::PidFileWriteFailed { pid, .. } => Some(pid),
        Cause::StartupExitedEarly { pid, .. } => Some(pid),
        Cause::StartupObservationFailed { pid, .. } => Some(pid),
        Cause::OrphanedProcessGroup { pid } => Some(pid),
        _ => None,
    }
}

/// How long the application was observed, in milliseconds that fit.
pub open spec fn cause_millis(cause: Cause) -> Option<u64> {
    match cause {
        Cause::StartupExitedEarly { millis, .. } => Some(fitting(millis)),
        Cause::StartupObservationFailed { millis, .. } => Some(fitting(millis)),
        _ => None,
    }
}

pub open spec fn fitting(n: u128) -> u64 {
    if n <= u64::MAX {
        n as u64
    } else {
        u64::MAX
    }
}

/// How the application ended.
pub open spec fn cause_status(cause: Cause) -> Option<ExitReport> {
    match cause {
        Cause::StartupExitedEarly { status, .. } => Some(status),
        _ => None,
    }
}

pub open spec fn note_text(app: AppSpec, note: Note) -> Seq<char> {
    match note {
        Note::Failed(failure) => "error: "@ + failure_text(app, failure),
        Note::CannotCheckInvalidMarker(error) => "error: cannot check invalid marker: "@ + error@,
        Note::CannotEncodeMarker(error) => "error: cannot encode invalid marker: "@ + error@,
        Note::CannotWriteMarker(error) => "error: "@ + error@,
        Note::MarkedInvalid(cause) => "marked invalid: "@ + cause_detail(app, cause),
        Note::StopCommandReturned(outcome) => "warning: stop command returned "@ + outcome_text(
            outcome,
        ) + "; continuing shutdown"@,
        Note::StopCommandFailed(failure) => "warning: stop command failed: "@ + exec_text(
            app,
            Shell::Stop,
            failure,
        ) + "; continuing shutdown"@,
        Note::SendingKill { reason, process_group } => reason_text(reason) + "; process group "@
            + decimal_int(process_group as int) + " survived "@ + decimal(app.stop_grace as nat)
            + "s; sending SIGKILL"@,
        Note::Stopped { reason, pid } => reason_text(reason) + "; stopped pid "@ + decimal_int(
            pid as int,
        ),
        Note::Started { pid } => "started "@ + lossy_text(place_path(app, Place::Start)) + " (pid "@
            + decimal_int(pid as int) + "); survived "@ + decimal(app.startup_validation as nat)
            + "s validation"@,
        Note::UnexpectedHealth(code) => "error: healthcheck exited with "@ + decimal_int(
            code as int,
        ) + "; not restarting"@,
        Note::HealthcheckFailed(failure) => "error: healthcheck: "@ + exec_text(
            app,
            Shell::Healthcheck,
            failure,
        ),
    }
}

/// A line of the guard's log.
pub open spec fn log_line_text(time: Seq<char>, name: Seq<char>, message: Seq<char>) -> Seq<char> {
    time + " ["@ + name + "] "@ + message + "\n"@
}

/// A line of the guard's log.
pub fn log_line(time: &str, name: &str, message: &str) -> (r: String)
    ensures
        r@ == log_line_text(time@, name@, message@),
{
    time.to_owned().concat(" [").concat(name).concat("] ").concat(message).concat("\n")
}

/// A line of the guard's log, with the current time.
pub fn write_log(name: &str, message: &str) -> (r: String)
    ensures
        exists|time: Seq<char>| #[trigger]
            is_log_time(time) && r@ == log_line_text(time, name@, message@),
{
    let time = log_time();
    log_line(time.as_str(), name, message)
}

/// What an invalid marker records.
#[derive(Debug)]
pub struct InvalidRecord {
    pub detected_at: String,
    pub reason: String,
    pub detail: String,
    pub observed_for_ms: Option<u64>,
    pub pid: Option<i32>,
    pub exit_code: Option<i32>,
    pub signal: Option<i32>,
}

impl InvalidRecord {
    /// Whether the record says what there is to say of `cause`.
    pub open spec fn records(self, app: AppSpec, cause: Cause) -> bool {
        &&& self.reason@ == cause_key(cause)
        &&& self.detail@ == cause_detail(app, cause)
        &&& self.observed_for_ms == cause_millis(cause)
        &&& self.pid == cause_pid(cause)
        &&& self.exit_code == match cause_status(cause) {
            Some(status) => status.code,
            None => None,
        }
        &&& self.signal == match cause_status(cause) {
            Some(status) => status.signal,
            None => None,
        }
    }
}

/// The files that an application's output goes to.
#[derive(Debug)]
pub struct OutputPlan {
    pub stdout: FilePath,
    pub stderr: FilePath,
    /// Both are the same place: it is opened once.
    pub shared: bool,
}

/// What went wrong with an output file.
#[derive(Debug, PartialEq, Eq)]
pub enum OutputFailure {
    /// A directory could not be made; the message says which.
    Directory(String),
    OpenStdout(String),
    OpenStderr(String),
    Share(String),
}

impl OutputPlan {
    /// The message for a failure.
    pub fn failure_text(&self, failure: &OutputFailure) -> (r: String)
        ensures
            r@ == match *failure {
                OutputFailure::Directory(message) => message@,
                OutputFailure::OpenStdout(error) => cannot_text("open"@, self.stdout@, error@),
                OutputFailure::OpenStderr(error) => cannot_text("open"@, self.stderr@, error@),
                OutputFailure::Share(error) => error@,
            },
    {
        match failure {
            OutputFailure::Directory(message) => message.clone(),
            OutputFailure::OpenStdout(error) => cannot("open", &self.stdout, error.as_str()),
            OutputFailure::OpenStderr(error) => cannot("open", &self.stderr, error.as_str()),
            OutputFailure::Share(error) => error.clone(),
        }
    }
}

/// A variable of a command's environment.
#[derive(Debug)]
pub struct Variable {
    pub name: String,
    pub value: FilePath,
}

/// A command that is to be spawned, with nothing on its standard input.
#[derive(Debug)]
pub struct CommandPlan {
    pub program: FilePath,
    pub arguments: Vec<String>,
    pub dir: FilePath,
    /// What is added to the inherited environment.
    pub variables: Vec<Variable>,
}

impl CommandPlan {
    pub open spec fn argument_texts(self) -> Seq<Seq<char>> {
        self.arguments@.map_values(|argument: String| argument@)
    }

    pub open spec fn variable_values(self) -> Seq<(Seq<char>, Seq<u8>)> {
        self.variables@.map_values(|variable: Variable| (variable.name@, variable.value@))
    }
}

/// The byte `:`, which separates the directories of a search path.
pub const PATH_SEPARATOR: u8 = 58;

/// The search path of an application's shell commands: its directory comes first.
pub open spec fn search_path(dir: Seq<u8>, inherited: Option<Seq<u8>>) -> Seq<u8> {
    match inherited {
        Some(inherited) => dir.push(PATH_SEPARATOR) + inherited,
        None => dir,
    }
}

fn show_wait(failure: &WaitFailure) -> (r: String)
    ensures
        r@ == wait_text(*failure),
{
    match failure {
        WaitFailure::TimeoutTooLarge => "timeout is too large".to_owned(),
        WaitFailure::Os(error) => error.clone(),
    }
}

fn show_optional_number(number: Option<i32>) -> (r: String)
    ensures
        r@ == optional_number_text(number),
{
    match number {
        Some(number) => "Some(".to_owned().concat(show_i32(number).as_str()).concat(")"),
        None => "None".to_owned(),
    }
}

fn show_outcome(outcome: CommandOutcome) -> (r: String)
    ensures
        r@ == outcome_text(outcome),
{
    match outcome {
        CommandOutcome::Success => "Success".to_owned(),
        CommandOutcome::Negative => "Negative".to_owned(),
        CommandOutcome::Unexpected(code) => "Unexpected(".to_owned().concat(
            show_i32(code).as_str(),
        ).concat(")"),
    }
}

fn show_reason(reason: StopReason) -> (r: &'static str)
    ensures
        r@ == reason_text(reason),
{
    match reason {
        StopReason::Disabled => "disabled",
        StopReason::Unhealthy => "unhealthy",
    }
}

fn key(cause: &Cause) -> (r: &'static str)
    ensures
        r@ == cause_key(*cause),
{
    match cause {
        Cause::InvalidStartProgram(_) => "invalid_start_program",
        Cause::InvalidLogConfiguration(_) => "invalid_log_configuration",
        Cause::InvalidProcessState(_) => "invalid_process_state",
        Cause::LogOpenFailed(_) => "log_open_failed",
        Cause::StartupSpawnFailed(_) => "startup_spawn_failed",
        Cause::PidFileWriteFailed { .. } => "pid_file_write_failed",
        Cause::StartupExitedEarly { .. } => "startup_exited_early",
        Cause::StartupObservationFailed { .. } => "startup_observation_failed",
        Cause::OrphanedProcessGroup { .. } => "orphaned_process_group",
    }
}

fn saturated(n: u128) -> (r: u64)
    ensures
        r == fitting(n),
{
    if n <= u64::MAX as u128 {
        n as u64
    } else {
        u64::MAX
    }
}

impl<'a> Supervisor<'a> {
    /// The place of a configured path, seen from the application's directory.
    pub fn path(&self, configured: &str) -> (r: FilePath)
        ensures
            r@ == joined(self.app.dir@, bytes_of(configured@)),
    {
        resolve_from(&self.app.dir, &FilePath::from_text(configured))
    }

    /// Where the invalid marker lies.
    pub fn invalid_path(&self) -> (r: FilePath)
        ensures
            r@ == place_path(*self.app, Place::Invalid),
    {
        self.path("invalid")
    }

    /// Where the marker of a suspended process group lies.
    pub fn suspended_path(&self) -> (r: FilePath)
        ensures
            r@ == place_path(*self.app, Place::Suspended),
    {
        self.path("suspended")
    }

    /// Where a file of the application lies.
    pub fn place(&self, place: Place) -> (r: FilePath)
        ensures
            r@ == place_path(*self.app, place),
    {
        match place {
            Place::Invalid => self.invalid_path(),
            Place::Suspended => self.suspended_path(),
            Place::LogConf => self.path("log.conf"),
            Place::Start => self.path(self.app.start.as_str()),
            Place::PidFile => self.path(self.app.pid_file.as_str()),
            Place::DisableFile => self.path(self.app.disable_file.as_str()),
            Place::Stop => self.path(self.app.stop.as_str()),
            Place::SignalFile => self.path(self.app.signal_file.as_str()),
        }
    }

    /// Whether the disable file is there.
    pub fn disabled(&self, observed: Result<bool, String>) -> (r: Result<bool, Failure>)
        ensures
            r == disabled_state(observed),
    {
        read_disabled(observed)
    }

    /// A line for the guard's log about this application, with the current time.
    pub fn log(&self, message: &str) -> (r: String)
        ensures
            exists|time: Seq<char>| #[trigger]
                is_log_time(time) && r@ == log_line_text(time, self.app.name@, message@),
    {
        write_log(self.app.name.as_str(), message)
    }

    /// The log settings that hold with what `log.conf` overrides.
    pub fn settings_with(&self, conf: Option<&LogOverrides>) -> (r: LogSettings)
        ensures
            r@ == effective_settings(
                *self.global,
                *self.app,
                match conf {
                    Some(conf) => conf@,
                    None => no_overrides(),
                },
            ),
    {
        let mut settings = self.global.log.copy();
        self.app.log_override.apply_to(&mut settings);
        if let Some(conf) = conf {
            conf.apply_to(&mut settings);
        }
        settings
    }

    /// The log settings of the application, with its `log.conf`.
    pub fn load_log_settings(&self, file: LogFile) -> (r: Result<LogSettings, Failure>)
        ensures
            match log_overrides(file) {
                Ok(conf) => r matches Ok(settings) && settings@ == effective_settings(
                    *self.global,
                    *self.app,
                    conf_view(conf),
                ),
                Err(failure) => r == Err::<LogSettings, Failure>(failure),
            },
    {
        match read_log_conf(file) {
            Ok(conf) => Ok(self.settings_with(conf.as_ref())),
            Err(failure) => Err(failure),
        }
    }

    /// The files that the application's output goes to.
    pub fn output_files(&self, settings: &LogSettings) -> (r: OutputPlan)
        ensures
            r.stdout@ == joined(self.app.dir@, settings.stdout@),
            r.stderr@ == joined(self.app.dir@, settings.stderr@),
            r.shared == same_place(r.stdout@, r.stderr@),
    {
        let stdout = resolve_from(&self.app.dir, &settings.stdout);
        let stderr = resolve_from(&self.app.dir, &settings.stderr);
        let shared: bool = stdout.same_as(&stderr);
        OutputPlan { stdout, stderr, shared }
    }

    /// The command that the shell is to run. `inherited` is the guard's own search
    /// path.
    pub fn shell_command(&self, shell: Shell, inherited: Option<FilePath>) -> (r: CommandPlan)
        ensures
            r.program@ == bytes_of("/bin/sh"@),
            r.argument_texts() == seq!["-c"@, shell_text(*self.app, shell)],
            r.dir@ == self.app.dir@,
            r.variable_values() == seq![
                (
                    "PATH"@,
                    search_path(
                        self.app.dir@,
                        match inherited {
                            Some(path) => Some(path@),
                            None => None,
                        },
                    ),
                ),
                ("GUARD_APP_NAME"@, bytes_of(self.app.name@)),
            ],
    {
        let mut path = self.app.dir.copy();
        if let Some(existing) = inherited {
            path.bytes.push(PATH_SEPARATOR);
            let mut bytes = existing.bytes;
            path.bytes.append(&mut bytes);
        }
        let mut arguments: Vec<String> = Vec::new();
        arguments.push("-c".to_owned());
        arguments.push(self.command(shell));
        let mut variables: Vec<Variable> = Vec::new();
        variables.push(Variable { name: "PATH".to_owned(), value: path });
        variables.push(
            Variable {
                name: "GUARD_APP_NAME".to_owned(),
                value: FilePath::from_text(self.app.name.as_str()),
            },
        );
        let plan = CommandPlan {
            program: FilePath::from_text("/bin/sh"),
            arguments,
            dir: self.app.dir.copy(),
            variables,
        };
        assert(plan.argument_texts() =~= seq!["-c"@, shell_text(*self.app, shell)]);
        plan
    }

    /// The command that starts the application.
    pub fn start_command(&self) -> (r: CommandPlan)
        ensures
            r.program@ == place_path(*self.app, Place::Start),
            r.argument_texts() == Seq::<Seq<char>>::empty(),
            r.dir@ == self.app.dir@,
            r.variable_values() == seq![
                ("GUARD_APP_NAME"@, bytes_of(self.app.name@)),
                ("GUARD_PID_FILE"@, place_path(*self.app, Place::PidFile)),
            ],
    {
        let mut variables: Vec<Variable> = Vec::new();
        variables.push(
            Variable {
                name: "GUARD_APP_NAME".to_owned(),
                value: FilePath::from_text(self.app.name.as_str()),
            },
        );
        variables.push(
            Variable { name: "GUARD_PID_FILE".to_owned(), value: self.place(Place::PidFile) },
        );
        let plan = CommandPlan {
            program: self.place(Place::Start),
            arguments: Vec::new(),
            dir: self.app.dir.copy(),
            variables,
        };
        assert(plan.argument_texts() =~= Seq::<Seq<char>>::empty());
        plan
    }

    fn command(&self, shell: Shell) -> (r: String)
        ensures
            r@ == shell_text(*self.app, shell),
    {
        match shell {
            Shell::Stop => self.app.stop.clone(),
            Shell::Healthcheck => match &self.app.healthcheck {
                Some(command) => command.clone(),
                None => "".to_owned(),
            },
        }
    }

    fn show_exec(&self, shell: Shell, failure: &ExecFailure) -> (r: String)
        ensures
            r@ == exec_text(*self.app, shell, *failure),
    {
        let command = self.command(shell);
        match failure {
            ExecFailure::CannotRun(error) => "cannot run ".to_owned().concat(
                command.as_str(),
            ).concat(": ").concat(error.as_str()),
            ExecFailure::Waiting(failure) => "waiting for ".to_owned().concat(
                command.as_str(),
            ).concat(": ").concat(show_wait(failure).as_str()),
            ExecFailure::TimedOut => command.concat(" timed out after ").concat(
                show_u64(self.app.command_timeout).as_str(),
            ).concat("s; killed"),
            ExecFailure::KilledBySignal(signal) => "command was killed by signal ".to_owned().concat(
                show_optional_number(*signal).as_str(),
            ),
        }
    }

    /// The message for a failure.
    pub fn describe(&self, failure: &Failure) -> (r: String)
        ensures
            r@ == failure_text(*self.app, *failure),
    {
        match failure {
            Failure::CannotProbe { target, error } => "cannot probe process target ".to_owned().concat(
                show_i32(target.raw()).as_str(),
            ).concat(": ").concat(error.as_str()),
            Failure::CannotSignal {
                target,
                error,
            } => "cannot signal process target ".to_owned().concat(
                show_i32(target.raw()).as_str(),
            ).concat(": ").concat(error.as_str()),
            Failure::OutsideGroup { record } => "pid ".to_owned().concat(
                show_i32(record.pid).as_str(),
            ).concat(" exists outside expected process group ").concat(
                show_i32(record.process_group).as_str(),
            ),
            Failure::CannotRead { place, error } => cannot(
                "read",
                &self.place(*place),
                error.as_str(),
            ),
            Failure::CannotRemove { place, error } => cannot(
                "remove",
                &self.place(*place),
                error.as_str(),
            ),
            Failure::CannotCheck { place, error } => cannot(
                "check",
                &self.place(*place),
                error.as_str(),
            ),
            Failure::InvalidPidFile { error } => "invalid pid file ".to_owned().concat(
                at_path(&self.place(Place::PidFile), error.as_str()).as_str(),
            ),
            Failure::InvalidPidValues => "invalid pid values in ".to_owned().concat(
                self.place(Place::PidFile).display().as_str(),
            ),
            Failure::StopTimeoutTooLarge => "stop timeout is too large".to_owned(),
            Failure::SurvivedKill { process_group } => "process group ".to_owned().concat(
                show_i32(*process_group).as_str(),
            ).concat(" survived SIGKILL"),
            Failure::BadStopSignal { text } => {
                let message = match StopSignal::parse(text.as_str()) {
                    Ok(_) => "".to_owned(),
                    Err(message) => message,
                };
                at_path(&self.place(Place::SignalFile), message.as_str())
            },
            Failure::CannotInspectStart { error } => cannot(
                "inspect start program",
                &self.place(Place::Start),
                error.as_str(),
            ),
            Failure::StartNotAFile => "start program ".to_owned().concat(
                self.place(Place::Start).display().as_str(),
            ).concat(" is not a file"),
            Failure::StartNotExecutable => "start program ".to_owned().concat(
                self.place(Place::Start).display().as_str(),
            ).concat(" is not executable"),
            Failure::BadLogConf { error } => at_path(&self.place(Place::LogConf), error.as_str()),
            Failure::CannotCheckDisableFile {
                error,
            } => "cannot check disable file: ".to_owned().concat(error.as_str()),
        }
    }

    /// What an invalid marker says in words.
    pub fn detail(&self, cause: &Cause) -> (r: String)
        ensures
            r@ == cause_detail(*self.app, *cause),
    {
        match cause {
            Cause::InvalidStartProgram(failure) => self.describe(failure),
            Cause::InvalidLogConfiguration(failure) => self.describe(failure),
            Cause::InvalidProcessState(failure) => self.describe(failure),
            Cause::LogOpenFailed(error) => error.clone(),
            Cause::StartupSpawnFailed(error) => cannot(
                "start",
                &self.place(Place::Start),
                error.as_str(),
            ),
            Cause::PidFileWriteFailed { error, .. } => error.clone(),
            Cause::StartupExitedEarly { status, .. } => self.place(Place::Start).display().concat(
                " exited before startup validation completed (",
            ).concat(status.text.as_str()).concat(")"),
            Cause::StartupObservationFailed { failure, .. } => cannot(
                "observe",
                &self.place(Place::Start),
                show_wait(failure).as_str(),
            ),
            Cause::OrphanedProcessGroup {
                ..
            } => "application leader exited while child processes remained".to_owned(),
        }
    }

    /// What an invalid marker records of a cause that was detected at a given time.
    pub fn invalid_record(&self, cause: &Cause, detected_at: String) -> (r: InvalidRecord)
        ensures
            r.detected_at == detected_at,
            r.records(*self.app, *cause),
    {
        let (observed_for_ms, pid, exit_code, signal) = match cause {
            Cause::StartupExitedEarly { pid, status, millis } => (
                Some(saturated(*millis)),
                Some(*pid),
                status.code,
                status.signal,
            ),
            Cause::StartupObservationFailed { pid, millis, .. } => (
                Some(saturated(*millis)),
                Some(*pid),
                None,
                None,
            ),
            Cause::PidFileWriteFailed { pid, .. } => (None, Some(*pid), None, None),
            Cause::OrphanedProcessGroup { pid } => (None, Some(*pid), None, None),
            _ => (None, None, None, None),
        };
        InvalidRecord {
            detected_at,
            reason: key(cause).to_owned(),
            detail: self.detail(cause),
            observed_for_ms,
            pid,
            exit_code,
            signal,
        }
    }

    /// What an invalid marker records of a cause that is detected now.
    pub fn quarantine(&self, cause: &Cause) -> (r: InvalidRecord)
        ensures
            is_marker_time(r.detected_at@),
            r.records(*self.app, *cause),
    {
        self.invalid_record(cause, marker_time())
    }

    /// The message for an entry of the guard's log.
    pub fn message(&self, note: &Note) -> (r: String)
        ensures
            r@ == note_text(*self.app, *note),
    {
        match note {
            Note::Failed(failure) => "error: ".to_owned().concat(self.describe(failure).as_str()),
            Note::CannotCheckInvalidMarker(
                error,
            ) => "error: cannot check invalid marker: ".to_owned().concat(error.as_str()),
            Note::CannotEncodeMarker(
                error,
            ) => "error: cannot encode invalid marker: ".to_owned().concat(error.as_str()),
            Note::CannotWriteMarker(error) => "error: ".to_owned().concat(error.as_str()),
            Note::MarkedInvalid(cause) => "marked invalid: ".to_owned().concat(
                self.detail(cause).as_str(),
            ),
            Note::StopCommandReturned(
                outcome,
            ) => "warning: stop command returned ".to_owned().concat(
                show_outcome(*outcome).as_str(),
            ).concat("; continuing shutdown"),
            Note::StopCommandFailed(failure) => "warning: stop command failed: ".to_owned().concat(
                self.show_exec(Shell::Stop, failure).as_str(),
            ).concat("; continuing shutdown"),
            Note::SendingKill { reason, process_group } => show_reason(*reason).to_owned().concat(
                "; process group ",
            ).concat(show_i32(*process_group).as_str()).concat(" survived ").concat(
                show_u64(self.app.stop_grace).as_str(),
            ).concat("s; sending SIGKILL"),
            Note::Stopped { reason, pid } => show_reason(*reason).to_owned().concat(
                "; stopped pid ",
            ).concat(show_i32(*pid).as_str()),
            Note::Started { pid } => "started ".to_owned().concat(
                self.place(Place::Start).display().as_str(),
            ).concat(" (pid ").concat(show_i32(*pid).as_str()).concat("); survived ").concat(
                show_u64(self.app.startup_validation).as_str(),
            ).concat("s validation"),
            Note::UnexpectedHealth(code) => "error: healthcheck exited with ".to_owned().concat(
                show_i32(*code).as_str(),
            ).concat("; not restarting"),
            Note::HealthcheckFailed(failure) => "error: healthcheck: ".to_owned().concat(
                self.show_exec(Shell::Healthcheck, failure).as_str(),
            ),
        }
    }
}

/// Of the values that a log setting is given, that of `log.conf` counts before that of
/// the application's override, and that before the global one.
pub proof fn log_conf_has_highest_precedence(
    global: GlobalConfig,
    app: AppSpec,
    conf: LogOverridesView,
)
    ensures
        ({
            let settings = effective_settings(global, app, conf);
            let own = app.log_override@;
            &&& settings.stdout == or_default(conf.stdout, or_default(own.stdout, global.log@.stdout))
            &&& settings.stderr == or_default(conf.stderr, or_default(own.stderr, global.log@.stderr))
            &&& settings.max_size == or_default(
                conf.max_size,
                or_default(own.max_size, global.log.max_size),
            )
            &&& settings.max_keep == or_default(
                conf.max_keep,
                or_default(own.max_keep, global.log.max_keep),
            )
            &&& settings.compress_after == or_default(
                conf.compress_after,
                or_default(own.compress_after, global.log.compress_after),
            )
            &&& settings.compression == or_default(
                conf.compression,
                or_default(own.compression, global.log.compression),
            )
            &&& settings.rotation == or_default(
                conf.rotation,
                or_default(own.rotation, global.log.rotation),
            )
        }),
{
}

} // verus!

//! What is recorded and told is what is known.

use vstd::prelude::*;
use crate::config::AppSpec;
use crate::host::{Place, Shell, Target};
use crate::logs::{log_note_text, LogNote};
use crate::paths::{bytes_of, joined, lossy_text};
use crate::report::{Cause, ExecFailure, Failure, Note, WaitFailure};
use crate::rotate::Truncation;
use crate::signal::signal_of;
use crate::supervise::{setup_fault_text, SetupFault};
use crate::supervisor::{
    cause_detail, exec_text, failure_text, log_line_text, note_text, place_path, search_path,
    InvalidRecord,
};
use crate::text::{decimal, decimal_int};
use crate::writer::{temporary_name, write_failure_text, WriteFailure};

verus! {

/// Whether a path is where a name leads from a directory: an absolute name stands for
/// itself, and any other is put behind the directory and one `/`.
pub open spec fn leads_to(dir: Seq<u8>, name: Seq<u8>, path: Seq<u8>) -> bool {
    let slash = '/' as u8;
    if name.len() > 0 && name[0] == slash {
        path == name
    } else if dir.len() > 0 && dir.last() != slash {
        path == dir + seq![slash] + name
    } else {
        path == dir + name
    }
}

proof fn lemma_leads(dir: Seq<u8>, name: Seq<u8>)
    ensures
        leads_to(dir, name, joined(dir, name)),
{
    assert('/' as u8 == 47u8);
    assert(dir.push(47u8) + name =~= dir + seq![47u8] + name);
}

/// Each file of an application lies where its setting leads from the application's
/// directory; those that have no setting have a name of their own there.
pub proof fn files_lie_where_their_settings_lead(app: AppSpec)
    ensures
        leads_to(app.dir@, bytes_of(app.start@), place_path(app, Place::Start)),
        leads_to(app.dir@, bytes_of(app.stop@), place_path(app, Place::Stop)),
        leads_to(app.dir@, bytes_of(app.pid_file@), place_path(app, Place::PidFile)),
        leads_to(app.dir@, bytes_of(app.disable_file@), place_path(app, Place::DisableFile)),
        leads_to(app.dir@, bytes_of(app.signal_file@), place_path(app, Place::SignalFile)),
        leads_to(app.dir@, bytes_of("invalid"@), place_path(app, Place::Invalid)),
        leads_to(app.dir@, bytes_of("suspended"@), place_path(app, Place::Suspended)),
        leads_to(app.dir@, bytes_of("log.conf"@), place_path(app, Place::LogConf)),
{
    lemma_leads(app.dir@, bytes_of(app.start@));
    lemma_leads(app.dir@, bytes_of(app.stop@));
    lemma_leads(app.dir@, bytes_of(app.pid_file@));
    lemma_leads(app.dir@, bytes_of(app.disable_file@));
    lemma_leads(app.dir@, bytes_of(app.signal_file@));
    lemma_leads(app.dir@, bytes_of("invalid"@));
    lemma_leads(app.dir@, bytes_of("suspended"@));
    lemma_leads(app.dir@, bytes_of("log.conf"@));
}

/// The most milliseconds that a marker can record, or as many as there were.
pub open spec fn recordable(millis: u128) -> int {
    if millis <= 18446744073709551615 {
        millis as int
    } else {
        18446744073709551615
    }
}

/// A marker records what is known of its cause: of an application that was started, its
/// process; of one that was observed, for how long; and of one that ended, how.
pub proof fn a_marker_records_what_is_known(app: AppSpec, cause: Cause, record: InvalidRecord)
    requires
        record.records(app, cause),
    ensures
        match cause {
            Cause::StartupExitedEarly { pid, status, millis } => {
                &&& record.pid == Some(pid)
                &&& record.exit_code == status.code
                &&& record.signal == status.signal
                &&& record.observed_for_ms matches Some(n) && n == recordable(millis)
            },
            Cause::StartupObservationFailed { pid, millis, .. } => {
                &&& record.pid == Some(pid)
                &&& record.exit_code is None
                &&& record.signal is None
                &&& record.observed_for_ms matches Some(n) && n == recordable(millis)
            },
            Cause::PidFileWriteFailed { pid, .. } => {
                &&& record.pid == Some(pid)
                &&& record.exit_code is None
                &&& record.signal is None
                &&& record.observed_for_ms is None
            },
            Cause::OrphanedProcessGroup { pid } => {
                &&& record.pid == Some(pid)
                &&& record.exit_code is None
                &&& record.signal is None
                &&& record.observed_for_ms is None
            },
            _ => {
                &&& record.pid is None
                &&& record.exit_code is None
                &&& record.signal is None
                &&& record.observed_for_ms is None
            },
        },
{
}

/// The reason that a marker gives tells the causes apart.
pub proof fn a_marker_names_its_reason(app: AppSpec, cause: Cause, record: InvalidRecord)
    requires
        record.records(app, cause),
    ensures
        cause is InvalidStartProgram <==> record.reason@ == "invalid_start_program"@,
        cause is InvalidLogConfiguration <==> record.reason@ == "invalid_log_configuration"@,
        cause is InvalidProcessState <==> record.reason@ == "invalid_process_state"@,
        cause is LogOpenFailed <==> record.reason@ == "log_open_failed"@,
        cause is StartupSpawnFailed <==> record.reason@ == "startup_spawn_failed"@,
        cause is PidFileWriteFailed <==> record.reason@ == "pid_file_write_failed"@,
        cause is StartupExitedEarly <==> record.reason@ == "startup_exited_early"@,
        cause is StartupObservationFailed <==> record.reason@ == "startup_observation_failed"@,
        cause is OrphanedProcessGroup <==> record.reason@ == "orphaned_process_group"@,
{
    lemma_reasons_differ();
}

/// No two reasons have the same length and the same ninth letter.
proof fn lemma_reasons_differ()
    ensures
        "invalid_start_program"@.len() == 21,
        "invalid_log_configuration"@.len() == 25,
        "invalid_process_state"@.len() == 21,
        "log_open_failed"@.len() == 15,
        "startup_spawn_failed"@.len() == 20,
        "pid_file_write_failed"@.len() == 21,
        "startup_exited_early"@.len() == 20,
        "startup_observation_failed"@.len() == 26,
        "orphaned_process_group"@.len() == 22,
        "invalid_start_program"@[8] == 's',
        "invalid_process_state"@[8] == 'p',
        "pid_file_write_failed"@[8] == '_',
        "startup_spawn_failed"@[8] == 's',
        "startup_exited_early"@[8] == 'e',
{
    reveal_strlit("invalid_start_program");
    reveal_strlit("invalid_log_configuration");
    reveal_strlit("invalid_process_state");
    reveal_strlit("log_open_failed");
    reveal_strlit("startup_spawn_failed");
    reveal_strlit("pid_file_write_failed");
    reveal_strlit("startup_exited_early");
    reveal_strlit("startup_observation_failed");
    reveal_strlit("orphaned_process_group");
}

/// Whether a text ends with another.
pub open spec fn ends_with(text: Seq<char>, end: Seq<char>) -> bool {
    exists|start: Seq<char>| text == #[trigger] start.add(end)
}

proof fn lemma_ends(text: Seq<char>, start: Seq<char>, end: Seq<char>)
    requires
        text =~= start + end,
    ensures
        ends_with(text, end),
{
    assert(text == start.add(end));
}

/// What failed is told with the place or the process that it failed for, and with the
/// system's own message last.
pub proof fn a_failure_tells_where_and_why(app: AppSpec, failure: Failure)
    ensures
        ({
            let text = failure_text(app, failure);
            let pid_file = lossy_text(place_path(app, Place::PidFile));
            let start = lossy_text(place_path(app, Place::Start));
            match failure {
                Failure::CannotProbe { target, error } => ends_with(
                    text,
                    shown_target(target) + ": "@ + error@,
                ),
                Failure::CannotSignal { target, error } => ends_with(
                    text,
                    shown_target(target) + ": "@ + error@,
                ),
                Failure::CannotRead { place, error } => ends_with(
                    text,
                    lossy_text(place_path(app, place)) + ": "@ + error@,
                ),
                Failure::CannotRemove { place, error } => ends_with(
                    text,
                    lossy_text(place_path(app, place)) + ": "@ + error@,
                ),
                Failure::CannotCheck { place, error } => ends_with(
                    text,
                    lossy_text(place_path(app, place)) + ": "@ + error@,
                ),
                Failure::InvalidPidFile { error } => ends_with(text, pid_file + ": "@ + error@),
                Failure::InvalidPidValues => ends_with(text, pid_file),
                Failure::CannotInspectStart { error } => ends_with(text, start + ": "@ + error@),
                Failure::StartNotAFile => ends_with(text, start + " is not a file"@),
                Failure::StartNotExecutable => ends_with(text, start + " is not executable"@),
                Failure::BadLogConf { error } => ends_with(
                    text,
                    lossy_text(place_path(app, Place::LogConf)) + ": "@ + error@,
                ),
                Failure::BadStopSignal { text: file } => signal_of(file@) matches Err(message)
                    ==> ends_with(
                    text,
                    lossy_text(place_path(app, Place::SignalFile)) + ": "@ + message,
                ),
                Failure::CannotCheckDisableFile { error } => ends_with(text, error@),
                Failure::SurvivedKill { process_group } => ends_with(
                    text,
                    decimal_int(process_group as int) + " survived SIGKILL"@,
                ),
                Failure::OutsideGroup { record } => ends_with(
                    text,
                    decimal_int(record.pid as int) + " exists outside expected process group "@
                        + decimal_int(record.process_group as int),
                ),
                Failure::StopTimeoutTooLarge => true,
            }
        }),
{
    let text = failure_text(app, failure);
    let pid_file = lossy_text(place_path(app, Place::PidFile));
    let start = lossy_text(place_path(app, Place::Start));
    match failure {
        Failure::CannotProbe { target, error } => lemma_ends(
            text,
            "cannot probe process target "@,
            shown_target(target) + ": "@ + error@,
        ),
        Failure::CannotSignal { target, error } => lemma_ends(
            text,
            "cannot signal process target "@,
            shown_target(target) + ": "@ + error@,
        ),
        Failure::CannotRead { place, error } => lemma_ends(
            text,
            "cannot "@ + "read"@ + " "@,
            lossy_text(place_path(app, place)) + ": "@ + error@,
        ),
        Failure::CannotRemove { place, error } => lemma_ends(
            text,
            "cannot "@ + "remove"@ + " "@,
            lossy_text(place_path(app, place)) + ": "@ + error@,
        ),
        Failure::CannotCheck { place, error } => lemma_ends(
            text,
            "cannot "@ + "check"@ + " "@,
            lossy_text(place_path(app, place)) + ": "@ + error@,
        ),
        Failure::InvalidPidFile { error } => lemma_ends(
            text,
            "invalid pid file "@,
            pid_file + ": "@ + error@,
        ),
        Failure::InvalidPidValues => lemma_ends(text, "invalid pid values in "@, pid_file),
        Failure::CannotInspectStart { error } => lemma_ends(
            text,
            "cannot "@ + "inspect start program"@ + " "@,
            start + ": "@ + error@,
        ),
        Failure::StartNotAFile => lemma_ends(text, "start program "@, start + " is not a file"@),
        Failure::StartNotExecutable => lemma_ends(
            text,
            "start program "@,
            start + " is not executable"@,
        ),
        Failure::BadLogConf { error } => lemma_ends(
            text,
            Seq::empty(),
            lossy_text(place_path(app, Place::LogConf)) + ": "@ + error@,
        ),
        Failure::BadStopSignal { text: file } => {
            if let Err(message) = signal_of(file@) {
                lemma_ends(
                    text,
                    Seq::empty(),
                    lossy_text(place_path(app, Place::SignalFile)) + ": "@ + message,
                );
            }
        },
        Failure::CannotCheckDisableFile { error } => lemma_ends(
            text,
            "cannot check disable file: "@,
            error@,
        ),
        Failure::SurvivedKill { process_group } => lemma_ends(
            text,
            "process group "@,
            decimal_int(process_group as int) + " survived SIGKILL"@,
        ),
        Failure::OutsideGroup { record } => lemma_ends(
            text,
            "pid "@,
            decimal_int(record.pid as int) + " exists outside expected process group "@
                + decimal_int(record.process_group as int),
        ),
        Failure::StopTimeoutTooLarge => {},
    }
}

/// How a target is shown: a process by its number, and a group by its number with a minus
/// sign, as `kill` takes it.
pub open spec fn shown_target(target: Target) -> Seq<char> {
    match target {
        Target::Process(pid) => decimal_int(pid as int),
        Target::Group(group) => if group == i32::MIN {
            decimal_int(group as int)
        } else {
            decimal_int(-group)
        },
    }
}

/// A command that failed is told by its own text, with the time that it had where that
/// was over, and otherwise with what went wrong last.
pub proof fn a_failed_command_is_named(app: AppSpec, failure: ExecFailure)
    ensures
        ({
            let stop = exec_text(app, Shell::Stop, failure);
            let health = exec_text(app, Shell::Healthcheck, failure);
            match failure {
                ExecFailure::CannotRun(error) => {
                    &&& ends_with(stop, app.stop@ + ": "@ + error@)
                    &&& app.healthcheck matches Some(command) ==> ends_with(
                        health,
                        command@ + ": "@ + error@,
                    )
                },
                ExecFailure::Waiting(WaitFailure::Os(error)) => {
                    &&& ends_with(stop, app.stop@ + ": "@ + error@)
                    &&& app.healthcheck matches Some(command) ==> ends_with(
                        health,
                        command@ + ": "@ + error@,
                    )
                },
                ExecFailure::TimedOut => {
                    &&& stop == app.stop@ + " timed out after "@ + decimal(
                        app.command_timeout as nat,
                    ) + "s; killed"@
                    &&& app.healthcheck matches Some(command) ==> health == command@
                        + " timed out after "@ + decimal(app.command_timeout as nat) + "s; killed"@
                },
                ExecFailure::KilledBySignal(Some(signal)) => ends_with(
                    stop,
                    decimal_int(signal as int) + ")"@,
                ) && stop == health,
                _ => true,
            }
        }),
{
    let stop = exec_text(app, Shell::Stop, failure);
    let health = exec_text(app, Shell::Healthcheck, failure);
    match failure {
        ExecFailure::CannotRun(error) => {
            lemma_ends(stop, "cannot run "@, app.stop@ + ": "@ + error@);
            if let Some(command) = app.healthcheck {
                lemma_ends(health, "cannot run "@, command@ + ": "@ + error@);
            }
        },
        ExecFailure::Waiting(WaitFailure::Os(error)) => {
            lemma_ends(stop, "waiting for "@, app.stop@ + ": "@ + error@);
            if let Some(command) = app.healthcheck {
                lemma_ends(health, "waiting for "@, command@ + ": "@ + error@);
            }
        },
        ExecFailure::KilledBySignal(Some(signal)) => {
            lemma_ends(
                stop,
                "command was killed by signal "@ + "Some("@,
                decimal_int(signal as int) + ")"@,
            );
        },
        _ => {},
    }
}

/// What goes wrong is told as an error with its message last; a quarantine is told with the
/// detail that its marker records, and a start with its program, its process and the time
/// that it was observed for.
pub proof fn a_note_tells_its_message(app: AppSpec, note: Note)
    ensures
        ({
            let text = note_text(app, note);
            match note {
                Note::Failed(failure) => text == "error: "@ + failure_text(app, failure),
                Note::CannotCheckInvalidMarker(error) => ends_with(text, error@),
                Note::CannotEncodeMarker(error) => ends_with(text, error@),
                Note::CannotWriteMarker(error) => ends_with(text, error@),
                Note::MarkedInvalid(cause) => ends_with(text, cause_detail(app, cause)),
                Note::HealthcheckFailed(failure) => ends_with(
                    text,
                    exec_text(app, Shell::Healthcheck, failure),
                ),
                Note::StopCommandFailed(failure) => ends_with(
                    text,
                    exec_text(app, Shell::Stop, failure) + "; continuing shutdown"@,
                ),
                Note::SendingKill { process_group, .. } => ends_with(
                    text,
                    decimal_int(process_group as int) + " survived "@ + decimal(
                        app.stop_grace as nat,
                    ) + "s; sending SIGKILL"@,
                ),
                Note::Stopped { pid, .. } => ends_with(text, decimal_int(pid as int)),
                Note::Started { pid } => ends_with(
                    text,
                    lossy_text(place_path(app, Place::Start)) + " (pid "@ + decimal_int(pid as int)
                        + "); survived "@ + decimal(app.startup_validation as nat)
                        + "s validation"@,
                ),
                Note::UnexpectedHealth(code) => ends_with(
                    text,
                    decimal_int(code as int) + "; not restarting"@,
                ),
                _ => true,
            }
        }),
{
    let text = note_text(app, note);
    match note {
        Note::CannotCheckInvalidMarker(error) => lemma_ends(
            text,
            "error: cannot check invalid marker: "@,
            error@,
        ),
        Note::CannotEncodeMarker(error) => lemma_ends(
            text,
            "error: cannot encode invalid marker: "@,
            error@,
        ),
        Note::CannotWriteMarker(error) => lemma_ends(text, "error: "@, error@),
        Note::MarkedInvalid(cause) => lemma_ends(
            text,
            "marked invalid: "@,
            cause_detail(app, cause),
        ),
        Note::HealthcheckFailed(failure) => lemma_ends(
            text,
            "error: healthcheck: "@,
            exec_text(app, Shell::Healthcheck, failure),
        ),
        Note::StopCommandFailed(failure) => lemma_ends(
            text,
            "warning: stop command failed: "@,
            exec_text(app, Shell::Stop, failure) + "; continuing shutdown"@,
        ),
        Note::SendingKill { reason, process_group } => lemma_ends(
            text,
            crate::supervisor::reason_text(reason) + "; process group "@,
            decimal_int(process_group as int) + " survived "@ + decimal(app.stop_grace as nat)
                + "s; sending SIGKILL"@,
        ),
        Note::Stopped { reason, pid } => lemma_ends(
            text,
            crate::supervisor::reason_text(reason) + "; stopped pid "@,
            decimal_int(pid as int),
        ),
        Note::Started { pid } => lemma_ends(
            text,
            "started "@,
            lossy_text(place_path(app, Place::Start)) + " (pid "@ + decimal_int(pid as int)
                + "); survived "@ + decimal(app.startup_validation as nat) + "s validation"@,
        ),
        Note::UnexpectedHealth(code) => lemma_ends(
            text,
            "error: healthcheck exited with "@,
            decimal_int(code as int) + "; not restarting"@,
        ),
        _ => {},
    }
}

/// The detail of a quarantine is the failure that caused it, or ends with the message of
/// what went wrong, or tells how the application ended.
pub proof fn a_detail_tells_its_cause(app: AppSpec, cause: Cause)
    ensures
        ({
            let text = cause_detail(app, cause);
            let start = lossy_text(place_path(app, Place::Start));
            match cause {
                Cause::InvalidStartProgram(failure) => text == failure_text(app, failure),
                Cause::InvalidLogConfiguration(failure) => text == failure_text(app, failure),
                Cause::InvalidProcessState(failure) => text == failure_text(app, failure),
                Cause::LogOpenFailed(error) => text == error@,
                Cause::PidFileWriteFailed { error, .. } => text == error@,
                Cause::StartupSpawnFailed(error) => ends_with(text, start + ": "@ + error@),
                Cause::StartupObservationFailed {
                    failure: WaitFailure::Os(error),
                    ..
                } => ends_with(text, start + ": "@ + error@),
                Cause::StartupExitedEarly { status, .. } => ends_with(
                    text,
                    start + " exited before startup validation completed ("@ + status.text@ + ")"@,
                ),
                _ => true,
            }
        }),
{
    let text = cause_detail(app, cause);
    let start = lossy_text(place_path(app, Place::Start));
    match cause {
        Cause::StartupSpawnFailed(error) => lemma_ends(
            text,
            "cannot "@ + "start"@ + " "@,
            start + ": "@ + error@,
        ),
        Cause::StartupObservationFailed { failure: WaitFailure::Os(error), .. } => lemma_ends(
            text,
            "cannot "@ + "observe"@ + " "@,
            start + ": "@ + error@,
        ),
        Cause::StartupExitedEarly { status, .. } => lemma_ends(
            text,
            Seq::empty(),
            start + " exited before startup validation completed ("@ + status.text@ + ")"@,
        ),
        _ => {},
    }
}

/// What is told of the rotation of logs names the group or the file that it is about, with
/// the size that a rotated file had, or ends with the message of what went wrong.
pub proof fn a_rotation_tells_its_file(
    app: AppSpec,
    note: LogNote,
    file: Seq<u8>,
    pause: Seq<char>,
)
    ensures
        ({
            let text = log_note_text(app, note, file, pause);
            match note {
                LogNote::Resumed(group) => ends_with(
                    text,
                    decimal_int(group as int) + " left suspended by an interrupted rotation"@,
                ),
                LogNote::CannotRecover(error) => ends_with(text, error@),
                LogNote::CannotCheckInvalidMarker(error) => ends_with(text, error@),
                LogNote::BadSettings(failure) => ends_with(text, failure_text(app, failure)),
                LogNote::RotationFailed(error) => ends_with(
                    text,
                    lossy_text(file) + ": "@ + error@,
                ),
                LogNote::Rotated(rotated) => {
                    let told = lossy_text(file) + " ("@ + decimal(rotated.size as nat) + " bytes"@;
                    match rotated.truncation {
                        Truncation::Plain => ends_with(text, told + ")"@),
                        Truncation::Suspended(_) => ends_with(
                            text,
                            told + ", app suspended for "@ + pause + "ms)"@,
                        ),
                        Truncation::SuspendFailed => ends_with(
                            text,
                            told + ", could not suspend the app: truncated without it)"@,
                        ),
                    }
                },
            }
        }),
{
    let text = log_note_text(app, note, file, pause);
    match note {
        LogNote::Resumed(group) => lemma_ends(
            text,
            "resumed process group "@,
            decimal_int(group as int) + " left suspended by an interrupted rotation"@,
        ),
        LogNote::CannotRecover(error) => lemma_ends(
            text,
            "error: checking suspended marker: "@,
            error@,
        ),
        LogNote::CannotCheckInvalidMarker(error) => lemma_ends(
            text,
            "error: checking invalid marker: "@,
            error@,
        ),
        LogNote::BadSettings(failure) => lemma_ends(
            text,
            "error: rotating logs: "@,
            failure_text(app, failure),
        ),
        LogNote::RotationFailed(error) => lemma_ends(
            text,
            "error: rotating "@,
            lossy_text(file) + ": "@ + error@,
        ),
        LogNote::Rotated(rotated) => {
            let told = lossy_text(file) + " ("@ + decimal(rotated.size as nat) + " bytes"@;
            reveal_strlit("");
            reveal_strlit(")");
            match rotated.truncation {
                Truncation::Plain => lemma_ends(text, "rotated "@, told + ")"@),
                Truncation::Suspended(_) => {
                    reveal_strlit("ms");
                    reveal_strlit("ms)");
                    assert("ms)"@ =~= "ms"@ + ")"@);
                    lemma_ends(
                        text,
                        "rotated "@,
                        told + ", app suspended for "@ + pause + "ms)"@,
                    );
                },
                Truncation::SuspendFailed => {
                    let why = ", could not suspend the app: truncated without it"@;
                    reveal_strlit(", could not suspend the app: truncated without it");
                    reveal_strlit(", could not suspend the app: truncated without it)");
                    assert(", could not suspend the app: truncated without it)"@ =~= why + ")"@);
                    lemma_ends(
                        text,
                        "rotated "@,
                        told + ", could not suspend the app: truncated without it)"@,
                    );
                },
            }
        },
    }
}

/// A write that failed is told with the file that it failed for and the system's message:
/// the temporary file where that could not be made or written, and both where the one could
/// not be put in the place of the other.
pub proof fn a_failed_write_names_its_file(path: Seq<u8>, process: u32, failure: WriteFailure)
    ensures
        ({
            let text = write_failure_text(path, process, failure);
            let temporary = lossy_text(temporary_name(path, process));
            match failure {
                WriteFailure::Parent(message) => text == message@,
                WriteFailure::Create(error) => ends_with(text, temporary + ": "@ + error@),
                WriteFailure::Write(error) => ends_with(text, temporary + ": "@ + error@),
                WriteFailure::Rename(error) => ends_with(
                    text,
                    temporary + " to "@ + lossy_text(path) + ": "@ + error@,
                ),
            }
        }),
{
    let text = write_failure_text(path, process, failure);
    let temporary = lossy_text(temporary_name(path, process));
    match failure {
        WriteFailure::Parent(message) => {},
        WriteFailure::Create(error) => lemma_ends(
            text,
            "cannot "@ + "create"@ + " "@,
            temporary + ": "@ + error@,
        ),
        WriteFailure::Write(error) => lemma_ends(
            text,
            "cannot "@ + "write"@ + " "@,
            temporary + ": "@ + error@,
        ),
        WriteFailure::Rename(error) => lemma_ends(
            text,
            "cannot rename "@,
            temporary + " to "@ + lossy_text(path) + ": "@ + error@,
        ),
    }
}

/// Why a configuration cannot be used is told with its path, or with the system's message.
pub proof fn an_unusable_configuration_is_named(path: Seq<u8>, fault: SetupFault)
    ensures
        ({
            let text = setup_fault_text(path, fault);
            match fault {
                SetupFault::Unresolved(error) => ends_with(text, error@),
                SetupFault::NoParent => lossy_text(path).is_prefix_of(text),
                SetupFault::Unreadable(error) => text == lossy_text(path) + ": "@ + error@,
                SetupFault::Malformed(error) => text == lossy_text(path) + ": "@ + error@,
            }
        }),
{
    if let SetupFault::Unresolved(error) = fault {
        lemma_ends(setup_fault_text(path, fault), "cannot resolve config: "@, error@);
    }
}

/// Commands are looked for in the application's directory first, and then where they were
/// looked for before, in the same order.
pub proof fn the_app_comes_first_in_the_search_path(dir: Seq<u8>, inherited: Option<Seq<u8>>)
    ensures
        dir.is_prefix_of(search_path(dir, inherited)),
        inherited is None ==> search_path(dir, inherited) == dir,
        inherited matches Some(path) ==> search_path(dir, inherited) == dir + seq![':' as u8]
            + path,
{
    if let Some(path) = inherited {
        assert(':' as u8 == 58u8);
        assert(dir.push(58u8) + path =~= dir + seq![':' as u8] + path);
    }
}

/// A line of the log can be taken apart again: where the time holds no opening bracket and
/// the name no closing one, no other time, name and message give the same line.
pub proof fn a_log_line_is_taken_apart(
    time: Seq<char>,
    name: Seq<char>,
    message: Seq<char>,
    other_time: Seq<char>,
    other_name: Seq<char>,
    other_message: Seq<char>,
)
    requires
        !time.contains('['),
        !name.contains(']'),
        !other_time.contains('['),
        !other_name.contains(']'),
        log_line_text(time, name, message) == log_line_text(
            other_time,
            other_name,
            other_message,
        ),
    ensures
        time == other_time,
        name == other_name,
        message == other_message,
        log_line_text(time, name, message).last() == '\n',
{
    reveal_strlit(" [");
    reveal_strlit("] ");
    reveal_strlit("\n");
    let line = log_line_text(time, name, message);
    let other = log_line_text(other_time, other_name, other_message);
    let t = time.len() as int;
    let u = other_time.len() as int;
    assert(line[t + 1] == '[');
    assert(other[u + 1] == '[');
    assert(t == u) by {
        if t + 1 < u {
            assert(other[t + 1] == other_time[t + 1]);
        } else if t + 1 == u {
            assert(other[t + 1] == ' ');
        } else if u + 1 < t {
            assert(line[u + 1] == time[u + 1]);
        } else if u + 1 == t {
            assert(line[u + 1] == ' ');
        }
    }
    let n = name.len() as int;
    let m = other_name.len() as int;
    assert(line[t + 2 + n] == ']');
    assert(other[t + 2 + m] == ']');
    assert(n == m) by {
        if n < m {
            assert(other[t + 2 + n] == other_name[n]);
        } else if m < n {
            assert(line[t + 2 + m] == name[m]);
        }
    }
    assert(time =~= line.take(t) && other_time =~= other.take(t));
    assert(name =~= line.subrange(t + 2, t + 2 + n));
    assert(other_name =~= other.subrange(t + 2, t + 2 + n));
    assert(message =~= line.subrange(t + 4 + n, line.len() - 1));
    assert(other_message =~= other.subrange(t + 4 + n, other.len() - 1));
}

} // verus!

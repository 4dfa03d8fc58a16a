//! The rotation of one application's logs.

use vstd::prelude::*;
use vstd::string::*;
use crate::check::{log_overrides, read_log_conf};
use crate::config::{
    AppSpec, GlobalConfig, LogOverrides, LogSettings, LogSettingsView,
};
use crate::host::{Next, Place, Reply, Request};
use crate::paths::{joined, lossy_text, resolve_from, same_place, FilePath};
use crate::process::{KnownState, ProcessState, Query};
use crate::report::Failure;
use crate::rotate::{
    LogReply, LogRequest, Policy, Rotate, RotateResult, Rotated, RotationMethod, Truncation,
};
use crate::supervisor::{
    conf_view, effective_settings, failure_text, place_path, Supervisor,
};
use crate::suspend::{Recover, RecoverResult, Suspend};
use crate::text::{decimal, decimal_int, show_i32, show_u64};

verus! {

/// One of an application's two output files.
#[derive(Clone, Copy, Debug, PartialEq, Eq, Structural)]
pub enum Stream {
    Stdout,
    Stderr,
}

/// An entry for the guard's log about a rotation.
#[derive(Debug, PartialEq, Eq)]
pub enum LogNote {
    Resumed(i32),
    CannotRecover(String),
    CannotCheckInvalidMarker(String),
    BadSettings(Failure),
    Rotated(Rotated),
    RotationFailed(String),
}

/// The next move of a rotation, with an entry for the log where there is one.
#[derive(Debug)]
pub struct LogStep {
    pub note: Option<LogNote>,
    pub next: Next<RotateLogs, ()>,
}

/// The rotation of an application's logs: what an interrupted one left suspended is
/// resumed, and then each output file gets its turn.
#[derive(Debug)]
pub enum RotateLogs {
    Recovering(Recover),
    /// Is the application quarantined?
    Marker,
    LogConf,
    /// Which group is to be frozen? The overrides are those of `log.conf`.
    Targeting { conf: Option<LogOverrides>, query: Query },
    Rotating { conf: Option<LogOverrides>, stream: Stream, suspend: Option<i32>, rotate: Rotate },
}

/// The rotation policy that settings give.
pub open spec fn policy_of(settings: LogSettingsView) -> Policy {
    Policy {
        max_size: settings.max_size,
        max_keep: settings.max_keep,
        compress_after: settings.compress_after,
        compression: settings.compression,
    }
}

/// The file of a stream.
pub open spec fn stream_path(app: AppSpec, settings: LogSettingsView, stream: Stream) -> Seq<u8> {
    joined(
        app.dir@,
        match stream {
            Stream::Stdout => settings.stdout,
            Stream::Stderr => settings.stderr,
        },
    )
}

/// The group to freeze while a log is truncated: that of an application that runs,
/// where the settings ask for it.
pub open spec fn group_to_suspend(
    method: RotationMethod,
    known: Result<KnownState, Failure>,
) -> Option<i32> {
    match (method, known) {
        (RotationMethod::Suspend, Ok((ProcessState::Running, Some(record)))) => Some(
            record.process_group,
        ),
        _ => None,
    }
}

/// What is worth telling of a recovery.
pub open spec fn recovery_note(result: RecoverResult) -> Option<LogNote> {
    match result {
        Ok(Some(group)) => Some(LogNote::Resumed(group)),
        Ok(None) => None,
        Err(error) => Some(LogNote::CannotRecover(error)),
    }
}

/// What is worth telling of the rotation of one file.
pub open spec fn rotation_note(result: RotateResult) -> Option<LogNote> {
    match result {
        Ok(Some(rotated)) => Some(LogNote::Rotated(rotated)),
        Ok(None) => None,
        Err(error) => Some(LogNote::RotationFailed(error)),
    }
}

pub open spec fn quietly(state: RotateLogs) -> LogStep {
    LogStep { note: None, next: Next::Ask(state) }
}

/// How a truncation is described; `pause` is the time that the application was
/// frozen, in milliseconds.
pub open spec fn truncation_text(truncation: Truncation, pause: Seq<char>) -> Seq<char> {
    match truncation {
        Truncation::Plain => ""@,
        Truncation::Suspended(_) => ", app suspended for "@ + pause + "ms"@,
        Truncation::SuspendFailed => ", could not suspend the app: truncated without it"@,
    }
}

pub open spec fn log_note_text(
    app: AppSpec,
    note: LogNote,
    file: Seq<u8>,
    pause: Seq<char>,
) -> Seq<char> {
    match note {
        LogNote::Resumed(group) => "resumed process group "@ + decimal_int(group as int)
            + " left suspended by an interrupted rotation"@,
        LogNote::CannotRecover(error) => "error: checking suspended marker: "@ + error@,
        LogNote::CannotCheckInvalidMarker(error) => "error: checking invalid marker: "@ + error@,
        LogNote::BadSettings(failure) => "error: rotating logs: "@ + failure_text(app, failure),
        LogNote::Rotated(rotated) => "rotated "@ + lossy_text(file) + " ("@ + decimal(
            rotated.size as nat,
        ) + " bytes"@ + truncation_text(rotated.truncation, pause) + ")"@,
        LogNote::RotationFailed(error) => "error: rotating "@ + lossy_text(file) + ": "@ + error@,
    }
}

impl RotateLogs {
    pub open spec fn asks(self) -> LogRequest {
        match self {
            RotateLogs::Recovering(recover) => LogRequest::Freeze(recover.asks()),
            RotateLogs::Marker => LogRequest::Host(Request::Exists(Place::Invalid)),
            RotateLogs::LogConf => LogRequest::Host(Request::ReadLogConf),
            RotateLogs::Targeting { query, .. } => LogRequest::Host(query.asks()),
            RotateLogs::Rotating { rotate, .. } => rotate.asks(),
        }
    }

    /// The request that the rotation stands at.
    pub fn request(&self) -> (r: LogRequest)
        ensures
            r == self.asks(),
    {
        match self {
            RotateLogs::Recovering(recover) => LogRequest::Freeze(recover.request()),
            RotateLogs::Marker => LogRequest::Host(Request::Exists(Place::Invalid)),
            RotateLogs::LogConf => LogRequest::Host(Request::ReadLogConf),
            RotateLogs::Targeting { query, .. } => LogRequest::Host(query.request()),
            RotateLogs::Rotating { rotate, .. } => rotate.request(),
        }
    }

    /// The rotation of one file, at its start.
    pub open spec fn rotating(
        settings: LogSettingsView,
        conf: Option<LogOverrides>,
        stream: Stream,
        suspend: Option<i32>,
        supported: bool,
    ) -> RotateLogs {
        RotateLogs::Rotating {
            conf,
            stream,
            suspend,
            rotate: Rotate::begun(policy_of(settings), suspend, supported),
        }
    }

    pub open spec fn after(
        self,
        global: GlobalConfig,
        app: AppSpec,
        supported: bool,
        reply: LogReply,
    ) -> LogStep {
        match (self, reply) {
            (RotateLogs::Recovering(recover), LogReply::Freeze(reply)) => match recover.after(
                reply,
            ) {
                Next::Ask(recover) => quietly(RotateLogs::Recovering(recover)),
                Next::Done(result) => LogStep {
                    note: recovery_note(result),
                    next: if app.managed {
                        Next::Ask(RotateLogs::Marker)
                    } else {
                        Next::Done(())
                    },
                },
            },
            (RotateLogs::Marker, LogReply::Host(Reply::Exists(exists))) => match exists {
                Ok(true) => LogStep { note: None, next: Next::Done(()) },
                Ok(false) => quietly(RotateLogs::LogConf),
                Err(error) => LogStep {
                    note: Some(LogNote::CannotCheckInvalidMarker(error)),
                    next: Next::Done(()),
                },
            },
            (RotateLogs::LogConf, LogReply::Host(Reply::LogConf(file))) => match log_overrides(
                file,
            ) {
                Ok(conf) => {
                    let settings = effective_settings(global, app, conf_view(conf));
                    if settings.rotation == RotationMethod::Suspend {
                        quietly(RotateLogs::Targeting { conf, query: Query::Reading })
                    } else {
                        quietly(
                            RotateLogs::rotating(settings, conf, Stream::Stdout, None, supported),
                        )
                    }
                },
                Err(failure) => LogStep {
                    note: Some(LogNote::BadSettings(failure)),
                    next: Next::Done(()),
                },
            },
            (
                RotateLogs::Targeting { conf, query },
                LogReply::Host(reply),
            ) => match query.after(reply) {
                Next::Ask(query) => quietly(RotateLogs::Targeting { conf, query }),
                Next::Done(known) => {
                    let settings = effective_settings(global, app, conf_view(conf));
                    quietly(
                        RotateLogs::rotating(
                            settings,
                            conf,
                            Stream::Stdout,
                            group_to_suspend(settings.rotation, known),
                            supported,
                        ),
                    )
                },
            },
            (RotateLogs::Rotating { conf, stream, suspend, rotate }, reply) => match rotate.after(
                reply,
            ) {
                Next::Ask(rotate) => quietly(
                    RotateLogs::Rotating { conf, stream, suspend, rotate },
                ),
                Next::Done(result) => {
                    let settings = effective_settings(global, app, conf_view(conf));
                    let shared = same_place(
                        stream_path(app, settings, Stream::Stdout),
                        stream_path(app, settings, Stream::Stderr),
                    );
                    LogStep {
                        note: rotation_note(result),
                        next: if stream == Stream::Stdout && !shared {
                            Next::Ask(
                                RotateLogs::rotating(
                                    settings,
                                    conf,
                                    Stream::Stderr,
                                    suspend,
                                    supported,
                                ),
                            )
                        } else {
                            Next::Done(())
                        },
                    }
                },
            },
            _ => quietly(self),
        }
    }

    /// Goes on with the host's answer. An answer to another request changes
    /// nothing. `supported` says whether the host can tell a stopped group.
    pub fn step(self, supervisor: &Supervisor<'_>, supported: bool, reply: LogReply) -> (r: LogStep)
        ensures
            r == self.after(*supervisor.global, *supervisor.app, supported, reply),
    {
        match (self, reply) {
            (RotateLogs::Recovering(recover), LogReply::Freeze(reply)) => match recover.step(
                reply,
            ) {
                Next::Ask(recover) => silent(RotateLogs::Recovering(recover)),
                Next::Done(result) => LogStep {
                    note: match result {
                        Ok(Some(group)) => Some(LogNote::Resumed(group)),
                        Ok(None) => None,
                        Err(error) => Some(LogNote::CannotRecover(error)),
                    },
                    next: if supervisor.app.managed {
                        Next::Ask(RotateLogs::Marker)
                    } else {
                        Next::Done(())
                    },
                },
            },
            (RotateLogs::Marker, LogReply::Host(Reply::Exists(exists))) => match exists {
                Ok(true) => LogStep { note: None, next: Next::Done(()) },
                Ok(false) => silent(RotateLogs::LogConf),
                Err(error) => LogStep {
                    note: Some(LogNote::CannotCheckInvalidMarker(error)),
                    next: Next::Done(()),
                },
            },
            (RotateLogs::LogConf, LogReply::Host(Reply::LogConf(file))) => match read_log_conf(
                file,
            ) {
                Ok(conf) => {
                    let settings = supervisor.settings_with(conf.as_ref());
                    if settings.rotation == RotationMethod::Suspend {
                        silent(RotateLogs::Targeting { conf, query: Query::Reading })
                    } else {
                        silent(start_file(&settings, conf, Stream::Stdout, None, supported))
                    }
                },
                Err(failure) => LogStep {
                    note: Some(LogNote::BadSettings(failure)),
                    next: Next::Done(()),
                },
            },
            (
                RotateLogs::Targeting { conf, query },
                LogReply::Host(reply),
            ) => match query.step(reply) {
                Next::Ask(query) => silent(RotateLogs::Targeting { conf, query }),
                Next::Done(known) => {
                    let settings = supervisor.settings_with(conf.as_ref());
                    let suspend: Option<i32> = match supervisor.suspend_target(&settings, &known) {
                        Some(suspend) => Some(suspend.process_group),
                        None => None,
                    };
                    silent(start_file(&settings, conf, Stream::Stdout, suspend, supported))
                },
            },
            (RotateLogs::Rotating { conf, stream, suspend, rotate }, reply) => match rotate.step(
                reply,
            ) {
                Next::Ask(rotate) => silent(RotateLogs::Rotating { conf, stream, suspend, rotate }),
                Next::Done(result) => {
                    let settings = supervisor.settings_with(conf.as_ref());
                    let shared: bool = supervisor.output_files(&settings).shared;
                    LogStep {
                        note: match result {
                            Ok(Some(rotated)) => Some(LogNote::Rotated(rotated)),
                            Ok(None) => None,
                            Err(error) => Some(LogNote::RotationFailed(error)),
                        },
                        next: if stream == Stream::Stdout && !shared {
                            Next::Ask(
                                start_file(&settings, conf, Stream::Stderr, suspend, supported),
                            )
                        } else {
                            Next::Done(())
                        },
                    }
                },
            },
            (state, _) => silent(state),
        }
    }

    pub open spec fn rotates(self, global: GlobalConfig, app: AppSpec) -> Option<Seq<u8>> {
        match self {
            RotateLogs::Rotating { conf, stream, .. } => Some(
                stream_path(app, effective_settings(global, app, conf_view(conf)), stream),
            ),
            _ => None,
        }
    }

    /// The live file that is being rotated, where one is: the one that the requests
    /// about files are for.
    pub fn live(&self, supervisor: &Supervisor<'_>) -> (r: Option<FilePath>)
        ensures
            match (r, self.rotates(*supervisor.global, *supervisor.app)) {
                (Some(file), Some(expected)) => file@ == expected,
                (None, None) => true,
                _ => false,
            },
    {
        match self {
            RotateLogs::Rotating { conf, stream, .. } => {
                let settings = supervisor.settings_with(conf.as_ref());
                Some(
                    match stream {
                        Stream::Stdout => resolve_from(&supervisor.app.dir, &settings.stdout),
                        Stream::Stderr => resolve_from(&supervisor.app.dir, &settings.stderr),
                    },
                )
            },
            _ => None,
        }
    }
}

fn silent(state: RotateLogs) -> (r: LogStep)
    ensures
        r == quietly(state),
{
    LogStep { note: None, next: Next::Ask(state) }
}

fn start_file(
    settings: &LogSettings,
    conf: Option<LogOverrides>,
    stream: Stream,
    suspend: Option<i32>,
    supported: bool,
) -> (r: RotateLogs)
    ensures
        r == RotateLogs::rotating(settings@, conf, stream, suspend, supported),
{
    let policy = Policy {
        max_size: settings.max_size,
        max_keep: settings.max_keep,
        compress_after: settings.compress_after,
        compression: settings.compression,
    };
    RotateLogs::Rotating { conf, stream, suspend, rotate: Rotate::new(policy, suspend, supported) }
}

impl<'a> Supervisor<'a> {
    /// Begins the rotation of the application's logs. Only for the holder of the
    /// rotation lock.
    pub fn rotate_logs(&self) -> (r: RotateLogs)
        ensures
            r == RotateLogs::Recovering(Recover::Reading),
    {
        RotateLogs::Recovering(crate::suspend::recover())
    }

    /// The writers to stop while a log is truncated: the process group of the
    /// application, if it runs.
    pub fn suspend_target(
        &self,
        settings: &LogSettings,
        known: &Result<KnownState, Failure>,
    ) -> (r: Option<Suspend>)
        ensures
            match (r, group_to_suspend(settings.rotation, *known)) {
                (Some(suspend), Some(group)) => {
                    &&& suspend.process_group == group
                    &&& suspend.marker@ == place_path(*self.app, Place::Suspended)
                },
                (None, None) => true,
                _ => false,
            },
    {
        if settings.rotation != RotationMethod::Suspend {
            return None;
        }
        match known {
            Ok((ProcessState::Running, Some(record))) => Some(
                Suspend { process_group: record.process_group, marker: self.suspended_path() },
            ),
            _ => None,
        }
    }

    /// The message for an entry about a rotation: `file` is the live file that is
    /// being rotated, and `pause` is the time that the application was frozen, in
    /// milliseconds.
    pub fn rotation_message(&self, note: &LogNote, file: &FilePath, pause: &str) -> (r: String)
        ensures
            r@ == log_note_text(*self.app, *note, file@, pause@),
    {
        match note {
            LogNote::Resumed(group) => "resumed process group ".to_owned().concat(
                show_i32(*group).as_str(),
            ).concat(" left suspended by an interrupted rotation"),
            LogNote::CannotRecover(error) => "error: checking suspended marker: ".to_owned().concat(
                error.as_str(),
            ),
            LogNote::CannotCheckInvalidMarker(
                error,
            ) => "error: checking invalid marker: ".to_owned().concat(error.as_str()),
            LogNote::BadSettings(failure) => "error: rotating logs: ".to_owned().concat(
                self.describe(failure).as_str(),
            ),
            LogNote::Rotated(rotated) => {
                let how = match rotated.truncation {
                    Truncation::Plain => "".to_owned(),
                    Truncation::Suspended(_) => ", app suspended for ".to_owned().concat(
                        pause,
                    ).concat("ms"),
                    Truncation::SuspendFailed => ", could not suspend the app: truncated without it".to_owned(),
                };
                "rotated ".to_owned().concat(file.display().as_str()).concat(" (").concat(
                    show_u64(rotated.size).as_str(),
                ).concat(" bytes").concat(how.as_str()).concat(")")
            },
            LogNote::RotationFailed(error) => "error: rotating ".to_owned().concat(
                file.display().as_str(),
            ).concat(": ").concat(error.as_str()),
        }
    }
}

} // verus!

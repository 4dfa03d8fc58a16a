//! Defaults, overrides and their precedence.

use processguard::config::{
    default_true, resolve_app, AppOverride, AppSpec, Config, GlobalConfig, LogOverrides, LogSettings,
};
use processguard::host::{LogFile, Place};
use processguard::paths::FilePath;
use processguard::report::Failure;
use processguard::rotate::{CompressionMethod, RotationMethod};
use processguard::size::parse_size;
use processguard::supervisor::Supervisor;

fn app_override(name: &str) -> AppOverride {
    AppOverride {
        name: name.to_string(),
        managed: default_true(),
        start: None,
        pid_file: None,
        disable_file: None,
        stop: None,
        signal_file: None,
        healthcheck: None,
        startup_validation_secs: None,
        stop_grace_secs: None,
        timeout_secs: None,
        log: LogOverrides::default(),
    }
}

fn app(global: &GlobalConfig, app_override: Option<AppOverride>) -> AppSpec {
    resolve_app(
        global,
        "api".to_string(),
        FilePath::from_text("/srv/apps/api"),
        app_override,
    )
}

#[test]
fn conventions_hold_without_an_override() {
    let global = GlobalConfig::default();
    let api = app(&global, None);
    assert_eq!(api.name, "api");
    assert_eq!(api.dir.display(), "/srv/apps/api");
    assert!(api.managed);
    assert_eq!(api.start, "./run.sh");
    assert_eq!(api.pid_file, "./app.pid");
    assert_eq!(api.disable_file, "./disabled");
    assert_eq!(api.stop, "./stop.sh");
    assert_eq!(api.signal_file, "./signal");
    assert_eq!(api.healthcheck, None);
    assert_eq!(api.startup_validation, 10);
    assert_eq!(api.stop_grace, 30);
    assert_eq!(api.command_timeout, 30);
    assert_eq!(api.log_override.max_keep, None);
}

#[test]
fn an_override_replaces_conventions_and_global_settings() {
    let global = GlobalConfig::default();
    let mut chosen = app_override("api");
    chosen.managed = false;
    chosen.start = Some("bin/start".to_string());
    chosen.pid_file = Some("/run/api.pid".to_string());
    chosen.disable_file = Some("off".to_string());
    chosen.stop = Some("bin/stop".to_string());
    chosen.signal_file = Some("sig".to_string());
    chosen.healthcheck = Some("./health.sh".to_string());
    chosen.startup_validation_secs = Some(20);
    chosen.stop_grace_secs = Some(1);
    chosen.timeout_secs = Some(2);
    chosen.log.max_keep = Some(5);
    let api = app(&global, Some(chosen));
    assert!(!api.managed);
    assert_eq!(api.start, "bin/start");
    assert_eq!(api.pid_file, "/run/api.pid");
    assert_eq!(api.disable_file, "off");
    assert_eq!(api.stop, "bin/stop");
    assert_eq!(api.signal_file, "sig");
    assert_eq!(api.healthcheck, Some("./health.sh".to_string()));
    assert_eq!(api.startup_validation, 20);
    assert_eq!(api.stop_grace, 1);
    assert_eq!(api.command_timeout, 2);
    assert_eq!(api.log_override.max_keep, Some(5));
}

#[test]
fn defaults_are_those_of_the_documentation() {
    let config = Config::default();
    assert!(config.app_overrides.is_empty());
    assert_eq!(config.global.base_dir.display(), "apps");
    assert_eq!(config.global.guard_log.display(), "guard.log");
    let log = LogSettings::default();
    assert_eq!(log.stdout.display(), "logs/stdout.log");
    assert_eq!(log.stderr.display(), "logs/stderr.log");
    assert_eq!(Ok(log.max_size), parse_size("15MiB"));
    assert_eq!(log.max_keep, 10);
    assert_eq!(log.compress_after, 3);
    assert_eq!(log.compression, CompressionMethod::Gzip);
    assert_eq!(log.rotation, RotationMethod::CopyTruncate);
    assert_eq!(RotationMethod::default(), RotationMethod::CopyTruncate);
}

#[test]
fn overrides_replace_only_what_they_name() {
    let mut settings = LogSettings::default();
    let overrides = LogOverrides {
        stdout: Some(FilePath::from_text("out")),
        max_size: Some(1),
        compress_after: Some(0),
        compression: Some(CompressionMethod::Uncompressed),
        rotation: Some(RotationMethod::Suspend),
        ..LogOverrides::default()
    };
    overrides.apply_to(&mut settings);
    assert_eq!(settings.stdout.display(), "out");
    assert_eq!(settings.stderr.display(), "logs/stderr.log");
    assert_eq!(settings.max_size, 1);
    assert_eq!(settings.max_keep, 10);
    assert_eq!(settings.compress_after, 0);
    assert_eq!(settings.compression, CompressionMethod::Uncompressed);
    assert_eq!(settings.rotation, RotationMethod::Suspend);
}

#[test]
fn log_conf_has_highest_precedence() {
    let mut config = Config::default();
    config.global.log.max_keep = 10;
    let mut override_config = app_override("api");
    override_config.log.max_keep = Some(5);
    let api = app(&config.global, Some(override_config));
    let supervisor = Supervisor {
        global: &config.global,
        app: &api,
        guard_log: &config.global.guard_log,
    };
    let log_conf = LogOverrides {
        max_keep: Some(2),
        max_size: Some(parse_size("1MiB").expect("size")),
        ..LogOverrides::default()
    };

    let settings = supervisor
        .load_log_settings(LogFile::Parsed(log_conf))
        .expect("load logs");
    assert_eq!(settings.max_keep, 2);
    assert_eq!(settings.max_size, 1 << 20);

    let settings = supervisor.load_log_settings(LogFile::Missing).expect("load logs");
    assert_eq!(settings.max_keep, 5);
}

#[test]
fn a_bad_log_conf_is_a_failure() {
    let config = Config::default();
    let api = app(&config.global, None);
    let supervisor = Supervisor {
        global: &config.global,
        app: &api,
        guard_log: &config.global.guard_log,
    };
    let failure = supervisor
        .load_log_settings(LogFile::Malformed("expected a key".to_string()))
        .expect_err("malformed");
    assert_eq!(
        supervisor.describe(&failure),
        "/srv/apps/api/log.conf: expected a key"
    );
    assert!(matches!(
        supervisor.load_log_settings(LogFile::Unreadable("denied".to_string())),
        Err(Failure::BadLogConf { .. })
    ));
}

#[test]
fn files_lie_in_the_app_directory() {
    let config = Config::default();
    let mut chosen = app_override("api");
    chosen.pid_file = Some("/run/api.pid".to_string());
    let api = app(&config.global, Some(chosen));
    let supervisor = Supervisor {
        global: &config.global,
        app: &api,
        guard_log: &config.global.guard_log,
    };
    assert_eq!(supervisor.path("x/y").display(), "/srv/apps/api/x/y");
    assert_eq!(supervisor.invalid_path().display(), "/srv/apps/api/invalid");
    assert_eq!(supervisor.suspended_path().display(), "/srv/apps/api/suspended");
    assert_eq!(supervisor.place(Place::Invalid).display(), "/srv/apps/api/invalid");
    assert_eq!(supervisor.place(Place::Suspended).display(), "/srv/apps/api/suspended");
    assert_eq!(supervisor.place(Place::LogConf).display(), "/srv/apps/api/log.conf");
    assert_eq!(supervisor.place(Place::Start).display(), "/srv/apps/api/./run.sh");
    assert_eq!(supervisor.place(Place::PidFile).display(), "/run/api.pid");
    assert_eq!(supervisor.place(Place::DisableFile).display(), "/srv/apps/api/./disabled");
    assert_eq!(supervisor.place(Place::Stop).display(), "/srv/apps/api/./stop.sh");
    assert_eq!(supervisor.place(Place::SignalFile).display(), "/srv/apps/api/./signal");
}

#[test]
fn output_files_are_shared_when_they_are_one_place() {
    let config = Config::default();
    let api = app(&config.global, None);
    let supervisor = Supervisor {
        global: &config.global,
        app: &api,
        guard_log: &config.global.guard_log,
    };
    let mut settings = LogSettings::default();
    let plan = supervisor.output_files(&settings);
    assert_eq!(plan.stdout.display(), "/srv/apps/api/logs/stdout.log");
    assert_eq!(plan.stderr.display(), "/srv/apps/api/logs/stderr.log");
    assert!(!plan.shared);
    settings.stderr = FilePath::from_text("/srv/apps/api/logs//./stdout.log");
    assert!(supervisor.output_files(&settings).shared);
}

//! Configuration: defaults, overrides and their precedence.

use vstd::prelude::*;
use vstd::string::*;
use crate::paths::{bytes_of, FilePath};
use crate::rotate::{CompressionMethod, RotationMethod};

verus! {

/// Where an application's output goes and how its log files are rotated.
#[derive(Debug)]
pub struct LogSettings {
    pub stdout: FilePath,
    pub stderr: FilePath,
    pub max_size: u64,
    pub max_keep: u32,
    pub compress_after: u32,
    pub compression: CompressionMethod,
    pub rotation: RotationMethod,
}

/// The values that a `LogSettings` holds.
pub struct LogSettingsView {
    pub stdout: Seq<u8>,
    pub stderr: Seq<u8>,
    pub max_size: u64,
    pub max_keep: u32,
    pub compress_after: u32,
    pub compression: CompressionMethod,
    pub rotation: RotationMethod,
}

impl View for LogSettings {
    type V = LogSettingsView;

    open spec fn view(&self) -> LogSettingsView {
        LogSettingsView {
            stdout: self.stdout@,
            stderr: self.stderr@,
            max_size: self.max_size,
            max_keep: self.max_keep,
            compress_after: self.compress_after,
            compression: self.compression,
            rotation: self.rotation,
        }
    }
}

/// The log settings of a host that configures none.
pub open spec fn default_log_settings() -> LogSettingsView {
    LogSettingsView {
        stdout: bytes_of("logs/stdout.log"@),
        stderr: bytes_of("logs/stderr.log"@),
        max_size: 15728640,
        max_keep: 10,
        compress_after: 3,
        compression: CompressionMethod::Gzip,
        rotation: RotationMethod::CopyTruncate,
    }
}

impl Default for LogSettings {
    fn default() -> (r: LogSettings)
        ensures
            r@ == default_log_settings(),
    {
        LogSettings {
            stdout: FilePath::from_text("logs/stdout.log"),
            stderr: FilePath::from_text("logs/stderr.log"),
            max_size: 15728640,
            max_keep: 10,
            compress_after: 3,
            compression: CompressionMethod::Gzip,
            rotation: RotationMethod::CopyTruncate,
        }
    }
}

impl LogSettings {
    /// A copy of the settings.
    pub fn copy(&self) -> (r: LogSettings)
        ensures
            r@ == self@,
    {
        LogSettings {
            stdout: self.stdout.copy(),
            stderr: self.stderr.copy(),
            max_size: self.max_size,
            max_keep: self.max_keep,
            compress_after: self.compress_after,
            compression: self.compression,
            rotation: self.rotation,
        }
    }
}

/// Log settings of which each may be left out.
#[derive(Debug)]
pub struct LogOverrides {
    pub stdout: Option<FilePath>,
    pub stderr: Option<FilePath>,
    pub max_size: Option<u64>,
    pub max_keep: Option<u32>,
    pub compress_after: Option<u32>,
    pub compression: Option<CompressionMethod>,
    pub rotation: Option<RotationMethod>,
}

/// The values that a `LogOverrides` holds.
pub struct LogOverridesView {
    pub stdout: Option<Seq<u8>>,
    pub stderr: Option<Seq<u8>>,
    pub max_size: Option<u64>,
    pub max_keep: Option<u32>,
    pub compress_after: Option<u32>,
    pub compression: Option<CompressionMethod>,
    pub rotation: Option<RotationMethod>,
}

/// The bytes of a path that may be left out.
pub open spec fn optional_path(path: Option<FilePath>) -> Option<Seq<u8>> {
    match path {
        Some(path) => Some(path@),
        None => None,
    }
}

/// The characters of a text that may be left out.
pub open spec fn optional_text(text: Option<String>) -> Option<Seq<char>> {
    match text {
        Some(text) => Some(text@),
        None => None,
    }
}

/// The value where there is one, and the default where there is not.
pub open spec fn or_default<T>(value: Option<T>, default: T) -> T {
    match value {
        Some(value) => value,
        None => default,
    }
}

impl View for LogOverrides {
    type V = LogOverridesView;

    open spec fn view(&self) -> LogOverridesView {
        LogOverridesView {
            stdout: optional_path(self.stdout),
            stderr: optional_path(self.stderr),
            max_size: self.max_size,
            max_keep: self.max_keep,
            compress_after: self.compress_after,
            compression: self.compression,
            rotation: self.rotation,
        }
    }
}

/// The overrides that override nothing.
pub open spec fn no_overrides() -> LogOverridesView {
    LogOverridesView {
        stdout: None,
        stderr: None,
        max_size: None,
        max_keep: None,
        compress_after: None,
        compression: None,
        rotation: None,
    }
}

impl LogOverridesView {
    /// `settings` with every setting replaced that is overridden.
    pub open spec fn applied_to(self, settings: LogSettingsView) -> LogSettingsView {
        LogSettingsView {
            stdout: or_default(self.stdout, settings.stdout),
            stderr: or_default(self.stderr, settings.stderr),
            max_size: or_default(self.max_size, settings.max_size),
            max_keep: or_default(self.max_keep, settings.max_keep),
            compress_after: or_default(self.compress_after, settings.compress_after),
            compression: or_default(self.compression, settings.compression),
            rotation: or_default(self.rotation, settings.rotation),
        }
    }
}

impl Default for LogOverrides {
    fn default() -> (r: LogOverrides)
        ensures
            r@ == no_overrides(),
    {
        LogOverrides {
            stdout: None,
            stderr: None,
            max_size: None,
            max_keep: None,
            compress_after: None,
            compression: None,
            rotation: None,
        }
    }
}

fn copy_path(path: &Option<FilePath>) -> (r: Option<FilePath>)
    ensures
        optional_path(r) == optional_path(*path),
{
    match path {
        Some(path) => Some(path.copy()),
        None => None,
    }
}

impl LogOverrides {
    /// Replaces in `settings` what is overridden.
    pub fn apply_to(&self, settings: &mut LogSettings)
        ensures
            final(settings)@ == self@.applied_to(old(settings)@),
    {
        if let Some(value) = &self.stdout {
            settings.stdout = value.copy();
        }
        if let Some(value) = &self.stderr {
            settings.stderr = value.copy();
        }
        if let Some(value) = self.max_size {
            settings.max_size = value;
        }
        if let Some(value) = self.max_keep {
            settings.max_keep = value;
        }
        if let Some(value) = self.compress_after {
            settings.compress_after = value;
        }
        if let Some(value) = self.compression {
            settings.compression = value;
        }
        if let Some(value) = self.rotation {
            settings.rotation = value;
        }
    }

    /// A copy of the overrides.
    pub fn copy(&self) -> (r: LogOverrides)
        ensures
            r@ == self@,
    {
        LogOverrides {
            stdout: copy_path(&self.stdout),
            stderr: copy_path(&self.stderr),
            max_size: self.max_size,
            max_keep: self.max_keep,
            compress_after: self.compress_after,
            compression: self.compression,
            rotation: self.rotation,
        }
    }
}

/// The settings that hold for every application.
#[derive(Debug)]
pub struct GlobalConfig {
    pub base_dir: FilePath,
    pub startup_validation_secs: u64,
    pub stop_grace_secs: u64,
    pub timeout_secs: u64,
    pub guard_log: FilePath,
    pub log: LogSettings,
}

/// The settings of a host that configures none.
pub open spec fn is_default_global(global: GlobalConfig) -> bool {
    &&& global.base_dir@ == bytes_of("apps"@)
    &&& global.startup_validation_secs == 10
    &&& global.stop_grace_secs == 30
    &&& global.timeout_secs == 30
    &&& global.guard_log@ == bytes_of("guard.log"@)
    &&& global.log@ == default_log_settings()
}

impl Default for GlobalConfig {
    fn default() -> (r: GlobalConfig)
        ensures
            is_default_global(r),
    {
        GlobalConfig {
            base_dir: FilePath::from_text("apps"),
            startup_validation_secs: 10,
            stop_grace_secs: 30,
            timeout_secs: 30,
            guard_log: FilePath::from_text("guard.log"),
            log: LogSettings::default(),
        }
    }
}

/// What a configuration says of one application.
#[derive(Debug)]
pub struct AppOverride {
    pub name: String,
    pub managed: bool,
    pub start: Option<String>,
    pub pid_file: Option<String>,
    pub disable_file: Option<String>,
    pub stop: Option<String>,
    pub signal_file: Option<String>,
    pub healthcheck: Option<String>,
    pub startup_validation_secs: Option<u64>,
    pub stop_grace_secs: Option<u64>,
    pub timeout_secs: Option<u64>,
    pub log: LogOverrides,
}

/// The values that an `AppOverride` holds.
pub struct AppOverrideView {
    pub name: Seq<char>,
    pub managed: bool,
    pub start: Option<Seq<char>>,
    pub pid_file: Option<Seq<char>>,
    pub disable_file: Option<Seq<char>>,
    pub stop: Option<Seq<char>>,
    pub signal_file: Option<Seq<char>>,
    pub healthcheck: Option<Seq<char>>,
    pub startup_validation_secs: Option<u64>,
    pub stop_grace_secs: Option<u64>,
    pub timeout_secs: Option<u64>,
    pub log: LogOverridesView,
}

impl View for AppOverride {
    type V = AppOverrideView;

    open spec fn view(&self) -> AppOverrideView {
        AppOverrideView {
            name: self.name@,
            managed: self.managed,
            start: optional_text(self.start),
            pid_file: optional_text(self.pid_file),
            disable_file: optional_text(self.disable_file),
            stop: optional_text(self.stop),
            signal_file: optional_text(self.signal_file),
            healthcheck: optional_text(self.healthcheck),
            startup_validation_secs: self.startup_validation_secs,
            stop_grace_secs: self.stop_grace_secs,
            timeout_secs: self.timeout_secs,
            log: self.log@,
        }
    }
}

fn copy_text(text: &Option<String>) -> (r: Option<String>)
    ensures
        optional_text(r) == optional_text(*text),
{
    match text {
        Some(text) => Some(text.clone()),
        None => None,
    }
}

impl AppOverride {
    /// A copy of the override.
    pub fn copy(&self) -> (r: AppOverride)
        ensures
            r@ == self@,
    {
        AppOverride {
            name: self.name.clone(),
            managed: self.managed,
            start: copy_text(&self.start),
            pid_file: copy_text(&self.pid_file),
            disable_file: copy_text(&self.disable_file),
            stop: copy_text(&self.stop),
            signal_file: copy_text(&self.signal_file),
            healthcheck: copy_text(&self.healthcheck),
            startup_validation_secs: self.startup_validation_secs,
            stop_grace_secs: self.stop_grace_secs,
            timeout_secs: self.timeout_secs,
            log: self.log.copy(),
        }
    }
}

/// Whether an application is managed where its override does not say.
pub fn default_true() -> (r: bool)
    ensures
        r,
{
    true
}

/// A whole configuration file.
#[derive(Debug)]
pub struct Config {
    pub global: GlobalConfig,
    pub app_overrides: Vec<AppOverride>,
}

impl Default for Config {
    fn default() -> (r: Config)
        ensures
            is_default_global(r.global),
            r.app_overrides@.len() == 0,
    {
        Config { global: GlobalConfig::default(), app_overrides: Vec::new() }
    }
}

/// A discovered application with everything resolved. Times are in seconds.
#[derive(Debug)]
pub struct AppSpec {
    pub name: String,
    pub dir: FilePath,
    pub managed: bool,
    pub start: String,
    pub pid_file: String,
    pub disable_file: String,
    pub stop: String,
    pub signal_file: String,
    pub healthcheck: Option<String>,
    pub startup_validation: u64,
    pub stop_grace: u64,
    pub command_timeout: u64,
    pub log_override: LogOverrides,
}

/// The values that an `AppSpec` holds.
pub struct AppSpecView {
    pub name: Seq<char>,
    pub dir: Seq<u8>,
    pub managed: bool,
    pub start: Seq<char>,
    pub pid_file: Seq<char>,
    pub disable_file: Seq<char>,
    pub stop: Seq<char>,
    pub signal_file: Seq<char>,
    pub healthcheck: Option<Seq<char>>,
    pub startup_validation: u64,
    pub stop_grace: u64,
    pub command_timeout: u64,
    pub log_override: LogOverridesView,
}

impl View for AppSpec {
    type V = AppSpecView;

    open spec fn view(&self) -> AppSpecView {
        AppSpecView {
            name: self.name@,
            dir: self.dir@,
            managed: self.managed,
            start: self.start@,
            pid_file: self.pid_file@,
            disable_file: self.disable_file@,
            stop: self.stop@,
            signal_file: self.signal_file@,
            healthcheck: optional_text(self.healthcheck),
            startup_validation: self.startup_validation,
            stop_grace: self.stop_grace,
            command_timeout: self.command_timeout,
            log_override: self.log_override@,
        }
    }
}

/// The override that says nothing: the conventions hold.
pub open spec fn empty_override(name: Seq<char>) -> AppOverrideView {
    AppOverrideView {
        name,
        managed: true,
        start: None,
        pid_file: None,
        disable_file: None,
        stop: None,
        signal_file: None,
        healthcheck: None,
        startup_validation_secs: None,
        stop_grace_secs: None,
        timeout_secs: None,
        log: no_overrides(),
    }
}

/// The application `name` in `dir`, as the built-in conventions, the global
/// settings and its override make it, the later ones first.
pub open spec fn resolved_app(
    global: GlobalConfig,
    name: Seq<char>,
    dir: Seq<u8>,
    app_override: Option<AppOverrideView>,
) -> AppSpecView {
    let chosen = or_default(app_override, empty_override(name));
    AppSpecView {
        name,
        dir,
        managed: chosen.managed,
        start: or_default(chosen.start, "./run.sh"@),
        pid_file: or_default(chosen.pid_file, "./app.pid"@),
        disable_file: or_default(chosen.disable_file, "./disabled"@),
        stop: or_default(chosen.stop, "./stop.sh"@),
        signal_file: or_default(chosen.signal_file, "./signal"@),
        healthcheck: chosen.healthcheck,
        startup_validation: or_default(
            chosen.startup_validation_secs,
            global.startup_validation_secs,
        ),
        stop_grace: or_default(chosen.stop_grace_secs, global.stop_grace_secs),
        command_timeout: or_default(chosen.timeout_secs, global.timeout_secs),
        log_override: chosen.log,
    }
}

/// What an override that may be missing says.
pub open spec fn optional_override(app_override: Option<AppOverride>) -> Option<AppOverrideView> {
    match app_override {
        Some(app_override) => Some(app_override@),
        None => None,
    }
}

fn text_or(text: Option<String>, default: &str) -> (r: String)
    ensures
        r@ == or_default(optional_text(text), default@),
{
    match text {
        Some(text) => text,
        None => default.to_owned(),
    }
}

fn number_or(number: Option<u64>, default: u64) -> (r: u64)
    ensures
        r == or_default(number, default),
{
    match number {
        Some(number) => number,
        None => default,
    }
}

/// Resolves a discovered application.
pub fn resolve_app(
    global: &GlobalConfig,
    name: String,
    dir: FilePath,
    app_override: Option<AppOverride>,
) -> (r: AppSpec)
    ensures
        r@ == resolved_app(*global, name@, dir@, optional_override(app_override)),
{
    match app_override {
        Some(chosen) => AppSpec {
            name,
            dir,
            managed: chosen.managed,
            start: text_or(chosen.start, "./run.sh"),
            pid_file: text_or(chosen.pid_file, "./app.pid"),
            disable_file: text_or(chosen.disable_file, "./disabled"),
            stop: text_or(chosen.stop, "./stop.sh"),
            signal_file: text_or(chosen.signal_file, "./signal"),
            healthcheck: chosen.healthcheck,
            startup_validation: number_or(
                chosen.startup_validation_secs,
                global.startup_validation_secs,
            ),
            stop_grace: number_or(chosen.stop_grace_secs, global.stop_grace_secs),
            command_timeout: number_or(chosen.timeout_secs, global.timeout_secs),
            log_override: chosen.log,
        },
        None => AppSpec {
            name,
            dir,
            managed: default_true(),
            start: text_or(None, "./run.sh"),
            pid_file: text_or(None, "./app.pid"),
            disable_file: text_or(None, "./disabled"),
            stop: text_or(None, "./stop.sh"),
            signal_file: text_or(None, "./signal"),
            healthcheck: None,
            startup_validation: global.startup_validation_secs,
            stop_grace: global.stop_grace_secs,
            command_timeout: global.timeout_secs,
            log_override: LogOverrides::default(),
        },
    }
}

/// An override that overrides nothing changes nothing.
pub proof fn empty_overrides_change_nothing(settings: LogSettingsView)
    ensures
        no_overrides().applied_to(settings) == settings,
{
}

/// An application without an override is resolved as one whose override says
/// nothing: an override does not register an application.
pub proof fn missing_override_is_an_empty_one(global: GlobalConfig, name: Seq<char>, dir: Seq<u8>)
    ensures
        resolved_app(global, name, dir, None) == resolved_app(
            global,
            name,
            dir,
            Some(empty_override(name)),
        ),
{
}

/// Whether an application is what its own override says, and the global settings and the
/// built-in conventions where that says nothing: each field by the setting of its own name.
pub open spec fn follows(
    app: AppSpecView,
    global: GlobalConfig,
    app_override: Option<AppOverrideView>,
) -> bool {
    match app_override {
        None => {
            &&& app.managed
            &&& app.start == "./run.sh"@
            &&& app.pid_file == "./app.pid"@
            &&& app.disable_file == "./disabled"@
            &&& app.stop == "./stop.sh"@
            &&& app.signal_file == "./signal"@
            &&& app.healthcheck is None
            &&& app.startup_validation == global.startup_validation_secs
            &&& app.stop_grace == global.stop_grace_secs
            &&& app.command_timeout == global.timeout_secs
            &&& app.log_override.stdout is None
            &&& app.log_override.stderr is None
            &&& app.log_override.max_size is None
            &&& app.log_override.max_keep is None
            &&& app.log_override.compress_after is None
            &&& app.log_override.compression is None
            &&& app.log_override.rotation is None
        },
        Some(chosen) => {
            &&& app.managed == chosen.managed
            &&& chosen.start matches Some(value) ==> app.start == value
            &&& chosen.start is None ==> app.start == "./run.sh"@
            &&& chosen.pid_file matches Some(value) ==> app.pid_file == value
            &&& chosen.pid_file is None ==> app.pid_file == "./app.pid"@
            &&& chosen.disable_file matches Some(value) ==> app.disable_file == value
            &&& chosen.disable_file is None ==> app.disable_file == "./disabled"@
            &&& chosen.stop matches Some(value) ==> app.stop == value
            &&& chosen.stop is None ==> app.stop == "./stop.sh"@
            &&& chosen.signal_file matches Some(value) ==> app.signal_file == value
            &&& chosen.signal_file is None ==> app.signal_file == "./signal"@
            &&& app.healthcheck == chosen.healthcheck
            &&& chosen.startup_validation_secs matches Some(value) ==> app.startup_validation
                == value
            &&& chosen.startup_validation_secs is None ==> app.startup_validation
                == global.startup_validation_secs
            &&& chosen.stop_grace_secs matches Some(value) ==> app.stop_grace == value
            &&& chosen.stop_grace_secs is None ==> app.stop_grace == global.stop_grace_secs
            &&& chosen.timeout_secs matches Some(value) ==> app.command_timeout == value
            &&& chosen.timeout_secs is None ==> app.command_timeout == global.timeout_secs
            &&& app.log_override == chosen.log
        },
    }
}

/// An application is resolved under its name, in its directory, by its override, the global
/// settings and the conventions: each of its settings by that of the same name, the
/// override first.
pub proof fn an_app_follows_its_override(
    global: GlobalConfig,
    name: Seq<char>,
    dir: Seq<u8>,
    app_override: Option<AppOverrideView>,
)
    ensures
        ({
            let app = resolved_app(global, name, dir, app_override);
            &&& app.name == name
            &&& app.dir == dir
            &&& follows(app, global, app_override)
        }),
{
}

/// An override sets in log settings what it names, and leaves the rest as it is.
pub proof fn an_override_sets_what_it_names(
    overrides: LogOverrides,
    settings: LogSettings,
    after: LogSettings,
)
    requires
        after@ == overrides@.applied_to(settings@),
    ensures
        overrides.stdout matches Some(value) ==> after.stdout@ == value@,
        overrides.stdout is None ==> after.stdout@ == settings.stdout@,
        overrides.stderr matches Some(value) ==> after.stderr@ == value@,
        overrides.stderr is None ==> after.stderr@ == settings.stderr@,
        overrides.max_size matches Some(value) ==> after.max_size == value,
        overrides.max_size is None ==> after.max_size == settings.max_size,
        overrides.max_keep matches Some(value) ==> after.max_keep == value,
        overrides.max_keep is None ==> after.max_keep == settings.max_keep,
        overrides.compress_after matches Some(value) ==> after.compress_after == value,
        overrides.compress_after is None ==> after.compress_after == settings.compress_after,
        overrides.compression matches Some(value) ==> after.compression == value,
        overrides.compression is None ==> after.compression == settings.compression,
        overrides.rotation matches Some(value) ==> after.rotation == value,
        overrides.rotation is None ==> after.rotation == settings.rotation,
{
}

/// What the contracts say of an application's settings, of an override and of log settings
/// is said of the fields of the same names.
pub proof fn values_are_those_of_the_fields(
    app: AppSpec,
    app_override: AppOverride,
    overrides: LogOverrides,
    settings: LogSettings,
)
    ensures
        app@.name == app.name@,
        app@.dir == app.dir@,
        app@.managed == app.managed,
        app@.start == app.start@,
        app@.pid_file == app.pid_file@,
        app@.disable_file == app.disable_file@,
        app@.stop == app.stop@,
        app@.signal_file == app.signal_file@,
        app@.healthcheck is Some <==> app.healthcheck is Some,
        app.healthcheck matches Some(command) ==> app@.healthcheck == Some(command@),
        app@.startup_validation == app.startup_validation,
        app@.stop_grace == app.stop_grace,
        app@.command_timeout == app.command_timeout,
        app@.log_override == app.log_override@,
        app_override@.name == app_override.name@,
        app_override@.managed == app_override.managed,
        app_override.start matches Some(value) ==> app_override@.start == Some(value@),
        app_override.start is None ==> app_override@.start is None,
        app_override.pid_file matches Some(value) ==> app_override@.pid_file == Some(value@),
        app_override.pid_file is None ==> app_override@.pid_file is None,
        app_override.disable_file matches Some(value) ==> app_override@.disable_file == Some(
            value@,
        ),
        app_override.disable_file is None ==> app_override@.disable_file is None,
        app_override.stop matches Some(value) ==> app_override@.stop == Some(value@),
        app_override.stop is None ==> app_override@.stop is None,
        app_override.signal_file matches Some(value) ==> app_override@.signal_file == Some(value@),
        app_override.signal_file is None ==> app_override@.signal_file is None,
        app_override.healthcheck matches Some(value) ==> app_override@.healthcheck == Some(value@),
        app_override.healthcheck is None ==> app_override@.healthcheck is None,
        app_override@.startup_validation_secs == app_override.startup_validation_secs,
        app_override@.stop_grace_secs == app_override.stop_grace_secs,
        app_override@.timeout_secs == app_override.timeout_secs,
        app_override@.log == app_override.log@,
        overrides.stdout matches Some(value) ==> overrides@.stdout == Some(value@),
        overrides.stdout is None ==> overrides@.stdout is None,
        overrides.stderr matches Some(value) ==> overrides@.stderr == Some(value@),
        overrides.stderr is None ==> overrides@.stderr is None,
        overrides@.max_size == overrides.max_size,
        overrides@.max_keep == overrides.max_keep,
        overrides@.compress_after == overrides.compress_after,
        overrides@.compression == overrides.compression,
        overrides@.rotation == overrides.rotation,
        settings@.stdout == settings.stdout@,
        settings@.stderr == settings.stderr@,
        settings@.max_size == settings.max_size,
        settings@.max_keep == settings.max_keep,
        settings@.compress_after == settings.compress_after,
        settings@.compression == settings.compression,
        settings@.rotation == settings.rotation,
{
}

/// A host that configures nothing has the documented settings.
pub proof fn the_defaults_are_documented(global: GlobalConfig)
    requires
        is_default_global(global),
    ensures
        global.base_dir@ == bytes_of("apps"@),
        global.guard_log@ == bytes_of("guard.log"@),
        global.startup_validation_secs == 10,
        global.stop_grace_secs == 30,
        global.timeout_secs == 30,
        global.log.stdout@ == bytes_of("logs/stdout.log"@),
        global.log.stderr@ == bytes_of("logs/stderr.log"@),
        global.log.max_size == 15 * 1024 * 1024,
        global.log.max_keep == 10,
        global.log.compress_after == 3,
        global.log.compression == CompressionMethod::Gzip,
        global.log.rotation == RotationMethod::CopyTruncate,
{
}

} // verus!

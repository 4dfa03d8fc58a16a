//! Which applications there are.

use processguard::config::{AppOverride, Config, LogOverrides};
use processguard::discovery::{discover_apps, is_hidden, BaseSeen, EntryKind, EntrySeen};
use processguard::paths::FilePath;

fn dir(name: &str) -> EntrySeen {
    EntrySeen::Named {
        name: name.to_string(),
        kind: EntryKind::Directory(Ok(FilePath::from_text(&format!("/srv/apps/{name}")))),
    }
}

fn entry(name: &str, kind: EntryKind) -> EntrySeen {
    EntrySeen::Named { name: name.to_string(), kind }
}

fn base(entries: Vec<EntrySeen>) -> BaseSeen {
    BaseSeen::Directory { base: FilePath::from_text("/srv/apps"), entries: Ok(entries) }
}

fn app_override(name: &str) -> AppOverride {
    AppOverride {
        name: name.to_string(),
        managed: true,
        start: None,
        pid_file: None,
        disable_file: None,
        stop: None,
        signal_file: None,
        healthcheck: None,
        startup_validation_secs: None,
        stop_grace_secs: None,
        timeout_secs: None,
        log: LogOverrides::default(),
    }
}

fn names(config: &Config, seen: BaseSeen) -> Result<Vec<String>, String> {
    discover_apps(config, &FilePath::from_text("/etc/guard"), &seen)
        .map(|apps| apps.into_iter().map(|app| app.name).collect())
}

fn message(config: &Config, seen: BaseSeen) -> String {
    names(config, seen).expect_err("refused")
}

#[test]
fn discovers_apps_without_app_sections() {
    let config = Config::default();
    let apps = names(&config, base(vec![dir("worker"), dir("api")])).expect("discover apps");
    assert_eq!(apps, vec!["api", "worker"]);
}

#[test]
fn unmatched_override_is_rejected() {
    let mut config = Config::default();
    config.app_overrides.push(app_override("missing"));
    assert_eq!(
        message(&config, base(vec![])),
        "app override missing has no matching directory"
    );
}

#[test]
fn hidden_and_other_entries_are_no_apps() {
    let config = Config::default();
    assert!(is_hidden(".deploying-api"));
    let seen = base(vec![
        entry(".deploying-api", EntryKind::Other),
        entry("README", EntryKind::Other),
        entry(".broken", EntryKind::Unreadable("denied".to_string())),
        dir("api"),
    ]);
    assert_eq!(names(&config, seen), Ok(vec!["api".to_string()]));
}

#[test]
fn names_are_sorted_by_their_characters() {
    let config = Config::default();
    let seen = base(vec![dir("b"), dir("Z"), dir("ab"), dir("a"), dir("ä")]);
    assert_eq!(
        names(&config, seen),
        Ok(vec!["Z", "a", "ab", "b", "ä"].into_iter().map(String::from).collect())
    );
}

#[test]
fn an_override_is_applied_to_the_app_of_its_name() {
    let mut config = Config::default();
    let mut chosen = app_override("worker");
    chosen.healthcheck = Some("true".to_string());
    config.app_overrides.push(chosen);
    let apps = discover_apps(
        &config,
        &FilePath::from_text("/etc/guard"),
        &base(vec![dir("worker"), dir("api")]),
    )
    .expect("discover apps");
    assert_eq!(apps[0].healthcheck, None);
    assert_eq!(apps[1].healthcheck, Some("true".to_string()));
    assert_eq!(apps[1].dir.display(), "/srv/apps/worker");
}

#[test]
fn override_names_are_checked_before_the_listing() {
    let mut config = Config::default();
    config.app_overrides.push(app_override("../api"));
    let unlisted = BaseSeen::Directory {
        base: FilePath::from_text("/srv/apps"),
        entries: Err("denied".to_string()),
    };
    assert_eq!(message(&config, unlisted), "invalid app name ../api");
    config.app_overrides[0].name = ".api".to_string();
    assert_eq!(message(&config, base(vec![])), "invalid app name .api");
    config.app_overrides[0].name = "api".to_string();
    config.app_overrides.push(app_override("api"));
    assert_eq!(message(&config, base(vec![dir("api")])), "duplicate app override api");
}

#[test]
fn the_base_has_to_be_a_directory() {
    let config = Config::default();
    assert_eq!(
        message(&config, BaseSeen::Unresolved("not found".to_string())),
        "/etc/guard/apps: not found"
    );
    assert_eq!(
        message(&config, BaseSeen::NotADirectory(FilePath::from_text("/srv/file"))),
        "/srv/file is not a directory"
    );
    let unlisted = BaseSeen::Directory {
        base: FilePath::from_text("/srv/apps"),
        entries: Err("denied".to_string()),
    };
    assert_eq!(message(&config, unlisted), "/srv/apps: denied");
}

#[test]
fn faulty_entries_are_refused() {
    let config = Config::default();
    assert_eq!(
        message(&config, base(vec![EntrySeen::Broken("cut off".to_string())])),
        "/srv/apps: cut off"
    );
    assert_eq!(
        message(&config, base(vec![EntrySeen::Unnamed])),
        "/srv/apps contains a non-UTF-8 name"
    );
    assert_eq!(
        message(&config, base(vec![entry("x", EntryKind::Unreadable("denied".to_string()))])),
        "cannot inspect /srv/apps/x: denied"
    );
    assert_eq!(
        message(
            &config,
            base(vec![entry("x", EntryKind::Directory(Err("loop".to_string())))])
        ),
        "/srv/apps/x: loop"
    );
}

#[test]
fn apps_outside_the_base_or_in_one_place_are_refused() {
    let config = Config::default();
    let outside = entry(
        "x",
        EntryKind::Directory(Ok(FilePath::from_text("/srv/apps-old/x"))),
    );
    assert_eq!(
        message(&config, base(vec![outside])),
        "app directory /srv/apps/x resolves outside /srv/apps"
    );
    let again = entry("b", EntryKind::Directory(Ok(FilePath::from_text("/srv/apps/a"))));
    assert_eq!(
        message(&config, base(vec![dir("a"), again])),
        "app directories a and b resolve to the same location"
    );
}

#[test]
fn one_more_hidden_entry_changes_nothing() {
    let config = Config::default();
    let listings: Vec<fn() -> Vec<EntrySeen>> = vec![
        || vec![],
        || vec![dir("b"), dir("a")],
        || vec![dir("a"), EntrySeen::Broken("cut off".to_string()), dir("b")],
    ];
    for listing in listings {
        let expected = names(&config, base(listing()));
        for at in 0..=listing().len() {
            let mut more = listing();
            more.insert(at, dir(".new"));
            assert_eq!(names(&config, base(more)), expected);
        }
    }
}

#[test]
fn an_override_changes_no_other_app() {
    let mut config = Config::default();
    let mut first = app_override("b");
    first.stop_grace_secs = Some(7);
    let mut second = app_override("a");
    second.stop_grace_secs = Some(9);
    config.app_overrides.push(first);
    config.app_overrides.push(second);
    let apps = discover_apps(
        &config,
        &FilePath::from_text("/etc/guard"),
        &base(vec![dir("c"), dir("a"), dir("b")]),
    )
    .expect("discover apps");
    let graces: Vec<u64> = apps.iter().map(|app| app.stop_grace).collect();
    assert_eq!(graces, vec![9, 7, 30]);
}

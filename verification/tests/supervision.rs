//! One run over all applications.

use processguard::paths::FilePath;
use processguard::report::AppCheckResult;
use processguard::supervise::{
    check_turn, config_path, exit_code, lock, lock_path, rotate_app_logs, setup_message,
    supervise_apps, turned_away, LockSeen, SetupFault, SupervisionResult, Turn, SETUP_FAILED, USAGE,
};
use processguard::writer::{
    atomic_write, temporary_path, AtomicWrite, WriteFailure, WriteRequest,
};
use processguard::host::Next;

fn path(text: &str) -> FilePath {
    FilePath::from_text(text)
}

fn arguments(texts: &[&str]) -> Vec<FilePath> {
    texts.iter().map(|text| path(text)).collect()
}

#[test]
fn a_run_fails_if_a_check_fails_or_quarantines() {
    let good = vec![
        Some(AppCheckResult::Idle),
        Some(AppCheckResult::Started),
        Some(AppCheckResult::Stopped),
        Some(AppCheckResult::Restarted),
        Some(AppCheckResult::SkippedInvalid),
        Some(AppCheckResult::SkippedUnmanaged),
    ];
    let (result, checks) = supervise_apps(&good);
    assert_eq!(result, SupervisionResult::Success);
    assert_eq!(checks.len(), 6);
    assert_eq!(checks[3], AppCheckResult::Restarted);
    assert_eq!(exit_code(result), 0);

    let (result, _) = supervise_apps(&vec![
        Some(AppCheckResult::Idle),
        Some(AppCheckResult::Quarantined),
    ]);
    assert_eq!(result, SupervisionResult::Failure);
    assert_eq!(exit_code(result), 1);
    let (result, _) = supervise_apps(&vec![Some(AppCheckResult::Failed)]);
    assert_eq!(result, SupervisionResult::Failure);
    assert_eq!(supervise_apps(&vec![]).0, SupervisionResult::Success);
}

#[test]
fn a_dead_worker_is_a_failed_check() {
    let (result, checks) = supervise_apps(&vec![None, Some(AppCheckResult::Idle)]);
    assert_eq!(result, SupervisionResult::Failure);
    assert_eq!(checks, vec![AppCheckResult::Failed, AppCheckResult::Idle]);
}

#[test]
fn the_last_configuration_argument_counts() {
    assert_eq!(config_path(&arguments(&[])).expect("path").display(), "guard.toml");
    assert_eq!(
        config_path(&arguments(&["-c", "/etc/g.toml"])).expect("path").display(),
        "/etc/g.toml"
    );
    assert_eq!(
        config_path(&arguments(&["-c", "a", "--config", "b"])).expect("path").display(),
        "b"
    );
    assert_eq!(
        config_path(&arguments(&["-c", "-c"])).expect("path").display(),
        "-c"
    );
}

#[test]
fn other_arguments_get_the_usage() {
    assert_eq!(config_path(&arguments(&["-c"])).expect_err("usage"), USAGE);
    assert_eq!(config_path(&arguments(&["x"])).expect_err("usage"), USAGE);
    assert_eq!(config_path(&arguments(&["-c", "a", "--config"])).expect_err("usage"), USAGE);
    assert_eq!(config_path(&arguments(&["--conf", "a"])).expect_err("usage"), USAGE);
}

#[test]
fn setup_faults_have_messages() {
    let config = path("/etc/g.toml");
    assert_eq!(
        SetupFault::Unresolved("not found".to_string()).text(&config),
        "cannot resolve config: not found"
    );
    assert_eq!(SetupFault::NoParent.text(&config), "/etc/g.toml has no parent");
    assert_eq!(
        SetupFault::Unreadable("denied".to_string()).text(&config),
        "/etc/g.toml: denied"
    );
    assert_eq!(
        SetupFault::Malformed("bad".to_string()).text(&config),
        "/etc/g.toml: bad"
    );
    assert_eq!(setup_message("oops"), "processguard: oops");
    assert_eq!(SETUP_FAILED, 2);
}

#[test]
fn a_lock_gives_the_turn_or_not() {
    let dir = path("/etc/guard");
    assert_eq!(lock_path(&dir, ".guard.lock").display(), "/etc/guard/.guard.lock");
    assert_eq!(lock(&dir, "x", &LockSeen::Taken), Ok(true));
    assert_eq!(lock(&dir, "x", &LockSeen::Busy), Ok(false));
    assert_eq!(check_turn(&dir, &LockSeen::Taken), Turn::Work);
    assert_eq!(check_turn(&dir, &LockSeen::Busy), Turn::Leave);
    assert_eq!(
        check_turn(&dir, &LockSeen::NotOpened("denied".to_string())),
        Turn::Report("error: cannot open /etc/guard/.guard.lock: denied".to_string())
    );
    assert_eq!(
        rotate_app_logs(&dir, 3, &LockSeen::NotLocked("denied".to_string())),
        (
            Turn::Report("error: cannot lock /etc/guard/.guard.rotate.lock: denied".to_string()),
            Vec::new()
        )
    );
    assert_eq!(rotate_app_logs(&dir, 3, &LockSeen::Busy), (Turn::Leave, Vec::new()));
    assert_eq!(rotate_app_logs(&dir, 3, &LockSeen::Taken), (Turn::Work, vec![0, 1, 2]));
    assert_eq!(rotate_app_logs(&dir, 0, &LockSeen::Taken), (Turn::Work, Vec::new()));
    assert_eq!(turned_away(&Turn::Leave), 0);
    assert_eq!(turned_away(&Turn::Report(String::new())), 1);
}

#[test]
fn a_file_is_written_beside_its_place_first() {
    let target = path("/run/app.pid");
    assert_eq!(temporary_path(&target, 42).display(), "/run/app.pid.tmp.42");
    let mut write: AtomicWrite = atomic_write();
    let mut requests = Vec::new();
    loop {
        requests.push(write.request());
        match write.step(Ok(())) {
            Next::Ask(next) => write = next,
            Next::Done(done) => {
                assert_eq!(done, Ok(()));
                break;
            }
        }
    }
    assert_eq!(
        requests,
        vec![
            WriteRequest::EnsureParent,
            WriteRequest::CreateTemporary,
            WriteRequest::WriteTemporary,
            WriteRequest::RenameTemporary,
        ]
    );
}

#[test]
fn a_file_holds_the_old_contents_or_the_new_ones() {
    for failing in 0..5 {
        let mut target = "old";
        let mut temporary = "";
        let mut write = atomic_write();
        let mut steps = 0;
        let done = loop {
            let fails = steps == failing;
            match (write.request(), fails) {
                (WriteRequest::EnsureParent, _) => {}
                (WriteRequest::CreateTemporary, false) => temporary = "",
                (WriteRequest::WriteTemporary, false) => temporary = "new",
                (WriteRequest::WriteTemporary, true) => temporary = "n",
                (WriteRequest::RenameTemporary, false) => target = temporary,
                (_, true) => {}
            }
            let answer = if fails { Err("no".to_string()) } else { Ok(()) };
            steps += 1;
            match write.step(answer) {
                Next::Ask(next) => write = next,
                Next::Done(done) => break done,
            }
        };
        assert_eq!(target, if done.is_ok() { "new" } else { "old" });
        assert_eq!(done.is_ok(), failing == 4);
    }
}

#[test]
fn a_failed_write_says_where() {
    let target = path("/run/app.pid");
    let failed = |steps: usize| {
        let mut write = atomic_write();
        for _ in 0..steps {
            write = match write.step(Ok(())) {
                Next::Ask(next) => next,
                Next::Done(_) => panic!("ended early"),
            };
        }
        match write.step(Err("no".to_string())) {
            Next::Done(Err(failure)) => failure,
            _ => panic!("did not fail"),
        }
    };
    assert_eq!(failed(0), WriteFailure::Parent("no".to_string()));
    assert_eq!(failed(0).text(&target, 7), "no");
    assert_eq!(failed(1).text(&target, 7), "cannot create /run/app.pid.tmp.7: no");
    assert_eq!(failed(2).text(&target, 7), "cannot write /run/app.pid.tmp.7: no");
    assert_eq!(
        failed(3).text(&target, 7),
        "cannot rename /run/app.pid.tmp.7 to /run/app.pid: no"
    );
}

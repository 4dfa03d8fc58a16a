//! One run of the guard over all applications.

use vstd::prelude::*;
use vstd::string::*;
use crate::paths::{
    at_path, at_path_text, bytes_of, cannot, cannot_text, joined, lossy_text, resolve_from,
    same_bytes, FilePath,
};
use crate::report::AppCheckResult;
use crate::text::agrees;

verus! {

/// What a run came to.
#[derive(Clone, Copy, Debug, PartialEq, Eq, Structural)]
pub enum SupervisionResult {
    Success,
    Failure,
}

/// The lock that keeps two runs of the guard apart.
pub const GUARD_LOCK: &'static str = ".guard.lock";

/// The lock that keeps two rotations apart.
pub const ROTATION_LOCK: &'static str = ".guard.rotate.lock";

/// The name under which the guard logs what is about no application.
pub const GUARD_NAME: &'static str = "processguard";

pub const USAGE: &'static str =
    "usage: processguard [-c <config.toml>]   (default: ./guard.toml)";

/// The exit code of a run that could not even begin.
pub const SETUP_FAILED: u8 = 2;

/// What a worker reported; one that died reported nothing, and its check failed.
pub open spec fn check_result(report: Option<AppCheckResult>) -> AppCheckResult {
    match report {
        Some(result) => result,
        None => AppCheckResult::Failed,
    }
}

/// Whether a result makes the run fail.
pub open spec fn is_bad(result: AppCheckResult) -> bool {
    result == AppCheckResult::Failed || result == AppCheckResult::Quarantined
}

/// What the reports of the workers, one for each application, come to.
pub fn supervise_apps(reports: &Vec<Option<AppCheckResult>>) -> (r: (
    SupervisionResult,
    Vec<AppCheckResult>,
))
    ensures
        r.1@ == reports@.map_values(|report: Option<AppCheckResult>| check_result(report)),
        r.0 == SupervisionResult::Failure <==> exists|i: int|
            0 <= i < r.1@.len() && is_bad(#[trigger] r.1@[i]),
{
    let mut results: Vec<AppCheckResult> = Vec::new();
    let mut overall = SupervisionResult::Success;
    let mut i: usize = 0;
    while i < reports.len()
        invariant
            i <= reports.len(),
            results@.len() == i,
            forall|j: int| 0 <= j < i ==> #[trigger] results@[j] == check_result(reports@[j]),
            overall == SupervisionResult::Failure <==> exists|j: int|
                0 <= j < i && is_bad(#[trigger] results@[j]),
        decreases reports.len() - i,
    {
        let result = match reports[i] {
            Some(result) => result,
            None => AppCheckResult::Failed,
        };
        let ghost before = results@;
        results.push(result);
        assert(forall|j: int| 0 <= j < i ==> #[trigger] results@[j] == before[j]);
        assert(results@[i as int] == result);
        proof {
            if overall == SupervisionResult::Failure {
                let j = choose|j: int| 0 <= j < i && is_bad(#[trigger] before[j]);
                assert(is_bad(results@[j]));
            }
        }
        if result == AppCheckResult::Failed || result == AppCheckResult::Quarantined {
            overall = SupervisionResult::Failure;
        }
        i = i + 1;
    }
    assert(results@ =~= reports@.map_values(|report: Option<AppCheckResult>| check_result(report)));
    let ghost checked = results@;
    let r = (overall, results);
    proof {
        if overall == SupervisionResult::Failure {
            let j = choose|j: int| 0 <= j < checked.len() && is_bad(#[trigger] checked[j]);
            assert(is_bad(r.1@[j]));
        }
    }
    r
}

/// The exit code of a run.
pub fn exit_code(result: SupervisionResult) -> (r: u8)
    ensures
        r == (if result == SupervisionResult::Success {
            0u8
        } else {
            1u8
        }),
{
    match result {
        SupervisionResult::Success => 0,
        SupervisionResult::Failure => 1,
    }
}

/// What came of taking a lock.
#[derive(Debug, PartialEq, Eq)]
pub enum LockSeen {
    Taken,
    /// Another process holds it.
    Busy,
    /// The lock file could not be opened.
    NotOpened(String),
    NotLocked(String),
}

/// Where a lock file lies.
pub fn lock_path(dir: &FilePath, name: &str) -> (r: FilePath)
    ensures
        r@ == joined(dir@, bytes_of(name@)),
{
    resolve_from(dir, &FilePath::from_text(name))
}

/// Whether the lock was taken, or the message that says what went wrong.
pub open spec fn lock_outcome(dir: Seq<u8>, name: Seq<char>, seen: LockSeen) -> Result<
    bool,
    Seq<char>,
> {
    let path = joined(dir, bytes_of(name));
    match seen {
        LockSeen::Taken => Ok(true),
        LockSeen::Busy => Ok(false),
        LockSeen::NotOpened(error) => Err(cannot_text("open"@, path, error@)),
        LockSeen::NotLocked(error) => Err(cannot_text("lock"@, path, error@)),
    }
}

/// Whether the lock was taken, or the message that says what went wrong.
pub fn lock(dir: &FilePath, name: &str, seen: &LockSeen) -> (r: Result<bool, String>)
    ensures
        agrees(r, lock_outcome(dir@, name@, *seen)),
{
    match seen {
        LockSeen::Taken => Ok(true),
        LockSeen::Busy => Ok(false),
        LockSeen::NotOpened(error) => Err(cannot("open", &lock_path(dir, name), error.as_str())),
        LockSeen::NotLocked(error) => Err(cannot("lock", &lock_path(dir, name), error.as_str())),
    }
}

/// What is to be done once it is known whether a lock was taken.
#[derive(Debug, PartialEq, Eq)]
pub enum Turn {
    /// The work is this process's to do.
    Work,
    /// Another process does it.
    Leave,
    /// The guard logs the message, and nothing is done.
    Report(String),
}

pub open spec fn turn_of(outcome: Result<bool, Seq<char>>, turn: Turn) -> bool {
    match (outcome, turn) {
        (Ok(true), Turn::Work) => true,
        (Ok(false), Turn::Leave) => true,
        (Err(error), Turn::Report(message)) => message@ == "error: "@ + error,
        _ => false,
    }
}

fn turn(taken: Result<bool, String>) -> (r: Turn)
    ensures
        match taken {
            Ok(taken) => turn_of(Ok(taken), r),
            Err(error) => turn_of(Err(error@), r),
        },
{
    match taken {
        Ok(true) => Turn::Work,
        Ok(false) => Turn::Leave,
        Err(error) => Turn::Report("error: ".to_owned().concat(error.as_str())),
    }
}

/// Whether the checks are to be made, now that the guard's lock was asked for.
pub fn check_turn(config_dir: &FilePath, seen: &LockSeen) -> (r: Turn)
    ensures
        turn_of(lock_outcome(config_dir@, GUARD_LOCK@, *seen), r),
{
    turn(lock(config_dir, GUARD_LOCK, seen))
}

/// Which of so many applications get their turn, in order: each of them once where the
/// work is this process's to do, and none otherwise.
pub open spec fn visited(turn: Turn, apps: usize) -> Seq<usize> {
    if turn == Turn::Work {
        Seq::new(apps as nat, |i: int| i as usize)
    } else {
        Seq::empty()
    }
}

fn visit(turn: &Turn, apps: usize) -> (r: Vec<usize>)
    ensures
        r@ == visited(*turn, apps),
{
    let mut order: Vec<usize> = Vec::new();
    if let Turn::Work = turn {
        let mut i: usize = 0;
        while i < apps
            invariant
                i <= apps,
                order@.len() == i,
                forall|j: int| 0 <= j < i ==> #[trigger] order@[j] == j,
            decreases apps - i,
        {
            order.push(i);
            i = i + 1;
        }
    }
    assert(order@ =~= visited(*turn, apps));
    order
}

/// Whether the logs of so many applications are to be rotated, now that the rotation
/// lock was asked for, and the applications whose turn it then is, one after the other
/// while the lock is held.
pub fn rotate_app_logs(config_dir: &FilePath, apps: usize, seen: &LockSeen) -> (r: (
    Turn,
    Vec<usize>,
))
    ensures
        turn_of(lock_outcome(config_dir@, ROTATION_LOCK@, *seen), r.0),
        r.1@ == visited(r.0, apps),
{
    let turn = turn(lock(config_dir, ROTATION_LOCK, seen));
    let order = visit(&turn, apps);
    (turn, order)
}

/// The exit code of a run that ends before it has checked anything: it is in order
/// that another run is at work.
pub fn turned_away(turn: &Turn) -> (r: u8)
    ensures
        r == (if *turn is Report {
            1u8
        } else {
            0u8
        }),
{
    match turn {
        Turn::Report(_) => 1,
        _ => 0,
    }
}

/// Whether an argument introduces the path of a configuration.
pub open spec fn names_config(argument: Seq<u8>) -> bool {
    argument == bytes_of("-c"@) || argument == bytes_of("--config"@)
}

/// The path that the last pair of arguments gives, where there are only such pairs;
/// `path` where there is no argument.
pub open spec fn config_argument(arguments: Seq<Seq<u8>>, path: Seq<u8>) -> Option<Seq<u8>>
    decreases arguments.len(),
{
    if arguments.len() == 0 {
        Some(path)
    } else if arguments.len() >= 2 && names_config(arguments[0]) {
        config_argument(arguments.skip(2), arguments[1])
    } else {
        None
    }
}

/// The arguments as the library's contracts speak of them.
pub open spec fn argument_bytes(arguments: Seq<FilePath>) -> Seq<Seq<u8>> {
    arguments.map_values(|argument: FilePath| argument@)
}

/// The path of the configuration, from the arguments behind the program's name.
pub fn config_path(arguments: &Vec<FilePath>) -> (r: Result<FilePath, String>)
    ensures
        match (r, config_argument(argument_bytes(arguments@), bytes_of("guard.toml"@))) {
            (Ok(path), Some(expected)) => path@ == expected,
            (Err(message), None) => message@ == USAGE@,
            _ => false,
        },
{
    let short = FilePath::from_text("-c");
    let long = FilePath::from_text("--config");
    let ghost bytes = argument_bytes(arguments@);
    let mut path = FilePath::from_text("guard.toml");
    let mut i: usize = 0;
    assert(bytes.skip(0) == bytes);
    while i < arguments.len()
        invariant
            i <= arguments.len(),
            bytes == argument_bytes(arguments@),
            short@ == bytes_of("-c"@),
            long@ == bytes_of("--config"@),
            config_argument(bytes, bytes_of("guard.toml"@)) == config_argument(
                bytes.skip(i as int),
                path@,
            ),
        decreases arguments.len() - i,
    {
        let argument = &arguments[i];
        assert(bytes.skip(i as int)[0] == argument@);
        let named: bool = same_bytes(argument.bytes.as_slice(), short.bytes.as_slice())
            || same_bytes(argument.bytes.as_slice(), long.bytes.as_slice());
        if !named || arguments.len() - i < 2 {
            return Err(USAGE.to_owned());
        }
        assert(bytes.skip(i as int)[1] == arguments@[i + 1]@);
        assert(bytes.skip(i as int).skip(2) == bytes.skip(i + 2));
        path = arguments[i + 1].copy();
        i = i + 2;
    }
    Ok(path)
}

/// Why a configuration cannot be used.
#[derive(Debug, PartialEq, Eq)]
pub enum SetupFault {
    /// Its path could not be resolved.
    Unresolved(String),
    /// It lies in no directory.
    NoParent,
    Unreadable(String),
    Malformed(String),
}

pub open spec fn setup_fault_text(path: Seq<u8>, fault: SetupFault) -> Seq<char> {
    match fault {
        SetupFault::Unresolved(error) => "cannot resolve config: "@ + error@,
        SetupFault::NoParent => lossy_text(path) + " has no parent"@,
        SetupFault::Unreadable(error) => at_path_text(path, error@),
        SetupFault::Malformed(error) => at_path_text(path, error@),
    }
}

impl SetupFault {
    /// The message for the fault of the configuration at `path`.
    pub fn text(&self, path: &FilePath) -> (r: String)
        ensures
            r@ == setup_fault_text(path@, *self),
    {
        match self {
            SetupFault::Unresolved(error) => "cannot resolve config: ".to_owned().concat(
                error.as_str(),
            ),
            SetupFault::NoParent => path.display().concat(" has no parent"),
            SetupFault::Unreadable(error) => at_path(path, error.as_str()),
            SetupFault::Malformed(error) => at_path(path, error.as_str()),
        }
    }
}

/// What the guard says when it could not even begin.
pub fn setup_message(message: &str) -> (r: String)
    ensures
        r@ == "processguard: "@ + message@,
{
    "processguard: ".to_owned().concat(message)
}

/// A run fails exactly where a check failed or quarantined an application, and a worker
/// that reported nothing counts as a failed check.
pub proof fn a_bad_result_fails_the_run(report: Option<AppCheckResult>)
    ensures
        is_bad(check_result(report)) <==> match report {
            None => true,
            Some(result) => result == AppCheckResult::Failed || result
                == AppCheckResult::Quarantined,
        },
        report matches Some(result) ==> check_result(report) == result,
{
}

/// Of several paths of configurations the last counts.
pub proof fn the_last_config_argument_counts(
    arguments: Seq<Seq<u8>>,
    path: Seq<u8>,
    option: Seq<u8>,
    last: Seq<u8>,
)
    requires
        config_argument(arguments, path) is Some,
        option == bytes_of("-c"@) || option == bytes_of("--config"@),
    ensures
        config_argument(arguments.push(option).push(last), path) == Some(last),
    decreases arguments.len(),
{
    let all = arguments.push(option).push(last);
    if arguments.len() == 0 {
        assert(all.skip(2) =~= Seq::<Seq<u8>>::empty());
        assert(config_argument(all.skip(2), last) == Some(last));
    } else {
        the_last_config_argument_counts(arguments.skip(2), arguments[1], option, last);
        assert(all.skip(2) =~= arguments.skip(2).push(option).push(last));
        assert(all[0] == arguments[0] && all[1] == arguments[1]);
    }
}

/// Without an argument the given path is used; anything but pairs of an option and a path
/// is refused.
pub proof fn arguments_come_in_pairs(arguments: Seq<Seq<u8>>, path: Seq<u8>)
    ensures
        arguments.len() == 0 ==> config_argument(arguments, path) == Some(path),
        arguments.len() % 2 == 1 ==> config_argument(arguments, path) is None,
        arguments.len() >= 1 && arguments[0] != bytes_of("-c"@) && arguments[0] != bytes_of(
            "--config"@,
        ) ==> config_argument(arguments, path) is None,
    decreases arguments.len(),
{
    if arguments.len() >= 2 && names_config(arguments[0]) {
        arguments_come_in_pairs(arguments.skip(2), arguments[1]);
    }
}

} // verus!

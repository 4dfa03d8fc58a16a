//! What the system says of a process group.

use processguard::host::Next;
use processguard::kernel_scan::{
    all_stopped, list_processes, Seen, TableRead, TableReply, TableScan, FIRST_LIST,
};
use processguard::paths::FilePath;
use processguard::procfs::{
    group_stopped, in_group, is_process_name, state_and_group, ProcessSeen, TaskSeen,
};

fn process(name: &str, stat: Option<&str>, tasks: Option<Vec<TaskSeen>>) -> ProcessSeen {
    ProcessSeen::Entry {
        name: FilePath::from_text(name),
        stat: stat.map(String::from),
        tasks,
    }
}

fn task(stat: &str) -> TaskSeen {
    Ok(Some(stat.to_string()))
}

#[test]
fn state_and_group_are_read_behind_the_name() {
    assert_eq!(state_and_group("12 (sleep) S 1 77 77 0 -1\n"), Some(('S', 77)));
    assert_eq!(state_and_group("12 (a ) b) (c) T 1 78 0"), Some(('T', 78)));
    assert_eq!(state_and_group("12 (x)\tZombie\t\t1 -5"), Some(('Z', -5)));
}

#[test]
fn a_line_without_the_fields_gives_nothing() {
    assert_eq!(state_and_group(""), None);
    assert_eq!(state_and_group("12 sleep S 1 77"), None);
    assert_eq!(state_and_group("12 (sleep)"), None);
    assert_eq!(state_and_group("12 (sleep) S 1"), None);
    assert_eq!(state_and_group("12 (sleep) S 1 x"), None);
    assert_eq!(state_and_group("12 (sleep) S 1\u{b}77"), None);
}

#[test]
fn processes_have_numbers_for_names() {
    assert!(is_process_name(&FilePath::from_text("4711")));
    assert!(!is_process_name(&FilePath::from_text("self")));
    assert!(!is_process_name(&FilePath::from_text("12a")));
    assert!(in_group("1 (x) T 0 5", 5));
    assert!(!in_group("1 (x) T 0 5", 6));
    assert!(!in_group("x", 6));
}

#[test]
fn a_group_is_stopped_when_no_thread_can_run() {
    let stopped = vec![
        process("self", Some("1 (x) R 0 5"), Some(vec![task("1 (x) R 0 5")])),
        process("10", Some("10 (x) R 0 6"), Some(vec![task("10 (x) R 0 6")])),
        process(
            "11",
            Some("11 (x) T 0 5"),
            Some(vec![task("11 (x) T 0 5"), task("12 (x) t 0 5"), Ok(None), task("junk")]),
        ),
        process("13", Some("13 (x) Z 0 5"), Some(vec![task("13 (x) Z 0 5")])),
        process("14", Some("14 (x) X 0 5"), None),
        process("15", None, None),
    ];
    assert_eq!(group_stopped(&stopped, 5), Ok(true));
    assert_eq!(group_stopped(&stopped, 6), Ok(false));
    assert_eq!(group_stopped(&stopped, 7), Ok(true));
}

#[test]
fn one_running_thread_is_enough() {
    let running = vec![process(
        "11",
        Some("11 (x) T 0 5"),
        Some(vec![task("11 (x) T 0 5"), task("12 (x) S 0 5")]),
    )];
    assert_eq!(group_stopped(&running, 5), Ok(false));
}

#[test]
fn what_comes_first_decides() {
    let running = process("11", Some("11 (x) R 0 5"), Some(vec![task("11 (x) R 0 5")]));
    let broken = ProcessSeen::Broken("denied".to_string());
    assert_eq!(group_stopped(&vec![running, broken], 5), Ok(false));
    let running = process("11", Some("11 (x) R 0 5"), Some(vec![task("11 (x) R 0 5")]));
    let broken = ProcessSeen::Broken("denied".to_string());
    assert_eq!(group_stopped(&vec![broken, running], 5), Err("denied".to_string()));
    let failing = process(
        "11",
        Some("11 (x) T 0 5"),
        Some(vec![Err("gone".to_string()), task("11 (x) R 0 5")]),
    );
    assert_eq!(group_stopped(&vec![failing], 5), Err("gone".to_string()));
}

#[test]
fn a_table_is_sized_and_then_filled() {
    let sizing = TableScan::Sizing { entry: 10 };
    let filling = TableScan::Filling { entry: 10, room: 260 };
    assert!(matches!(sizing.step(TableReply::Bytes(100)), Next::Ask(next) if next == filling));
    assert!(matches!(
        filling.step(TableReply::Bytes(90)),
        Next::Done(Ok(TableRead::Filled(90)))
    ));
    assert!(matches!(
        filling.step(TableReply::TooSmall("full".to_string())),
        Next::Ask(next) if next == sizing
    ));
    assert!(matches!(
        sizing.step(TableReply::TooSmall("full".to_string())),
        Next::Done(Err(_))
    ));
    for scan in [sizing, filling] {
        assert!(matches!(
            scan.step(TableReply::NoGroup),
            Next::Done(Ok(TableRead::NoGroup))
        ));
        assert!(matches!(
            scan.step(TableReply::Failed("denied".to_string())),
            Next::Done(Err(_))
        ));
    }
    assert!(matches!(
        sizing.step(TableReply::Bytes(usize::MAX)),
        Next::Ask(TableScan::Filling { room: usize::MAX, .. })
    ));
}

#[test]
fn a_full_list_is_asked_for_again() {
    assert!(matches!(list_processes(FIRST_LIST, 255), Next::Done(Some(255))));
    assert!(matches!(list_processes(FIRST_LIST, 256), Next::Ask(512)));
    assert!(matches!(list_processes(FIRST_LIST, -1), Next::Done(None)));
}

#[test]
fn anything_else_still_runs() {
    assert!(all_stopped(&vec![]));
    assert!(all_stopped(&vec![Seen::Stopped, Seen::Zombie, Seen::Vanished]));
    assert!(!all_stopped(&vec![Seen::Stopped, Seen::Other]));
}

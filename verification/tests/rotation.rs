//! Rotations against simulated files and processes.

use std::collections::BTreeMap;

use processguard::config::{resolve_app, AppSpec, GlobalConfig, LogOverrides};
use processguard::host::{
    KillReply, LogFile, Next, PidFile, PidRecord, Place, Refusal, Reply, Request, Signal, Target,
    TextFile,
};
use processguard::logs::{LogNote, RotateLogs};
use processguard::paths::FilePath;
use processguard::process::ProcessState;
use processguard::rotate::{
    generation_named, generations_among, rotate, slot_path, CompressionMethod, FileError, LogReply, LogRequest, Policy, Rotated,
    RotationMethod, Slot, Truncation,
};
use processguard::supervisor::Supervisor;
use processguard::suspend::{
    marker_text, read_marker, recover, FreezeReply, FreezeRequest, Frozen, Suspend, Thaw,
};

const GROUP: i32 = 77;

/// A log, and the process group that writes it.
struct Host {
    files: BTreeMap<String, Vec<u8>>,
    read: usize,
    marker: Option<String>,
    clock: u64,
    exists: bool,
    stopped: bool,
    obeys: bool,
    blocked: bool,
    scan_error: Option<String>,
    fail: Option<LogRequest>,
    /// What the group writes before each request while it can.
    chatter: Vec<u8>,
    written: Vec<u8>,
    live: FilePath,
    requests: Vec<LogRequest>,
    slept: u64,
}

impl Host {
    fn new(contents: &[u8]) -> Host {
        let live = FilePath::from_text("/logs/stdout.log");
        let mut files = BTreeMap::new();
        files.insert(live.display(), contents.to_vec());
        Host {
            files,
            read: 0,
            marker: None,
            clock: 0,
            exists: true,
            stopped: false,
            obeys: true,
            blocked: false,
            scan_error: None,
            fail: None,
            chatter: Vec::new(),
            written: contents.to_vec(),
            live,
            requests: Vec::new(),
            slept: 0,
        }
    }

    fn name(&self, slot: Slot) -> String {
        slot_path(&self.live, slot).display()
    }

    fn put(&mut self, slot: Slot, contents: &[u8]) {
        let name = self.name(slot);
        self.files.insert(name, contents.to_vec());
    }

    fn get(&self, slot: Slot) -> Option<&[u8]> {
        self.files.get(&self.name(slot)).map(|contents| contents.as_slice())
    }

    fn generations(&self) -> Vec<Slot> {
        let names: Vec<FilePath> =
            self.files.keys().map(|name| FilePath::from_text(name)).collect();
        generations_among(&self.live, &names)
    }

    fn freeze(&mut self, request: FreezeRequest) -> FreezeReply {
        match request {
            FreezeRequest::Host(Request::Kill { target, signal }) => {
                assert_eq!(target, Target::Group(GROUP));
                if !self.exists {
                    return FreezeReply::Host(Reply::Killed(KillReply::Refused {
                        refusal: Refusal::NoSuchProcess,
                        error: "no such process".to_string(),
                    }));
                }
                match signal {
                    Signal::Freeze => self.stopped = self.obeys,
                    Signal::Resume => self.stopped = false,
                    _ => panic!("unexpected signal"),
                }
                FreezeReply::Host(Reply::Killed(KillReply::Delivered))
            }
            FreezeRequest::Host(Request::Sleep { micros }) => {
                self.slept += micros;
                self.clock += micros * 1_000;
                FreezeReply::Host(Reply::Slept)
            }
            FreezeRequest::Host(_) => panic!("unexpected request"),
            FreezeRequest::WriteMarker(group) => {
                self.marker = Some(marker_text(group));
                FreezeReply::Done(Ok(()))
            }
            FreezeRequest::ReadMarker => FreezeReply::Marker(match &self.marker {
                Some(text) => TextFile::Text(text.clone()),
                None => TextFile::Missing,
            }),
            FreezeRequest::RemoveMarker => FreezeReply::Done(match self.marker.take() {
                Some(_) => Ok(()),
                None => Err("not found".to_string()),
            }),
            FreezeRequest::BlockSignals => {
                self.blocked = true;
                FreezeReply::Masked
            }
            FreezeRequest::RestoreSignals => {
                self.blocked = false;
                FreezeReply::Masked
            }
            FreezeRequest::ReadClock => {
                self.clock += 1_000;
                FreezeReply::Clock(self.clock)
            }
            FreezeRequest::ScanGroup(group) => {
                assert_eq!(group, GROUP);
                FreezeReply::Scanned(match &self.scan_error {
                    Some(error) => Err(error.clone()),
                    None => Ok(self.stopped),
                })
            }
        }
    }

    fn missing() -> FileError {
        FileError { missing: true, message: "not found".to_string() }
    }

    fn file(&mut self, request: LogRequest) -> Result<(), FileError> {
        let live = self.name(Slot::Live);
        match request {
            LogRequest::OpenLive => {
                self.read = 0;
                self.files.get(&live).map(|_| ()).ok_or_else(Host::missing)
            }
            LogRequest::OpenToTruncate => {
                self.files.get(&live).map(|_| ()).ok_or_else(Host::missing)
            }
            LogRequest::CreateCopy => {
                self.put(Slot::Plain(1), b"");
                Ok(())
            }
            LogRequest::CopyTail => {
                let tail = self.files[&live][self.read..].to_vec();
                self.read = self.files[&live].len();
                let copy = self.name(Slot::Plain(1));
                self.files.get_mut(&copy).ok_or_else(Host::missing)?.extend(tail);
                Ok(())
            }
            LogRequest::SyncCopy => Ok(()),
            LogRequest::Truncate => {
                self.files.insert(live, Vec::new());
                Ok(())
            }
            LogRequest::Compress(n) => {
                let mut packed = b"gz:".to_vec();
                packed.extend(self.get(Slot::Plain(n)).ok_or_else(Host::missing)?);
                self.put(Slot::Partial(n), &packed);
                Ok(())
            }
            LogRequest::Rename { from, to } => {
                let from = self.name(from);
                let contents = self.files.remove(&from).ok_or_else(Host::missing)?;
                let to = self.name(to);
                self.files.insert(to, contents);
                Ok(())
            }
            LogRequest::Remove(slot) => {
                let name = self.name(slot);
                self.files.remove(&name).map(|_| ()).ok_or_else(Host::missing)
            }
            _ => panic!("not a file request"),
        }
    }

    fn answer(&mut self, request: LogRequest) -> LogReply {
        self.requests.push(request);
        if !self.stopped && self.exists {
            let live = self.name(Slot::Live);
            if let Some(contents) = self.files.get_mut(&live) {
                contents.extend(&self.chatter);
                self.written.extend(&self.chatter);
            }
        }
        assert!(!self.stopped || (self.marker.is_some() && self.blocked));
        if self.fail == Some(request) {
            let error = FileError { missing: false, message: "failed".to_string() };
            return match request {
                LogRequest::ListGenerations => {
                    LogReply::Listed { found: Vec::new(), complete: false }
                }
                _ => LogReply::Done(Err(error)),
            };
        }
        match request {
            LogRequest::Host(_) => panic!("not asked here"),
            LogRequest::Freeze(request) => LogReply::Freeze(self.freeze(request)),
            LogRequest::Exists(slot) => LogReply::Found(self.get(slot).is_some()),
            LogRequest::Measure => LogReply::Size(match self.get(Slot::Live) {
                Some(contents) => Ok(contents.len() as u64),
                None => Err(Host::missing()),
            }),
            LogRequest::ListGenerations => {
                LogReply::Listed { found: self.generations(), complete: true }
            }
            _ => LogReply::Done(self.file(request)),
        }
    }

    fn rotate(&mut self, policy: &Policy, suspend: bool) -> Result<Option<Rotated>, String> {
        let target = Suspend {
            process_group: GROUP,
            marker: FilePath::from_text("/apps/api/suspended"),
        };
        let mut state = rotate(policy, if suspend { Some(&target) } else { None }, true);
        for _ in 0..100_000 {
            let reply = self.answer(state.request());
            match state.step(reply) {
                Next::Ask(next) => state = next,
                Next::Done(result) => return result,
            }
        }
        panic!("the rotation does not end");
    }
}

fn policy(max_keep: u32, compress_after: u32, compression: CompressionMethod) -> Policy {
    Policy { max_size: 1, max_keep, compress_after, compression }
}

#[test]
fn compression_none_keeps_plain_generations() {
    let mut host = Host::new(b"output");
    let policy = Policy {
        max_size: 1,
        max_keep: 2,
        compress_after: 0,
        compression: CompressionMethod::Uncompressed,
    };

    let rotated = host.rotate(&policy, false).expect("rotate");
    assert_eq!(
        rotated,
        Some(Rotated {
            size: 6,
            truncation: Truncation::Plain
        })
    );
    assert!(host.files.contains_key("/logs/stdout.log.1"));
    assert!(!host.files.contains_key("/logs/stdout.log.1.gz"));
    assert_eq!(host.get(Slot::Plain(1)), Some(&b"output"[..]));
    assert_eq!(host.get(Slot::Live), Some(&b""[..]));
}

#[test]
fn gzip_compresses_generations_after_threshold() {
    let mut host = Host::new(b"output");
    let policy = Policy {
        max_size: 1,
        max_keep: 2,
        compress_after: 0,
        compression: CompressionMethod::Gzip,
    };

    let rotated = host.rotate(&policy, false).expect("rotate");
    assert_eq!(
        rotated,
        Some(Rotated {
            size: 6,
            truncation: Truncation::Plain
        })
    );
    assert!(!host.files.contains_key("/logs/stdout.log.1"));
    assert!(host.files.contains_key("/logs/stdout.log.1.gz"));
    assert_eq!(host.get(Slot::Packed(1)), Some(&b"gz:output"[..]));
    assert_eq!(host.get(Slot::Partial(1)), None);
}

#[test]
fn generations_move_up_and_the_oldest_goes() {
    let mut host = Host::new(b"new");
    host.put(Slot::Plain(1), b"one");
    host.put(Slot::Plain(2), b"two");
    host.put(Slot::Packed(3), b"gz:three");
    host.put(Slot::Packed(4), b"gz:four");
    host.rotate(&policy(4, 2, CompressionMethod::Gzip), false).expect("rotate");
    assert_eq!(host.get(Slot::Plain(1)), Some(&b"new"[..]));
    assert_eq!(host.get(Slot::Plain(2)), Some(&b"one"[..]));
    assert_eq!(host.get(Slot::Plain(3)), None);
    assert_eq!(host.get(Slot::Packed(3)), Some(&b"gz:two"[..]));
    assert_eq!(host.get(Slot::Packed(4)), Some(&b"gz:three"[..]));
    assert_eq!(host.files.len(), 5);
}

#[test]
fn generations_past_max_keep_go() {
    let mut host = Host::new(b"new");
    host.put(Slot::Plain(1), b"one");
    host.put(Slot::Plain(2), b"two");
    host.put(Slot::Plain(3), b"three");
    host.put(Slot::Packed(3), b"gz:three");
    host.put(Slot::Packed(12), b"gz:twelve");
    host.put(Slot::Plain(4_294_967_295), b"last");
    host.files.insert("/logs/stdout.log.old".to_string(), b"mine".to_vec());
    host.files.insert("/logs/stdout.log.07".to_string(), b"mine".to_vec());
    let rotated = host.rotate(&policy(2, 2, CompressionMethod::Gzip), false).expect("rotate");
    assert_eq!(rotated, Some(Rotated { size: 3, truncation: Truncation::Plain }));
    let names: Vec<&str> = host.files.keys().map(|name| name.as_str()).collect();
    assert_eq!(
        names,
        vec![
            "/logs/stdout.log",
            "/logs/stdout.log.07",
            "/logs/stdout.log.1",
            "/logs/stdout.log.2",
            "/logs/stdout.log.old",
        ]
    );
    assert_eq!(host.get(Slot::Plain(1)), Some(&b"new"[..]));
    assert_eq!(host.get(Slot::Plain(2)), Some(&b"one"[..]));
}

#[test]
fn nothing_kept_means_no_generation_stays() {
    let mut host = Host::new(b"output");
    host.put(Slot::Plain(1), b"one");
    host.put(Slot::Packed(2), b"gz:two");
    host.rotate(&policy(0, 0, CompressionMethod::Gzip), false).expect("rotate");
    assert_eq!(host.files.len(), 1);
    assert_eq!(host.get(Slot::Live), Some(&b""[..]));
}

#[test]
fn a_log_that_is_not_rotated_keeps_what_is_past_max_keep() {
    let mut host = Host::new(b"small");
    host.put(Slot::Plain(9), b"nine");
    let large = Policy { max_size: 100, ..policy(2, 2, CompressionMethod::Uncompressed) };
    assert_eq!(host.rotate(&large, false), Ok(None));
    assert_eq!(host.get(Slot::Plain(9)), Some(&b"nine"[..]));
}

#[test]
fn generations_that_cannot_be_cleared_do_not_stop_a_rotation() {
    for (request, cleared) in [
        (LogRequest::ListGenerations, false),
        (LogRequest::Remove(Slot::Plain(9)), true),
    ] {
        for keep in [0, 2] {
            let mut host = Host::new(b"output");
            host.put(Slot::Plain(9), b"nine");
            host.put(Slot::Packed(11), b"gz:eleven");
            host.fail = Some(request);
            assert_eq!(
                host.rotate(&policy(keep, 2, CompressionMethod::Uncompressed), false),
                Ok(Some(Rotated { size: 6, truncation: Truncation::Plain }))
            );
            assert_eq!(host.get(Slot::Live), Some(&b""[..]));
            assert_eq!(host.get(Slot::Plain(1)).is_some(), keep > 0);
            assert_eq!(host.get(Slot::Plain(9)), Some(&b"nine"[..]));
            assert_eq!(host.get(Slot::Packed(11)).is_none(), cleared);
        }
    }
}

#[test]
fn a_list_that_breaks_off_clears_what_it_holds() {
    let mut state = rotate(&policy(2, 2, CompressionMethod::Uncompressed), None, true);
    let mut requests = Vec::new();
    let result = loop {
        let request = state.request();
        requests.push(request);
        let reply = match request {
            LogRequest::Measure => LogReply::Size(Ok(5)),
            LogRequest::ListGenerations => {
                LogReply::Listed { found: vec![Slot::Plain(2), Slot::Packed(3)], complete: false }
            }
            LogRequest::Exists(_) => LogReply::Found(false),
            _ => LogReply::Done(Ok(())),
        };
        match state.step(reply) {
            Next::Ask(next) => state = next,
            Next::Done(result) => break result,
        }
    };
    assert_eq!(result, Ok(Some(Rotated { size: 5, truncation: Truncation::Plain })));
    assert_eq!(
        requests[..4],
        [
            LogRequest::Measure,
            LogRequest::ListGenerations,
            LogRequest::Remove(Slot::Packed(3)),
            LogRequest::Remove(Slot::Plain(2)),
        ]
    );
}

#[test]
fn an_oldest_generation_that_cannot_be_removed_fails_the_rotation() {
    let mut host = Host::new(b"output");
    host.put(Slot::Plain(2), b"two");
    host.fail = Some(LogRequest::Remove(Slot::Plain(2)));
    assert_eq!(
        host.rotate(&policy(2, 2, CompressionMethod::Uncompressed), false),
        Err("failed".to_string())
    );
    assert_eq!(host.get(Slot::Live), Some(&b"output"[..]));
}

#[test]
fn generations_are_known_by_their_names() {
    let live = FilePath::from_text("x.log");
    let named = |name: &str| generation_named(&live, &FilePath::from_text(name));
    assert_eq!(named("x.log.10"), Some(Slot::Plain(10)));
    assert_eq!(named("x.log.10.gz"), Some(Slot::Packed(10)));
    assert_eq!(named("x.log.4294967295"), Some(Slot::Plain(4_294_967_295)));
    for other in [
        "", "x.log", "x.log.", "x.log.gz", "x.log..gz", "x.log.1.gz.tmp", "x.log.01", "x.log.+1",
        "x.log.1x", "x.log.4294967296", "y.log.1", "x.log1",
    ] {
        assert_eq!(named(other), None);
    }
    let raw = FilePath { bytes: vec![120, 46, 108, 111, 103, 46, 255] };
    assert_eq!(generation_named(&live, &raw), None);
    let names = vec![
        FilePath::from_text("x.log.2.gz"),
        FilePath::from_text("x.log"),
        FilePath::from_text("x.log.1"),
    ];
    assert_eq!(generations_among(&live, &names), vec![Slot::Packed(2), Slot::Plain(1)]);
}

#[test]
fn interrupted_compression_is_finished_first() {
    let mut host = Host::new(b"");
    host.put(Slot::Plain(3), b"three");
    let large = Policy { max_size: 100, ..policy(4, 2, CompressionMethod::Gzip) };
    assert_eq!(host.rotate(&large, false), Ok(None));
    assert_eq!(host.get(Slot::Packed(3)), Some(&b"gz:three"[..]));
    assert_eq!(host.get(Slot::Plain(3)), None);
}

#[test]
fn small_and_missing_logs_are_left_alone() {
    let mut host = Host::new(b"small");
    let six = Policy { max_size: 6, ..policy(4, 2, CompressionMethod::Uncompressed) };
    assert_eq!(host.rotate(&six, true), Ok(None));
    assert_eq!(host.requests, vec![LogRequest::Measure]);
    let five = Policy { max_size: 5, ..six };
    assert!(matches!(host.rotate(&five, false), Ok(Some(Rotated { size: 5, .. }))));

    let mut host = Host::new(b"");
    host.files.clear();
    assert_eq!(host.rotate(&five, false), Ok(None));
}

#[test]
fn nothing_kept_means_nothing_copied() {
    let mut host = Host::new(b"output");
    assert_eq!(
        host.rotate(&policy(0, 0, CompressionMethod::Gzip), true),
        Ok(Some(Rotated { size: 6, truncation: Truncation::Plain }))
    );
    assert_eq!(host.get(Slot::Live), Some(&b""[..]));
    assert_eq!(host.files.len(), 1);
    assert_eq!(host.marker, None);
}

#[test]
fn a_suspended_rotation_loses_nothing() {
    let mut host = Host::new(b"output");
    host.chatter = b"x".to_vec();
    let rotated = host
        .rotate(&policy(2, 2, CompressionMethod::Uncompressed), true)
        .expect("rotate")
        .expect("rotated");
    match rotated.truncation {
        Truncation::Suspended(nanos) => assert!(nanos > 0),
        other => panic!("unexpected truncation {other:?}"),
    }
    let mut kept = host.get(Slot::Plain(1)).expect("copy").to_vec();
    kept.extend(host.get(Slot::Live).expect("live"));
    assert_eq!(kept, host.written);
    assert!(!host.stopped);
    assert!(!host.blocked);
    assert_eq!(host.marker, None);
}

#[test]
fn without_suspension_the_last_write_is_lost() {
    let mut host = Host::new(b"output");
    host.chatter = b"x".to_vec();
    host.rotate(&policy(2, 2, CompressionMethod::Uncompressed), false).expect("rotate");
    let kept = host.get(Slot::Plain(1)).expect("copy").len()
        + host.get(Slot::Live).expect("live").len();
    assert_eq!(kept + 1, host.written.len());
}

#[test]
fn a_group_that_does_not_stop_is_resumed_after_a_second() {
    let mut host = Host::new(b"output");
    host.obeys = false;
    let rotated = host
        .rotate(&policy(2, 2, CompressionMethod::Uncompressed), true)
        .expect("rotate")
        .expect("rotated");
    assert_eq!(rotated.truncation, Truncation::SuspendFailed);
    assert!(host.slept >= 980_000);
    assert!(host.slept <= 1_010_000);
    assert_eq!(host.marker, None);
    assert!(!host.blocked);
}

#[test]
fn an_error_while_frozen_resumes_the_group() {
    for request in [LogRequest::CopyTail, LogRequest::Truncate] {
        let mut host = Host::new(b"output");
        let target = Suspend {
            process_group: GROUP,
            marker: FilePath::from_text("/apps/api/suspended"),
        };
        let mut state = rotate(
            &policy(2, 2, CompressionMethod::Uncompressed),
            Some(&target),
            true,
        );
        let result = loop {
            if host.stopped {
                host.fail = Some(request);
            }
            let reply = host.answer(state.request());
            match state.step(reply) {
                Next::Ask(next) => state = next,
                Next::Done(result) => break result,
            }
        };
        assert_eq!(result, Err("failed".to_string()));
        assert!(!host.stopped);
        assert!(!host.blocked);
        assert_eq!(host.marker, None);
    }
}

#[test]
fn a_failed_scan_resumes_the_group_and_fails_the_rotation() {
    let mut host = Host::new(b"output");
    host.scan_error = Some("no /proc".to_string());
    assert_eq!(
        host.rotate(&policy(2, 2, CompressionMethod::Uncompressed), true),
        Err("no /proc".to_string())
    );
    assert!(!host.stopped);
    assert_eq!(host.marker, None);
    assert_eq!(host.get(Slot::Live), Some(&b"output"[..]));
}

/// Drives a freeze, and hands back what it came to.
fn freeze(host: &mut Host, supported: bool) -> Result<Option<Frozen>, String> {
    let suspend = Suspend {
        process_group: GROUP,
        marker: FilePath::from_text("/apps/api/suspended"),
    };
    let mut next = suspend.freeze(supported);
    loop {
        match next {
            Next::Ask(state) => {
                let reply = host.freeze(state.request(GROUP));
                next = state.step(reply);
            }
            Next::Done(result) => return result,
        }
    }
}

#[test]
fn freeze_stops_the_group_and_drop_resumes_it() {
    let mut host = Host::new(b"output");
    let frozen = freeze(&mut host, true).expect("freeze").expect("group stops");
    assert!(host.stopped);
    assert!(host.marker.is_some());
    assert_eq!(frozen.elapsed(frozen.since + 5), 5);
    assert_eq!(frozen.elapsed(0), 0);

    thaw(&mut host);
    assert!(host.marker.is_none());
    assert!(!host.stopped);
    assert!(!host.blocked);
}

/// Drives the thaw that ends a freeze.
fn thaw(host: &mut Host) {
    let mut state = Thaw::Resuming;
    loop {
        let reply = host.freeze(state.request(GROUP));
        match state.step(&reply) {
            Next::Ask(next) => state = next,
            Next::Done(()) => return,
        }
    }
}

#[test]
fn a_thaw_goes_on_whatever_fails() {
    let mut host = Host::new(b"output");
    freeze(&mut host, true).expect("freeze").expect("group stops");
    host.exists = false;
    host.marker = None;
    thaw(&mut host);
    assert!(!host.blocked);
}

#[test]
fn freezing_a_missing_group_is_not_an_error() {
    let mut host = Host::new(b"output");
    host.exists = false;
    assert_eq!(freeze(&mut host, true), Ok(None));
    assert!(host.marker.is_none());
    assert!(!host.blocked);
}

#[test]
fn an_unsupported_freeze_does_nothing() {
    let mut host = Host::new(b"output");
    assert_eq!(freeze(&mut host, false), Ok(None));
    assert!(host.marker.is_none());
    assert!(!host.stopped);
}

/// Drives a recovery, and hands back what it came to.
fn recovered(host: &mut Host) -> Result<Option<i32>, String> {
    let mut state = recover();
    loop {
        let reply = host.freeze(state.request());
        match state.step(reply) {
            Next::Ask(next) => state = next,
            Next::Done(result) => return result,
        }
    }
}

#[test]
fn recover_resumes_a_group_left_stopped() {
    let mut host = Host::new(b"output");
    host.stopped = true;
    host.marker = Some(format!("{}\n", GROUP));

    assert_eq!(recovered(&mut host), Ok(Some(GROUP)));
    assert!(host.marker.is_none());
    assert!(!host.stopped);
    assert_eq!(recovered(&mut host), Ok(None));
}

#[test]
fn a_marker_that_names_no_group_is_only_removed() {
    for text in ["", "1", "0", "-5", "x", "99999999999"] {
        assert_eq!(read_marker(text), None);
        let mut host = Host::new(b"");
        host.stopped = true;
        host.marker = Some(text.to_string());
        assert_eq!(recovered(&mut host), Ok(None));
        assert!(host.marker.is_none());
        assert!(host.stopped);
    }
    assert_eq!(marker_text(4711), "4711\n");
    assert_eq!(read_marker(&marker_text(4711)), Some(4711));
}

#[test]
fn files_of_a_log_have_their_names() {
    let live = FilePath::from_text("/l/x.log");
    assert_eq!(slot_path(&live, Slot::Live).display(), "/l/x.log");
    assert_eq!(slot_path(&live, Slot::Plain(10)).display(), "/l/x.log.10");
    assert_eq!(slot_path(&live, Slot::Packed(10)).display(), "/l/x.log.10.gz");
    assert_eq!(slot_path(&live, Slot::Partial(10)).display(), "/l/x.log.10.gz.tmp");
}

fn spec(managed: bool) -> AppSpec {
    let mut app = resolve_app(
        &GlobalConfig::default(),
        "api".to_string(),
        FilePath::from_text("/apps/api"),
        None,
    );
    app.managed = managed;
    app
}

/// Drives the rotation of an application's logs; the size of each file is 20 MiB.
fn logs(
    app: &AppSpec,
    conf: LogFile,
    invalid: bool,
    marker: TextFile,
) -> (Vec<(Option<String>, LogRequest)>, Vec<String>) {
    let global = GlobalConfig::default();
    let supervisor = Supervisor { global: &global, app, guard_log: &global.guard_log };
    let mut conf = Some(conf);
    let mut marker = Some(marker);
    let mut requests = Vec::new();
    let mut messages = Vec::new();
    let mut state: RotateLogs = supervisor.rotate_logs();
    loop {
        let request = state.request();
        let live = state.live(&supervisor);
        requests.push((live.as_ref().map(|path| path.display()), request));
        let reply = match request {
            LogRequest::Host(Request::Exists(Place::Invalid)) => {
                LogReply::Host(Reply::Exists(Ok(invalid)))
            }
            LogRequest::Host(Request::ReadLogConf) => {
                LogReply::Host(Reply::LogConf(conf.take().expect("read once")))
            }
            LogRequest::Host(Request::ReadPidFile) => {
                LogReply::Host(Reply::PidFile(PidFile::Text {
                    text: "77".to_string(),
                    toml: Err("no".to_string()),
                }))
            }
            LogRequest::Host(Request::Kill { .. }) => {
                LogReply::Host(Reply::Killed(KillReply::Delivered))
            }
            LogRequest::Host(_) => panic!("nobody asks that"),
            LogRequest::Freeze(FreezeRequest::ReadMarker) => {
                LogReply::Freeze(FreezeReply::Marker(marker.take().expect("read once")))
            }
            LogRequest::Freeze(FreezeRequest::Host(Request::Kill { .. })) => {
                LogReply::Freeze(FreezeReply::Host(Reply::Killed(KillReply::Delivered)))
            }
            LogRequest::Freeze(FreezeRequest::ReadClock) => {
                LogReply::Freeze(FreezeReply::Clock(0))
            }
            LogRequest::Freeze(FreezeRequest::ScanGroup(_)) => {
                LogReply::Freeze(FreezeReply::Scanned(Ok(true)))
            }
            LogRequest::Freeze(FreezeRequest::BlockSignals | FreezeRequest::RestoreSignals) => {
                LogReply::Freeze(FreezeReply::Masked)
            }
            LogRequest::Freeze(_) => LogReply::Freeze(FreezeReply::Done(Ok(()))),
            LogRequest::Exists(_) => LogReply::Found(false),
            LogRequest::Measure => LogReply::Size(Ok(20 << 20)),
            LogRequest::ListGenerations => LogReply::Listed { found: Vec::new(), complete: true },
            _ => LogReply::Done(Ok(())),
        };
        let step = state.step(&supervisor, true, reply);
        if let Some(note) = step.note {
            let file = live.unwrap_or_else(|| FilePath::from_text(""));
            messages.push(supervisor.rotation_message(&note, &file, "1.25"));
        }
        match step.next {
            Next::Ask(next) => state = next,
            Next::Done(()) => return (requests, messages),
        }
    }
}

#[test]
fn both_output_files_are_rotated() {
    let (_, messages) = logs(&spec(true), LogFile::Missing, false, TextFile::Missing);
    assert_eq!(
        messages,
        vec![
            "rotated /apps/api/logs/stdout.log (20971520 bytes)".to_string(),
            "rotated /apps/api/logs/stderr.log (20971520 bytes)".to_string(),
        ]
    );
}

#[test]
fn a_shared_output_file_is_rotated_once() {
    let conf = LogOverrides {
        stderr: Some(FilePath::from_text("logs/./stdout.log")),
        ..LogOverrides::default()
    };
    let (_, messages) = logs(&spec(true), LogFile::Parsed(conf), false, TextFile::Missing);
    assert_eq!(messages.len(), 1);
}

#[test]
fn suspension_is_asked_for_in_the_settings() {
    let conf = LogOverrides {
        rotation: Some(RotationMethod::Suspend),
        ..LogOverrides::default()
    };
    let (requests, messages) =
        logs(&spec(true), LogFile::Parsed(conf), false, TextFile::Missing);
    assert_eq!(
        messages[0],
        "rotated /apps/api/logs/stdout.log (20971520 bytes, app suspended for 1.25ms)"
    );
    let freeze = LogRequest::Freeze(FreezeRequest::Host(Request::Kill {
        target: Target::Group(GROUP),
        signal: Signal::Freeze,
    }));
    assert!(requests.iter().any(|(_, request)| *request == freeze));
}

#[test]
fn quarantined_and_unmanaged_apps_keep_their_logs() {
    let (requests, messages) = logs(&spec(true), LogFile::Missing, true, TextFile::Missing);
    assert_eq!(requests.len(), 2);
    assert!(messages.is_empty());
    let (requests, messages) = logs(
        &spec(false),
        LogFile::Missing,
        false,
        TextFile::Text("77\n".to_string()),
    );
    assert_eq!(requests.len(), 3);
    assert_eq!(
        messages,
        vec!["resumed process group 77 left suspended by an interrupted rotation".to_string()]
    );
}

#[test]
fn rotation_troubles_are_logged() {
    let (_, messages) = logs(
        &spec(true),
        LogFile::Malformed("bad".to_string()),
        false,
        TextFile::Unreadable("denied".to_string()),
    );
    assert_eq!(
        messages,
        vec![
            "error: checking suspended marker: denied".to_string(),
            "error: rotating logs: /apps/api/log.conf: bad".to_string(),
        ]
    );
    let global = GlobalConfig::default();
    let app = spec(true);
    let supervisor = Supervisor { global: &global, app: &app, guard_log: &global.guard_log };
    let file = FilePath::from_text("/x");
    assert_eq!(
        supervisor.rotation_message(&LogNote::RotationFailed("e".to_string()), &file, ""),
        "error: rotating /x: e"
    );
    assert_eq!(
        supervisor.rotation_message(&LogNote::CannotCheckInvalidMarker("e".to_string()), &file, ""),
        "error: checking invalid marker: e"
    );
    let failed = Rotated { size: 3, truncation: Truncation::SuspendFailed };
    assert_eq!(
        supervisor.rotation_message(&LogNote::Rotated(failed), &file, ""),
        "rotated /x (3 bytes, could not suspend the app: truncated without it)"
    );
}

#[test]
fn recovery_comes_first_and_only_once() {
    let conf = LogOverrides {
        rotation: Some(RotationMethod::Suspend),
        ..LogOverrides::default()
    };
    let (requests, _) = logs(&spec(true), LogFile::Parsed(conf), false, TextFile::Missing);
    let read = LogRequest::Freeze(FreezeRequest::ReadMarker);
    let reads: Vec<usize> = requests
        .iter()
        .enumerate()
        .filter(|(_, (_, request))| *request == read)
        .map(|(i, _)| i)
        .collect();
    assert_eq!(reads, vec![0]);
}

#[test]
fn logs_without_settings_stay_as_they_are() {
    let (requests, _) = logs(
        &spec(true),
        LogFile::Unreadable("denied".to_string()),
        false,
        TextFile::Missing,
    );
    assert_eq!(
        requests.last().map(|(_, request)| *request),
        Some(LogRequest::Host(Request::ReadLogConf))
    );
}

#[test]
fn only_a_running_app_is_suspended() {
    let global = GlobalConfig::default();
    let app = spec(true);
    let supervisor = Supervisor { global: &global, app: &app, guard_log: &global.guard_log };
    let mut settings = supervisor.settings_with(None);
    let record = PidRecord { pid: 5, process_group: 6 };
    let running = Ok((ProcessState::Running, Some(record)));
    assert!(supervisor.suspend_target(&settings, &running).is_none());
    settings.rotation = RotationMethod::Suspend;
    let target = supervisor.suspend_target(&settings, &running).expect("target");
    assert_eq!(target.process_group, 6);
    assert_eq!(target.marker.display(), "/apps/api/suspended");
    let stopped = Ok((ProcessState::Stopped, None));
    assert!(supervisor.suspend_target(&settings, &stopped).is_none());
    let orphaned = Ok((ProcessState::OrphanedProcessGroup, Some(record)));
    assert!(supervisor.suspend_target(&settings, &orphaned).is_none());
}

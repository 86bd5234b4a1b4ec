//! Tests that exercise the operating-system edge for real: the process
//! table query behind reconciliation and signal delivery to a process
//! group. They use this test process's own session and process group as
//! the live subject, and a session id far outside anything running as the
//! dead one.

use worker::config::{Project, RunningProject};
use worker::error::WorkerError;
use worker::state::state_file_name;
use worker::sys::Signal;
use worker::worker::WorkerConfig;

fn project(name: &str) -> Project {
    Project {
        name: name.to_string(),
        command: format!("run-{}", name),
        cwd: "/".to_string(),
        display: None,
        stop_signal: None,
        envs: None,
    }
}

const DEAD_SID: i32 = 3999999;

#[test]
fn test_running_keeps_live_session_and_drops_dead() {
    let own_sid = nix::unistd::getsid(None).unwrap().as_raw();
    let config = WorkerConfig::new(vec![], "/base");
    let entries = vec![
        (state_file_name("alive", own_sid), Some(project("alive"))),
        ("not a state entry".to_string(), None),
        (state_file_name("ghost", DEAD_SID), Some(project("ghost"))),
        ("unknown-77".to_string(), None),
    ];
    let (kept, stale, alive) = config.running(&entries);
    assert_eq!(kept.len(), 1);
    assert_eq!(kept[0].name, "alive");
    assert_eq!(kept[0].command, "run-alive");
    assert_eq!(kept[0].pid, own_sid);
    // "unknown-77" decodes as a key even without readable content, and no
    // session 77 of ours lives, so it is garbage-collected too.
    assert_eq!(stale, vec![state_file_name("ghost", DEAD_SID), "unknown-77".to_string()]);
    assert_eq!(alive.len(), entries.len());
    assert!(alive[0]);
    assert!(!alive[2]);
}

#[test]
fn test_running_survives_catalog_edits() {
    // The record is rebuilt from the stored snapshot, so a project that
    // has since left the catalog is still reported running — and once its
    // session dies, its entry is garbage-collected even then.
    let own_sid = nix::unistd::getsid(None).unwrap().as_raw();
    let config = WorkerConfig::new(vec![project("other")], "/base");
    let removed = project("gone");
    let entries = vec![
        (state_file_name("gone", own_sid), Some(removed.clone())),
        (state_file_name("gone", DEAD_SID), Some(removed)),
    ];
    let (kept, stale, _) = config.running(&entries);
    assert_eq!(kept.len(), 1);
    assert_eq!(kept[0].name, "gone");
    assert_eq!(kept[0].command, "run-gone");
    assert_eq!(stale, vec![state_file_name("gone", DEAD_SID)]);
}

#[test]
fn test_running_drops_dead_entry_with_unreadable_content() {
    // A dead session's entry is removed even when its content could not
    // be read back; a live one with unreadable content is left alone.
    let own_sid = nix::unistd::getsid(None).unwrap().as_raw();
    let config = WorkerConfig::new(vec![], "/base");
    let entries = vec![
        (state_file_name("torn", DEAD_SID), None),
        (state_file_name("torn", own_sid), None),
    ];
    let (kept, stale, _) = config.running(&entries);
    assert!(kept.is_empty());
    assert_eq!(stale, vec![state_file_name("torn", DEAD_SID)]);
}

#[test]
fn test_stop_delivers_signal_to_own_group() {
    // SIGURG is ignored by default, so delivering it to this test's own
    // process group is observable only as a successful call.
    let record = RunningProject {
        name: "self".to_string(),
        command: "noop".to_string(),
        cwd: "/".to_string(),
        display: None,
        stop_signal: Some(Signal::SIGURG),
        envs: None,
        pid: nix::unistd::getpgrp().as_raw(),
    };
    assert!(record.stop().is_ok());
}

#[test]
fn test_stop_reports_missing_group() {
    let record = RunningProject {
        name: "gone".to_string(),
        command: "noop".to_string(),
        cwd: "/".to_string(),
        display: None,
        stop_signal: Some(Signal::SIGURG),
        envs: None,
        pid: DEAD_SID,
    };
    let err = record.stop().unwrap_err();
    assert!(matches!(err, WorkerError::SignalFailed { .. }));
}

#[test]
fn test_effective_stop_signal_defaults_to_interrupt() {
    let mut record = RunningProject {
        name: "a".to_string(),
        command: "noop".to_string(),
        cwd: "/".to_string(),
        display: None,
        stop_signal: None,
        envs: None,
        pid: 1,
    };
    assert_eq!(record.effective_stop_signal(), Signal::SIGINT);
    record.stop_signal = Some(Signal::SIGTERM);
    assert_eq!(record.effective_stop_signal(), Signal::SIGTERM);
}

use worker::config::{find_project, Project, RunningProject};
use worker::error::WorkerError;
use worker::lifecycle;
use worker::sys::Signal;
use worker::worker::WorkerConfig;

fn project(name: &str) -> Project {
    Project {
        name: name.to_string(),
        command: format!("run-{}", name),
        cwd: "/".to_string(),
        display: None,
        stop_signal: None,
        envs: None,
    }
}

fn record(name: &str, pid: i32) -> RunningProject {
    RunningProject {
        name: name.to_string(),
        command: format!("run-{}", name),
        cwd: "/".to_string(),
        display: None,
        stop_signal: Some(Signal::SIGURG),
        envs: None,
        pid,
    }
}

fn config(names: &[&str]) -> WorkerConfig {
    WorkerConfig::new(names.iter().map(|n| project(n)).collect(), "/base")
}

fn own_group() -> i32 {
    nix::unistd::getpgrp().as_raw()
}

#[test]
fn test_start_success() {
    let config = config(&["a"]);
    let running: Vec<RunningProject> = vec![];
    let (notices, to_start) = lifecycle::start(&config, vec![project("a")], &running);
    assert!(notices.is_empty());
    assert_eq!(to_start.len(), 1);
    assert_eq!(to_start[0].name, "a");
}

#[test]
fn test_start_project_already_running() {
    let config = config(&["a"]);
    let running = vec![record("a", 11)];
    let (notices, to_start) = lifecycle::start(&config, vec![project("a")], &running);
    assert_eq!(notices, vec!["a is already running".to_string()]);
    assert!(to_start.is_empty());
}

#[test]
fn test_start_multiple_success() {
    let config = config(&["a", "b"]);
    let running: Vec<RunningProject> = vec![];
    let (notices, to_start) =
        lifecycle::start(&config, vec![project("a"), project("b")], &running);
    assert!(notices.is_empty());
    assert_eq!(to_start.len(), 2);
    assert_eq!(to_start[0].name, "a");
    assert_eq!(to_start[1].name, "b");
}

#[test]
fn test_start_multiple_one_already_running() {
    let config = config(&["a", "b"]);
    let running = vec![record("a", 11)];
    let (notices, to_start) =
        lifecycle::start(&config, vec![project("a"), project("b")], &running);
    assert_eq!(notices, vec!["a is already running".to_string()]);
    assert_eq!(to_start.len(), 1);
    assert_eq!(to_start[0].name, "b");
}

#[test]
fn test_start_unknown_project() {
    let projects = vec![project("a")];
    let err = find_project("nope", &projects).unwrap_err();
    assert!(matches!(err, WorkerError::UnknownProject { name } if name == "nope"));
}

#[test]
fn test_stop_unknown_project() {
    let projects = vec![project("a")];
    assert!(find_project("nope", &projects).is_err());
}

#[test]
fn test_stop_command_not_running() {
    let config = config(&["a"]);
    let running: Vec<RunningProject> = vec![];
    let (targets, notices, outcomes) = lifecycle::stop(&config, vec![project("a")], &running);
    assert!(targets.is_empty());
    assert!(outcomes.is_empty());
    assert_eq!(notices, vec!["Cannot stop project not running: a".to_string()]);
}

#[test]
fn test_stop_success() {
    // The record points at this test's own process group and is stopped
    // with a signal whose default disposition is to be ignored, so the
    // delivery really happens and succeeds without disturbing anything.
    let config = config(&["a"]);
    let running = vec![record("a", own_group())];
    let (targets, notices, outcomes) = lifecycle::stop(&config, vec![project("a")], &running);
    assert_eq!(targets.len(), 1);
    assert_eq!(targets[0].name, "a");
    assert!(notices.is_empty());
    assert_eq!(outcomes, vec![None]);
    assert!(lifecycle::stop_failure_notices(&targets, &outcomes).is_empty());
}

#[test]
fn test_stop_multiple_success() {
    let config = config(&["a", "b"]);
    let running = vec![record("a", own_group()), record("b", own_group())];
    let (targets, notices, outcomes) =
        lifecycle::stop(&config, vec![project("a"), project("b")], &running);
    assert_eq!(targets.len(), 2);
    assert_eq!(targets[0].name, "a");
    assert_eq!(targets[1].name, "b");
    assert!(notices.is_empty());
    assert_eq!(outcomes, vec![None, None]);
}

#[test]
fn test_stop_one_delivery_fails_batch_continues() {
    // The first target's session does not exist; its delivery fails with
    // a per-project notice, and the second target is still signalled.
    let config = config(&["a", "b"]);
    let running = vec![record("a", 3999999), record("b", own_group())];
    let (targets, notices, outcomes) =
        lifecycle::stop(&config, vec![project("a"), project("b")], &running);
    assert_eq!(targets.len(), 2);
    assert!(notices.is_empty());
    assert_eq!(outcomes.len(), 2);
    assert!(outcomes[0].is_some());
    assert_eq!(outcomes[1], None);
    let failures = lifecycle::stop_failure_notices(&targets, &outcomes);
    assert_eq!(failures.len(), 1);
    assert!(failures[0].starts_with("Error trying to stop a: error "));
}

#[test]
fn test_stop_multiple_one_already_stopped() {
    let config = config(&["a", "b"]);
    let running = vec![record("b", own_group())];
    let (targets, notices, _) =
        lifecycle::stop(&config, vec![project("a"), project("b")], &running);
    assert_eq!(targets.len(), 1);
    assert_eq!(targets[0].name, "b");
    assert_eq!(notices, vec!["Cannot stop project not running: a".to_string()]);
}

#[test]
fn test_stop_success_one_still_running() {
    // The concrete two-project walk-through: start both, stop one, stop
    // both again; the second stop reports the first as not running and
    // targets only the survivor.
    let config = config(&["a", "b"]);

    let no_running: Vec<RunningProject> = vec![];
    let (_, to_start) =
        lifecycle::start(&config, vec![project("a"), project("b")], &no_running);
    assert_eq!(to_start.len(), 2);

    let both = vec![record("a", own_group()), record("b", own_group())];
    let (targets, notices, _) = lifecycle::stop(&config, vec![project("a")], &both);
    assert_eq!(targets.len(), 1);
    assert_eq!(targets[0].name, "a");
    assert!(notices.is_empty());

    let only_b = vec![record("b", own_group())];
    assert!(!config.is_running(&project("a"), &only_b));
    assert!(config.is_running(&project("b"), &only_b));

    let (targets, notices, _) =
        lifecycle::stop(&config, vec![project("a"), project("b")], &only_b);
    assert_eq!(targets.len(), 1);
    assert_eq!(targets[0].name, "b");
    assert_eq!(notices, vec!["Cannot stop project not running: a".to_string()]);

    let none: Vec<RunningProject> = vec![];
    assert!(!config.is_running(&project("a"), &none));
    assert!(!config.is_running(&project("b"), &none));
}

#[test]
fn test_restart_success() {
    let config = config(&["a"]);
    let running = vec![record("a", 11)];
    let (to_restart, notices) = lifecycle::restart(&config, vec![project("a")], &running);
    assert!(notices.is_empty());
    assert_eq!(to_restart.len(), 1);
    assert_eq!(to_restart[0].name, "a");
    assert_eq!(to_restart[0].command, "run-a");
}

#[test]
fn test_restart_multiple_success() {
    let config = config(&["a", "b"]);
    let running = vec![record("a", 11), record("b", 12)];
    let (to_restart, notices) =
        lifecycle::restart(&config, vec![project("a"), project("b")], &running);
    assert!(notices.is_empty());
    assert_eq!(to_restart.len(), 2);
    assert_eq!(to_restart[0].name, "a");
    assert_eq!(to_restart[1].name, "b");
}

#[test]
fn test_restart_unknown_project() {
    let projects = vec![project("a")];
    assert!(find_project("nope", &projects).is_err());
}

#[test]
fn test_restart_multiple_only_one_running() {
    let config = config(&["a", "b"]);
    let running = vec![record("a", 11)];
    let (to_restart, notices) =
        lifecycle::restart(&config, vec![project("a"), project("b")], &running);
    assert_eq!(to_restart.len(), 1);
    assert_eq!(to_restart[0].name, "a");
    assert_eq!(notices, vec!["Cannot restart project not running: b".to_string()]);
}

#[test]
fn test_status_none_running() {
    let running: Vec<RunningProject> = vec![];
    assert!(lifecycle::status(&running, false).is_empty());
}

#[test]
fn test_status_one_running() {
    let running = vec![record("a", 11)];
    assert_eq!(lifecycle::status(&running, false), vec!["a is running".to_string()]);
    assert_eq!(lifecycle::status(&running, true), vec!["a".to_string()]);
}

#[test]
fn test_status_multiple_running() {
    let mut second = record("b", 12);
    second.display = Some("Bee".to_string());
    let running = vec![record("a", 11), second];
    assert_eq!(
        lifecycle::status(&running, false),
        vec!["a is running".to_string(), "Bee (b) is running".to_string()]
    );
    assert_eq!(lifecycle::status(&running, true), vec!["a".to_string(), "b".to_string()]);
}

#[test]
fn test_list_projects() {
    let mut fancy = project("b");
    fancy.display = Some("Bee".to_string());
    let projects = vec![project("a"), fancy];
    assert_eq!(
        lifecycle::list(&projects, false),
        vec!["a".to_string(), "Bee (b)".to_string()]
    );
    assert_eq!(lifecycle::list(&projects, true), vec!["a".to_string(), "b".to_string()]);
}

#[test]
fn test_logs_project_not_running() {
    let config = config(&["a"]);
    let running: Vec<RunningProject> = vec![];
    let err = lifecycle::logs(&config, &project("a"), &running).unwrap_err();
    assert!(matches!(err, WorkerError::NotRunning { display } if display == "a"));
}

#[test]
fn test_logs_running_path() {
    let config = config(&["a"]);
    let running = vec![record("a", 11)];
    let path = lifecycle::logs(&config, &project("a"), &running).unwrap();
    assert_eq!(path, "/base/.worker/log/a");
}

#[test]
fn test_command_parts() {
    let (prog, args) = lifecycle::command_parts("echo hello world").unwrap();
    assert_eq!(prog, "echo");
    assert_eq!(args, vec!["hello".to_string(), "world".to_string()]);

    let (prog, args) = lifecycle::command_parts("sh -c 'sleep 5'").unwrap();
    assert_eq!(prog, "sh");
    assert_eq!(args, vec!["-c".to_string(), "sleep 5".to_string()]);

    let err = lifecycle::command_parts("broken 'quote").unwrap_err();
    assert!(matches!(err, WorkerError::BadCommand { command } if command == "broken 'quote"));

    assert!(lifecycle::command_parts("").is_err());
}

#[test]
fn test_timeout_notices() {
    let still = vec![record("a", 11)];
    assert_eq!(
        lifecycle::timeout_notices(&still),
        vec!["Was not able to stop a".to_string()]
    );
    let none: Vec<RunningProject> = vec![];
    assert!(lifecycle::timeout_notices(&none).is_empty());
}

#[test]
fn test_dedup_requests() {
    let reqs = vec![project("a"), project("b"), project("a"), project("b"), project("c")];
    let unique = lifecycle::dedup_requests(reqs);
    let names: Vec<&str> = unique.iter().map(|p| p.name.as_str()).collect();
    assert_eq!(names, vec!["a", "b", "c"]);
}

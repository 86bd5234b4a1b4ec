use worker::config::Project;
use worker::config::RunningProject;
use worker::state::{parse_entry, state_file_name};

fn project(name: &str) -> Project {
    Project {
        name: name.to_string(),
        command: format!("run-{}", name),
        cwd: "/".to_string(),
        display: None,
        stop_signal: None,
        envs: None,
    }
}

#[test]
fn test_state_key_encode() {
    assert_eq!(state_file_name("web", 1234), "web-1234");
    assert_eq!(state_file_name("my-app", 77), "my-app-77");
    assert_eq!(state_file_name("x", 0), "x-0");
}

#[test]
fn test_state_key_decode() {
    assert_eq!(parse_entry("web-1234"), Some(("web".to_string(), 1234)));
    assert_eq!(parse_entry("my-app-77"), Some(("my-app".to_string(), 77)));
    assert_eq!(parse_entry("a--5"), Some(("a-".to_string(), 5)));
    assert_eq!(parse_entry("-5"), Some(("".to_string(), 5)));
    assert_eq!(parse_entry("noseparator"), None);
    assert_eq!(parse_entry("tail-notanumber"), None);
    assert_eq!(parse_entry("a-"), None);
    assert_eq!(parse_entry("a-2147483648"), None);
    assert_eq!(parse_entry(""), None);
}

#[test]
fn test_state_key_round_trip() {
    for name in ["a", "my-app", "", "wörk er"] {
        for pid in [0, 1, 77, 32767, i32::MAX] {
            let key = state_file_name(name, pid);
            assert_eq!(parse_entry(key.as_str()), Some((name.to_string(), pid)));
        }
    }
}

#[test]
fn test_from_entry() {
    let snapshot = project("db");
    let record = RunningProject::from_entry("db-42", &snapshot).unwrap();
    assert_eq!(record.name, "db");
    assert_eq!(record.command, "run-db");
    assert_eq!(record.cwd, "/");
    assert_eq!(record.pid, 42);

    // The key and the stored snapshot must name the same project.
    assert!(RunningProject::from_entry("web-42", &snapshot).is_none());
    assert!(RunningProject::from_entry("db-notapid", &snapshot).is_none());
    assert!(RunningProject::from_entry("db", &snapshot).is_none());
}

#[test]
fn test_from_entry_snapshot_prevails() {
    // The record carries the definition stored at start time, whatever a
    // later catalog may say: the snapshot alone rebuilds it.
    let mut snapshot = project("db");
    snapshot.command = "run-db --legacy".to_string();
    snapshot.stop_signal = Some(worker::sys::Signal::SIGTERM);
    let record = RunningProject::from_entry("db-42", &snapshot).unwrap();
    assert_eq!(record.command, "run-db --legacy");
    assert_eq!(record.stop_signal, Some(worker::sys::Signal::SIGTERM));
    assert_eq!(record.pid, 42);
}

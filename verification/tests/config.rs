use worker::config::{find_project, Config, Project};
use worker::error::WorkerError;
use worker::sys::Signal;
use worker::worker::WorkerConfig;

fn project(name: &str) -> Project {
    Project {
        name: name.to_string(),
        command: format!("run-{}", name),
        cwd: "/".to_string(),
        display: None,
        stop_signal: None,
        envs: None,
    }
}

#[test]
fn test_find_project_hit() {
    let projects = vec![project("web"), project("db")];
    let p = find_project("db", &projects).unwrap();
    assert_eq!(p.name, "db");
    assert_eq!(p.command, "run-db");
}

#[test]
fn test_find_project_miss() {
    let projects = vec![project("web")];
    let err = find_project("ghost", &projects).unwrap_err();
    assert!(matches!(err, WorkerError::UnknownProject { name } if name == "ghost"));
}

#[test]
fn test_display_string() {
    let plain = project("web");
    assert_eq!(plain.display_string(), "web");

    let mut fancy = project("web");
    fancy.display = Some("Web Server".to_string());
    assert_eq!(fancy.display_string(), "Web Server (web)");
}

#[test]
fn test_signal_numbers() {
    assert_eq!(Signal::SIGHUP.number(), 1);
    assert_eq!(Signal::SIGINT.number(), 2);
    assert_eq!(Signal::SIGKILL.number(), 9);
    assert_eq!(Signal::SIGTERM.number(), 15);
    assert_eq!(Signal::SIGSYS.number(), 31);
    for n in 1..=31 {
        let sig = Signal::from_number(n).unwrap();
        assert_eq!(sig.number(), n);
    }
    assert!(Signal::from_number(0).is_none());
    assert!(Signal::from_number(32).is_none());
    assert!(Signal::from_number(-1).is_none());
}

#[test]
fn test_worker_config_paths() {
    let catalog = Config { project: vec![project("web")] };
    let config = WorkerConfig::new(catalog.project, "/base");
    assert_eq!(config.state_dir(), "/base/.worker/state");
    assert_eq!(config.log_dir(), "/base/.worker/log");
    assert_eq!(config.log_file(&project("web")), "/base/.worker/log/web");
    assert_eq!(config.state_file_path(77, &project("web")), "/base/.worker/state/web-77");
}

#[test]
fn test_project_clone_keeps_fields() {
    let mut p = project("web");
    p.display = Some("Web".to_string());
    p.stop_signal = Some(Signal::SIGTERM);
    p.envs = Some(vec![("K".to_string(), "V".to_string())]);
    let q = p.clone();
    assert_eq!(q.name, p.name);
    assert_eq!(q.command, p.command);
    assert_eq!(q.cwd, p.cwd);
    assert_eq!(q.display, p.display);
    assert_eq!(q.stop_signal, p.stop_signal);
    assert_eq!(q.envs, p.envs);
}

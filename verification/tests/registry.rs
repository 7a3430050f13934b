use bpm::process_manager::health::HealthStatus;
use bpm::process_manager::monitor::resurrect_names;
use bpm::process_manager::process::{ProcessEntry, ProcessTable};
use bpm::process_manager::registry::{ProcessInfo, ProcessRegistry, ProcessState};

fn create_test_process(name: &str) -> ProcessInfo {
    ProcessInfo {
        name: name.to_string(),
        pid: None,
        state: ProcessState::Stopped,
        config_path: "/tmp/test.json".to_string(),
        script: "echo".to_string(),
        args: vec!["hello".to_string()],
        cwd: None,
        env: Vec::new(),
        restart_count: 0,
        started_at: None,
        cpu_usage: 0,
        memory_usage: 0,
        stdout_log: "/tmp/out.log".to_string(),
        stderr_log: "/tmp/err.log".to_string(),
        auto_restart: true,
        max_memory: 0,
        healthcheck: None,
        health_status: HealthStatus::Unknown,
        last_health_check: None,
        health_failures: 0,
        watch_dirs: Vec::new(),
        watch_patterns: Vec::new(),
    }
}

#[test]
fn test_process_registry() {
    let mut registry = ProcessRegistry::new();
    let info = create_test_process("test");

    assert!(registry.register(info.dup()).is_ok());
    assert!(registry.get("test").is_some());
    assert!(registry.update_state("test", ProcessState::Running).is_ok());

    let updated = registry.get("test").unwrap();
    assert_eq!(updated.state, ProcessState::Running);
}

#[test]
fn test_registry_duplicate_register() {
    let mut registry = ProcessRegistry::new();
    let info = create_test_process("dup-test");

    assert!(registry.register(info.dup()).is_ok());
    let err = registry.register(info).unwrap_err();
    assert_eq!(err.message(), "Process 'dup-test' already exists");
}

#[test]
fn test_registry_update_pid() {
    let mut registry = ProcessRegistry::new();
    let info = create_test_process("pid-test");

    registry.register(info).unwrap();
    assert!(registry.update_pid("pid-test", Some(12345), 1_700_000_000).is_ok());

    let process = registry.get("pid-test").unwrap();
    assert_eq!(process.pid, Some(12345));
    assert_eq!(process.state, ProcessState::Running);
    assert!(process.started_at.is_some());
}

#[test]
fn test_registry_restart_count() {
    let mut registry = ProcessRegistry::new();
    let info = create_test_process("restart-test");

    registry.register(info).unwrap();

    let count = registry.increment_restart_count("restart-test").unwrap();
    assert_eq!(count, 1);

    let count = registry.increment_restart_count("restart-test").unwrap();
    assert_eq!(count, 2);
}

#[test]
fn test_registry_health_tracking() {
    let mut registry = ProcessRegistry::new();
    let info = create_test_process("health-test");

    registry.register(info).unwrap();

    assert_eq!(registry.increment_health_failures("health-test"), 1);
    assert_eq!(registry.increment_health_failures("health-test"), 2);
    assert_eq!(registry.increment_health_failures("health-test"), 3);

    assert!(registry.reset_health_failures("health-test").is_ok());
    let process = registry.get("health-test").unwrap();
    assert_eq!(process.health_failures, 0);
}

#[test]
fn test_registry_get_running() {
    let mut registry = ProcessRegistry::new();

    let mut running = create_test_process("running");
    running.state = ProcessState::Running;

    let stopped = create_test_process("stopped");

    registry.register(running).unwrap();
    registry.register(stopped).unwrap();

    let running_procs = registry.get_running_processes();
    assert_eq!(running_procs.len(), 1);
    assert_eq!(running_procs[0].name, "running");
}

#[test]
fn test_resolve_log_path_default() {
    let default_dir = "/var/log/bpm/test";

    let path = ProcessInfo::resolve_log_path("stdout", default_dir, "out.log");
    assert_eq!(path, "/var/log/bpm/test/out.log");

    let path = ProcessInfo::resolve_log_path("stderr", default_dir, "error.log");
    assert_eq!(path, "/var/log/bpm/test/error.log");
}

#[test]
fn test_resolve_log_path_absolute() {
    let default_dir = "/var/log/bpm/test";

    let path = ProcessInfo::resolve_log_path("/custom/path/app.log", default_dir, "out.log");
    assert_eq!(path, "/custom/path/app.log");
}

#[test]
fn test_parse_duration() {
    assert_eq!(ProcessInfo::parse_duration_str("30s"), 30);
    assert_eq!(ProcessInfo::parse_duration_str("5m"), 300);
    assert_eq!(ProcessInfo::parse_duration_str("1h"), 3600);
    assert_eq!(ProcessInfo::parse_duration_str("invalid"), 30);
}

#[test]
fn test_check_dead_processes() {
    let mut registry = ProcessRegistry::new();

    let mut dead = create_test_process("dead-auto");
    dead.state = ProcessState::Errored;
    dead.auto_restart = true;

    let mut dead_manual = create_test_process("dead-manual");
    dead_manual.state = ProcessState::Errored;
    dead_manual.auto_restart = false;

    let healthy = create_test_process("fine");

    registry.register(dead).unwrap();
    registry.register(dead_manual).unwrap();
    registry.register(healthy).unwrap();

    let names = registry.check_dead_processes();
    assert_eq!(names, vec!["dead-auto".to_string()]);
}

#[test]
fn test_remove_returns_record() {
    let mut registry = ProcessRegistry::new();
    registry.register(create_test_process("gone")).unwrap();
    let removed = registry.remove("gone").unwrap();
    assert_eq!(removed.name, "gone");
    assert!(registry.get("gone").is_none());
    assert!(registry.remove("gone").is_none());
}

#[test]
fn test_refresh_metrics_marks_vanished() {
    // a Running record whose pid left the process table moves to Errored
    // and loses its pid; one whose pid is present gets the subtree's usage
    let mut registry = ProcessRegistry::new();

    let mut alive = create_test_process("alive");
    alive.state = ProcessState::Running;
    alive.pid = Some(10);

    let mut vanished = create_test_process("vanished");
    vanished.state = ProcessState::Running;
    vanished.pid = Some(99);

    registry.register(alive).unwrap();
    registry.register(vanished).unwrap();

    let table = ProcessTable {
        entries: vec![
            ProcessEntry { pid: 10, parent: None, cpu_usage: 15, memory: 2048 },
            ProcessEntry { pid: 11, parent: Some(10), cpu_usage: 5, memory: 1024 },
        ],
    };
    registry.refresh_metrics(&table);

    let alive = registry.get("alive").unwrap();
    assert_eq!(alive.state, ProcessState::Running);
    assert_eq!(alive.cpu_usage, 20);
    assert_eq!(alive.memory_usage, 3072);

    let vanished = registry.get("vanished").unwrap();
    assert_eq!(vanished.state, ProcessState::Errored);
    assert_eq!(vanished.pid, None);
}

#[test]
fn test_single_app_lifecycle() {
    // start, list, stop: the record runs with a pid, then stops without one
    let mut registry = ProcessRegistry::new();
    let app = bpm::config::read_config::App {
        name: "t".to_string(),
        script: "sleep".to_string(),
        args: vec!["10".to_string()],
        cwd: None,
        env: Vec::new(),
        log: bpm::config::read_config::LogConfig::default(),
        restart: bpm::config::read_config::RestartConfig::default(),
        healthcheck: None,
        schedule: None,
    };
    let info = ProcessInfo::from_app(&app, "/tmp/t.json".to_string(), "/tmp/bpm/logs/t".to_string());
    let name = info.name.clone();
    assert!(registry.register(info).is_ok());
    let line = bpm::communication::server::started_message(&name);
    assert!(line.contains("Started: t"));

    registry.complete_start("t", Some(4242), 1_700_000_000).unwrap();
    let table = registry.format_table(1_700_000_030);
    assert!(table.contains("t"));
    assert!(table.contains("running"));

    let pid = registry.begin_stop("t").unwrap();
    assert_eq!(pid, 4242);
    registry.finish_stop("t").unwrap();
    let line = bpm::communication::server::stopped_message("t");
    assert!(line.contains("Stopped: t"));
    let table = registry.format_table(1_700_000_060);
    assert!(table.contains("stopped"));
}

#[test]
fn test_stop_not_running() {
    let mut registry = ProcessRegistry::new();
    registry.register(create_test_process("idle")).unwrap();
    let err = registry.begin_stop("idle").unwrap_err();
    assert_eq!(err.message(), "Process 'idle' is not running");
    let err = registry.begin_stop("ghost").unwrap_err();
    assert_eq!(err.message(), "Process 'ghost' not found");
}

#[test]
fn test_resurrect_after_merge() {
    // save, restart the daemon, resurrect: every record persisted as
    // Running or Stopped is re-spawned
    let mut registry = ProcessRegistry::new();

    let mut web = create_test_process("web");
    web.state = ProcessState::Running;
    web.pid = Some(77);

    let worker = create_test_process("worker");

    let mut broken = create_test_process("broken");
    broken.state = ProcessState::Errored;

    registry.register(web).unwrap();
    registry.register(worker).unwrap();
    registry.register(broken).unwrap();

    let snapshot = registry.list();

    let mut reborn = ProcessRegistry::new();
    reborn.merge_records(snapshot);

    let names = resurrect_names(&reborn);
    assert_eq!(names, vec!["web".to_string(), "worker".to_string()]);
    let line = bpm::communication::server::resurrected_message(&names[0]);
    assert_eq!(line, "Resurrected: web");
}

#[test]
fn test_merge_records_upserts() {
    let mut registry = ProcessRegistry::new();
    let mut old = create_test_process("svc");
    old.restart_count = 2;
    registry.register(old).unwrap();

    let mut replacement = create_test_process("svc");
    replacement.restart_count = 9;
    let newcomer = create_test_process("extra");
    registry.merge_records(vec![replacement, newcomer]);

    assert_eq!(registry.get("svc").unwrap().restart_count, 9);
    assert!(registry.get("extra").is_some());
    assert_eq!(registry.list().len(), 2);
}

#[test]
fn test_format_table_empty() {
    let registry = ProcessRegistry::new();
    assert_eq!(registry.format_table(0), "No processes running");
}

#[test]
fn test_uptime_and_memory_display() {
    let mut p = create_test_process("d");
    p.started_at = Some(1_000);
    assert_eq!(p.uptime(1_030), "30s");
    assert_eq!(p.uptime(1_000 + 120), "2m");
    assert_eq!(p.uptime(1_000 + 7200), "2h");
    assert_eq!(p.uptime(1_000 + 172800), "2d");
    p.started_at = None;
    assert_eq!(p.uptime(5), "-");

    p.memory_usage = 512;
    assert_eq!(p.memory_display(), "512B");
    p.memory_usage = 1536;
    assert_eq!(p.memory_display(), "1.5KB");
    p.memory_usage = 3 * 1024 * 1024;
    assert_eq!(p.memory_display(), "3.0MB");
    p.memory_usage = 5 * 1024 * 1024 * 1024;
    assert_eq!(p.memory_display(), "5.0GB");
}

#[test]
fn test_disable_clears_auto_restart() {
    let mut registry = ProcessRegistry::new();
    registry.register(create_test_process("svc")).unwrap();
    assert!(registry.get("svc").unwrap().auto_restart);
    registry.set_auto_restart("svc", false).unwrap();
    assert!(!registry.get("svc").unwrap().auto_restart);
    let line = bpm::communication::server::disabled_message("svc");
    assert_eq!(line, "Auto-restart disabled for: svc");
}

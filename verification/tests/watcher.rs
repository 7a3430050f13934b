use bpm::process_manager::health::HealthStatus;
use bpm::process_manager::monitor::watch_restart_names;
use bpm::process_manager::registry::{ProcessInfo, ProcessRegistry, ProcessState};
use bpm::process_manager::watch::{FileStamp, FileWatcher, WatchConfig};

fn stamp(path: &str, mtime: i64) -> FileStamp {
    FileStamp { path: path.to_string(), mtime }
}

#[test]
fn test_file_watcher() {
    // rewriting a watched file is reported on the next scan
    let watcher_dirs = vec!["/tmp/watched".to_string()];
    let mut watcher = FileWatcher::new(watcher_dirs, vec!["*.js".to_string()]);
    watcher.init(vec![stamp("/tmp/watched/test.js", 100)]);

    let changes = watcher.check_changes(vec![stamp("/tmp/watched/test.js", 100)]);
    assert!(changes.is_empty());

    let changes = watcher.check_changes(vec![stamp("/tmp/watched/test.js", 101)]);
    assert!(!changes.is_empty());
}

#[test]
fn test_watcher_reports_added_and_removed() {
    let mut watcher = FileWatcher::new(vec!["/w".to_string()], Vec::new());
    watcher.init(vec![stamp("/w/a.py", 1), stamp("/w/b.py", 1)]);

    let changes = watcher.check_changes(vec![stamp("/w/a.py", 1), stamp("/w/c.py", 5)]);
    assert_eq!(changes, vec!["/w/c.py".to_string(), "/w/b.py".to_string()]);
}

#[test]
fn test_watcher_filters_by_pattern() {
    let mut watcher = FileWatcher::new(vec!["/w".to_string()], vec!["*.js".to_string()]);
    watcher.init(Vec::new());
    // a non-matching file never counts as a change
    let changes = watcher.check_changes(vec![stamp("/w/readme.md", 9)]);
    assert!(changes.is_empty());
}

#[test]
fn test_pattern_matching_rules() {
    let by_ext = FileWatcher::new(Vec::new(), vec!["*.js".to_string()]);
    assert!(by_ext.matches_pattern("/srv/app/index.js"));
    assert!(!by_ext.matches_pattern("/srv/app/index.jsx"));
    assert!(!by_ext.matches_pattern("/srv/app/Makefile"));

    let by_name = FileWatcher::new(Vec::new(), vec!["Makefile".to_string()]);
    assert!(by_name.matches_pattern("/srv/app/Makefile"));
    // a plain pattern also matches as a substring of the file name
    assert!(by_name.matches_pattern("/srv/app/Makefile.bak"));
    assert!(!by_name.matches_pattern("/srv/app/Rakefile"));

    let by_substring = FileWatcher::new(Vec::new(), vec!["*conf*".to_string()]);
    assert!(by_substring.matches_pattern("/etc/app.conf.d"));
    assert!(!by_substring.matches_pattern("/etc/app.toml"));

    let match_all = FileWatcher::new(Vec::new(), Vec::new());
    assert!(match_all.matches_pattern("/anything/at.all"));
}

#[test]
fn test_ignored_dirs() {
    let mut watcher = FileWatcher::new(Vec::new(), Vec::new());
    assert!(watcher.is_ignored_dir("node_modules"));
    assert!(watcher.is_ignored_dir(".git"));
    assert!(watcher.is_ignored_dir("target"));
    assert!(!watcher.is_ignored_dir("src"));
    watcher.ignore("dist".to_string());
    assert!(watcher.is_ignored_dir("dist"));
}

#[test]
fn test_watch_config_default() {
    let config = WatchConfig::default();
    assert!(!config.enabled);
    assert_eq!(config.directories, vec![".".to_string()]);
    assert!(config.patterns.is_empty());
    assert_eq!(config.delay, 1000);
}

#[test]
fn test_watch_restart_names() {
    let polled = vec![
        ("calm".to_string(), Vec::new()),
        ("busy".to_string(), vec!["/w/a.js".to_string()]),
    ];
    let names = watch_restart_names(&polled);
    assert_eq!(names, vec!["busy".to_string()]);
}

#[test]
fn test_file_change_restart_flow() {
    // an app watching its working directory is restarted within one
    // monitor pass after a watched file changes
    let mut registry = ProcessRegistry::new();
    registry
        .register(ProcessInfo {
            name: "webapp".to_string(),
            pid: Some(11),
            state: ProcessState::Running,
            config_path: "/tmp/w.json".to_string(),
            script: "node".to_string(),
            args: Vec::new(),
            cwd: Some("/tmp/app".to_string()),
            env: Vec::new(),
            restart_count: 0,
            started_at: Some(100),
            cpu_usage: 0,
            memory_usage: 0,
            stdout_log: "/tmp/out.log".to_string(),
            stderr_log: "/tmp/err.log".to_string(),
            auto_restart: true,
            max_memory: 0,
            healthcheck: None,
            health_status: HealthStatus::Unknown,
            last_health_check: None,
            health_failures: 0,
            watch_dirs: vec!["/tmp/app".to_string()],
            watch_patterns: Vec::new(),
        })
        .unwrap();

    let mut watcher = FileWatcher::new(vec!["/tmp/app".to_string()], Vec::new());
    watcher.init(vec![stamp("/tmp/app/a.js", 50)]);
    let changes = watcher.check_changes(vec![stamp("/tmp/app/a.js", 51)]);
    let polled = vec![("webapp".to_string(), changes)];
    let names = watch_restart_names(&polled);
    assert_eq!(names, vec!["webapp".to_string()]);

    let count = registry.begin_restart(&names[0]).unwrap();
    assert_eq!(count, 1);
    assert_eq!(registry.get("webapp").unwrap().state, ProcessState::Restarting);
    registry.complete_start("webapp", Some(12), 200).unwrap();
    let rec = registry.get("webapp").unwrap();
    assert_eq!(rec.state, ProcessState::Running);
    assert_eq!(rec.restart_count, 1);
}

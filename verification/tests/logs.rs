use bpm::communication::server::{logs_reply, parse_logs_arg};
use bpm::logging::{next_read_position, tail_lines, LogManager, LogRotationConfig};

#[test]
fn test_tail_file() {
    let mut lines: Vec<String> = Vec::new();
    for i in 1..=100 {
        lines.push(format!("Line {}", i));
    }
    let tail = tail_lines(&lines, 10);
    assert_eq!(tail.len(), 10);
    assert_eq!(tail[0], "Line 91");
    assert_eq!(tail[9], "Line 100");
}

#[test]
fn test_tail_shorter_than_request() {
    let lines = vec!["only".to_string()];
    let tail = tail_lines(&lines, 20);
    assert_eq!(tail, lines);
    let empty: Vec<String> = Vec::new();
    assert!(tail_lines(&empty, 20).is_empty());
}

#[test]
fn test_log_rotation() {
    let manager = LogManager::new("/logs/out.log".to_string(), "/logs/error.log".to_string())
        .with_rotation(LogRotationConfig { max_size: 1000, max_files: 3, compress: false });

    // the stdout file is over the limit, the stderr file is missing
    let (out_plan, err_plan) = manager.rotate_if_needed(Some(36_000), None);
    assert!(err_plan.is_none());
    let plan = out_plan.unwrap();
    assert_eq!(
        plan.renames,
        vec![
            ("/logs/out.log.2".to_string(), "/logs/out.log.3".to_string()),
            ("/logs/out.log.1".to_string(), "/logs/out.log.2".to_string()),
            ("/logs/out.log".to_string(), "/logs/out.log.1".to_string()),
        ]
    );
    assert_eq!(plan.fresh, "/logs/out.log");
    assert_eq!(plan.delete, "/logs/out.log.4");

    // under the limit nothing rotates
    let (out_plan, _) = manager.rotate_if_needed(Some(999), None);
    assert!(out_plan.is_none());
}

#[test]
fn test_combined_logs_sections() {
    let manager = LogManager::new("/logs/out.log".to_string(), "/logs/error.log".to_string());
    let out = vec!["ready".to_string()];
    let err = vec!["oops".to_string()];
    let text = manager.get_combined_logs(&out, &err, 20);
    assert_eq!(text, "=== stdout ===\nready\n\n=== stderr ===\noops\n");
}

#[test]
fn test_log_dir() {
    let manager = LogManager::new("/data/bpm/logs/x/out.log".to_string(), "e".to_string());
    assert_eq!(manager.log_dir(), Some("/data/bpm/logs/x".to_string()));
    let bare = LogManager::new("out.log".to_string(), "e".to_string());
    assert_eq!(bare.log_dir(), None);
}

#[test]
fn test_next_read_position() {
    assert_eq!(next_read_position(500, 1000), 500);
    assert_eq!(next_read_position(500, 500), 500);
    // a shrunken file means the log rotated: start over
    assert_eq!(next_read_position(500, 499), 0);
}

#[test]
fn test_parse_logs_arg_forms() {
    let (name, lines) = parse_logs_arg("web:50:false");
    assert_eq!(name, "web");
    assert_eq!(lines, 50);

    let (name, lines) = parse_logs_arg("web");
    assert_eq!(name, "web");
    assert_eq!(lines, 20);

    let (name, lines) = parse_logs_arg("web:nonsense:true");
    assert_eq!(name, "web");
    assert_eq!(lines, 20);
}

#[test]
fn test_logs_reply_sections() {
    let out = vec!["hello".to_string()];
    let err: Vec<String> = Vec::new();
    let text = logs_reply("echo-process", &Some(out), &Some(err));
    assert!(text.contains("=== echo-process stdout ===\nhello\n"));
    assert!(text.contains("=== echo-process stderr ===\n"));

    let none = logs_reply("ghost", &None, &None);
    assert_eq!(none, "No logs found for: ghost");
}

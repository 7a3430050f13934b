use bpm::process_manager::process::{
    collect_descendants, combined_usage, ProcessEntry, ProcessError, ProcessTable,
};

fn entry(pid: u32, parent: Option<u32>, cpu_usage: u64, memory: u64) -> ProcessEntry {
    ProcessEntry { pid, parent, cpu_usage, memory }
}

fn sample_table() -> ProcessTable {
    ProcessTable {
        entries: vec![
            entry(1, None, 1, 10),
            entry(100, Some(1), 20, 1000),
            entry(101, Some(100), 30, 2000),
            entry(102, Some(100), 40, 4000),
            entry(200, Some(1), 50, 8000),
            entry(201, Some(102), 60, 16000),
        ],
    }
}

#[test]
fn test_collect_descendants_invalid_pid() {
    let result = collect_descendants(&sample_table(), 999999);
    assert!(result.is_err());
    assert_eq!(result.unwrap_err(), ProcessError::InvalidPid(999999));
}

#[test]
fn test_collect_descendants_tree() {
    let result = collect_descendants(&sample_table(), 100).unwrap();
    assert_eq!(result, vec![100, 101, 102, 201]);
}

#[test]
fn test_collect_descendants_self_only() {
    // a leaf process has no descendants beyond itself
    let result = collect_descendants(&sample_table(), 200).unwrap();
    assert!(!result.is_empty());
    assert!(result.contains(&200));
    assert_eq!(result, vec![200]);
}

#[test]
fn test_combined_usage_invalid_pid() {
    let result = combined_usage(&sample_table(), 999999);
    assert!(result.is_err());
}

#[test]
fn test_combined_usage_sums_subtree() {
    let (cpu, mem) = combined_usage(&sample_table(), 100).unwrap();
    assert_eq!(cpu, 20 + 30 + 40 + 60);
    assert_eq!(mem, 1000 + 2000 + 4000 + 16000);
    // memory might be zero for a subtree of idle entries, but the root's
    // own figures always count
    let (cpu, mem) = combined_usage(&sample_table(), 201).unwrap();
    assert!(cpu > 0);
    assert!(mem > 0);
}

#[test]
fn test_combined_usage_saturates() {
    let table = ProcessTable {
        entries: vec![entry(1, None, u64::MAX, u64::MAX), entry(2, Some(1), 10, 10)],
    };
    let (cpu, mem) = combined_usage(&table, 1).unwrap();
    assert_eq!(cpu, u64::MAX);
    assert_eq!(mem, u64::MAX);
}

#[test]
fn test_process_error_message() {
    assert_eq!(ProcessError::InvalidPid(7).message(), "provided pid was invalid");
}

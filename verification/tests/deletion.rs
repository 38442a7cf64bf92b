use disk_cleanup_tool::deletion::{
    calculate_dir_size, confirmation_step, delete_directories, report_step, ConfirmKey,
    ConfirmStep, DeletionAttempt, DeletionReport, ReportKey, ReportStep,
};
use disk_cleanup_tool::scanner::{WalkEntry, WalkKind};

fn attempt(path: &str, size: u64, failure: Option<&str>) -> DeletionAttempt {
    DeletionAttempt {
        path: path.to_string(),
        size_bytes: size,
        failure: failure.map(|s| s.to_string()),
    }
}

#[test]
fn test_delete_directories() {
    let attempts = vec![attempt("/root/dir1", 7, None), attempt("/root/dir2", 7, None)];

    let report = delete_directories(&attempts).unwrap();

    assert_eq!(report.successful.len(), 2);
    assert_eq!(report.failed.len(), 0);
    assert!(report.total_freed_bytes > 0);
    assert_eq!(report.total_freed_bytes, 14);
    assert_eq!(report.successful, vec!["/root/dir1".to_string(), "/root/dir2".to_string()]);
}

#[test]
fn test_delete_nonexistent_directory() {
    let attempts = vec![attempt("/nonexistent/path", 0, Some("No such file or directory"))];

    let report = delete_directories(&attempts).unwrap();

    assert_eq!(report.successful.len(), 0);
    assert_eq!(report.failed.len(), 1);
    assert_eq!(
        report.failed[0],
        ("/nonexistent/path".to_string(), "No such file or directory".to_string())
    );
    assert_eq!(report.total_freed_bytes, 0);
}

#[test]
fn test_calculate_dir_size() {
    let walk = vec![
        WalkEntry { path: "/root".to_string(), kind: WalkKind::Dir, size: Some(4096) },
        WalkEntry { path: "/root/file1.txt".to_string(), kind: WalkKind::File, size: Some(5) },
        WalkEntry { path: "/root/file2.txt".to_string(), kind: WalkKind::File, size: Some(5) },
    ];
    let size = calculate_dir_size(&walk);
    assert_eq!(size, 10); // "hello" + "world"
}

#[test]
fn a_failure_does_not_end_the_batch() {
    let attempts = vec![
        attempt("/a", 3, None),
        attempt("/b", 50, Some("Permission denied")),
        attempt("/c", 4, None),
    ];
    let report = delete_directories(&attempts).unwrap();
    assert_eq!(report.successful, vec!["/a".to_string(), "/c".to_string()]);
    assert_eq!(report.failed, vec![("/b".to_string(), "Permission denied".to_string())]);
    assert_eq!(report.total_freed_bytes, 7);
    assert_eq!(report.successful.len() + report.failed.len(), attempts.len());
}

#[test]
fn a_report_grows_one_attempt_at_a_time() {
    let mut report = DeletionReport::new();
    assert_eq!(report.total_freed_bytes, 0);
    report.record(&attempt("/a", 9, None));
    report.record(&attempt("/b", 1, Some("busy")));
    assert_eq!(report.successful, vec!["/a".to_string()]);
    assert_eq!(report.failed.len(), 1);
    assert_eq!(report.total_freed_bytes, 9);
}

#[test]
fn confirmation_answers_and_scrolls() {
    assert_eq!(confirmation_step(ConfirmKey::Yes, 2, 5), ConfirmStep::Answer(true));
    assert_eq!(confirmation_step(ConfirmKey::No, 2, 5), ConfirmStep::Answer(false));
    assert_eq!(confirmation_step(ConfirmKey::Up, 2, 5), ConfirmStep::Stay(1));
    assert_eq!(confirmation_step(ConfirmKey::Up, 0, 5), ConfirmStep::Stay(0));
    assert_eq!(confirmation_step(ConfirmKey::Down, 4, 5), ConfirmStep::Stay(4));
    assert_eq!(confirmation_step(ConfirmKey::Down, 3, 5), ConfirmStep::Stay(4));
    assert_eq!(confirmation_step(ConfirmKey::PageUp, 12, 50), ConfirmStep::Stay(2));
    assert_eq!(confirmation_step(ConfirmKey::PageDown, 12, 50), ConfirmStep::Stay(22));
    assert_eq!(confirmation_step(ConfirmKey::PageDown, 45, 50), ConfirmStep::Stay(49));
    assert_eq!(confirmation_step(ConfirmKey::Other, 2, 5), ConfirmStep::Stay(2));
}

#[test]
fn report_closes_and_scrolls() {
    assert_eq!(report_step(ReportKey::Close, 2, 5), ReportStep::Close);
    assert_eq!(report_step(ReportKey::Up, 2, 5), ReportStep::Stay(1));
    assert_eq!(report_step(ReportKey::Down, 2, 5), ReportStep::Stay(3));
    assert_eq!(report_step(ReportKey::Down, 0, 0), ReportStep::Stay(0));
    assert_eq!(report_step(ReportKey::PageUp, 2, 5), ReportStep::Stay(0));
    assert_eq!(report_step(ReportKey::PageDown, 2, 5), ReportStep::Stay(4));
    assert_eq!(report_step(ReportKey::Other, 2, 5), ReportStep::Stay(2));
}

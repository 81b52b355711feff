use savhub::model::SecurityStatus;
use savhub::worker::{
    ai_scan_enabled, auto_index_message, due_for_check, recovered_message, remote_ref,
    scan_pick_step, status_after_static_scan, task_count, ScanPickStep,
};

#[test]
fn worker_configuration() {
    assert_eq!(task_count(0), 1);
    assert_eq!(task_count(4), 4);
    assert!(ai_scan_enabled(true, true, true));
    assert!(!ai_scan_enabled(true, false, true));
    assert_eq!(recovered_message(), "Queued (recovered after restart)");
    assert_eq!(auto_index_message(), "Queued (auto-index)");
}

#[test]
fn repositories_due_for_a_commit_check() {
    assert!(due_for_check(None, 3600, 10_000, false));
    assert!(!due_for_check(None, 3600, 10_000, true));
    assert!(due_for_check(Some(1000), 3600, 10_000, false));
    assert!(!due_for_check(Some(7000), 3600, 10_000, false));
    assert!(!due_for_check(Some(6400), 3600, 10_000, false));
    assert!(due_for_check(Some(i64::MIN), i64::MAX, i64::MAX, false));
    assert_eq!(remote_ref(None), "HEAD");
    assert_eq!(remote_ref(Some("main")), "main");
}

#[test]
fn static_scan_results() {
    assert_eq!(status_after_static_scan(Some(true), "unscanned"), Some(SecurityStatus::Checked));
    assert_eq!(status_after_static_scan(Some(true), "verified"), None);
    assert_eq!(status_after_static_scan(Some(false), "verified"), Some(SecurityStatus::Checked));
    assert_eq!(status_after_static_scan(None, "unscanned"), None);
    assert_eq!(scan_pick_step(true, true, true), ScanPickStep::Scan);
    assert_eq!(scan_pick_step(true, false, true), ScanPickStep::FromStart);
    assert_eq!(scan_pick_step(true, false, false), ScanPickStep::Wait);
    assert_eq!(scan_pick_step(false, true, true), ScanPickStep::Wait);
}

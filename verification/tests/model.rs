use savhub::model::{
    resolve_latest_skill_version,
    default_git_ref, default_git_subdir, moderation_status_to_str, parse_index_job_status,
    parse_moderation_status, parse_reason, parse_report_status, parse_status, parse_target_type,
    parse_visibility, reason_to_str, report_status_to_str, status_to_str, target_type_to_str,
    user_role_to_str, visibility_to_str, IndexJobStatus, LlmScanResult, ModerationStatus,
    RegistryStatus, RegistryVisibility, ReportReason, ReportStatus, ReportTargetType, ScanVerdict,
    SecurityStatus, UserRole, VersionScanSummary, VtScanResult,
};

fn vt(verdict: ScanVerdict) -> VtScanResult {
    VtScanResult {
        verdict,
        status: "done".to_string(),
        analysis: None,
        report_url: None,
        checked_at: None,
    }
}

fn llm(verdict: ScanVerdict) -> LlmScanResult {
    LlmScanResult {
        verdict,
        status: "done".to_string(),
        confidence: None,
        model: None,
        summary: None,
        guidance: None,
        dimensions: vec![],
        checked_at: None,
    }
}

fn summary(a: Option<ScanVerdict>, b: Option<ScanVerdict>) -> VersionScanSummary {
    VersionScanSummary {
        sha256: None,
        virustotal: a.map(vt),
        llm_analysis: b.map(llm),
        static_scan: None,
    }
}

#[test]
fn worst_verdict_wins() {
    let (b, s, m, p) = (ScanVerdict::Benign, ScanVerdict::Suspicious, ScanVerdict::Malicious, ScanVerdict::Pending);
    assert_eq!(summary(Some(b), Some(m)).overall_verdict(), m);
    assert_eq!(summary(Some(s), Some(b)).overall_verdict(), s);
    assert_eq!(summary(Some(b), Some(b)).overall_verdict(), b);
    assert_eq!(summary(Some(b), None).overall_verdict(), p);
    assert_eq!(summary(None, None).overall_verdict(), p);
}

#[test]
fn verdict_labels_and_defaults() {
    assert_eq!(ScanVerdict::Suspicious.label(), "Suspicious");
    assert_eq!(ScanVerdict::default(), ScanVerdict::Pending);
    assert_eq!(SecurityStatus::default(), SecurityStatus::Unscanned);
    assert_eq!(default_git_ref(), "main");
    assert_eq!(default_git_subdir(), ".");
}

#[test]
fn stored_text_round_trips() {
    for s in [ModerationStatus::Active, ModerationStatus::Hidden, ModerationStatus::Removed] {
        assert_eq!(parse_moderation_status(moderation_status_to_str(s)), s);
    }
    for t in [ReportTargetType::Skill, ReportTargetType::Flock, ReportTargetType::Comment, ReportTargetType::User] {
        assert_eq!(parse_target_type(target_type_to_str(t)), t);
    }
    for r in [ReportReason::Spam, ReportReason::Abuse, ReportReason::Inappropriate, ReportReason::Copyright, ReportReason::Other] {
        assert_eq!(parse_reason(reason_to_str(r)), r);
    }
    for s in [ReportStatus::Pending, ReportStatus::Reviewed, ReportStatus::Resolved, ReportStatus::Dismissed] {
        assert_eq!(parse_report_status(report_status_to_str(s)), s);
    }
    for v in [RegistryVisibility::Public, RegistryVisibility::Unlisted, RegistryVisibility::Private] {
        assert_eq!(parse_visibility(visibility_to_str(v)), v);
    }
    for g in [RegistryStatus::Draft, RegistryStatus::Active, RegistryStatus::Experimental, RegistryStatus::Deprecated, RegistryStatus::Archived] {
        assert_eq!(parse_status(status_to_str(g)), g);
    }
}

#[test]
fn unknown_text_reads_as_default() {
    assert_eq!(parse_moderation_status("?"), ModerationStatus::Active);
    assert_eq!(parse_target_type("?"), ReportTargetType::Skill);
    assert_eq!(parse_reason("?"), ReportReason::Other);
    assert_eq!(parse_report_status("?"), ReportStatus::Pending);
    assert_eq!(parse_visibility("?"), RegistryVisibility::Public);
    assert_eq!(parse_status("?"), RegistryStatus::Active);
    assert_eq!(parse_index_job_status("superseded"), IndexJobStatus::Superseded);
    assert_eq!(parse_index_job_status("?"), IndexJobStatus::Pending);
    assert_eq!(user_role_to_str(UserRole::Moderator), "moderator");
}

#[test]
fn latest_version_is_the_named_one_or_the_first() {
    assert_eq!(resolve_latest_skill_version(Some(7), &vec![3, 7, 7]), Some(1));
    assert_eq!(resolve_latest_skill_version(Some(9), &vec![3, 7]), Some(0));
    assert_eq!(resolve_latest_skill_version(None, &vec![3, 7]), Some(0));
    assert_eq!(resolve_latest_skill_version(Some(3), &vec![]), None);
}

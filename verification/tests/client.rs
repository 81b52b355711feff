use savhub::client::{
    index_submission_url, job_fetch_offset, job_icon_class, jobs_to_append, IndexInputError,
    index_step_thresholds, job_status_class, step_class,
    append_progress_message, friendly_error, github_login_url, history_kind, next_reconnect_delay,
    progress_socket_url, relative_age, repo_route_parts, security_badge_modifier, subscribe_message,
    token_option, FriendlyError, HistoryKind, RelativeAge, rule_list_step, RuleListAction,
    RuleListEvent, RuleListState,
};
use savhub::model::{IndexJobStatus, SecurityStatus};

#[test]
fn friendly_error_classifies_messages() {
    assert_eq!(friendly_error("HTTP 401 Unauthorized"), FriendlyError::SessionExpired);
    assert_eq!(friendly_error("403 Forbidden"), FriendlyError::NoPermission);
    assert_eq!(friendly_error("status 404"), FriendlyError::NotFound);
    assert_eq!(friendly_error("request timeout"), FriendlyError::Timeout);
    assert_eq!(friendly_error("NetworkError when attempting to fetch"), FriendlyError::Network);
    assert_eq!(friendly_error("status 502 bad gateway"), FriendlyError::Server);
    assert_eq!(friendly_error("Skill name already taken"), FriendlyError::Message);
    assert_eq!(friendly_error("Error: something at line"), FriendlyError::Unexpected);
    assert_eq!(friendly_error("lowercase start"), FriendlyError::Unexpected);
    assert_eq!(friendly_error(""), FriendlyError::Unexpected);
    let long = format!("A{}", "x".repeat(250));
    assert_eq!(friendly_error(&long), FriendlyError::Unexpected);
}

#[test]
fn relative_age_buckets() {
    assert_eq!(relative_age(0), RelativeAge::JustNow);
    assert_eq!(relative_age(59), RelativeAge::JustNow);
    assert_eq!(relative_age(60), RelativeAge::Minutes(1));
    assert_eq!(relative_age(3599), RelativeAge::Minutes(59));
    assert_eq!(relative_age(7200), RelativeAge::Hours(2));
    assert_eq!(relative_age(86400 * 3), RelativeAge::Days(3));
    assert_eq!(relative_age(86400 * 65), RelativeAge::Months(2));
    assert_eq!(relative_age(86400 * 800), RelativeAge::Years(2));
}

#[test]
fn token_option_trims() {
    assert_eq!(token_option("  abc  "), Some("abc".to_string()));
    assert_eq!(token_option("   "), None);
    assert_eq!(token_option(""), None);
}

#[test]
fn badge_modifiers() {
    assert_eq!(security_badge_modifier(&SecurityStatus::Verified), "sb-verified");
    assert_eq!(security_badge_modifier(&SecurityStatus::Malicious), "sb-malicious");
    assert_eq!(security_badge_modifier(&SecurityStatus::Unscanned), "sb-unscanned");
}

#[test]
fn repo_route_parts_split_on_first_two_slashes() {
    assert_eq!(
        repo_route_parts("github.com/owner/repo"),
        ("github.com".to_string(), "owner".to_string(), "repo".to_string())
    );
    assert_eq!(
        repo_route_parts("github.com/owner/repo/extra"),
        ("github.com".to_string(), "owner".to_string(), "repo/extra".to_string())
    );
    assert_eq!(
        repo_route_parts("github.com/owner"),
        ("github.com".to_string(), "owner".to_string(), String::new())
    );
    assert_eq!(repo_route_parts("solo"), ("solo".to_string(), String::new(), String::new()));
}

#[test]
fn history_kinds() {
    assert_eq!(history_kind("skill"), HistoryKind::Skill);
    assert_eq!(history_kind("repo"), HistoryKind::Repo);
    assert_eq!(history_kind("flock"), HistoryKind::Flock);
    assert_eq!(history_kind("Skill"), HistoryKind::Other);
}

#[test]
fn login_url_appends_return_to() {
    assert_eq!(
        github_login_url("http://localhost:5006/api/v1/", None),
        "http://localhost:5006/api/v1/auth/github/start"
    );
    assert_eq!(
        github_login_url("http://localhost:5006/api/v1", Some("http://localhost:5006/a b")),
        "http://localhost:5006/api/v1/auth/github/start?return_to=http%3A%2F%2Flocalhost%3A5006%2Fa+b"
    );
    assert_eq!(github_login_url("not a url", None), "not a url/auth/github/start");
}

#[test]
fn reconnect_backoff_doubles_up_to_thirty_seconds() {
    assert_eq!(next_reconnect_delay(1000), 2000);
    assert_eq!(next_reconnect_delay(14999), 29998);
    assert_eq!(next_reconnect_delay(15000), 30000);
    assert_eq!(next_reconnect_delay(30000), 30000);
}

#[test]
fn subscribe_message_format() {
    assert_eq!(subscribe_message("abc"), r#"{"action":"subscribe","job_id":"abc"}"#);
}

#[test]
fn progress_messages_skip_repeats_and_empties() {
    let mut log: Vec<String> = Vec::new();
    append_progress_message(&mut log, "cloning");
    append_progress_message(&mut log, "cloning");
    append_progress_message(&mut log, "");
    append_progress_message(&mut log, "scanning");
    append_progress_message(&mut log, "cloning");
    assert_eq!(log, vec!["cloning", "scanning", "cloning"]);
}

#[test]
fn socket_url_from_origin() {
    assert_eq!(progress_socket_url("https://savhub.ai"), "wss://savhub.ai/api/v1/ws");
    assert_eq!(progress_socket_url("http://localhost:5006"), "ws://localhost:5006/api/v1/ws");
    assert_eq!(progress_socket_url("file://x"), "file://x/api/v1/ws");
}

#[test]
fn index_progress_steps() {
    assert_eq!(job_status_class("completed"), "pill badge-verified");
    assert_eq!(job_status_class("failed"), "pill badge-rejected");
    assert_eq!(job_status_class("running"), "pill badge-scanning");
    assert_eq!(job_status_class("pending"), "pill");
    assert_eq!(index_step_thresholds(), vec![0, 10, 30, 50, 70, 95, 100]);
    assert_eq!(step_class(50, 30), "scan-step done");
    assert_eq!(step_class(50, 50), "scan-step active");
    assert_eq!(step_class(50, 70), "scan-step");
}

#[test]
fn index_page_submission_and_job_list() {
    assert_eq!(index_submission_url("tok", " acme/skills "), Ok("https://github.com/acme/skills".to_string()));
    assert_eq!(
        index_submission_url("tok", "https://gitlab.com/a/b"),
        Ok("https://gitlab.com/a/b".to_string())
    );
    assert_eq!(index_submission_url("tok", "git@github.com:a/b"), Ok("git@github.com:a/b".to_string()));
    assert_eq!(index_submission_url("  ", "acme/skills"), Err(IndexInputError::NotSignedIn));
    assert_eq!(index_submission_url("tok", "   "), Err(IndexInputError::MissingUrl));
    assert_eq!(job_icon_class(IndexJobStatus::Superseded), "scan-job-icon failed");
    assert_eq!(job_icon_class(IndexJobStatus::Pending), "scan-job-icon pending");
    assert_eq!(job_fetch_offset(true, 12), 12);
    assert_eq!(job_fetch_offset(false, 12), 0);
    assert_eq!(jobs_to_append(&vec![1, 2], &vec![2, 3, 3, 4, 1]), vec![1, 3]);
}

#[test]
fn rule_list_fetches_pages_in_turn_and_drops_stale_ones() {
    let s0 = RuleListState { generation: 0, loading: false, item_count: 5, has_more: false };
    // A new search starts over and fetches from the start.
    let (s1, a1) = rule_list_step(s0, RuleListEvent::Reset);
    assert_eq!(s1, RuleListState { generation: 1, loading: true, item_count: 0, has_more: true });
    assert_eq!(a1, RuleListAction::Fetch { offset: 0, generation: 1 });
    // No second request while one is loading.
    let (s2, a2) = rule_list_step(s1, RuleListEvent::NearBottom);
    assert_eq!((s2, a2), (s1, RuleListAction::Nothing));
    // The page arrives.
    let (s3, a3) = rule_list_step(
        s2,
        RuleListEvent::Loaded { generation: 1, append: false, count: 20, more: true },
    );
    assert_eq!(s3, RuleListState { generation: 1, loading: false, item_count: 20, has_more: true });
    assert_eq!(a3, RuleListAction::Apply { append: false });
    // Scrolling fetches the page after the rules shown.
    let (s4, a4) = rule_list_step(s3, RuleListEvent::NearBottom);
    assert_eq!(a4, RuleListAction::Fetch { offset: 20, generation: 1 });
    // A page for an older search is dropped.
    let (s5, a5) = rule_list_step(
        s4,
        RuleListEvent::Loaded { generation: 0, append: true, count: 20, more: true },
    );
    assert_eq!(a5, RuleListAction::Nothing);
    assert_eq!(s5, RuleListState { generation: 1, loading: false, item_count: 20, has_more: true });
    // A failure stops the scrolling.
    let (s6, a6) = rule_list_step(s5, RuleListEvent::Failed);
    assert_eq!(a6, RuleListAction::ShowError);
    assert!(!s6.has_more);
    let (_, a7) = rule_list_step(s6, RuleListEvent::NearBottom);
    assert_eq!(a7, RuleListAction::Nothing);
}

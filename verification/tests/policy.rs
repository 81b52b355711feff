use savhub::error::AppError;
use savhub::model::{IndexJobStatus, UserRole};
use savhub::policy::{
    cancellation_message, check_ban, check_block, check_cancellable, check_no_pending_report,
    check_report_pending, check_role_change, check_unblock, comment_body, ensure_skill_visible,
    index_rule_conflict_message, prepare_index_rule, prepare_repo_request, repo_conflict_message,
    require_moderation_access, validate_rating_score, viewer_is_admin, viewer_is_staff,
};

fn bad(m: &str) -> AppError {
    AppError::BadRequest(m.to_string())
}

fn conflict(m: &str) -> AppError {
    AppError::Conflict(m.to_string())
}

#[test]
fn staff_and_admin_viewers() {
    assert!(viewer_is_staff(Some(UserRole::Admin)));
    assert!(viewer_is_staff(Some(UserRole::Moderator)));
    assert!(!viewer_is_staff(Some(UserRole::User)));
    assert!(!viewer_is_staff(None));
    assert!(viewer_is_admin(Some(UserRole::Admin)));
    assert!(!viewer_is_admin(Some(UserRole::Moderator)));
    assert!(!viewer_is_admin(None));
}

#[test]
fn hidden_skills_are_reported_missing_to_non_staff() {
    let missing = Err(AppError::NotFound("skill `demo` does not exist".to_string()));
    assert_eq!(ensure_skill_visible("demo", false, "active", None), Ok(()));
    assert_eq!(ensure_skill_visible("demo", true, "active", None), missing);
    assert_eq!(ensure_skill_visible("demo", false, "removed", Some(UserRole::User)), missing);
    assert_eq!(ensure_skill_visible("demo", false, "hidden", None), missing);
    assert_eq!(ensure_skill_visible("demo", true, "hidden", Some(UserRole::Moderator)), Ok(()));
    assert_eq!(ensure_skill_visible("demo", false, "removed", Some(UserRole::Admin)), Ok(()));
}

#[test]
fn comments_and_ratings() {
    assert_eq!(comment_body("  nice skill \n"), Ok("nice skill".to_string()));
    assert_eq!(comment_body("   "), Err(bad("comment body is required")));
    assert_eq!(validate_rating_score(1), Ok(()));
    assert_eq!(validate_rating_score(10), Ok(()));
    assert_eq!(validate_rating_score(0), Err(bad("score must be between 1 and 10")));
    assert_eq!(validate_rating_score(11), Err(bad("score must be between 1 and 10")));
}

#[test]
fn moderation_and_roles() {
    assert_eq!(require_moderation_access(UserRole::Moderator), Ok(()));
    assert_eq!(
        require_moderation_access(UserRole::User),
        Err(AppError::Forbidden("moderator or admin access required".to_string()))
    );
    assert_eq!(
        check_role_change(7, 7, UserRole::User),
        Err(conflict("you cannot remove your own admin role"))
    );
    assert_eq!(check_role_change(7, 7, UserRole::Admin), Ok(()));
    assert_eq!(check_role_change(7, 8, UserRole::User), Ok(()));
    assert_eq!(
        check_ban(1, UserRole::Admin, 1, UserRole::Admin),
        Err(conflict("you cannot ban yourself"))
    );
    assert_eq!(
        check_ban(1, UserRole::Moderator, 2, UserRole::Admin),
        Err(AppError::Forbidden("only an admin may ban another admin".to_string()))
    );
    assert_eq!(check_ban(1, UserRole::Admin, 2, UserRole::Admin), Ok(()));
    assert_eq!(check_ban(1, UserRole::Moderator, 2, UserRole::User), Ok(()));
}

#[test]
fn jobs_reports_and_blocks() {
    assert_eq!(check_cancellable(IndexJobStatus::Pending), Ok(()));
    assert_eq!(check_cancellable(IndexJobStatus::Running), Ok(()));
    assert_eq!(
        check_cancellable(IndexJobStatus::Completed),
        Err(conflict("cannot cancel job with status Completed"))
    );
    assert_eq!(cancellation_message("alice"), "Cancelled by @alice");
    assert_eq!(check_report_pending("pending"), Ok(()));
    assert_eq!(check_report_pending("dismissed"), Err(conflict("report has already been reviewed")));
    assert_eq!(check_no_pending_report(false), Ok(()));
    assert_eq!(
        check_no_pending_report(true),
        Err(conflict("you already have a pending report for this target"))
    );
    assert_eq!(check_block(false), Ok(()));
    assert_eq!(check_block(true), Err(conflict("flock is already blocked")));
    assert_eq!(check_unblock(true), Ok(()));
    assert_eq!(check_unblock(false), Err(AppError::NotFound("flock is not blocked".to_string())));
}

#[test]
fn index_rules_and_repositories() {
    assert_eq!(
        prepare_index_rule("git@github.com:org/repo", "skills"),
        Ok("https://github.com/org/repo.git".to_string())
    );
    assert_eq!(prepare_index_rule("  ", "skills"), Err(bad("repo_url is required")));
    assert_eq!(prepare_index_rule("github.com/org/repo", " "), Err(bad("strategy is required")));
    assert_eq!(
        index_rule_conflict_message("https://github.com/org/repo.git", ".*"),
        "index rule for `https://github.com/org/repo.git` path `.*` already exists"
    );
    assert_eq!(
        prepare_repo_request("http://github.com/org/repo/"),
        Ok((
            "https://github.com/org/repo.git".to_string(),
            "github.com".to_string(),
            "org/repo".to_string()
        ))
    );
    assert_eq!(prepare_repo_request(""), Err(bad("git_url is required")));
    assert_eq!(
        prepare_repo_request("https://github.com"),
        Err(bad("could not parse domain and path from git_url"))
    );
    assert_eq!(
        repo_conflict_message("github.com", "org/repo"),
        "repo `github.com/org/repo` already exists"
    );
}

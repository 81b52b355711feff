//! Who may see and change what, and the checks requests pass before anything is stored.
use vstd::prelude::*;

use crate::error::{error_view, AppError, ErrorKind};
use crate::git_url::{git_url_parts, normalize_git_url, normalized_git_url, parse_git_url_parts};
use crate::json::str_eq;
use crate::model::{IndexJobStatus, UserRole};
use crate::text::{chars_of, concat, string_of, trim, trim_vec};

verus! {

/// Whether a viewer of this role is staff: an admin or a moderator.
pub open spec fn is_staff(role: Option<UserRole>) -> bool {
    role == Some(UserRole::Admin) || role == Some(UserRole::Moderator)
}

/// Whether the viewer (by role; `None` for an anonymous viewer) is staff.
pub fn viewer_is_staff(viewer: Option<UserRole>) -> (r: bool)
    ensures
        r == is_staff(viewer),
{
    match viewer {
        Some(UserRole::Admin) | Some(UserRole::Moderator) => true,
        _ => false,
    }
}

/// Whether the viewer (by role; `None` for an anonymous viewer) is an admin.
pub fn viewer_is_admin(viewer: Option<UserRole>) -> (r: bool)
    ensures
        r == (viewer == Some(UserRole::Admin)),
{
    match viewer {
        Some(UserRole::Admin) => true,
        _ => false,
    }
}

fn joined3(a: &str, b: &str, c: &str) -> (r: String)
    ensures
        r@ == a@ + b@ + c@,
{
    string_of(&concat(&concat(&chars_of(a), &chars_of(b)), &chars_of(c)))
}

/// The message for a skill a viewer may not see.
pub open spec fn missing_skill_message(slug: Seq<char>) -> Seq<char> {
    "skill `"@ + slug + "` does not exist"@
}

/// Whether a viewer may see a skill: staff see everything; others do not see a skill
/// that is deleted, removed or hidden.
pub open spec fn skill_visible(soft_deleted: bool, moderation_status: Seq<char>, viewer: Option<
    UserRole,
>) -> bool {
    is_staff(viewer) || !(soft_deleted || moderation_status == "removed"@ || moderation_status
        == "hidden"@)
}

/// Checks that a viewer may see the skill `slug`; a skill they may not see is reported
/// as not existing.
pub fn ensure_skill_visible(
    slug: &str,
    soft_deleted: bool,
    moderation_status: &str,
    viewer: Option<UserRole>,
) -> (r: Result<(), AppError>)
    ensures
        r is Ok <==> skill_visible(soft_deleted, moderation_status@, viewer),
        r matches Err(e) ==> error_view(e) == (ErrorKind::NotFound, missing_skill_message(slug@)),
{
    let can_view_hidden = viewer_is_staff(viewer);
    if (soft_deleted || str_eq(moderation_status, "removed")) && !can_view_hidden {
        return Err(AppError::NotFound(joined3("skill `", slug, "` does not exist")));
    }
    if str_eq(moderation_status, "hidden") && !can_view_hidden {
        return Err(AppError::NotFound(joined3("skill `", slug, "` does not exist")));
    }
    Ok(())
}

/// The body of a new comment: trimmed, and refused when blank.
pub fn comment_body(body: &str) -> (r: Result<String, AppError>)
    ensures
        match r {
            Ok(b) => trim(body@).len() > 0 && b@ == trim(body@),
            Err(e) => trim(body@).len() == 0 && error_view(e) == (
                ErrorKind::BadRequest,
                "comment body is required"@,
            ),
        },
{
    let t = trim_vec(&chars_of(body));
    if t.len() == 0 {
        return Err(AppError::BadRequest("comment body is required".to_string()));
    }
    Ok(string_of(&t))
}

/// Checks a flock rating: scores run from 1 to 10.
pub fn validate_rating_score(score: i16) -> (r: Result<(), AppError>)
    ensures
        r is Ok <==> 1 <= score <= 10,
        r matches Err(e) ==> error_view(e) == (
            ErrorKind::BadRequest,
            "score must be between 1 and 10"@,
        ),
{
    if score < 1 || score > 10 {
        return Err(AppError::BadRequest("score must be between 1 and 10".to_string()));
    }
    Ok(())
}

/// Checks that a role may review reports: staff only.
pub fn require_moderation_access(role: UserRole) -> (r: Result<(), AppError>)
    ensures
        r is Ok <==> is_staff(Some(role)),
        r matches Err(e) ==> error_view(e) == (
            ErrorKind::Forbidden,
            "moderator or admin access required"@,
        ),
{
    match role {
        UserRole::Admin | UserRole::Moderator => Ok(()),
        UserRole::User => Err(
            AppError::Forbidden("moderator or admin access required".to_string()),
        ),
    }
}

/// Checks a role change: an admin may not take away their own admin role.
pub fn check_role_change(actor_id: u128, target_id: u128, new_role: UserRole) -> (r: Result<
    (),
    AppError,
>)
    ensures
        r is Ok <==> !(actor_id == target_id && new_role != UserRole::Admin),
        r matches Err(e) ==> error_view(e) == (
            ErrorKind::Conflict,
            "you cannot remove your own admin role"@,
        ),
{
    if actor_id == target_id && new_role != UserRole::Admin {
        return Err(AppError::Conflict("you cannot remove your own admin role".to_string()));
    }
    Ok(())
}

/// Why a ban is refused, if it is: nobody bans themselves, and only an admin bans an
/// admin.
pub open spec fn ban_refusal(
    actor_id: u128,
    actor_role: UserRole,
    target_id: u128,
    target_role: UserRole,
) -> Option<(ErrorKind, Seq<char>)> {
    if actor_id == target_id {
        Some((ErrorKind::Conflict, "you cannot ban yourself"@))
    } else if target_role == UserRole::Admin && actor_role != UserRole::Admin {
        Some((ErrorKind::Forbidden, "only an admin may ban another admin"@))
    } else {
        None
    }
}

/// Checks a ban of the user `target_id` by the user `actor_id`.
pub fn check_ban(actor_id: u128, actor_role: UserRole, target_id: u128, target_role: UserRole) -> (r:
    Result<(), AppError>)
    ensures
        match r {
            Ok(_) => ban_refusal(actor_id, actor_role, target_id, target_role) is None,
            Err(e) => ban_refusal(actor_id, actor_role, target_id, target_role) == Some(
                error_view(e),
            ),
        },
{
    if actor_id == target_id {
        return Err(AppError::Conflict("you cannot ban yourself".to_string()));
    }
    if target_role == UserRole::Admin && actor_role != UserRole::Admin {
        return Err(AppError::Forbidden("only an admin may ban another admin".to_string()));
    }
    Ok(())
}

/// The name an index job state is written with in messages.
pub open spec fn job_status_name(s: IndexJobStatus) -> Seq<char> {
    match s {
        IndexJobStatus::Pending => "Pending"@,
        IndexJobStatus::Running => "Running"@,
        IndexJobStatus::Completed => "Completed"@,
        IndexJobStatus::Failed => "Failed"@,
        IndexJobStatus::Superseded => "Superseded"@,
    }
}

fn job_status_name_of(s: IndexJobStatus) -> (r: &'static str)
    ensures
        r@ == job_status_name(s),
{
    match s {
        IndexJobStatus::Pending => "Pending",
        IndexJobStatus::Running => "Running",
        IndexJobStatus::Completed => "Completed",
        IndexJobStatus::Failed => "Failed",
        IndexJobStatus::Superseded => "Superseded",
    }
}

/// Checks that an index job can be cancelled: only pending and running jobs can.
pub fn check_cancellable(status: IndexJobStatus) -> (r: Result<(), AppError>)
    ensures
        r is Ok <==> (status == IndexJobStatus::Pending || status == IndexJobStatus::Running),
        r matches Err(e) ==> error_view(e) == (
            ErrorKind::Conflict,
            "cannot cancel job with status "@ + job_status_name(status),
        ),
{
    match status {
        IndexJobStatus::Pending | IndexJobStatus::Running => Ok(()),
        _ => Err(
            AppError::Conflict(
                string_of(
                    &concat(
                        &chars_of("cannot cancel job with status "),
                        &chars_of(job_status_name_of(status)),
                    ),
                ),
            ),
        ),
    }
}

/// The error message a cancelled job records.
pub fn cancellation_message(handle: &str) -> (r: String)
    ensures
        r@ == "Cancelled by @"@ + handle@,
{
    string_of(&concat(&chars_of("Cancelled by @"), &chars_of(handle)))
}

/// Checks that a report can still be reviewed: only pending reports can.
pub fn check_report_pending(status: &str) -> (r: Result<(), AppError>)
    ensures
        r is Ok <==> status@ == "pending"@,
        r matches Err(e) ==> error_view(e) == (
            ErrorKind::Conflict,
            "report has already been reviewed"@,
        ),
{
    if !str_eq(status, "pending") {
        return Err(AppError::Conflict("report has already been reviewed".to_string()));
    }
    Ok(())
}

/// Checks a new report: a user keeps at most one pending report per target.
pub fn check_no_pending_report(has_pending: bool) -> (r: Result<(), AppError>)
    ensures
        r is Ok <==> !has_pending,
        r matches Err(e) ==> error_view(e) == (
            ErrorKind::Conflict,
            "you already have a pending report for this target"@,
        ),
{
    if has_pending {
        return Err(
            AppError::Conflict("you already have a pending report for this target".to_string()),
        );
    }
    Ok(())
}

/// Checks blocking a flock: a flock is blocked once.
pub fn check_block(already_blocked: bool) -> (r: Result<(), AppError>)
    ensures
        r is Ok <==> !already_blocked,
        r matches Err(e) ==> error_view(e) == (ErrorKind::Conflict, "flock is already blocked"@),
{
    if already_blocked {
        return Err(AppError::Conflict("flock is already blocked".to_string()));
    }
    Ok(())
}

/// Checks unblocking a flock: only a blocked flock can be unblocked.
pub fn check_unblock(blocked: bool) -> (r: Result<(), AppError>)
    ensures
        r is Ok <==> blocked,
        r matches Err(e) ==> error_view(e) == (ErrorKind::NotFound, "flock is not blocked"@),
{
    if !blocked {
        return Err(AppError::NotFound("flock is not blocked".to_string()));
    }
    Ok(())
}

/// The repository URL of a new index rule: refused when the URL or the strategy is
/// blank, else the normalized URL.
pub fn prepare_index_rule(repo_url: &str, strategy: &str) -> (r: Result<String, AppError>)
    ensures
        match r {
            Ok(u) => trim(repo_url@).len() > 0 && trim(strategy@).len() > 0 && u@
                == normalized_git_url(repo_url@),
            Err(e) => if trim(repo_url@).len() == 0 {
                error_view(e) == (ErrorKind::BadRequest, "repo_url is required"@)
            } else {
                trim(strategy@).len() == 0 && error_view(e) == (
                    ErrorKind::BadRequest,
                    "strategy is required"@,
                )
            },
        },
{
    if trim_vec(&chars_of(repo_url)).len() == 0 {
        return Err(AppError::BadRequest("repo_url is required".to_string()));
    }
    if trim_vec(&chars_of(strategy)).len() == 0 {
        return Err(AppError::BadRequest("strategy is required".to_string()));
    }
    Ok(normalize_git_url(repo_url))
}

/// The message for an index rule that exists already.
pub fn index_rule_conflict_message(repo_url: &str, path_regex: &str) -> (r: String)
    ensures
        r@ == "index rule for `"@ + repo_url@ + "` path `"@ + path_regex@ + "` already exists"@,
{
    let a = joined3("index rule for `", repo_url, "` path `");
    joined3(a.as_str(), path_regex, "` already exists")
}

/// The normalized URL, domain and path of a repository to add: refused when the URL is
/// blank or names no domain and path.
pub open spec fn repo_request_check(git_url: Seq<char>) -> Result<
    (Seq<char>, Seq<char>, Seq<char>),
    (ErrorKind, Seq<char>),
> {
    if trim(git_url).len() == 0 {
        Err((ErrorKind::BadRequest, "git_url is required"@))
    } else {
        let url = normalized_git_url(git_url);
        let parts = git_url_parts(url);
        if parts.0.len() == 0 || parts.1.len() == 0 {
            Err((ErrorKind::BadRequest, "could not parse domain and path from git_url"@))
        } else {
            Ok((url, parts.0, parts.1))
        }
    }
}

/// The normalized URL, domain and path of a repository to add.
pub fn prepare_repo_request(git_url: &str) -> (r: Result<(String, String, String), AppError>)
    ensures
        match r {
            Ok(v) => repo_request_check(git_url@) == Ok::<
                (Seq<char>, Seq<char>, Seq<char>),
                (ErrorKind, Seq<char>),
            >((v.0@, v.1@, v.2@)),
            Err(e) => repo_request_check(git_url@) == Err::<
                (Seq<char>, Seq<char>, Seq<char>),
                (ErrorKind, Seq<char>),
            >(error_view(e)),
        },
{
    if trim_vec(&chars_of(git_url)).len() == 0 {
        return Err(AppError::BadRequest("git_url is required".to_string()));
    }
    let url = normalize_git_url(git_url);
    let (domain, path_slug) = parse_git_url_parts(url.as_str());
    if domain.as_str().is_empty() || path_slug.as_str().is_empty() {
        return Err(
            AppError::BadRequest("could not parse domain and path from git_url".to_string()),
        );
    }
    Ok((url, domain, path_slug))
}

/// The message for a repository that exists already.
pub fn repo_conflict_message(domain: &str, path_slug: &str) -> (r: String)
    ensures
        r@ == "repo `"@ + domain@ + "/"@ + path_slug@ + "` already exists"@,
{
    let a = joined3("repo `", domain, "/");
    joined3(a.as_str(), path_slug, "` already exists")
}

} // verus!

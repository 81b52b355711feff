use savhub::error::AppError;
use savhub::model::IndexJobStatus;
use savhub::jobs::{
    job_repository_key,
    freshness_step, job_outcome, requeued_message, FreshnessStep, JobOutcome,
    available_slots, expected_start_at, job_action, pending_fetch_limit, prepare_index_submission,
    repo_check, select_jobs_to_dispatch, submit_plan, unknown_job_message, JobAction, RepoCheck,
    SubmitPlan,
};

fn strings(v: &[&str]) -> Vec<String> {
    v.iter().map(|s| s.to_string()).collect()
}

#[test]
fn index_submission_normalizes_and_keys() {
    assert_eq!(
        prepare_index_submission("git@github.com:org/repo"),
        Ok((
            "https://github.com/org/repo.git".to_string(),
            "deb25368bca228d9b3ede50e41a7b2143b19097eb232c8e7ec655b089b1d70ae".to_string()
        ))
    );
    assert_eq!(
        prepare_index_submission("   "),
        Err(AppError::BadRequest("git_url is required".to_string()))
    );
    assert_eq!(
        prepare_index_submission("https://github.com/org"),
        Err(AppError::BadRequest("git_url must include owner and repo path".to_string()))
    );
    assert_eq!(
        prepare_index_submission("https://github.com/org/re po"),
        Err(AppError::BadRequest(
            "git_url contains whitespace or control characters".to_string()
        ))
    );
}

#[test]
fn submit_plans() {
    assert_eq!(submit_plan(true, true, Some(1), Some((2, "a")), "a"), SubmitPlan::Create);
    assert_eq!(submit_plan(true, false, Some(1), None, "a"), SubmitPlan::Reuse(1));
    assert_eq!(submit_plan(false, false, None, Some((2, "a")), "a"), SubmitPlan::Reuse(2));
    assert_eq!(
        submit_plan(false, false, None, Some((2, "b")), "a"),
        SubmitPlan::SupersedeThenCreate(2)
    );
    assert_eq!(submit_plan(false, true, None, None, "a"), SubmitPlan::Create);
}

#[test]
fn slots_and_fetch_limits() {
    assert_eq!(available_slots(4, 1), 3);
    assert_eq!(available_slots(4, 6), 0);
    assert_eq!(pending_fetch_limit(0), 20);
    assert_eq!(pending_fetch_limit(7), 21);
    assert_eq!(pending_fetch_limit(6), 20);
}

#[test]
fn dispatch_skips_busy_repositories() {
    let keys = strings(&["a", "b", "a", "c", "d", "e"]);
    let running = strings(&["c"]);
    assert_eq!(select_jobs_to_dispatch(&keys, &running, 3), vec![0, 1, 4]);
    assert_eq!(select_jobs_to_dispatch(&keys, &running, 1), vec![0]);
    assert_eq!(select_jobs_to_dispatch(&keys, &running, 0), Vec::<usize>::new());
    assert_eq!(select_jobs_to_dispatch(&keys, &Vec::new(), 10), vec![0, 1, 3, 4, 5]);
}

#[test]
fn job_types() {
    assert_eq!(job_action("auto_import"), JobAction::AutoImport);
    assert_eq!(job_action("resync"), JobAction::Resync);
    assert_eq!(job_action("other"), JobAction::Unknown);
    assert_eq!(unknown_job_message("other"), "unknown job type: other");
}

#[test]
fn repository_checks_and_schedule() {
    assert_eq!(repo_check("abc", "abc", false), RepoCheck::Unchanged);
    assert_eq!(repo_check("abc", "def", true), RepoCheck::MarkIndexed);
    assert_eq!(repo_check("abc", "def", false), RepoCheck::Queue);
    assert_eq!(expected_start_at(None, 3600, 1000), 1000);
    assert_eq!(expected_start_at(Some(0), 3600, 1000), 3600);
    assert_eq!(expected_start_at(Some(0), 3600, 5000), 5000);
}

#[test]
fn stale_jobs_are_requeued_and_outcomes_recorded() {
    assert_eq!(freshness_step("", Some("abc")), FreshnessStep::Proceed);
    assert_eq!(freshness_step("abc", Some("abc")), FreshnessStep::Proceed);
    assert_eq!(freshness_step("abc", Some("def")), FreshnessStep::Requeue);
    assert_eq!(freshness_step("abc", None), FreshnessStep::Proceed);
    assert_eq!(requeued_message(), "Queued (superseded stale job)");
    assert_eq!(
        job_outcome(None),
        JobOutcome {
            status: IndexJobStatus::Completed,
            progress_pct: 100,
            progress_message: "Done".to_string(),
            error_message: None,
        }
    );
    assert_eq!(
        job_outcome(Some("boom")),
        JobOutcome {
            status: IndexJobStatus::Failed,
            progress_pct: 100,
            progress_message: "Failed: boom".to_string(),
            error_message: Some("boom".to_string()),
        }
    );
}

#[test]
fn queued_jobs_are_keyed_by_repository() {
    assert_eq!(job_repository_key(Some("k1"), "whatever"), "k1");
    assert_eq!(
        job_repository_key(None, "git@github.com:org/repo"),
        "deb25368bca228d9b3ede50e41a7b2143b19097eb232c8e7ec655b089b1d70ae"
    );
}

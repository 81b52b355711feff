use savhub::error::AppError;
use savhub::import_plan::{
    flock_prefix_needed, kept_skill_slugs,
    changed_candidates, check_flock_repo, check_scan_root, auto_import_group_step,
    record_imported_flock, stale_flocks, GroupAction, GroupEvent, check_import_slugs, default_flock_description,
    flock_name_source, flock_progress, group_has_changes, is_incremental, plan_path_sync,
    plan_slug_sync, repo_meta_step, FlockNameSource, RepoMetaStep, SyncPlan,
};

fn strings(v: &[&str]) -> Vec<String> {
    v.iter().map(|s| s.to_string()).collect()
}

#[test]
fn path_sync_updates_inserts_and_removes() {
    let existing = strings(&["a", "b", "c", "b"]);
    let incoming = strings(&["b", "d", "a"]);
    assert_eq!(
        plan_path_sync(&existing, &incoming),
        SyncPlan { updates: vec![(0, 3), (2, 0)], inserts: vec![1], removals: vec![2] }
    );
}

#[test]
fn slug_sync_marks_stale_only_when_something_is_imported() {
    let existing = strings(&["x", "y", "z"]);
    let deleted = vec![false, true, false];
    let incoming = strings(&["x", "w"]);
    assert_eq!(
        plan_slug_sync(&existing, &deleted, &incoming),
        SyncPlan { updates: vec![(0, 0)], inserts: vec![1], removals: vec![2] }
    );
    assert_eq!(
        plan_slug_sync(&existing, &deleted, &Vec::new()),
        SyncPlan { updates: vec![], inserts: vec![], removals: vec![] }
    );
}

#[test]
fn incremental_imports_work_on_changed_directories() {
    assert!(is_incremental(true, true, false));
    assert!(!is_incremental(true, true, true));
    assert!(!is_incremental(false, true, false));
    let prefixes = strings(&["skills/a", "skills/ab", "tools"]);
    let changed = strings(&["skills/ab/SKILL.md", "tools", "README.md"]);
    assert_eq!(changed_candidates(true, &prefixes, &changed), vec![1, 2]);
    assert_eq!(changed_candidates(false, &prefixes, &changed), vec![0, 1, 2]);
    assert_eq!(changed_candidates(true, &prefixes, &Vec::new()), Vec::<usize>::new());
    assert!(group_has_changes(&vec![0, 2], &vec![2]));
    assert!(!group_has_changes(&vec![0], &vec![1, 2]));
}

#[test]
fn flock_names_and_progress() {
    assert_eq!(flock_name_source(true, true, 3), FlockNameSource::Stored);
    assert_eq!(flock_name_source(true, false, 1), FlockNameSource::SingleSkill);
    assert_eq!(flock_name_source(false, true, 4), FlockNameSource::Generated);
    assert_eq!(default_flock_description("tools"), "Auto-imported flock: tools");
    assert_eq!(flock_progress(0, 4), 70);
    assert_eq!(flock_progress(3, 4), 88);
    assert_eq!(flock_progress(2, 0), 120);
    assert_eq!(repo_meta_step(true, 1, "x"), RepoMetaStep::Cached);
    assert_eq!(repo_meta_step(false, 1, "x"), RepoMetaStep::FromFlock);
    assert_eq!(repo_meta_step(false, 2, "Auto-created repo for x"), RepoMetaStep::Generate);
    assert_eq!(repo_meta_step(false, 2, "A tool"), RepoMetaStep::Keep);
}

#[test]
fn imported_flock_checks() {
    let url = "https://github.com/org/repo.git";
    assert_eq!(check_flock_repo(url, url), Ok(()));
    assert_eq!(check_flock_repo("github.com/org/repo", url), Ok(()));
    assert_eq!(
        check_flock_repo("github.com/org/other", url),
        Err(AppError::BadRequest(
            "flock repo `github.com/org/other` does not match path repo `github.com/org/repo`"
                .to_string()
        ))
    );
    assert_eq!(check_import_slugs(&strings(&["a", "b"]), &strings(&["b"])), Ok(()));
    assert_eq!(
        check_import_slugs(&strings(&["a", "b", "a", "b"]), &Vec::new()),
        Err(AppError::BadRequest("duplicate flock skill slug `a`".to_string()))
    );
    assert_eq!(
        check_import_slugs(&strings(&["a"]), &strings(&["a", "z"])),
        Err(AppError::BadRequest(
            "featured skill `z` is not present in the imported skills list".to_string()
        ))
    );
}

#[test]
fn flock_prefixes_and_kept_slugs() {
    assert!(!flock_prefix_needed(&strings(&["Python Tools"])));
    assert!(!flock_prefix_needed(&strings(&["Python lint", "python format"])));
    assert!(flock_prefix_needed(&strings(&["Python lint", "Rust format"])));
    assert!(flock_prefix_needed(&strings(&["  ", ""])));
    assert!(!flock_prefix_needed(&strings(&["Go", "  "])));
    assert_eq!(kept_skill_slugs(&strings(&["a", "", "b", "a", "c", "b"])), vec![0, 2, 4]);
}

#[test]
fn scan_root_must_exist_and_hold_skills() {
    assert_eq!(check_scan_root(true, 3, "skills"), Ok(()));
    assert_eq!(
        check_scan_root(false, 3, "skills/x"),
        Err(AppError::BadRequest("subdir `skills/x` not found in repo".to_string()))
    );
    assert_eq!(
        check_scan_root(true, 0, "."),
        Err(AppError::BadRequest("no SKILL.md files found in repo".to_string()))
    );
    assert_eq!(
        check_scan_root(false, 0, "."),
        Err(AppError::BadRequest("subdir `.` not found in repo".to_string()))
    );
}

#[test]
fn flock_groups_of_an_automatic_import() {
    let start = |slug_empty, incremental, has_changes| {
        auto_import_group_step(GroupEvent::Started { slug_empty, incremental, has_changes })
    };
    assert_eq!(start(true, false, true), GroupAction::Skip);
    assert_eq!(start(false, true, false), GroupAction::LookUpStoredFlock);
    assert_eq!(start(false, true, true), GroupAction::BuildSkills);
    assert_eq!(start(false, false, false), GroupAction::BuildSkills);
    assert_eq!(auto_import_group_step(GroupEvent::StoredFlock { found: true }), GroupAction::BumpCommit);
    assert_eq!(auto_import_group_step(GroupEvent::StoredFlock { found: false }), GroupAction::BuildSkills);
    assert_eq!(auto_import_group_step(GroupEvent::Built { skill_count: 0 }), GroupAction::Skip);
    assert_eq!(auto_import_group_step(GroupEvent::Built { skill_count: 2 }), GroupAction::Persist);

    let mut slugs = strings(&["docs"]);
    let mut total = 3usize;
    record_imported_flock(&mut slugs, &mut total, "tools", 4);
    assert_eq!(slugs, strings(&["docs", "tools"]));
    assert_eq!(total, 7);

    let stored = strings(&["docs", "old", "tools", "gone"]);
    assert_eq!(stale_flocks(&stored, &vec![false, false, false, true], &slugs), vec![1]);
    assert_eq!(stale_flocks(&stored, &vec![false; 4], &Vec::new()), Vec::<usize>::new());
}

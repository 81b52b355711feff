use savhub::index_rules::{
    choose_index_rule, normalize_subdir, parse_strategy, resolve_rule_from_rows, IndexRule,
    IndexStrategy, ResolvedRule,
};

fn rule(path_regex: &str, strategy: &str) -> IndexRule {
    IndexRule {
        path_regex: path_regex.to_string(),
        strategy: strategy.to_string(),
    }
}

#[test]
fn normalize_subdir_root() {
    assert_eq!(normalize_subdir("."), ".");
    assert_eq!(normalize_subdir(""), ".");
    assert_eq!(normalize_subdir("/"), ".");
}

#[test]
fn normalize_subdir_path() {
    assert_eq!(normalize_subdir("skills"), "skills");
    assert_eq!(normalize_subdir("skills/"), "skills");
    assert_eq!(normalize_subdir("/skills/"), "skills");
}

#[test]
fn wildcard_rule_matches_root_subdir() {
    let rules = vec![rule("*", "each_dir_as_flock")];
    let resolved = resolve_rule_from_rows(&rules, ".").expect("rule should match");
    assert_eq!(
        resolved,
        ResolvedRule {
            strategy: IndexStrategy::EachDirAsFlock,
            scan_path: ".".to_string(),
        }
    );
}

#[test]
fn concrete_rule_overrides_root_scan_path() {
    let rules = vec![rule("skills", "each_dir_as_flock")];
    let resolved = resolve_rule_from_rows(&rules, ".").expect("rule should match");
    assert_eq!(
        resolved,
        ResolvedRule {
            strategy: IndexStrategy::EachDirAsFlock,
            scan_path: "skills".to_string(),
        }
    );
}

#[test]
fn concrete_rule_matches_exact_subdir() {
    let rules = vec![rule("skills", "each_dir_as_flock")];
    let resolved = resolve_rule_from_rows(&rules, "skills").expect("rule should match");
    assert_eq!(
        resolved,
        ResolvedRule {
            strategy: IndexStrategy::EachDirAsFlock,
            scan_path: "skills".to_string(),
        }
    );
}

#[test]
fn concrete_rule_beats_wildcard_for_root_scan() {
    let rules = vec![rule("*", "smart"), rule("skills", "each_dir_as_flock")];
    let resolved = resolve_rule_from_rows(&rules, ".").expect("rule should match");
    assert_eq!(resolved.strategy, IndexStrategy::EachDirAsFlock);
    assert_eq!(resolved.scan_path, "skills");
}

#[test]
fn regex_rule_matches_existing_subdir_without_overriding_scan_root() {
    let rules = vec![rule("^src/.+$", "each_dir_as_flock")];
    let resolved = resolve_rule_from_rows(&rules, "src/skills").expect("regex rule should match");
    assert_eq!(
        resolved,
        ResolvedRule {
            strategy: IndexStrategy::EachDirAsFlock,
            scan_path: "src/skills".to_string(),
        }
    );
}

#[test]
fn unmatched_concrete_rule_returns_none() {
    let rules = vec![rule("skills", "each_dir_as_flock")];
    let resolved = resolve_rule_from_rows(&rules, "examples");
    assert!(resolved.is_none());
}

#[test]
fn invalid_regex_rule_is_skipped() {
    let rules = vec![rule("(unclosed", "each_dir_as_flock")];
    assert!(resolve_rule_from_rows(&rules, "src").is_none());
}

#[test]
fn later_rule_wins_a_tie() {
    let rules = vec![rule("*", "smart"), rule(" * ", "subdirs_as_flocks")];
    let resolved = resolve_rule_from_rows(&rules, "x").expect("wildcard matches");
    assert_eq!(resolved.strategy, IndexStrategy::EachDirAsFlock);
}

#[test]
fn strategies_parse_from_text() {
    assert_eq!(parse_strategy(" each_dir_as_flock "), IndexStrategy::EachDirAsFlock);
    assert_eq!(parse_strategy("subdirs_as_flocks"), IndexStrategy::EachDirAsFlock);
    assert_eq!(parse_strategy("anything"), IndexStrategy::Smart);
}

#[test]
fn no_rule_means_smart_over_normalized_subdir() {
    let resolved = choose_index_rule(&[], "/tools/");
    assert_eq!(
        resolved,
        ResolvedRule {
            strategy: IndexStrategy::Smart,
            scan_path: "tools".to_string(),
        }
    );
}

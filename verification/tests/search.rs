use savhub::search::{score_text_half_points, split_words};

#[test]
fn words_split_on_whitespace() {
    let ws: Vec<String> = split_words("  foo\tbar  baz\n").iter().map(|w| w.iter().collect()).collect();
    assert_eq!(ws, vec!["foo", "bar", "baz"]);
    assert!(split_words("   ").is_empty());
    assert!(split_words("").is_empty());
}

#[test]
fn exact_slug_match_scores_every_field() {
    // 100 + 45 + 30 + 18 + 12 + 8 + 5 + 1.5 points, in halves.
    assert_eq!(
        score_text_half_points("lint", "lint", "Lint Tool", "A linter", "lint everything"),
        Some(439)
    );
}

#[test]
fn query_words_score_separately() {
    assert_eq!(score_text_half_points("foo bar", "foo-bar", "", "", "bar"), Some(51));
}

#[test]
fn query_is_not_lowercased() {
    assert_eq!(score_text_half_points("Lint", "lint", "Lint", "lint", "lint"), None);
    assert_eq!(score_text_half_points("zzz", "lint", "Lint", "lint", "lint"), None);
}

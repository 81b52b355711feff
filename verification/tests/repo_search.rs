use savhub::repo_search::{rank_matches, repo_page, repo_search_query, repo_search_score};

#[test]
fn search_query_is_trimmed_and_lowercased() {
    assert_eq!(repo_search_query(Some("  Rust Tools ")), Some("rust tools".to_string()));
    assert_eq!(repo_search_query(Some("   ")), None);
    assert_eq!(repo_search_query(None), None);
}

#[test]
fn repository_scores() {
    assert_eq!(repo_search_score("acme", "Other", "", "https://github.com/ACME/x.git"), Some(80));
    assert_eq!(repo_search_score("skills", "Skills", "", "https://github.com/o/r.git"), Some(70));
    assert_eq!(repo_search_score("skill", "My Skills", "", "https://github.com/o/r.git"), Some(50));
    assert_eq!(repo_search_score("lint", "Tools", "A Linter", "https://github.com/o/r.git"), Some(10));
    assert_eq!(repo_search_score("zzz", "Tools", "A Linter", "https://github.com/o/r.git"), None);
}

#[test]
fn ranking_by_score_then_recency_then_listing_order() {
    let scores = vec![Some(10), None, Some(80), Some(10), Some(50), Some(10)];
    let updated = vec![5, 9, 1, 7, 3, 5];
    assert_eq!(rank_matches(&scores, &updated), vec![2, 4, 3, 0, 5]);
    assert_eq!(rank_matches(&vec![None, None], &vec![1, 2]), Vec::<usize>::new());
}

#[test]
fn listing_pages() {
    assert_eq!(repo_page(2, None, 5), (0, 2, Some("2".to_string())));
    assert_eq!(repo_page(2, Some("4"), 5), (4, 5, None));
    assert_eq!(repo_page(0, Some("1"), 5), (1, 2, Some("2".to_string())));
    assert_eq!(repo_page(500, None, 150), (0, 100, Some("100".to_string())));
    assert_eq!(repo_page(10, Some("x"), 3), (0, 3, None));
    assert_eq!(repo_page(10, Some("9"), 3), (3, 3, None));
    assert_eq!(repo_page(10, Some("-1"), 3), (3, 3, None));
}

use savhub::users::{ordered_unique_ids, paginate_unique_ids, parse_cursor, user_matches_query};

#[test]
fn unique_ids_keep_first_occurrence_order() {
    assert_eq!(ordered_unique_ids(&vec![3, 1, 3, 2, 1]), vec![3, 1, 2]);
    assert_eq!(ordered_unique_ids(&vec![]), Vec::<u128>::new());
}

#[test]
fn cursor_parsing() {
    assert_eq!(parse_cursor(None), 0);
    assert_eq!(parse_cursor(Some("12".to_string())), 12);
    assert_eq!(parse_cursor(Some("-5".to_string())), 0);
    assert_eq!(parse_cursor(Some("abc".to_string())), 0);
}

#[test]
fn pagination_pages_and_cursor() {
    let ids: Vec<u128> = (1..=5).collect();
    assert_eq!(paginate_unique_ids(ids.clone(), 2, None, 50), (vec![1, 2], Some("2".to_string())));
    assert_eq!(
        paginate_unique_ids(ids.clone(), 2, Some("2".to_string()), 50),
        (vec![3, 4], Some("4".to_string()))
    );
    assert_eq!(paginate_unique_ids(ids.clone(), 2, Some("4".to_string()), 50), (vec![5], None));
    assert_eq!(paginate_unique_ids(ids.clone(), 2, Some("9".to_string()), 50), (vec![], None));
    assert_eq!(paginate_unique_ids(ids.clone(), 0, None, 50), (vec![1], Some("1".to_string())));
    assert_eq!(paginate_unique_ids(ids, 100, None, 3), (vec![1, 2, 3], Some("3".to_string())));
}

#[test]
fn user_search_matching() {
    assert!(user_matches_query("Alice", None, Some("  ali ")));
    assert!(user_matches_query("bob", Some("Robert Smith"), Some("SMITH")));
    assert!(!user_matches_query("bob", None, Some("smith")));
    assert!(user_matches_query("bob", None, Some("   ")));
    assert!(user_matches_query("bob", None, None));
}

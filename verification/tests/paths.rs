use savhub::paths::{
    catalog_list_path, docs_api_path, initial_search, initial_sort, lang_redirect,
    list_storage_key, not_found_path, catalog_list_step, CatalogListAction, CatalogListEvent,
    CatalogListState,
};

fn segs(v: &[&str]) -> Vec<String> {
    v.iter().map(|s| s.to_string()).collect()
}

#[test]
fn pages_without_a_language_get_one() {
    assert_eq!(lang_redirect(&segs(&["en", "skills"]), Some("zh")), None);
    assert_eq!(lang_redirect(&segs(&["skills", "x"]), Some("zh")), Some("/zh/skills/x".to_string()));
    assert_eq!(lang_redirect(&segs(&["skills"]), Some("fr")), Some("/en/skills".to_string()));
    assert_eq!(lang_redirect(&segs(&[]), None), Some("/en/".to_string()));
    assert_eq!(not_found_path(&segs(&[])), "/");
    assert_eq!(not_found_path(&segs(&["a", "b"])), "/a/b");
}

#[test]
fn documentation_and_listing_paths() {
    assert_eq!(docs_api_path("en", "/"), "/docs/en");
    assert_eq!(docs_api_path("en", ""), "/docs/en");
    assert_eq!(docs_api_path("zh", "guide/intro"), "/docs/zh/guide/intro");
    assert_eq!(catalog_list_path("/repos", None, 40, "  ", None), "/repos?limit=20&cursor=40");
    assert_eq!(
        catalog_list_path("/skills", Some("stars"), 0, " lint ", Some("r1")),
        "/skills?limit=20&sort=stars&cursor=0&q=lint&repo=r1"
    );
}

#[test]
fn list_starting_state() {
    assert_eq!(initial_search(true, Some("lint"), Some("old")), "lint");
    assert_eq!(initial_search(true, None, Some("old")), "old");
    assert_eq!(initial_search(true, None, None), "");
    assert_eq!(initial_search(false, Some("lint"), Some("old")), "");
    assert_eq!(initial_sort(true, Some("name"), Some("users")), "name");
    assert_eq!(initial_sort(true, Some("bogus"), Some("users")), "users");
    assert_eq!(initial_sort(true, Some("bogus"), Some("bad")), "stars");
    assert_eq!(initial_sort(false, Some("name"), None), "stars");
    assert_eq!(list_storage_key("skills", "q"), "skills.q");
}

#[test]
fn catalog_list_pages_by_kind_and_drops_stale_pages() {
    let s0 = CatalogListState {
        generation: 3,
        loading: false,
        grouped: true,
        flock_count: 7,
        skill_count: 9,
        has_more: false,
    };
    // Switching to single skills starts over.
    let (s1, a1) = catalog_list_step(s0, CatalogListEvent::Reset { grouped: false });
    assert_eq!(
        s1,
        CatalogListState {
            generation: 4,
            loading: true,
            grouped: false,
            flock_count: 0,
            skill_count: 0,
            has_more: true,
        }
    );
    assert_eq!(a1, CatalogListAction::Fetch { grouped: false, offset: 0, generation: 4 });
    // No second request while loading.
    let (_, a2) = catalog_list_step(s1, CatalogListEvent::NearBottom);
    assert_eq!(a2, CatalogListAction::Nothing);
    // The page of skills arrives.
    let (s3, a3) = catalog_list_step(
        s1,
        CatalogListEvent::Loaded { generation: 4, grouped: false, append: false, count: 24, more: true },
    );
    assert_eq!(a3, CatalogListAction::Apply { grouped: false, append: false });
    assert_eq!((s3.skill_count, s3.flock_count, s3.loading, s3.has_more), (24, 0, false, true));
    // Scrolling asks for the skills after those shown.
    let (s4, a4) = catalog_list_step(s3, CatalogListEvent::NearBottom);
    assert_eq!(a4, CatalogListAction::Fetch { grouped: false, offset: 24, generation: 4 });
    // A page for an older search is dropped.
    let (s5, a5) = catalog_list_step(
        s4,
        CatalogListEvent::Loaded { generation: 3, grouped: true, append: true, count: 24, more: true },
    );
    assert_eq!(a5, CatalogListAction::Nothing);
    assert_eq!(s5, CatalogListState { loading: false, ..s4 });
    // A failure ends the scrolling.
    let (s6, a6) = catalog_list_step(s5, CatalogListEvent::Failed);
    assert_eq!(a6, CatalogListAction::Nothing);
    assert!(!s6.has_more && !s6.loading);
}

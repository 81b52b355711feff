use savhub::model::{UserRole, UserSummary};
use savhub::sessions::{
    initial_auth_plan, mark_auth_session_used, normalize_auth_sessions, remove_auth_session,
    upsert_auth_session, StoredAuthSession,
};

fn session(token: &str, handle: &str, at: i64) -> StoredAuthSession {
    StoredAuthSession {
        token: token.to_string(),
        handle: handle.to_string(),
        display_name: None,
        avatar_url: None,
        role: UserRole::User,
        last_used_at: at,
    }
}

fn tokens(v: &[StoredAuthSession]) -> Vec<&str> {
    v.iter().map(|s| s.token.as_str()).collect()
}

#[test]
fn sessions_are_kept_most_recent_first() {
    let v = vec![
        session("a", "ann", 10),
        session(" ", "blank", 50),
        session("b", "bob", 30),
        session("c", "  ", 40),
        session("d", "dan", 30),
    ];
    let n = normalize_auth_sessions(v);
    assert_eq!(tokens(&n), vec!["b", "d", "a"]);
    let again = normalize_auth_sessions(n.clone());
    assert_eq!(again, n);
}

#[test]
fn signing_in_updates_or_adds() {
    let user = UserSummary {
        id: 7,
        handle: "new".to_string(),
        display_name: Some("New".to_string()),
        avatar_url: None,
        role: UserRole::Admin,
    };
    let v = vec![session("a", "ann", 10), session("b", "bob", 20)];
    let r = upsert_auth_session(v.clone(), "a", &user, 99);
    assert_eq!(tokens(&r), vec!["a", "b"]);
    assert_eq!(r[0].handle, "new");
    assert_eq!(r[0].role, UserRole::Admin);
    let r = upsert_auth_session(v, "z", &user, 5);
    assert_eq!(tokens(&r), vec!["b", "a", "z"]);
}

#[test]
fn using_and_removing_sessions() {
    let v = vec![session("a", "ann", 10), session("b", "bob", 20)];
    let r = mark_auth_session_used(v.clone(), "a", 30);
    assert_eq!(tokens(&r), vec!["a", "b"]);
    assert_eq!(r[0].last_used_at, 30);
    let r = remove_auth_session(v, "b");
    assert_eq!(tokens(&r), vec!["a"]);
}

#[test]
fn sign_in_state_from_address() {
    let p = initial_auth_plan("old", "#auth_token=t1", "");
    assert_eq!(p.token, "t1");
    assert_eq!(p.store_token, Some("t1".to_string()));
    assert!(p.clear_hash);
    assert!(!p.clear_query);
    let p = initial_auth_plan("old", "", "?auth_error=denied%20now");
    assert_eq!(p.token, "old");
    assert_eq!(p.notice, "denied now");
    assert!(p.clear_query);
    let p = initial_auth_plan("old", "#auth_error=x", "?auth_token=q");
    assert_eq!(p.token, "q");
    assert_eq!(p.notice, "");
}

#[test]
fn signed_in_session_is_kept_and_removed_one_is_gone() {
    let user = UserSummary {
        id: 1,
        handle: "eve".to_string(),
        display_name: Some("Eve".to_string()),
        avatar_url: None,
        role: UserRole::Moderator,
    };
    let before = vec![session("a", "ann", 100), session("b", "bob", 200)];
    let after = upsert_auth_session(before, "e", &user, 5);
    let kept: Vec<&StoredAuthSession> = after.iter().filter(|s| s.token == "e").collect();
    assert_eq!(kept.len(), 1);
    assert_eq!(kept[0].handle, "eve");
    assert_eq!(kept[0].last_used_at, 5);
    let removed = remove_auth_session(after, "a");
    assert_eq!(tokens(&removed), vec!["b", "e"]);
}

use savhub::model::UserRole;
use savhub::shell::{
    account_label, auth_view, has_other_accounts, language_switch_path, path_language,
    session_effect, shows_admin_links, admin_toggle_class, toggled_admin_mode, saved_admin_mode, AuthView, SessionEffect,
};

#[test]
fn languages_in_the_address() {
    assert_eq!(path_language("/zh/skills"), Some("zh".to_string()));
    assert_eq!(path_language("/en"), Some("en".to_string()));
    assert_eq!(path_language("/skills"), None);
    assert_eq!(path_language(""), None);
    assert_eq!(language_switch_path("/en/skills/x", "zh"), "/zh/skills/x");
    assert_eq!(language_switch_path("/zh", "en"), "/en");
    assert_eq!(language_switch_path("/skills", "zh"), "/zh/skills");
}

#[test]
fn sign_in_check_outcomes() {
    assert_eq!(auth_view(None), AuthView::Loading);
    assert_eq!(auth_view(Some(Ok(true))), AuthView::SignedIn);
    assert_eq!(auth_view(Some(Ok(false))), AuthView::Anonymous);
    assert_eq!(auth_view(Some(Err("401 Unauthorized"))), AuthView::Anonymous);
    assert_eq!(auth_view(Some(Err("500 oops"))), AuthView::Failed);
    assert_eq!(session_effect("tok", Some(Ok(true))), SessionEffect::Remember);
    assert_eq!(session_effect("tok", Some(Err("401"))), SessionEffect::Forget);
    assert_eq!(session_effect("  ", Some(Err("401"))), SessionEffect::Keep);
    assert_eq!(session_effect("tok", Some(Err("503"))), SessionEffect::Keep);
    assert_eq!(session_effect("tok", None), SessionEffect::Keep);
}

#[test]
fn accounts_menu() {
    assert_eq!(account_label("ann", Some("Ann")), "Ann");
    assert_eq!(account_label("ann", None), "@ann");
    let tokens = vec!["a".to_string(), "b".to_string()];
    assert!(has_other_accounts(&tokens, "a"));
    assert!(!has_other_accounts(&vec!["a".to_string()], "a"));
    assert!(!has_other_accounts(&Vec::new(), "a"));
}

#[test]
fn admin_links_only_for_admins_in_admin_mode() {
    assert!(shows_admin_links(Some(UserRole::Admin), true));
    assert!(!shows_admin_links(Some(UserRole::Admin), false));
    assert!(!shows_admin_links(Some(UserRole::Moderator), true));
    assert!(!shows_admin_links(Some(UserRole::User), true));
    assert!(!shows_admin_links(None, true));
}

#[test]
fn admin_toggle_only_for_admins() {
    assert_eq!(admin_toggle_class(Some(UserRole::Admin), true), Some("admin-toggle active"));
    assert_eq!(admin_toggle_class(Some(UserRole::Admin), false), Some("admin-toggle"));
    assert_eq!(admin_toggle_class(Some(UserRole::Moderator), true), None);
    assert_eq!(admin_toggle_class(None, false), None);
    assert_eq!(toggled_admin_mode(false), (true, "true"));
    assert_eq!(toggled_admin_mode(true), (false, "false"));
    assert!(saved_admin_mode(Some("true")));
    assert!(!saved_admin_mode(Some("yes")));
    assert!(!saved_admin_mode(None));
}

use savhub::error::AppError;
use savhub::github_auth::{
    access_token_from_response, build_cookie, build_redirect, check_login_callback,
    clear_auth_cookies, cookie_value, error_redirect, fallback_error_redirect, handle_candidate,
    hex_decode, hex_encode, login_role, start_login, user_lookup_error, validate_return_to,
};

const GITHUB_STATE_COOKIE: &str = "savhub_github_state";

#[test]
fn hex_round_trip_preserves_urls() {
    let url = "http://127.0.0.1:4567/callback?x=1&y=2";
    let decoded = hex_decode(&hex_encode(url)).expect("hex decode");
    assert_eq!(decoded, url);
}

#[test]
fn loopback_redirect_uses_query_parameters() {
    let url = validate_return_to("http://127.0.0.1:3456/callback", "https://savhub.ai").expect("url");
    let redirect = build_redirect(&url, "auth_token", "abc 123").expect("redirect");
    assert_eq!(redirect, "http://127.0.0.1:3456/callback?auth_token=abc+123");
}

#[test]
fn cookie_parser_finds_named_cookie() {
    let header = "a=1; savhub_github_state=xyz; b=2";
    assert_eq!(cookie_value(Some(header), GITHUB_STATE_COOKIE), Some("xyz".to_string()));
}

#[test]
fn hex_encoding_examples() {
    assert_eq!(hex_encode("Az"), "417a");
    assert_eq!(hex_encode("é"), "c3a9");
    assert_eq!(hex_decode("417A"), Some("Az".to_string()));
    assert_eq!(hex_decode("abc"), None);
    assert_eq!(hex_decode("zz"), None);
    assert_eq!(hex_decode("ff"), None);
}

#[test]
fn cookies_are_built_and_cleared() {
    assert_eq!(
        build_cookie("n", "v", 600),
        "n=v; Path=/; HttpOnly; SameSite=Lax; Max-Age=600"
    );
    assert_eq!(
        clear_auth_cookies(),
        vec![
            "savhub_github_state=; Path=/; HttpOnly; SameSite=Lax; Max-Age=0".to_string(),
            "savhub_github_return_to=; Path=/; HttpOnly; SameSite=Lax; Max-Age=0".to_string(),
        ]
    );
    assert_eq!(cookie_value(None, "a"), None);
    assert_eq!(cookie_value(Some("a=1; b"), "b"), None);
}

#[test]
fn roles_follow_configured_logins() {
    let admins = vec!["root".to_string()];
    let mods = vec!["mod".to_string(), "root".to_string()];
    assert_eq!(login_role("root", &admins, &mods, Some("user")), "admin");
    assert_eq!(login_role("mod", &admins, &mods, None), "moderator");
    assert_eq!(login_role("x", &admins, &mods, Some("moderator")), "moderator");
    assert_eq!(login_role("x", &admins, &mods, None), "user");
}

#[test]
fn return_urls_must_be_frontend_or_loopback() {
    assert!(validate_return_to("https://savhub.ai/skills", "https://savhub.ai").is_ok());
    assert!(validate_return_to("http://localhost:9000/x", "https://savhub.ai").is_ok());
    match validate_return_to("https://evil.example/x", "https://savhub.ai") {
        Err(AppError::Forbidden(m)) => assert_eq!(
            m,
            "return_to must point to the configured frontend or a loopback address"
        ),
        other => panic!("unexpected {:?}", other.map(|u| u.as_str().to_string())),
    }
    match validate_return_to("not a url", "https://savhub.ai") {
        Err(AppError::BadRequest(m)) => assert_eq!(m, "return_to must be an absolute URL"),
        other => panic!("unexpected {:?}", other.map(|u| u.as_str().to_string())),
    }
}

#[test]
fn non_loopback_redirect_uses_fragment() {
    let url = validate_return_to("https://savhub.ai/app", "https://savhub.ai").unwrap();
    assert_eq!(
        build_redirect(&url, "auth_error", "denied").unwrap(),
        "https://savhub.ai/app#auth_error=denied"
    );
}

#[test]
fn login_start_and_callback() {
    let r = start_login(None, "https://savhub.ai", "cid", "https://api/cb", "st8").unwrap();
    assert_eq!(
        r.location,
        "https://github.com/login/oauth/authorize?client_id=cid&redirect_uri=https%3A%2F%2Fapi%2Fcb&scope=read%3Auser&state=st8"
    );
    assert_eq!(r.set_cookies[0], "savhub_github_state=st8; Path=/; HttpOnly; SameSite=Lax; Max-Age=600");
    let back = format!(
        "savhub_github_state=st8; savhub_github_return_to={}",
        hex_encode("https://savhub.ai/")
    );
    let rt = check_login_callback("st8", Some(&back), "https://savhub.ai").unwrap();
    assert_eq!(rt.as_str(), "https://savhub.ai/");
    match check_login_callback("other", Some(&back), "https://savhub.ai") {
        Err(AppError::Unauthorized(m)) => assert_eq!(m, "GitHub login state did not match"),
        _ => panic!("state mismatch accepted"),
    }
    match check_login_callback("st8", None, "https://savhub.ai") {
        Err(AppError::Unauthorized(m)) => assert_eq!(m, "missing GitHub login state"),
        _ => panic!("missing state accepted"),
    }
}

#[test]
fn failed_login_falls_back_to_frontend() {
    let r = error_redirect(None, "nope", "https://savhub.ai");
    assert_eq!(r.location, "https://savhub.ai/#auth_error=nope");
    assert_eq!(r.set_cookies.len(), 2);
    assert_eq!(fallback_error_redirect("x", "::bad::"), "http://127.0.0.1:8081/#auth_error=x");
}

#[test]
fn token_exchange_answers() {
    assert_eq!(
        access_token_from_response(true, 200, Some("tok".into()), None, None).unwrap(),
        "tok"
    );
    match access_token_from_response(false, 502, None, None, None) {
        Err(AppError::Unauthorized(m)) => assert_eq!(m, "GitHub returned HTTP 502"),
        _ => panic!(),
    }
    match access_token_from_response(true, 200, Some("t".into()), Some("bad".into()), None) {
        Err(AppError::Unauthorized(m)) => assert_eq!(m, "bad"),
        _ => panic!(),
    }
    match access_token_from_response(true, 200, None, None, None) {
        Err(AppError::Unauthorized(m)) => assert_eq!(m, "GitHub did not return an access token"),
        _ => panic!(),
    }
    match user_lookup_error(401, "  ") {
        AppError::Unauthorized(m) => assert_eq!(m, "GitHub user lookup returned HTTP 401"),
        _ => panic!(),
    }
    assert_eq!(handle_candidate("bob", 0), "bob");
    assert_eq!(handle_candidate("bob", 12), "bob-12");
}

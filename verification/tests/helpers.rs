use savhub::encoding::hash_string;
use savhub::git_url::{
    derive_repo_sign, normalize_git_url, parse_git_url_parts, sign_to_git_url, validate_git_url,
};

#[test]
fn hash_string_is_deterministic_and_hex() {
    let a = hash_string("hello");
    let b = hash_string("hello");
    assert_eq!(a, b);
    assert_eq!(a.len(), 64);
    assert!(a.chars().all(|c| c.is_ascii_hexdigit()));
    assert_ne!(hash_string("hello"), hash_string("Hello"));
}

#[test]
fn hash_string_matches_known_digest() {
    assert_eq!(
        hash_string("hello"),
        "2cf24dba5fb0a30e26e83b2ac5b9e29e1b161e5c1fa7425e73043362938b9824"
    );
    assert_eq!(
        hash_string(""),
        "e3b0c44298fc1c149afbf4c8996fb92427ae41e4649b934ca495991b7852b855"
    );
}

#[test]
fn derive_repo_sign_roundtrip() {
    let url = "https://github.com/anthropics/skills.git";
    let sign = derive_repo_sign(url);
    assert_eq!(sign, "github.com/anthropics/skills");
    let (domain, slug) = parse_git_url_parts(url);
    assert_eq!(sign_to_git_url(&domain, &slug), url);
}

#[test]
fn validate_git_url_accepts_normal_https() {
    let url = normalize_git_url("https://github.com/anthropics/skills");
    assert!(validate_git_url(&url).is_ok());
}

#[test]
fn validate_git_url_rejects_leading_dash() {
    assert!(validate_git_url("-upload-pack=evil").is_err());
    assert!(validate_git_url("--foo").is_err());
}

#[test]
fn validate_git_url_rejects_control_and_whitespace() {
    assert!(validate_git_url("https://github.com/a/b\n.git").is_err());
    assert!(validate_git_url("https://github.com/a /b.git").is_err());
    assert!(validate_git_url("https://github.com/a\tb/c.git").is_err());
    assert!(validate_git_url("https://github.com/a\0b/c.git").is_err());
}

#[test]
fn validate_git_url_rejects_non_http_scheme() {
    assert!(validate_git_url("file:///etc/passwd").is_err());
    assert!(validate_git_url("ssh://git@github.com/a/b.git").is_err());
    assert!(validate_git_url("javascript:alert(1)").is_err());
}

#[test]
fn validate_git_url_rejects_missing_owner_or_repo() {
    assert!(validate_git_url("https://github.com").is_err());
    assert!(validate_git_url("https://github.com/onlyowner.git").is_err());
}

#[test]
fn validate_git_url_rejects_empty_and_oversized() {
    assert!(validate_git_url("").is_err());
    let huge = format!("https://github.com/a/{}.git", "x".repeat(3000));
    assert!(validate_git_url(&huge).is_err());
}

#[test]
fn normalize_git_url_ssh_to_https() {
    assert_eq!(
        normalize_git_url("git@github.com:anthropics/skills.git"),
        "https://github.com/anthropics/skills.git"
    );
    assert_eq!(
        normalize_git_url("git@github.com:anthropics/skills"),
        "https://github.com/anthropics/skills.git"
    );
}

#[test]
fn normalize_git_url_adds_git_suffix() {
    assert_eq!(
        normalize_git_url("https://github.com/org/repo"),
        "https://github.com/org/repo.git"
    );
    assert_eq!(
        normalize_git_url("https://github.com/org/repo.git"),
        "https://github.com/org/repo.git"
    );
}

#[test]
fn normalize_git_url_upgrades_http() {
    assert_eq!(
        normalize_git_url("http://github.com/org/repo.git"),
        "https://github.com/org/repo.git"
    );
}

#[test]
fn normalize_git_url_strips_trailing_slash() {
    assert_eq!(
        normalize_git_url("https://github.com/org/repo/"),
        "https://github.com/org/repo.git"
    );
    assert_eq!(
        normalize_git_url("https://github.com/org/repo.git/"),
        "https://github.com/org/repo.git"
    );
}

#[test]
fn normalize_git_url_is_idempotent_on_examples() {
    for input in [
        "git@github.com:anthropics/skills",
        "http://github.com/org/repo/",
        "https://git.example.com:8443/org/repo",
    ] {
        let once = normalize_git_url(input);
        assert_eq!(normalize_git_url(&once), once);
    }
}

#[test]
fn parse_git_url_parts_extracts_domain_and_path_slug() {
    let (domain, slug) = parse_git_url_parts("https://github.com/anthropics/skills.git");
    assert_eq!(domain, "github.com");
    assert_eq!(slug, "anthropics/skills");
}

#[test]
fn parse_git_url_parts_handles_deep_paths() {
    let (domain, slug) = parse_git_url_parts("https://github.com/mofa-org/mofa-skills.git");
    assert_eq!(domain, "github.com");
    assert_eq!(slug, "mofa-org/mofa-skills");
}

#[test]
fn parse_git_url_parts_handles_port() {
    let (domain, slug) = parse_git_url_parts("https://git.example.com:8443/org/repo.git");
    assert_eq!(domain, "git.example.com-8443");
    assert_eq!(slug, "org/repo");
}

#[test]
fn normalize_then_parse_is_consistent() {
    let inputs = [
        "git@github.com:anthropics/skills.git",
        "git@github.com:anthropics/skills",
        "https://github.com/anthropics/skills.git",
        "https://github.com/anthropics/skills",
        "https://github.com/anthropics/skills/",
        "http://github.com/anthropics/skills.git",
    ];
    for input in inputs {
        let normalized = normalize_git_url(input);
        let (domain, slug) = parse_git_url_parts(&normalized);
        assert_eq!(domain, "github.com", "domain mismatch for input: {input}");
        assert_eq!(slug, "anthropics/skills", "slug mismatch for input: {input}");
    }
}

#[test]
fn sign_round_trip_on_canonical_parts() {
    let url = sign_to_git_url("example.org", "team/tools");
    assert_eq!(url, "https://example.org/team/tools.git");
    let (domain, slug) = parse_git_url_parts(&url);
    assert_eq!(domain, "example.org");
    assert_eq!(slug, "team/tools");
}

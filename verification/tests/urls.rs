use savhub::urls::{derive_repo_slug, short_repo_name, strip_url_scheme, strip_url_scheme_keep_git};

#[test]
fn strips_scheme_and_git_suffix() {
    assert_eq!(strip_url_scheme("https://github.com/org/repo.git"), "github.com/org/repo");
    assert_eq!(strip_url_scheme("http://example.com/foo/"), "example.com/foo");
    assert_eq!(strip_url_scheme("git@host:path"), "git@host:path");
}

#[test]
fn keeps_git_suffix_in_keep_variant() {
    assert_eq!(
        strip_url_scheme_keep_git("https://github.com/org/repo.git"),
        "github.com/org/repo.git"
    );
}

#[test]
fn derive_slug_drops_scheme_and_suffix() {
    assert_eq!(
        derive_repo_slug("https://github.com/savhub-ai/savhub.git"),
        "github.com/savhub-ai/savhub"
    );
}

#[test]
fn short_names_take_the_last_segment() {
    assert_eq!(short_repo_name("https://github.com/org/repo.git/"), "repo");
    assert_eq!(short_repo_name("plain"), "plain");
}

#[test]
fn display_form_is_kept_form_without_git_suffix() {
    for url in [
        "https://github.com/org/repo.git",
        " http://example.com/foo.git.git/ ",
        "https://.git",
        "git@host:path.git",
        "plain",
    ] {
        assert_eq!(strip_url_scheme(url), strip_url_scheme_keep_git(url).trim_end_matches(".git"));
    }
}

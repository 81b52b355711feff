use savhub::git_commands::{
    changed_files_from_output, checkout_step, clone_args, fetch_args, head_sha_from_output,
    parse_changed_files, parse_remote_sha, remote_ref_missing_message, reset_target, CheckoutStep,
};

#[test]
fn clone_and_fetch_arguments() {
    assert_eq!(
        clone_args("https://github.com/o/r.git", "HEAD", "/tmp/r"),
        vec!["clone", "--depth", "1", "--single-branch", "https://github.com/o/r.git", "/tmp/r"]
    );
    assert_eq!(
        clone_args("u", "dev", "t"),
        vec!["clone", "--depth", "1", "--single-branch", "--branch", "dev", "u", "t"]
    );
    assert_eq!(clone_args("u", "", "t").len(), 6);
    assert_eq!(fetch_args("head"), vec!["fetch", "--prune", "origin"]);
    assert_eq!(fetch_args("v1.2"), vec!["fetch", "--prune", "origin", "v1.2"]);
}

#[test]
fn pulls_reset_to_the_right_commit() {
    assert_eq!(reset_target("HEAD", Some("origin/trunk\n")), "origin/trunk");
    assert_eq!(reset_target("", Some("  ")), "origin/main");
    assert_eq!(reset_target("", None), "origin/main");
    assert_eq!(reset_target("dev", Some("origin/trunk")), "FETCH_HEAD");
    assert_eq!(checkout_step(true, true), CheckoutStep::Pull);
    assert_eq!(checkout_step(true, false), CheckoutStep::RemoveThenClone);
    assert_eq!(checkout_step(false, false), CheckoutStep::Clone);
}

#[test]
fn diff_and_remote_output() {
    assert_eq!(
        parse_changed_files("b.txt\n  a\\x.md \n\nb.txt\r\n"),
        vec!["a/x.md".to_string(), "b.txt".to_string()]
    );
    assert_eq!(changed_files_from_output(b"z\ny\n"), vec!["y".to_string(), "z".to_string()]);
    assert_eq!(parse_remote_sha("abc123\tHEAD\nxyz\trefs/heads/main\n"), Some("abc123".to_string()));
    assert_eq!(parse_remote_sha(""), None);
    assert_eq!(parse_remote_sha("\t\n"), None);
    assert_eq!(remote_ref_missing_message("dev"), "ref `dev` not found in remote repo");
    assert_eq!(head_sha_from_output(b"deadbeef\n"), "deadbeef");
}

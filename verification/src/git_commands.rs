//! The `git` commands that keep a repository checkout current, and what their output
//! says: the arguments of a clone or a fetch, where a pull resets to, whether a checkout
//! is reused, the files a diff names, and the commit a ref points at remotely.
use vstd::prelude::*;

use crate::git_ops::{from_utf8_lossy, utf8_lossy};
use crate::json::str_eq;
use crate::llm_eval::byte_len;
use crate::order::{insert_sorted_unique, strictly_sorted};
use crate::text::{
    ascii_lower_seq, ascii_lower_vec, chars_eq, chars_of, concat, lines, lines_vec, replace_char,
    replace_char_vec, seqs_of, split, split_vec, string_of, strs_of, trim, trim_vec,
};

verus! {

/// Whether a ref means the remote's default branch: empty, or `HEAD` in any case.
pub open spec fn is_default_ref(git_ref: Seq<char>) -> bool {
    git_ref.len() == 0 || ascii_lower_seq(git_ref) == "head"@
}

fn default_ref(git_ref: &str) -> (r: bool)
    ensures
        r == is_default_ref(git_ref@),
{
    if git_ref.is_empty() {
        return true;
    }
    chars_eq(&ascii_lower_vec(&chars_of(git_ref)), &chars_of("head"))
}

/// The arguments of the shallow clone of `url` at `git_ref` into `target`.
pub open spec fn clone_arguments(url: Seq<char>, git_ref: Seq<char>, target: Seq<char>) -> Seq<
    Seq<char>,
> {
    let head = seq!["clone"@, "--depth"@, "1"@, "--single-branch"@];
    let with_ref = if is_default_ref(git_ref) {
        head
    } else {
        head + seq!["--branch"@, git_ref]
    };
    with_ref + seq![url, target]
}

/// The arguments of the shallow clone of `url` at `git_ref` into `target`.
pub fn clone_args(url: &str, git_ref: &str, target: &str) -> (r: Vec<String>)
    ensures
        strs_of(r@) == clone_arguments(url@, git_ref@, target@),
{
    let mut args: Vec<String> = vec![
        "clone".to_string(),
        "--depth".to_string(),
        "1".to_string(),
        "--single-branch".to_string(),
    ];
    let ghost head = strs_of(args@);
    assert(head =~= seq!["clone"@, "--depth"@, "1"@, "--single-branch"@]);
    if !default_ref(git_ref) {
        args.push("--branch".to_string());
        args.push(git_ref.to_string());
        assert(strs_of(args@) =~= head + seq!["--branch"@, git_ref@]);
    }
    let ghost with_ref = strs_of(args@);
    args.push(url.to_string());
    args.push(target.to_string());
    assert(strs_of(args@) =~= with_ref + seq![url@, target@]);
    args
}

/// The arguments of the fetch that brings a checkout up to `git_ref`.
pub open spec fn fetch_arguments(git_ref: Seq<char>) -> Seq<Seq<char>> {
    let head = seq!["fetch"@, "--prune"@, "origin"@];
    if is_default_ref(git_ref) {
        head
    } else {
        head.push(git_ref)
    }
}

/// The arguments of the fetch that brings a checkout up to `git_ref`.
pub fn fetch_args(git_ref: &str) -> (r: Vec<String>)
    ensures
        strs_of(r@) == fetch_arguments(git_ref@),
{
    let mut args: Vec<String> = vec!["fetch".to_string(), "--prune".to_string(), "origin".to_string()];
    let ghost head = strs_of(args@);
    assert(head =~= seq!["fetch"@, "--prune"@, "origin"@]);
    if !default_ref(git_ref) {
        args.push(git_ref.to_string());
        assert(strs_of(args@) =~= head.push(git_ref@));
    }
    args
}

/// What a pull resets the checkout to: for the default branch, the remote's default
/// branch as `git symbolic-ref` names it (trimmed; `origin/main` when it names none or
/// the command failed, `None`); otherwise what was fetched.
pub open spec fn reset_target_of(git_ref: Seq<char>, default_branch: Option<Seq<char>>) -> Seq<char> {
    if is_default_ref(git_ref) {
        match default_branch {
            Some(b) => if trim(b).len() > 0 {
                trim(b)
            } else {
                "origin/main"@
            },
            None => "origin/main"@,
        }
    } else {
        "FETCH_HEAD"@
    }
}

/// What a pull resets the checkout to.
pub fn reset_target(git_ref: &str, default_branch: Option<&str>) -> (r: String)
    ensures
        r@ == reset_target_of(
            git_ref@,
            match default_branch {
                Some(b) => Some(b@),
                None => None,
            },
        ),
{
    if default_ref(git_ref) {
        match default_branch {
            Some(b) => {
                let t = trim_vec(&chars_of(b));
                if t.len() > 0 {
                    string_of(&t)
                } else {
                    "origin/main".to_string()
                }
            },
            None => "origin/main".to_string(),
        }
    } else {
        "FETCH_HEAD".to_string()
    }
}

/// How a repository's cached checkout is brought up to date.
#[derive(Debug, Clone, Copy, PartialEq, Eq, Structural)]
pub enum CheckoutStep {
    /// The checkout is a git repository: it is pulled.
    Pull,
    /// Nothing is there yet: the repository is cloned.
    Clone,
    /// Something that is not a git repository is there: it is removed, then the
    /// repository is cloned.
    RemoveThenClone,
}

/// How a cached checkout is brought up to date, given whether its directory exists and
/// whether it holds a `.git` directory.
pub fn checkout_step(dir_exists: bool, has_git_dir: bool) -> (r: CheckoutStep)
    ensures
        r == if has_git_dir {
            CheckoutStep::Pull
        } else if dir_exists {
            CheckoutStep::RemoveThenClone
        } else {
            CheckoutStep::Clone
        },
{
    if has_git_dir {
        CheckoutStep::Pull
    } else if dir_exists {
        CheckoutStep::RemoveThenClone
    } else {
        CheckoutStep::Clone
    }
}

/// Whether `x` is a path that `git diff --name-only` output names: a non-empty line,
/// trimmed, with backslashes made slashes.
pub open spec fn is_changed_path(stdout: Seq<char>, x: Seq<char>) -> bool {
    exists|i: int|
        0 <= i < lines(stdout).len() && trim(#[trigger] lines(stdout)[i]).len() > 0 && x
            == replace_char(trim(lines(stdout)[i]), '\\', '/')
}

/// The paths that `git diff --name-only` output names, sorted and without repeats.
pub fn parse_changed_files(stdout: &str) -> (r: Vec<String>)
    ensures
        strictly_sorted(strs_of(r@)),
        forall|x: Seq<char>| strs_of(r@).contains(x) <==> is_changed_path(stdout@, x),
{
    let all = lines_vec(&chars_of(stdout));
    let ghost ls = lines(stdout@);
    let mut paths: Vec<String> = Vec::new();
    let mut i: usize = 0;
    while i < all.len()
        invariant
            i <= all.len(),
            seqs_of(all@) == ls,
            ls == lines(stdout@),
            strictly_sorted(strs_of(paths@)),
            forall|x: Seq<char>|
                strs_of(paths@).contains(x) <==> exists|a: int|
                    0 <= a < i && trim(#[trigger] ls[a]).len() > 0 && x == replace_char(
                        trim(ls[a]),
                        '\\',
                        '/',
                    ),
        decreases all.len() - i,
    {
        let line = trim_vec(&all[i]);
        assert(line@ == trim(ls[i as int]));
        let ghost before = strs_of(paths@);
        if line.len() > 0 {
            let fixed = string_of(&replace_char_vec(&line, '\\', '/'));
            insert_sorted_unique(&mut paths, fixed);
        }
        proof {
            let now = strs_of(paths@);
            assert forall|x: Seq<char>| now.contains(x) <==> exists|a: int|
                0 <= a < i + 1 && trim(#[trigger] ls[a]).len() > 0 && x == replace_char(
                    trim(ls[a]),
                    '\\',
                    '/',
                ) by {
                if now.contains(x) && !before.contains(x) {
                    assert(trim(ls[i as int]).len() > 0 && x == replace_char(trim(ls[i as int]), '\\', '/'));
                }
                if exists|a: int|
                    0 <= a < i + 1 && trim(#[trigger] ls[a]).len() > 0 && x == replace_char(
                        trim(ls[a]),
                        '\\',
                        '/',
                    ) {
                    let a = choose|a: int|
                        0 <= a < i + 1 && trim(#[trigger] ls[a]).len() > 0 && x == replace_char(
                            trim(ls[a]),
                            '\\',
                            '/',
                        );
                    if a < i {
                        assert(before.contains(x));
                    }
                }
            }
        }
        i += 1;
    }
    paths
}

/// The paths a `git diff --name-only` run printed (its output read as UTF-8, invalid
/// sequences replaced), sorted and without repeats.
pub fn changed_files_from_output(stdout: &[u8]) -> (r: Vec<String>)
    ensures
        strictly_sorted(strs_of(r@)),
        forall|x: Seq<char>| strs_of(r@).contains(x) <==> is_changed_path(utf8_lossy(stdout@), x),
{
    let text = from_utf8_lossy(stdout);
    parse_changed_files(text.as_str())
}

/// The commit `git ls-remote` output names first: the first line's text before its first
/// tab, trimmed; `None` when there is no line or that text is blank.
pub open spec fn remote_sha_of(stdout: Seq<char>) -> Option<Seq<char>> {
    let ls = lines(stdout);
    if ls.len() == 0 {
        None
    } else {
        let sha = trim(split(ls[0], '\t')[0]);
        if sha.len() > 0 {
            Some(sha)
        } else {
            None
        }
    }
}

/// The commit `git ls-remote` output names first.
pub fn parse_remote_sha(stdout: &str) -> (r: Option<String>)
    ensures
        match r {
            Some(s) => remote_sha_of(stdout@) == Some(s@),
            None => remote_sha_of(stdout@) is None,
        },
{
    let all = lines_vec(&chars_of(stdout));
    if all.len() == 0 {
        return None;
    }
    let columns = split_vec(&all[0], '\t');
    assert(seqs_of(all@)[0] == all@[0]@);
    assert(split(all@[0]@, '\t').len() > 0);
    assert(columns@.len() == seqs_of(columns@).len());
    assert(seqs_of(columns@)[0] == columns@[0]@);
    let sha = trim_vec(&columns[0]);
    if sha.len() > 0 {
        Some(string_of(&sha))
    } else {
        None
    }
}

/// The error of a ref the remote does not have.
pub fn remote_ref_missing_message(git_ref: &str) -> (r: String)
    ensures
        r@ == "ref `"@ + git_ref@ + "` not found in remote repo"@,
{
    string_of(
        &concat(&concat(&chars_of("ref `"), &chars_of(git_ref)), &chars_of("` not found in remote repo")),
    )
}

/// The commit `git rev-parse HEAD` printed: its output read as UTF-8 (invalid sequences
/// replaced), trimmed.
pub fn head_sha_from_output(stdout: &[u8]) -> (r: String)
    ensures
        r@ == trim(utf8_lossy(stdout@)),
{
    let text = from_utf8_lossy(stdout);
    string_of(&trim_vec(&chars_of(text.as_str())))
}

} // verus!

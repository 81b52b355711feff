//! Canonical git URLs: normalisation, validation, and the `(domain, path)` split
//! that repositories are keyed by.
use vstd::prelude::*;

use crate::error::AppError;
use crate::text::{
    chars_of, concat, ends_with, find_char_at, has_prefix, has_prefix_at, has_suffix, is_ws,
    slice_vec, split_once, starts_with, string_of, strip_prefix, trim, trim_at, trim_end_matches,
    trim_end_matches_at, trim_start_matches, trim_start_matches_at, first_index, lemma_first_index,
    replace_char, replace_char_vec, contains_char, split, split_vec, seqs_of, lemma_trim_noop,
    lemma_trim_end_matches_noop, lemma_trim_end_matches_prefix, lemma_trim_end_matches_keeps,
    lemma_trim_end_matches_idem, lemma_trim_start_matches_suffix, lemma_subrange_free,
    lemma_concat_free, lemma_free, lemma_first_index_at, lemma_first_index_none, has_suffix as
    has_suffix_spec,
};
use crate::urls::{
    git_suffix, git_suffix_chars, http_scheme, http_scheme_chars, https_scheme,
    https_scheme_chars, slash, slash_chars, drop_http_scheme,
};

verus! {

broadcast use vstd::string::group_string_axioms;

// ---------------------------------------------------------------------------
// Spec model
// ---------------------------------------------------------------------------

/// `"git@"`.
pub open spec fn git_at() -> Seq<char> {
    seq!['g', 'i', 't', '@']
}

/// `"unknown"`.
pub open spec fn unknown_domain() -> Seq<char> {
    seq!['u', 'n', 'k', 'n', 'o', 'w', 'n']
}

/// `"..."`.
pub open spec fn ellipsis() -> Seq<char> {
    seq!['.', '.', '.']
}

/// The part of `s` before the first `c` (all of `s` when there is none):
/// `s.split(c).next()`.
pub open spec fn before_char(s: Seq<char>, c: char) -> Seq<char> {
    let i = first_index(s, c);
    if i < 0 {
        s
    } else {
        s.subrange(0, i)
    }
}

/// The first `n` characters of `s` (all of `s` when it is shorter).
pub open spec fn take_chars_spec(s: Seq<char>, n: nat) -> Seq<char> {
    if s.len() <= n {
        s
    } else {
        s.subrange(0, n as int)
    }
}

/// `s` cut to `n` characters, with `...` appended when something was cut.
pub open spec fn truncated(s: Seq<char>, n: nat) -> Seq<char> {
    if s.len() <= n {
        s
    } else {
        s.subrange(0, n as int) + ellipsis()
    }
}

/// Normalisation, first stage: trimmed, fragment and query removed, trailing
/// slashes removed.
pub open spec fn normalize_stage1(raw: Seq<char>) -> Seq<char> {
    trim_end_matches(before_char(before_char(trim(raw), '#'), '?'), slash())
}

/// Normalisation, second stage: the scheme rewritten to `https://`.
pub open spec fn normalize_stage2(url: Seq<char>) -> Seq<char> {
    match strip_prefix(url, git_at()) {
        Some(rest) => match split_once(rest, ':') {
            Some((host, path)) => https_scheme() + host + slash() + trim_start_matches(
                path,
                slash(),
            ),
            None => url,
        },
        None => match strip_prefix(url, http_scheme()) {
            Some(rest) => https_scheme() + rest,
            None => if has_prefix(url, https_scheme()) {
                url
            } else {
                https_scheme() + url
            },
        },
    }
}

/// The canonical HTTPS form of a git URL, as `normalize_git_url` returns it.
pub open spec fn normalized_git_url(raw: Seq<char>) -> Seq<char> {
    let u = trim_end_matches(normalize_stage2(normalize_stage1(raw)), slash());
    if has_suffix(u, git_suffix()) {
        u
    } else {
        u + git_suffix()
    }
}

/// A git URL trimmed, without trailing slashes and `.git` suffixes.
pub open spec fn url_core(git_url: Seq<char>) -> Seq<char> {
    trim_end_matches(trim_end_matches(trim(git_url), slash()), git_suffix())
}

/// `(domain, path)` from what follows the `http(s)://` scheme.
pub open spec fn parts_after_scheme(r: Seq<char>) -> (Seq<char>, Seq<char>) {
    match split_once(r, '/') {
        Some((host, path)) => (replace_char(host, ':', '-'), path),
        None => (replace_char(r, ':', '-'), Seq::empty()),
    }
}

/// `(domain, path)` of a URL without an `http(s)://` scheme.
pub open spec fn parts_without_scheme(u: Seq<char>) -> (Seq<char>, Seq<char>) {
    match strip_prefix(u, git_at()) {
        Some(r) => match split_once(r, ':') {
            Some((host, path)) => (replace_char(host, ':', '-'), path),
            None => (unknown_domain(), u),
        },
        None => (unknown_domain(), u),
    }
}

/// `(domain, path)` of a git URL, as `parse_git_url_parts` returns them.
pub open spec fn git_url_parts(git_url: Seq<char>) -> (Seq<char>, Seq<char>) {
    let u = url_core(git_url);
    let rest = match strip_prefix(u, https_scheme()) {
        Some(r) => Some(r),
        None => strip_prefix(u, http_scheme()),
    };
    match rest {
        Some(r) => parts_after_scheme(r),
        None => parts_without_scheme(u),
    }
}

/// `domain/path`.
pub open spec fn repo_sign(domain: Seq<char>, path: Seq<char>) -> Seq<char> {
    domain + slash() + path
}

/// `https://domain/path.git`.
pub open spec fn git_url_of(domain: Seq<char>, path: Seq<char>) -> Seq<char> {
    https_scheme() + domain + slash() + path + git_suffix()
}

/// `char::is_control`: the `Cc` general category.
pub open spec fn is_control(c: char) -> bool {
    (c as u32) <= 0x1f || (0x7f <= (c as u32) && (c as u32) <= 0x9f)
}

/// Why `validate_git_url` refuses a URL, if it does.
pub enum GitUrlProblem {
    Empty,
    TooLong,
    LeadingDash,
    Whitespace,
    NotHttp,
    MissingPath,
}

/// The first problem `validate_git_url` finds with `url`, in the order it checks.
pub open spec fn git_url_problem(url: Seq<char>) -> Option<GitUrlProblem> {
    if url.len() == 0 {
        Some(GitUrlProblem::Empty)
    } else if (vstd::utf8::encode_utf8(url).len() as usize) > 2048 {
        Some(GitUrlProblem::TooLong)
    } else if url[0] == '-' {
        Some(GitUrlProblem::LeadingDash)
    } else if exists|k: int| 0 <= k < url.len() && (is_control(url[k]) || url[k] == ' ' || url[k] == '\t') {
        Some(GitUrlProblem::Whitespace)
    } else if !(has_prefix(url, https_scheme()) || has_prefix(url, http_scheme())) {
        Some(GitUrlProblem::NotHttp)
    } else if git_url_parts(url).1.len() == 0 || !git_url_parts(url).1.contains('/') {
        Some(GitUrlProblem::MissingPath)
    } else {
        None
    }
}

/// The message `validate_git_url` gives for a problem.
pub open spec fn git_url_problem_message(p: GitUrlProblem) -> Seq<char> {
    match p {
        GitUrlProblem::Empty => "git_url is empty"@,
        GitUrlProblem::TooLong => "git_url too long"@,
        GitUrlProblem::LeadingDash => "git_url must not start with '-'"@,
        GitUrlProblem::Whitespace => "git_url contains whitespace or control characters"@,
        GitUrlProblem::NotHttp => "git_url must use http(s):// scheme after normalization"@,
        GitUrlProblem::MissingPath => "git_url must include owner and repo path"@,
    }
}

// ---------------------------------------------------------------------------
// Executable functions
// ---------------------------------------------------------------------------

fn git_at_chars() -> (r: Vec<char>)
    ensures
        r@ == git_at(),
{
    vec!['g', 'i', 't', '@']
}

/// Return the first `max_chars` Unicode scalar values from `value`.
pub fn take_chars(value: &str, max_chars: usize) -> (r: String)
    ensures
        r@ == take_chars_spec(value@, max_chars as nat),
{
    let v = chars_of(value);
    if v.len() <= max_chars {
        assert(v@.subrange(0, v.len() as int) =~= v@);
        string_of(&v)
    } else {
        string_of(&slice_vec(&v, 0, max_chars))
    }
}

/// Truncate arbitrary user/repo text without slicing through a UTF-8 boundary.
pub fn truncate_chars(value: &str, max_chars: usize) -> (r: String)
    ensures
        r@ == truncated(value@, max_chars as nat),
{
    let v = chars_of(value);
    if v.len() <= max_chars {
        string_of(&v)
    } else {
        let dots = vec!['.', '.', '.'];
        string_of(&concat(&slice_vec(&v, 0, max_chars), &dots))
    }
}

/// End of `before_char(v[lo..hi], c)`.
fn before_char_at(v: &[char], lo: usize, hi: usize, c: char) -> (r: usize)
    requires
        lo <= hi <= v.len(),
    ensures
        lo <= r <= hi,
        v@.subrange(lo as int, r as int) == before_char(v@.subrange(lo as int, hi as int), c),
{
    match find_char_at(v, lo, hi, c) {
        Some(i) => {
            assert(v@.subrange(lo as int, hi as int).subrange(0, i as int) =~= v@.subrange(
                lo as int,
                lo + i,
            ));
            lo + i
        },
        None => hi,
    }
}

/// The first normalisation stage, as characters.
fn normalize_stage1_exec(raw: &str) -> (r: Vec<char>)
    ensures
        r@ == normalize_stage1(raw@),
{
    let v = chars_of(raw);
    let n = v.len();
    assert(v@.subrange(0, n as int) =~= v@);
    let (a, b) = trim_at(&v, 0, n);
    let b = before_char_at(&v, a, b, '#');
    let b = before_char_at(&v, a, b, '?');
    let slash_c = slash_chars();
    let b = trim_end_matches_at(&v, a, b, &slash_c);
    slice_vec(&v, a, b)
}

/// The second normalisation stage, as characters.
fn normalize_stage2_exec(url: &[char]) -> (r: Vec<char>)
    ensures
        r@ == normalize_stage2(url@),
{
    let n = url.len();
    let https_c = https_scheme_chars();
    let http_c = http_scheme_chars();
    let git_at_c = git_at_chars();
    let slash_c = slash_chars();
    if starts_with(url, &git_at_c) {
        let ghost rest = url@.subrange(4, n as int);
        assert(strip_prefix(url@, git_at()) == Some(rest));
        match find_char_at(url, 4, n, ':') {
            Some(i) => {
                let host = slice_vec(url, 4, 4 + i);
                let ps = trim_start_matches_at(url, 4 + i + 1, n, &slash_c);
                let path = slice_vec(url, ps, n);
                proof {
                    lemma_first_index(rest, ':');
                    assert(rest.subrange(0, i as int) =~= host@);
                    assert(rest.subrange(i + 1, rest.len() as int) =~= url@.subrange(
                        4 + i + 1,
                        n as int,
                    ));
                }
                let r = concat(&concat(&concat(&https_c, &host), &slash_c), &path);
                r
            },
            None => slice_vec(url, 0, n),
        }
    } else if starts_with(url, &http_c) {
        assert(strip_prefix(url@, http_scheme()) == Some(url@.subrange(7, n as int)));
        concat(&https_c, &slice_vec(url, 7, n))
    } else if !starts_with(url, &https_c) {
        concat(&https_c, url)
    } else {
        slice_vec(url, 0, n)
    }
}

/// Normalize a git URL to a canonical HTTPS form.
///
/// - `git@github.com:org/repo` → `https://github.com/org/repo.git`
/// - `https://github.com/org/repo` → `https://github.com/org/repo.git`
/// - `http://github.com/org/repo.git/` → `https://github.com/org/repo.git`
///
/// Ensures the same repo always produces the same URL regardless of
/// how the user typed it.
pub fn normalize_git_url(raw: &str) -> (r: String)
    ensures
        r@ == normalized_git_url(raw@),
{
    let s1 = normalize_stage1_exec(raw);
    let s2 = normalize_stage2_exec(&s1);
    let slash_c = slash_chars();
    let git_c = git_suffix_chars();
    let e = trim_end_matches_at(&s2, 0, s2.len(), &slash_c);
    assert(s2@.subrange(0, s2.len() as int) =~= s2@);
    let u = slice_vec(&s2, 0, e);
    if ends_with(&u, &git_c) {
        string_of(&u)
    } else {
        string_of(&concat(&u, &git_c))
    }
}

/// Validate a normalized git URL for safe consumption by the `git` CLI.
///
/// Rejects values that could be misinterpreted as `git` options or that
/// contain shell / control characters. Even though every caller passes the
/// URL as a single argv element (no shell), `git` itself treats arguments
/// beginning with `-` as flags, so we must reject those explicitly.
pub fn validate_git_url(url: &str) -> (r: Result<(), AppError>)
    ensures
        r is Ok <==> git_url_problem(url@) is None,
        r matches Err(e) ==> e matches AppError::BadRequest(m) && m@ == git_url_problem_message(
            git_url_problem(url@)->0,
        ),
{
    if url.is_empty() {
        return Err(AppError::BadRequest("git_url is empty".to_string()));
    }
    if url.len() > 2048 {
        return Err(AppError::BadRequest("git_url too long".to_string()));
    }
    let v = chars_of(url);
    if v[0] == '-' {
        return Err(AppError::BadRequest("git_url must not start with '-'".to_string()));
    }
    let mut i: usize = 0;
    while i < v.len()
        invariant
            i <= v.len(),
            v@ == url@,
            url@.len() > 0,
            url@[0] != '-',
            !((vstd::utf8::encode_utf8(url@).len() as usize) > 2048),
            forall|k: int| 0 <= k < i ==> !(is_control(v@[k]) || v@[k] == ' ' || v@[k] == '\t'),
        decreases v.len() - i,
    {
        let c = v[i];
        let u = c as u32;
        if u <= 0x1f || (0x7f <= u && u <= 0x9f) || c == ' ' || c == '\t' {
            assert(is_control(url@[i as int]) || url@[i as int] == ' ' || url@[i as int] == '\t');
            assert(exists|k: int|
                0 <= k < url@.len() && (is_control(url@[k]) || url@[k] == ' ' || url@[k]
                    == '\t'));
            return Err(
                AppError::BadRequest("git_url contains whitespace or control characters".to_string()),
            );
        }
        i += 1;
    }
    assert(!exists|k: int|
        0 <= k < url@.len() && (is_control(url@[k]) || url@[k] == ' ' || url@[k] == '\t'));
    let https_c = https_scheme_chars();
    let http_c = http_scheme_chars();
    if !(starts_with(&v, &https_c) || starts_with(&v, &http_c)) {
        return Err(
            AppError::BadRequest(
                "git_url must use http(s):// scheme after normalization".to_string(),
            ),
        );
    }
    let (_, path) = parse_git_url_parts(url);
    let p = chars_of(path.as_str());
    if p.len() == 0 || !contains_char(&p, '/') {
        return Err(AppError::BadRequest("git_url must include owner and repo path".to_string()));
    }
    Ok(())
}

/// `(replace(v[lo..hi], ':', '-'), v[hi+1..end])` as strings.
fn host_and_path(v: &[char], lo: usize, mid: usize, end: usize) -> (r: (String, String))
    requires
        lo <= mid < end <= v.len(),
    ensures
        r.0@ == replace_char(v@.subrange(lo as int, mid as int), ':', '-'),
        r.1@ == v@.subrange(mid + 1, end as int),
{
    let host = replace_char_vec(&slice_vec(v, lo, mid), ':', '-');
    let path = slice_vec(v, mid + 1, end);
    (string_of(&host), string_of(&path))
}

/// `parts_after_scheme(v[lo..hi])` as strings.
fn parts_after_scheme_exec(v: &[char], lo: usize, hi: usize) -> (r: (String, String))
    requires
        lo <= hi <= v.len(),
    ensures
        (r.0@, r.1@) == parts_after_scheme(v@.subrange(lo as int, hi as int)),
{
    let ghost rest = v@.subrange(lo as int, hi as int);
    match find_char_at(v, lo, hi, '/') {
        Some(i) => {
            proof {
                lemma_first_index(rest, '/');
            }
            assert(rest.subrange(0, i as int) =~= v@.subrange(lo as int, lo + i));
            assert(rest.subrange(i + 1, rest.len() as int) =~= v@.subrange(lo + i + 1, hi as int));
            host_and_path(v, lo, lo + i, hi)
        },
        None => {
            let host = replace_char_vec(&slice_vec(v, lo, hi), ':', '-');
            (string_of(&host), String::new())
        },
    }
}

/// `parts_without_scheme(v[lo..hi])` as strings.
fn parts_without_scheme_exec(v: &[char], lo: usize, hi: usize) -> (r: (String, String))
    requires
        lo <= hi <= v.len(),
    ensures
        (r.0@, r.1@) == parts_without_scheme(v@.subrange(lo as int, hi as int)),
{
    let ghost u = v@.subrange(lo as int, hi as int);
    let git_at_c = git_at_chars();
    let unknown = vec!['u', 'n', 'k', 'n', 'o', 'w', 'n'];
    if has_prefix_at(v, lo, hi, &git_at_c) {
        let ghost rest = v@.subrange(lo + 4, hi as int);
        assert(u.subrange(4, u.len() as int) =~= rest);
        match find_char_at(v, lo + 4, hi, ':') {
            Some(i) => {
                proof {
                    lemma_first_index(rest, ':');
                }
                assert(rest.subrange(0, i as int) =~= v@.subrange(lo + 4, lo + 4 + i));
                assert(rest.subrange(i + 1, rest.len() as int) =~= v@.subrange(
                    lo + 4 + i + 1,
                    hi as int,
                ));
                host_and_path(v, lo + 4, lo + 4 + i, hi)
            },
            None => (string_of(&unknown), string_of(&slice_vec(v, lo, hi))),
        }
    } else {
        (string_of(&unknown), string_of(&slice_vec(v, lo, hi)))
    }
}

/// Bounds of `url_core(v)` within `v`.
fn url_core_bounds(v: &[char]) -> (r: (usize, usize))
    ensures
        r.0 <= r.1 <= v.len(),
        v@.subrange(r.0 as int, r.1 as int) == url_core(v@),
{
    let n = v.len();
    assert(v@.subrange(0, n as int) =~= v@);
    let (a, b) = trim_at(v, 0, n);
    let slash_c = slash_chars();
    let git_c = git_suffix_chars();
    let b = trim_end_matches_at(v, a, b, &slash_c);
    let b = trim_end_matches_at(v, a, b, &git_c);
    (a, b)
}

/// Extract `(domain, path_slug)` from a **normalized** git URL.
///
/// The domain is the host (with port `:` replaced by `-`); the path is the URL
/// path without `.git`.
///
/// Example: `https://github.com/anthropics/skills.git`
///   → `("github.com", "anthropics/skills")`
pub fn parse_git_url_parts(git_url: &str) -> (r: (String, String))
    ensures
        (r.0@, r.1@) == git_url_parts(git_url@),
{
    let v = chars_of(git_url);
    let (a, b) = url_core_bounds(&v);
    let ghost u = v@.subrange(a as int, b as int);
    let https_c = https_scheme_chars();
    let http_c = http_scheme_chars();
    if has_prefix_at(&v, a, b, &https_c) {
        assert(u.subrange(8, u.len() as int) =~= v@.subrange(a + 8, b as int));
        parts_after_scheme_exec(&v, a + 8, b)
    } else if has_prefix_at(&v, a, b, &http_c) {
        assert(u.subrange(7, u.len() as int) =~= v@.subrange(a + 7, b as int));
        parts_after_scheme_exec(&v, a + 7, b)
    } else {
        parts_without_scheme_exec(&v, a, b)
    }
}

/// Derive the old-style repo "sign" from its normalized git_url.
///
/// E.g. `https://github.com/org/repo.git` → `github.com/org/repo`
pub fn derive_repo_sign(git_url: &str) -> (r: String)
    ensures
        r@ == repo_sign(git_url_parts(git_url@).0, git_url_parts(git_url@).1),
{
    let (domain, path) = parse_git_url_parts(git_url);
    let d = chars_of(domain.as_str());
    let p = chars_of(path.as_str());
    let s = slash_chars();
    string_of(&concat(&concat(&d, &s), &p))
}

/// Reconstruct a normalized git_url from domain and path_slug.
///
/// E.g. `("github.com", "org/repo")` → `https://github.com/org/repo.git`
pub fn sign_to_git_url(domain: &str, path_slug: &str) -> (r: String)
    ensures
        r@ == git_url_of(domain@, path_slug@),
{
    let d = chars_of(domain);
    let p = chars_of(path_slug);
    let https_c = https_scheme_chars();
    let s = slash_chars();
    let g = git_suffix_chars();
    string_of(&concat(&concat(&concat(&concat(&https_c, &d), &s), &p), &g))
}

/// The non-empty pieces of `ps`, joined with `/`.
pub open spec fn joined_segments(ps: Seq<Seq<char>>) -> Seq<char>
    decreases ps.len(),
{
    if ps.len() == 0 {
        Seq::empty()
    } else {
        let acc = joined_segments(ps.drop_last());
        let last = ps.last();
        if last.len() == 0 {
            acc
        } else if acc.len() == 0 {
            last
        } else {
            acc + slash() + last
        }
    }
}

/// The cache directory (relative to the cache root) that a repo URL maps to:
/// the URL without scheme and `.git`, its empty path segments dropped.
pub open spec fn cache_dir_name(url: Seq<char>) -> Seq<char> {
    joined_segments(
        split(
            drop_http_scheme(trim_end_matches(trim_end_matches(trim(url), slash()), git_suffix())),
            '/',
        ),
    )
}

/// `base.join(child)` for a relative, non-empty `child` on a Unix-style path.
pub open spec fn path_join(base: Seq<char>, child: Seq<char>) -> Seq<char> {
    if has_prefix(child, slash()) || base.len() == 0 {
        child
    } else if has_suffix(base, slash()) {
        base + child
    } else {
        base + slash() + child
    }
}

/// Derive a stable, human-readable cache directory path from a git URL.
///
/// `https://github.com/openclaw/skills.git` → `github.com/openclaw/skills`
///
/// The same repo always maps to the same directory regardless of git_ref.
pub fn repo_cache_dir_name(url: &str) -> (r: String)
    ensures
        r@ == cache_dir_name(url@),
{
    let stripped = chars_of(crate::urls::strip_url_scheme(url));
    let pieces = split_vec(&stripped, '/');
    let mut acc: Vec<char> = Vec::new();
    let mut i: usize = 0;
    let s = slash_chars();
    while i < pieces.len()
        invariant
            i <= pieces.len(),
            s@ == slash(),
            acc@ == joined_segments(seqs_of(pieces@).take(i as int)),
        decreases pieces.len() - i,
    {
        let ghost ps = seqs_of(pieces@).take(i + 1);
        assert(ps.drop_last() =~= seqs_of(pieces@).take(i as int));
        assert(ps.last() == pieces@[i as int]@);
        if pieces[i].len() == 0 {
        } else if acc.len() == 0 {
            acc = slice_vec(&pieces[i], 0, pieces[i].len());
            assert(acc@ =~= pieces@[i as int]@);
        } else {
            acc = concat(&concat(&acc, &s), &pieces[i]);
        }
        i += 1;
    }
    assert(seqs_of(pieces@).take(pieces.len() as int) =~= seqs_of(pieces@));
    string_of(&acc)
}

/// The checkout directory of a repo URL under the cache root `base_path`.
pub fn cached_repo_dir(base_path: &str, url: &str) -> (r: String)
    ensures
        r@ == path_join(base_path@, cache_dir_name(url@)),
{
    let name = chars_of(repo_cache_dir_name(url).as_str());
    let base = chars_of(base_path);
    let s = slash_chars();
    if starts_with(&name, &s) || base.len() == 0 {
        string_of(&name)
    } else if ends_with(&base, &s) {
        string_of(&concat(&base, &name))
    } else {
        string_of(&concat(&concat(&base, &s), &name))
    }
}

// ---------------------------------------------------------------------------
// Laws
// ---------------------------------------------------------------------------

/// The parts a canonical git URL is assembled from: a domain without `/` or `:`,
/// and a path that does not itself end in `.git`.
pub open spec fn canonical_parts(domain: Seq<char>, path: Seq<char>) -> bool {
    !domain.contains('/') && !domain.contains(':') && !has_suffix(path, git_suffix())
}

/// `https://d/p` does not end in `.git` when `p` does not.
proof fn lemma_base_not_git(d: Seq<char>, p: Seq<char>)
    requires
        !has_suffix(p, git_suffix()),
    ensures
        !has_suffix(https_scheme() + d + slash() + p, git_suffix()),
{
    let b = https_scheme() + d + slash() + p;
    if has_suffix(b, git_suffix()) {
        let n = b.len();
        assert(b.subrange(n - 4, n as int)[3] == 't');
        if p.len() >= 4 {
            assert(p.subrange(p.len() - 4, p.len() as int) =~= b.subrange(n - 4, n as int));
        } else if p.len() == 3 {
            assert(b.subrange(n - 4, n as int)[0] == '/');
        } else if p.len() == 2 {
            assert(b.subrange(n - 4, n as int)[1] == '/');
        } else if p.len() == 1 {
            assert(b.subrange(n - 4, n as int)[2] == '/');
        } else {
            assert(b.subrange(n - 4, n as int)[3] == '/');
        }
    }
}

/// Law: `parse_git_url_parts` recovers the domain and path that `sign_to_git_url`
/// assembled, so `sign_to_git_url` inverts `parse_git_url_parts` on canonical URLs.
pub proof fn law_git_url_parts_roundtrip(domain: Seq<char>, path: Seq<char>)
    requires
        canonical_parts(domain, path),
    ensures
        git_url_parts(git_url_of(domain, path)) == (domain, path),
        git_url_of(git_url_parts(git_url_of(domain, path)).0, git_url_parts(git_url_of(domain, path)).1)
            == git_url_of(domain, path),
        repo_sign(git_url_parts(git_url_of(domain, path)).0, git_url_parts(git_url_of(domain, path)).1)
            == domain + slash() + path,
{
    let full = git_url_of(domain, path);
    let base = https_scheme() + domain + slash() + path;
    assert(full =~= base + git_suffix());
    assert(full[0] == 'h');
    assert(full.last() == 't');
    lemma_trim_noop(full);
    assert(!has_suffix(full, slash())) by {
        if has_suffix(full, slash()) {
            assert(full.subrange(full.len() - 1, full.len() as int)[0] == full.last());
        }
    }
    lemma_trim_end_matches_noop(full, slash());
    assert(has_suffix(full, git_suffix())) by {
        assert(full.subrange(full.len() - 4, full.len() as int) =~= git_suffix());
    }
    assert(full.subrange(0, full.len() - 4) =~= base);
    lemma_base_not_git(domain, path);
    lemma_trim_end_matches_noop(base, git_suffix());
    assert(url_core(full) == base);
    let rest = domain + slash() + path;
    assert(base.subrange(0, 8) =~= https_scheme());
    assert(base.subrange(8, base.len() as int) =~= rest);
    assert forall|k: int| 0 <= k < domain.len() implies rest[k] != '/' by {
        assert(rest[k] == domain[k]);
        if domain[k] == '/' {
            assert(domain.contains('/'));
        }
    }
    assert(rest[domain.len() as int] == '/');
    lemma_first_index_at(rest, '/', domain.len() as int);
    assert(rest.subrange(0, domain.len() as int) =~= domain);
    assert(rest.subrange(domain.len() as int + 1, rest.len() as int) =~= path);
    assert(replace_char(domain, ':', '-') =~= domain) by {
        assert forall|k: int| 0 <= k < domain.len() implies domain[k] != ':' by {
            if domain[k] == ':' {
                assert(domain.contains(':'));
            }
        }
    }
}

/// What `normalize_git_url` produces is free of `#` and `?`, ends in `.git`, and, when it
/// starts with `git@`, has no `:` after that prefix.
proof fn lemma_normalized_shape(raw: Seq<char>)
    ensures
        !normalized_git_url(raw).contains('#'),
        !normalized_git_url(raw).contains('?'),
        has_suffix(normalized_git_url(raw), git_suffix()),
        has_prefix(normalized_git_url(raw), git_at()) ==> !normalized_git_url(raw).subrange(
            4,
            normalized_git_url(raw).len() as int,
        ).contains(':'),
{
    let t = trim(raw);
    let h = before_char(t, '#');
    lemma_first_index(t, '#');
    if first_index(t, '#') >= 0 {
        lemma_free(h, '#');
    } else {
        lemma_free(t, '#');
    }
    let q = before_char(h, '?');
    lemma_first_index(h, '?');
    if first_index(h, '?') >= 0 {
        lemma_free(q, '?');
        lemma_subrange_free(h, 0, first_index(h, '?'), '#');
    } else {
        lemma_free(h, '?');
    }
    let s1 = normalize_stage1(raw);
    lemma_trim_end_matches_prefix(q, slash());
    lemma_subrange_free(q, 0, s1.len() as int, '#');
    lemma_subrange_free(q, 0, s1.len() as int, '?');
    assert(!https_scheme().contains('#') && !https_scheme().contains('?')) by {
        lemma_free(https_scheme(), '#');
        lemma_free(https_scheme(), '?');
    }
    assert(!slash().contains('#') && !slash().contains('?')) by {
        lemma_free(slash(), '#');
        lemma_free(slash(), '?');
    }
    assert(!git_suffix().contains('#') && !git_suffix().contains('?') && !git_suffix().contains(
        ':',
    )) by {
        lemma_free(git_suffix(), '#');
        lemma_free(git_suffix(), '?');
        lemma_free(git_suffix(), ':');
    }
    let s2 = normalize_stage2(s1);
    let c1 = '#';
    let c2 = '?';
    // Every part of stage 2 comes from stage 1 or from constants.
    if let Some(rest) = strip_prefix(s1, git_at()) {
        lemma_subrange_free(s1, 4, s1.len() as int, c1);
        lemma_subrange_free(s1, 4, s1.len() as int, c2);
        if let Some((host, path)) = split_once(rest, ':') {
            let i = first_index(rest, ':');
            lemma_first_index(rest, ':');
            lemma_subrange_free(rest, 0, i, c1);
            lemma_subrange_free(rest, 0, i, c2);
            lemma_subrange_free(rest, i + 1, rest.len() as int, c1);
            lemma_subrange_free(rest, i + 1, rest.len() as int, c2);
            let tp = trim_start_matches(path, slash());
            lemma_trim_start_matches_suffix(path, slash());
            lemma_subrange_free(path, path.len() - tp.len(), path.len() as int, c1);
            lemma_subrange_free(path, path.len() - tp.len(), path.len() as int, c2);
            lemma_concat_free(https_scheme(), host, c1);
            lemma_concat_free(https_scheme(), host, c2);
            lemma_concat_free(https_scheme() + host, slash(), c1);
            lemma_concat_free(https_scheme() + host, slash(), c2);
            lemma_concat_free(https_scheme() + host + slash(), tp, c1);
            lemma_concat_free(https_scheme() + host + slash(), tp, c2);
        }
    } else if let Some(rest) = strip_prefix(s1, http_scheme()) {
        lemma_subrange_free(s1, 7, s1.len() as int, c1);
        lemma_subrange_free(s1, 7, s1.len() as int, c2);
        lemma_concat_free(https_scheme(), rest, c1);
        lemma_concat_free(https_scheme(), rest, c2);
    } else if !has_prefix(s1, https_scheme()) {
        lemma_concat_free(https_scheme(), s1, c1);
        lemma_concat_free(https_scheme(), s1, c2);
    }
    assert(!s2.contains(c1) && !s2.contains(c2));
    let u = trim_end_matches(s2, slash());
    lemma_trim_end_matches_prefix(s2, slash());
    lemma_subrange_free(s2, 0, u.len() as int, c1);
    lemma_subrange_free(s2, 0, u.len() as int, c2);
    let y = normalized_git_url(raw);
    if !has_suffix(u, git_suffix()) {
        lemma_concat_free(u, git_suffix(), c1);
        lemma_concat_free(u, git_suffix(), c2);
        assert((u + git_suffix()).subrange(u.len() as int, (u + git_suffix()).len() as int)
            =~= git_suffix());
    }
    if has_prefix(y, git_at()) {
        lemma_normalized_git_at(raw);
    }
}

/// When `normalize_git_url` keeps a `git@` prefix, the URL had no `:` after it.
proof fn lemma_normalized_git_at(raw: Seq<char>)
    requires
        has_prefix(normalized_git_url(raw), git_at()),
    ensures
        !normalized_git_url(raw).subrange(4, normalized_git_url(raw).len() as int).contains(':'),
        normalize_stage2(normalize_stage1(raw)) == normalize_stage1(raw),
{
    let s1 = normalize_stage1(raw);
    let s2 = normalize_stage2(s1);
    let u = trim_end_matches(s2, slash());
    let y = normalized_git_url(raw);
    assert(y[0] == 'g');
    // A stage-2 result that starts with `https://` keeps its leading `h`.
    if has_prefix(s2, https_scheme()) {
        assert(s2.subrange(0, 8)[5] == ':');
        assert(s2[5] == ':');
        lemma_trim_end_matches_keeps(s2, '/', 5);
        lemma_trim_end_matches_prefix(s2, slash());
        assert(u[0] == s2[0]);
        assert(s2[0] == s2.subrange(0, 8)[0]);
        if !has_suffix(u, git_suffix()) {
            assert((u + git_suffix())[0] == u[0]);
        }
        assert(y[0] == 'h');
        assert(false);
    }
    // Stage 2 either adds `https://` or keeps a `git@` URL whose rest has no `:`.
    let rest = s1.subrange(4, s1.len() as int);
    if has_prefix(s1, git_at()) {
        if let Some((host, path)) = split_once(rest, ':') {
            assert((https_scheme() + host + slash() + trim_start_matches(path, slash())).subrange(
                0,
                8,
            ) =~= https_scheme());
            assert(false);
        }
    } else if has_prefix(s1, http_scheme()) {
        assert((https_scheme() + s1.subrange(7, s1.len() as int)).subrange(0, 8)
            =~= https_scheme());
        assert(false);
    } else if !has_prefix(s1, https_scheme()) {
        assert((https_scheme() + s1).subrange(0, 8) =~= https_scheme());
        assert(false);
    }
    assert(s2 == s1);
    lemma_first_index(rest, ':');
    // Stage 1 ends without a slash, so removing slashes again changes nothing.
    let q = before_char(before_char(trim(raw), '#'), '?');
    lemma_trim_end_matches_idem(q, slash());
    assert(u == s1);
    lemma_free(git_suffix(), ':');
    if has_suffix(u, git_suffix()) {
        assert(y.subrange(4, y.len() as int) =~= rest);
    } else {
        assert(y.subrange(4, y.len() as int) =~= rest + git_suffix());
        lemma_concat_free(rest, git_suffix(), ':');
    }
}

/// Law: normalising a normalised git URL changes nothing (the canonical form is a fixed
/// point), for every input whose normalised form keeps its `https://` or `git@` prefix.
pub proof fn law_normalize_git_url_idempotent(raw: Seq<char>)
    requires
        has_prefix(normalized_git_url(raw), https_scheme()) || has_prefix(
            normalized_git_url(raw),
            git_at(),
        ),
    ensures
        normalized_git_url(normalized_git_url(raw)) == normalized_git_url(raw),
{
    let y = normalized_git_url(raw);
    lemma_normalized_shape(raw);
    // First stage: nothing to trim or cut.
    assert(y.subrange(y.len() - 4, y.len() as int) =~= git_suffix());
    assert(y.last() == 't') by {
        assert(y.subrange(y.len() - 4, y.len() as int)[3] == y.last());
    }
    if has_prefix(y, https_scheme()) {
        assert(y[0] == y.subrange(0, 8)[0]);
    } else {
        assert(y[0] == y.subrange(0, 4)[0]);
    }
    lemma_trim_noop(y);
    lemma_first_index(y, '#');
    lemma_first_index(y, '?');
    assert(before_char(y, '#') == y);
    assert(before_char(y, '?') == y);
    assert(!has_suffix(y, slash())) by {
        if has_suffix(y, slash()) {
            assert(y.subrange(y.len() - 1, y.len() as int)[0] == y.last());
        }
    }
    lemma_trim_end_matches_noop(y, slash());
    assert(normalize_stage1(y) == y);
    // Second stage: the URL is already in its final scheme.
    if has_prefix(y, https_scheme()) {
        assert(y[0] == 'h');
        assert(!has_prefix(y, git_at())) by {
            if has_prefix(y, git_at()) {
                assert(y.subrange(0, 4)[0] == 'g');
            }
        }
        assert(!has_prefix(y, http_scheme())) by {
            if has_prefix(y, http_scheme()) {
                assert(y.subrange(0, 7)[4] == ':');
                assert(y.subrange(0, 8)[4] == 's');
            }
        }
        assert(normalize_stage2(y) == y);
    } else {
        let rest = y.subrange(4, y.len() as int);
        lemma_first_index(rest, ':');
        assert(split_once(rest, ':') is None);
        assert(normalize_stage2(y) == y);
    }
    lemma_trim_end_matches_noop(y, slash());
}

/// The text a git URL is normalised from: trimmed, cut at the first `#` and the first
/// `?`, without trailing slashes.
pub open spec fn url_body(raw: Seq<char>) -> Seq<char> {
    trim_end_matches(before_char(before_char(trim(raw), '#'), '?'), slash())
}

/// `s` with `.git` added unless it already ends with it.
pub open spec fn with_git_suffix(s: Seq<char>) -> Seq<char> {
    if has_suffix(s, git_suffix()) {
        s
    } else {
        s + git_suffix()
    }
}

/// Text that does not end with `/`, put after `https://`: trailing slashes and the `.git`
/// suffix are decided by that text alone.
proof fn lemma_after_https(q: Seq<char>)
    requires
        q.len() > 0,
        !has_suffix(q, slash()),
    ensures
        trim_end_matches(https_scheme() + q, slash()) == https_scheme() + q,
        has_suffix(https_scheme() + q, git_suffix()) == has_suffix(q, git_suffix()),
{
    let u = https_scheme() + q;
    assert(!has_suffix(u, slash())) by {
        if has_suffix(u, slash()) {
            assert(u.subrange(u.len() - 1, u.len() as int)[0] == u[u.len() - 1]);
            assert(q.subrange(q.len() - 1, q.len() as int)[0] == q[q.len() - 1]);
            assert(u[u.len() - 1] == q[q.len() - 1]);
            assert(q.subrange(q.len() - 1, q.len() as int) =~= slash());
        }
    }
    lemma_trim_end_matches_noop(u, slash());
    if q.len() >= 4 {
        assert(u.subrange(u.len() - 4, u.len() as int) =~= q.subrange(
            q.len() - 4,
            q.len() as int,
        ));
    } else if has_suffix(u, git_suffix()) {
        // The `/` before `q` would have to be a letter of `.git`.
        let k = 3 - q.len();
        assert(u[u.len() - 1 - q.len()] == '/');
        assert(u.subrange(u.len() - 4, u.len() as int)[k] == u[u.len() - 4 + k]);
        assert(git_suffix()[k] != '/');
    }
}

/// A bare host and path is given the `https://` scheme: when what remains of a URL after
/// trimming and cutting off its fragment, query and trailing slashes is not empty and
/// starts with none of `git@`, `http://` and `https://`, its normal form is `https://`
/// followed by that text, ending in `.git` (added when missing).
pub proof fn law_bare_url_gets_https(raw: Seq<char>)
    requires
        url_body(raw).len() > 0,
        !has_prefix(url_body(raw), git_at()),
        !has_prefix(url_body(raw), http_scheme()),
        !has_prefix(url_body(raw), https_scheme()),
    ensures
        normalized_git_url(raw) == with_git_suffix(https_scheme() + url_body(raw)),
        has_prefix(normalized_git_url(raw), https_scheme()),
        has_suffix(url_body(raw), git_suffix()) ==> normalized_git_url(raw) == https_scheme()
            + url_body(raw),
        !has_suffix(url_body(raw), git_suffix()) ==> normalized_git_url(raw) == https_scheme()
            + url_body(raw) + git_suffix(),
{
    let q = url_body(raw);
    lemma_trim_end_matches_idem(before_char(before_char(trim(raw), '#'), '?'), slash());
    assert(normalize_stage1(raw) == q);
    assert(normalize_stage2(q) == https_scheme() + q);
    lemma_after_https(q);
    let y = normalized_git_url(raw);
    assert(y.subrange(0, 8) =~= https_scheme()) by {
        if !has_suffix(https_scheme() + q, git_suffix()) {
            assert((https_scheme() + q + git_suffix()).subrange(0, 8) =~= https_scheme());
        } else {
            assert((https_scheme() + q).subrange(0, 8) =~= https_scheme());
        }
    }
}

/// An `http://` URL is upgraded to `https://`: when what remains after trimming and
/// cutting off fragment, query and trailing slashes is `http://` followed by some text,
/// its normal form is `https://` followed by that text, ending in `.git`.
pub proof fn law_http_url_upgraded(raw: Seq<char>)
    requires
        has_prefix(url_body(raw), http_scheme()),
        url_body(raw).len() > 7,
    ensures
        normalized_git_url(raw) == with_git_suffix(
            https_scheme() + url_body(raw).subrange(7, url_body(raw).len() as int),
        ),
{
    let q = url_body(raw);
    let rest = q.subrange(7, q.len() as int);
    lemma_trim_end_matches_idem(before_char(before_char(trim(raw), '#'), '?'), slash());
    assert(normalize_stage1(raw) == q);
    assert(!has_prefix(q, git_at())) by {
        if has_prefix(q, git_at()) {
            assert(q.subrange(0, 4)[0] == q.subrange(0, 7)[0]);
        }
    }
    assert(normalize_stage2(q) == https_scheme() + rest);
    assert(!has_suffix(rest, slash())) by {
        if has_suffix(rest, slash()) {
            assert(rest.subrange(rest.len() - 1, rest.len() as int) =~= q.subrange(
                q.len() - 1,
                q.len() as int,
            ));
        }
    }
    lemma_after_https(rest);
}

/// An SSH address `git@host:path` becomes `https://host/path`: when what remains of a URL
/// after trimming and cutting off fragment, query and trailing slashes is `git@`, a host
/// without `:`, a `:` and a path that is not only slashes, its normal form is `https://`,
/// the host, `/` and the path without its leading slashes, ending in `.git`.
pub proof fn law_ssh_url_becomes_https(raw: Seq<char>, host: Seq<char>, path: Seq<char>)
    requires
        url_body(raw) == git_at() + host + seq![':'] + path,
        !host.contains(':'),
        trim_start_matches(path, slash()).len() > 0,
    ensures
        normalized_git_url(raw) == with_git_suffix(
            https_scheme() + host + slash() + trim_start_matches(path, slash()),
        ),
{
    let q = url_body(raw);
    lemma_trim_end_matches_idem(before_char(before_char(trim(raw), '#'), '?'), slash());
    assert(normalize_stage1(raw) == q);
    let rest = host + seq![':'] + path;
    assert(q.subrange(0, 4) =~= git_at());
    assert(q.subrange(4, q.len() as int) =~= rest);
    assert(rest[host.len() as int] == ':');
    lemma_first_index(rest, ':');
    let fi = first_index(rest, ':');
    assert(fi == host.len()) by {
        if fi < host.len() {
            assert(rest[fi] == host[fi]);
            assert(host.contains(':'));
        }
    }
    assert(rest.subrange(0, fi) =~= host);
    assert(rest.subrange(fi + 1, rest.len() as int) =~= path);
    let p2 = trim_start_matches(path, slash());
    lemma_trim_start_matches_suffix(path, slash());
    assert(normalize_stage2(q) == https_scheme() + (host + slash() + p2));
    assert(https_scheme() + (host + slash() + p2) =~= https_scheme() + host + slash() + p2);
    assert(!has_suffix(host + slash() + p2, slash())) by {
        let t = host + slash() + p2;
        let lastc = q[q.len() - 1];
        assert(p2[p2.len() - 1] == path[path.len() - 1]) by {
            assert(p2 == path.subrange(path.len() - p2.len(), path.len() as int));
        }
        assert(q =~= git_at() + host + seq![':'] + path);
        assert(path[path.len() - 1] == lastc);
        assert(t[t.len() - 1] == lastc);
        assert(!has_suffix(q, slash()));
        if lastc == '/' {
            assert(q.subrange(q.len() - 1, q.len() as int) =~= slash());
        }
        if has_suffix(t, slash()) {
            assert(t.subrange(t.len() - 1, t.len() as int)[0] == t[t.len() - 1]);
        }
    }
    lemma_after_https(host + slash() + p2);
}

} // verus!

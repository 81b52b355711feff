//! Display helpers for git / repository URLs.
use vstd::prelude::*;
use vstd::string::StrSliceExecFns;

use crate::text::{
    chars_of, has_prefix, has_prefix_at, has_suffix, last_index, lemma_trim_end_matches_prefix,
    rfind_char_at, strip_prefix, trim, trim_at, trim_end_matches, trim_end_matches_at,
};

verus! {

/// `"https://"`.
pub open spec fn https_scheme() -> Seq<char> {
    seq!['h', 't', 't', 'p', 's', ':', '/', '/']
}

/// `"http://"`.
pub open spec fn http_scheme() -> Seq<char> {
    seq!['h', 't', 't', 'p', ':', '/', '/']
}

/// `".git"`.
pub open spec fn git_suffix() -> Seq<char> {
    seq!['.', 'g', 'i', 't']
}

/// `"/"`.
pub open spec fn slash() -> Seq<char> {
    seq!['/']
}

pub fn https_scheme_chars() -> (r: Vec<char>)
    ensures
        r@ == https_scheme(),
{
    vec!['h', 't', 't', 'p', 's', ':', '/', '/']
}

pub fn http_scheme_chars() -> (r: Vec<char>)
    ensures
        r@ == http_scheme(),
{
    vec!['h', 't', 't', 'p', ':', '/', '/']
}

pub fn git_suffix_chars() -> (r: Vec<char>)
    ensures
        r@ == git_suffix(),
{
    vec!['.', 'g', 'i', 't']
}

pub fn slash_chars() -> (r: Vec<char>)
    ensures
        r@ == slash(),
{
    vec!['/']
}

/// `u` without a leading `https://`, or else without a leading `http://`.
pub open spec fn drop_http_scheme(u: Seq<char>) -> Seq<char> {
    match strip_prefix(u, https_scheme()) {
        Some(rest) => rest,
        None => match strip_prefix(u, http_scheme()) {
            Some(rest) => rest,
            None => u,
        },
    }
}

/// What `strip_url_scheme` shows for `url`: trimmed, without trailing slashes and
/// `.git` suffixes, and without an `http(s)://` scheme.
pub open spec fn stripped_url(url: Seq<char>) -> Seq<char> {
    drop_http_scheme(trim_end_matches(trim_end_matches(trim(url), slash()), git_suffix()))
}

/// What `strip_url_scheme_keep_git` shows for `url`.
pub open spec fn stripped_url_keep_git(url: Seq<char>) -> Seq<char> {
    drop_http_scheme(trim_end_matches(trim(url), slash()))
}

/// The last path segment of `url`, without trailing slashes and `.git`.
pub open spec fn short_name(url: Seq<char>) -> Seq<char> {
    let u = trim_end_matches(trim_end_matches(url, slash()), git_suffix());
    let i = last_index(u, '/');
    if i < 0 {
        u
    } else {
        u.subrange(i + 1, u.len() as int)
    }
}

/// Removing `.git` suffixes from text after a part that ends in `/` leaves that part.
proof fn lemma_trim_git_after_slash(q: Seq<char>, r: Seq<char>)
    requires
        q.len() > 0,
        q.last() == '/',
    ensures
        trim_end_matches(q + r, git_suffix()) == q + trim_end_matches(r, git_suffix()),
    decreases r.len(),
{
    let p = git_suffix();
    if has_suffix(r, p) {
        assert((q + r).subrange((q + r).len() - 4, (q + r).len() as int) =~= r.subrange(
            r.len() - 4,
            r.len() as int,
        ));
        assert((q + r).subrange(0, (q + r).len() - 4) =~= q + r.subrange(0, r.len() - 4));
        lemma_trim_git_after_slash(q, r.subrange(0, r.len() - 4));
    } else {
        if has_suffix(q + r, p) {
            let n = (q + r).len();
            if r.len() >= 4 {
                assert((q + r).subrange(n - 4, n as int) =~= r.subrange(
                    r.len() - 4,
                    r.len() as int,
                ));
            } else {
                let k = 3 - r.len();
                assert((q + r)[n - 1 - r.len()] == q.last());
                assert((q + r).subrange(n - 4, n as int)[k] == (q + r)[n - 4 + k]);
                assert(p[k] != '/');
            }
        }
    }
}

/// Dropping the scheme and removing `.git` suffixes can be done in either order.
proof fn lemma_drop_scheme_then_trim_git(t: Seq<char>)
    ensures
        drop_http_scheme(trim_end_matches(t, git_suffix())) == trim_end_matches(
            drop_http_scheme(t),
            git_suffix(),
        ),
{
    let p = git_suffix();
    let u = trim_end_matches(t, p);
    lemma_trim_end_matches_prefix(t, p);
    if has_prefix(t, https_scheme()) {
        let r = t.subrange(8, t.len() as int);
        assert(t =~= https_scheme() + r);
        lemma_trim_git_after_slash(https_scheme(), r);
        assert(u.subrange(0, 8) =~= https_scheme());
        assert(u.subrange(8, u.len() as int) =~= trim_end_matches(r, p));
    } else if has_prefix(t, http_scheme()) {
        let r = t.subrange(7, t.len() as int);
        assert(t =~= http_scheme() + r);
        lemma_trim_git_after_slash(http_scheme(), r);
        assert(u.subrange(0, 7) =~= http_scheme());
        assert(u[4] == ':');
        assert(!has_prefix(u, https_scheme()));
        assert(u.subrange(7, u.len() as int) =~= trim_end_matches(r, p));
    } else {
        if has_prefix(u, https_scheme()) {
            assert(t.subrange(0, 8) =~= u.subrange(0, 8));
        }
        if has_prefix(u, http_scheme()) {
            assert(t.subrange(0, 7) =~= u.subrange(0, 7));
        }
    }
}

/// The display form of a URL is its form with `.git` kept, with the trailing `.git`
/// suffixes removed: `strip_url_scheme(u)` is `strip_url_scheme_keep_git(u)` without
/// `.git` at its end.
pub proof fn law_strip_is_keep_git_without_suffix(url: Seq<char>)
    ensures
        stripped_url(url) == trim_end_matches(stripped_url_keep_git(url), git_suffix()),
{
    lemma_drop_scheme_then_trim_git(trim_end_matches(trim(url), slash()));
}

/// Bounds of `v[lo..hi]` after dropping a leading `https://` or `http://`.
fn drop_scheme_at(v: &[char], lo: usize, hi: usize) -> (r: usize)
    requires
        lo <= hi <= v.len(),
    ensures
        lo <= r <= hi,
        v@.subrange(r as int, hi as int) == drop_http_scheme(v@.subrange(lo as int, hi as int)),
{
    let https_c = https_scheme_chars();
    let http_c = http_scheme_chars();
    let ghost s = v@.subrange(lo as int, hi as int);
    if has_prefix_at(v, lo, hi, &https_c) {
        assert(s.subrange(8, s.len() as int) =~= v@.subrange(lo + 8, hi as int));
        lo + 8
    } else if has_prefix_at(v, lo, hi, &http_c) {
        assert(s.subrange(7, s.len() as int) =~= v@.subrange(lo + 7, hi as int));
        lo + 7
    } else {
        lo
    }
}

/// Strip `https://` / `http://` prefix and `.git` suffix for display.
pub fn strip_url_scheme(url: &str) -> (r: &str)
    ensures
        r@ == stripped_url(url@),
{
    let v = chars_of(url);
    let n = v.len();
    let (a, b) = trim_at(&v, 0, n);
    assert(v@.subrange(0, n as int) =~= v@);
    let slash_c = slash_chars();
    let git_c = git_suffix_chars();
    let b = trim_end_matches_at(&v, a, b, &slash_c);
    let b = trim_end_matches_at(&v, a, b, &git_c);
    let a = drop_scheme_at(&v, a, b);
    url.substring_char(a, b)
}

/// Strip only `https://` / `http://` prefix, keeping `.git` suffix intact.
pub fn strip_url_scheme_keep_git(url: &str) -> (r: &str)
    ensures
        r@ == stripped_url_keep_git(url@),
{
    let v = chars_of(url);
    let n = v.len();
    let (a, b) = trim_at(&v, 0, n);
    assert(v@.subrange(0, n as int) =~= v@);
    let slash_c = slash_chars();
    let b = trim_end_matches_at(&v, a, b, &slash_c);
    let a = drop_scheme_at(&v, a, b);
    url.substring_char(a, b)
}

/// Derive a human-readable repo slug from git_url
/// (e.g. `https://github.com/org/repo.git` → `github.com/org/repo`).
pub fn derive_repo_slug(git_url: &str) -> (r: String)
    ensures
        r@ == stripped_url(git_url@),
{
    strip_url_scheme(git_url).to_owned()
}

/// The last path segment of a repo URL (`https://h/org/repo.git` → `repo`).
pub fn short_repo_name(url: &str) -> (r: &str)
    ensures
        r@ == short_name(url@),
{
    let v = chars_of(url);
    let n = v.len();
    assert(v@.subrange(0, n as int) =~= v@);
    let slash_c = slash_chars();
    let git_c = git_suffix_chars();
    let b = trim_end_matches_at(&v, 0, n, &slash_c);
    let b = trim_end_matches_at(&v, 0, b, &git_c);
    match rfind_char_at(&v, 0, b, '/') {
        Some(i) => {
            assert(v@.subrange(0, b as int).subrange(i + 1, b as int) =~= v@.subrange(
                i + 1,
                b as int,
            ));
            url.substring_char(i + 1, b)
        },
        None => url.substring_char(0, b),
    }
}

} // verus!

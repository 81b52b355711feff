//! Skills in a repository checkout: which directories are walked, where a skill's
//! `SKILL.md` lives, which files a `git diff` changed, and what a `SKILL.md` says.
use vstd::prelude::*;

use crate::json::{as_str, str_eq, value_get, value_str, Json};
use crate::llm_eval::{lowercased, to_lowercase};
use crate::order::{insert_sorted, insert_sorted_unique, sorted, strictly_sorted};
use crate::text::{
    ascii_lower_seq, ascii_lower_vec, chars_eq, chars_of, concat, ends_with, find_seq, find_seq_at, has_prefix, has_suffix, is_digit,
    is_lower, last_index, lines, lines_vec, replace_char, replace_char_vec, rfind_char_at,
    seqs_of, slice_vec, split, split_vec, starts_with, string_of, strip_prefix, strs_of, trim,
    trim_end_matches, trim_end_matches_at, trim_start_matches, trim_start_matches_at, trim_vec,
};

verus! {

broadcast use vstd::seq_lib::group_to_multiset_ensures;

// ---------------------------------------------------------------------------
// Paths
// ---------------------------------------------------------------------------

/// Directories that the walk for skills does not enter: hidden ones and build output.
pub open spec fn skipped_dir(name: Seq<char>) -> bool {
    has_prefix(name, seq!['.']) || name == "node_modules"@ || name == "target"@ || name
        == ".git"@ || name == ".savhub"@
}

/// A child directory's path relative to the repository root; the root is `"."`.
pub open spec fn joined_dir(base: Seq<char>, child: Seq<char>) -> Seq<char> {
    if base == "."@ {
        child
    } else {
        base + seq!['/'] + child
    }
}

/// The path of the `SKILL.md` of a skill directory.
pub open spec fn skill_md_path(relative_dir: Seq<char>) -> Seq<char> {
    if relative_dir == "."@ {
        "SKILL.md"@
    } else {
        relative_dir + "/SKILL.md"@
    }
}

/// Whether a path names a `SKILL.md` file.
pub open spec fn is_skill_md(path: Seq<char>) -> bool {
    path == "SKILL.md"@ || has_suffix(path, "/SKILL.md"@)
}

/// Whether the walk for skills skips the directory `name`.
pub fn should_skip_dir(name: &str) -> (r: bool)
    ensures
        r == skipped_dir(name@),
{
    let dot = vec!['.'];
    assert(dot@ =~= seq!['.']);
    starts_with(&chars_of(name), &dot) || str_eq(name, "node_modules") || str_eq(name, "target")
        || str_eq(name, ".git") || str_eq(name, ".savhub")
}

/// The relative path of `child` inside `base`.
pub fn join_relative_dir(base: &str, child: &str) -> (r: String)
    ensures
        r@ == joined_dir(base@, child@),
{
    if str_eq(base, ".") {
        child.to_string()
    } else {
        let slash = vec!['/'];
        assert(slash@ =~= seq!['/']);
        string_of(&concat(&concat(&chars_of(base), &slash), &chars_of(child)))
    }
}

/// Where the `SKILL.md` of the skill in `relative_dir` lives.
pub fn skill_markdown_path(relative_dir: &str) -> (r: String)
    ensures
        r@ == skill_md_path(relative_dir@),
{
    if str_eq(relative_dir, ".") {
        "SKILL.md".to_string()
    } else {
        string_of(&concat(&chars_of(relative_dir), &chars_of("/SKILL.md")))
    }
}

/// Whether `path` is a `SKILL.md` file.
pub fn is_skill_markdown_path(path: &str) -> (r: bool)
    ensures
        r == is_skill_md(path@),
{
    str_eq(path, "SKILL.md") || ends_with(&chars_of(path), &chars_of("/SKILL.md"))
}

// ---------------------------------------------------------------------------
// Changed files
// ---------------------------------------------------------------------------

/// The file paths named by one line of `git diff --name-status`: the path of an
/// edit, or both paths of a rename or copy; none for any other shape.
pub open spec fn diff_line_paths(line: Seq<char>) -> Seq<Seq<char>> {
    let columns = split(line, '\t');
    if columns.len() == 2 {
        seq![columns[1]]
    } else if columns.len() == 3 {
        seq![columns[1], columns[2]]
    } else {
        Seq::empty()
    }
}

/// Whether `x` is a changed `SKILL.md` path of `git diff --name-status` output:
/// a `SKILL.md` path on a non-empty (trimmed) line, with backslashes made slashes.
pub open spec fn is_changed_skill_path(stdout: Seq<char>, x: Seq<char>) -> bool {
    exists|i: int, j: int|
        0 <= i < lines(stdout).len() && trim(#[trigger] lines(stdout)[i]).len() > 0 && 0 <= j
            < diff_line_paths(trim(lines(stdout)[i])).len() && is_skill_md(
            #[trigger] diff_line_paths(trim(lines(stdout)[i]))[j],
        ) && x == replace_char(diff_line_paths(trim(lines(stdout)[i]))[j], '\\', '/')
}

/// The `SKILL.md` paths that `git diff --name-status` output names, sorted and without
/// repeats.
pub fn parse_changed_skill_markdown_paths(stdout: &str) -> (r: Vec<String>)
    ensures
        strictly_sorted(strs_of(r@)),
        forall|x: Seq<char>| strs_of(r@).contains(x) <==> is_changed_skill_path(stdout@, x),
{
    let all = lines_vec(&chars_of(stdout));
    let ghost ls = lines(stdout@);
    let mut paths: Vec<String> = Vec::new();
    let mut i: usize = 0;
    while i < all.len()
        invariant
            i <= all.len(),
            seqs_of(all@) == ls,
            ls == lines(stdout@),
            strictly_sorted(strs_of(paths@)),
            forall|x: Seq<char>|
                strs_of(paths@).contains(x) <==> exists|a: int, j: int|
                    0 <= a < i && trim(#[trigger] ls[a]).len() > 0 && 0 <= j < diff_line_paths(
                        trim(ls[a]),
                    ).len() && is_skill_md(#[trigger] diff_line_paths(trim(ls[a]))[j]) && x
                        == replace_char(diff_line_paths(trim(ls[a]))[j], '\\', '/'),
        decreases all.len() - i,
    {
        let line = trim_vec(&all[i]);
        assert(line@ == trim(ls[i as int]));
        let ghost before = strs_of(paths@);
        let ghost files = diff_line_paths(line@);
        if line.len() > 0 {
            let columns = split_vec(&line, '\t');
            let n = columns.len();
            if n == 2 {
                add_if_skill_md(&mut paths, &columns[1]);
                proof {
                    assert forall|x: Seq<char>|
                        strs_of(paths@).contains(x) <==> (before.contains(x) || added_by(files, x)) by {
                        if added_by(files, x) {
                            let k = choose|k: int|
                                0 <= k < files.len() && is_skill_md(#[trigger] files[k]) && x
                                    == replace_char(files[k], '\\', '/');
                            assert(k == 0);
                        }
                        if is_skill_md(columns@[1]@) && x == replace_char(columns@[1]@, '\\', '/') {
                            assert(is_skill_md(files[0]));
                        }
                    }
                }
            } else if n == 3 {
                let ghost mid = strs_of(paths@);
                add_if_skill_md(&mut paths, &columns[1]);
                add_if_skill_md(&mut paths, &columns[2]);
                proof {
                    assert forall|x: Seq<char>|
                        strs_of(paths@).contains(x) <==> (before.contains(x) || added_by(files, x)) by {
                        if added_by(files, x) {
                            let k = choose|k: int|
                                0 <= k < files.len() && is_skill_md(#[trigger] files[k]) && x
                                    == replace_char(files[k], '\\', '/');
                            assert(k == 0 || k == 1);
                        }
                        if is_skill_md(columns@[1]@) && x == replace_char(columns@[1]@, '\\', '/') {
                            assert(is_skill_md(files[0]));
                        }
                        if is_skill_md(columns@[2]@) && x == replace_char(columns@[2]@, '\\', '/') {
                            assert(is_skill_md(files[1]));
                        }
                    }
                }
            } else {
                assert(files.len() == 0);
            }
        }
        proof {
            let now = strs_of(paths@);
            assert forall|x: Seq<char>| now.contains(x) <==> exists|a: int, j: int|
                0 <= a < i + 1 && trim(#[trigger] ls[a]).len() > 0 && 0 <= j < diff_line_paths(
                    trim(ls[a]),
                ).len() && is_skill_md(#[trigger] diff_line_paths(trim(ls[a]))[j]) && x
                    == replace_char(diff_line_paths(trim(ls[a]))[j], '\\', '/') by {
                if now.contains(x) && !before.contains(x) {
                    assert(line@.len() > 0);
                    assert(added_by(files, x));
                    let k = choose|k: int|
                        0 <= k < files.len() && is_skill_md(#[trigger] files[k]) && x
                            == replace_char(files[k], '\\', '/');
                    assert(trim(ls[i as int]).len() > 0);
                    assert(is_skill_md(diff_line_paths(trim(ls[i as int]))[k]));
                }
                if exists|a: int, j: int|
                    0 <= a < i + 1 && trim(#[trigger] ls[a]).len() > 0 && 0 <= j < diff_line_paths(
                        trim(ls[a]),
                    ).len() && is_skill_md(#[trigger] diff_line_paths(trim(ls[a]))[j]) && x
                        == replace_char(diff_line_paths(trim(ls[a]))[j], '\\', '/') {
                    let (a, j) = choose|a: int, j: int|
                        0 <= a < i + 1 && trim(#[trigger] ls[a]).len() > 0 && 0 <= j
                            < diff_line_paths(trim(ls[a])).len() && is_skill_md(
                            #[trigger] diff_line_paths(trim(ls[a]))[j],
                        ) && x == replace_char(diff_line_paths(trim(ls[a]))[j], '\\', '/');
                    if a == i {
                        assert(is_skill_md(files[j]));
                        assert(added_by(files, x));
                    }
                }
            }
        }
        i += 1;
    }
    paths
}

/// Whether `x` is one of `files` that names a `SKILL.md`, with backslashes made slashes.
pub open spec fn added_by(files: Seq<Seq<char>>, x: Seq<char>) -> bool {
    exists|k: int|
        0 <= k < files.len() && is_skill_md(#[trigger] files[k]) && x == replace_char(
            files[k],
            '\\',
            '/',
        )
}

/// Adds the path `column` to the sorted `paths` when it names a `SKILL.md`.
fn add_if_skill_md(paths: &mut Vec<String>, column: &Vec<char>)
    requires
        strictly_sorted(strs_of(old(paths)@)),
    ensures
        strictly_sorted(strs_of(final(paths)@)),
        forall|x: Seq<char>|
            strs_of(final(paths)@).contains(x) <==> (strs_of(old(paths)@).contains(x) || (
            is_skill_md(column@) && x == replace_char(column@, '\\', '/'))),
{
    if is_skill_markdown_path_chars(column) {
        let fixed = string_of(&replace_char_vec(column, '\\', '/'));
        insert_sorted_unique(paths, fixed);
    }
}

/// Whether the characters `v` name a `SKILL.md` file.
fn is_skill_markdown_path_chars(v: &Vec<char>) -> (r: bool)
    ensures
        r == is_skill_md(v@),
{
    is_skill_markdown_path(string_of(v).as_str())
}

/// A directory of a checkout as the walk for skills sees it: its name, whether it holds
/// a `SKILL.md` file, and its subdirectories in the order they are listed.
#[derive(Debug)]
pub struct DirNode {
    pub name: String,
    pub has_skill_md: bool,
    pub subdirs: Vec<DirNode>,
}

/// The skill directories under `node` (whose relative path is `rel`), in walk order:
/// those of its subdirectories first; the directory itself only when it holds a
/// `SKILL.md` and none of its subdirectories yields a skill, so that a root `SKILL.md`
/// does not swallow the skills below it.
pub open spec fn candidates_in(node: DirNode, rel: Seq<char>) -> Seq<Seq<char>>
    decreases node,
{
    let kids = subdir_candidates(node.subdirs@, rel);
    if node.has_skill_md && kids.len() == 0 {
        seq![rel]
    } else {
        kids
    }
}

/// The skill directories under the subdirectories `ds` of the directory `rel`, skipping
/// hidden and build directories.
pub open spec fn subdir_candidates(ds: Seq<DirNode>, rel: Seq<char>) -> Seq<Seq<char>>
    decreases ds,
{
    if ds.len() == 0 {
        Seq::empty()
    } else {
        let prev = subdir_candidates(ds.drop_last(), rel);
        let d = ds.last();
        if skipped_dir(d.name@) {
            prev
        } else {
            prev + candidates_in(d, joined_dir(rel, d.name@))
        }
    }
}

/// Adds to `out` the skill directories under `node`, whose path relative to the
/// checkout is `relative_dir`.
pub fn collect_skill_candidates(node: &DirNode, relative_dir: &str, out: &mut Vec<String>)
    ensures
        strs_of(final(out)@) == strs_of(old(out)@) + candidates_in(*node, relative_dir@),
    decreases node,
{
    let ghost start = strs_of(out@);
    let before = out.len();
    let mut i: usize = 0;
    assert(node.subdirs@.take(0) =~= Seq::<DirNode>::empty());
    assert(strs_of(out@) =~= start + subdir_candidates(node.subdirs@.take(0), relative_dir@));
    while i < node.subdirs.len()
        invariant
            i <= node.subdirs.len(),
            before == start.len(),
            strs_of(out@) == start + subdir_candidates(node.subdirs@.take(i as int), relative_dir@),
        decreases node.subdirs.len() - i,
    {
        let d = &node.subdirs[i];
        let ghost ds = node.subdirs@.take(i + 1);
        assert(ds.drop_last() =~= node.subdirs@.take(i as int));
        assert(ds.last() == *d);
        let ghost mid = strs_of(out@);
        if !should_skip_dir(d.name.as_str()) {
            let rel = join_relative_dir(relative_dir, d.name.as_str());
            proof {
                assert(decreases_to!(node => node.subdirs));
                assert(decreases_to!(node.subdirs => node.subdirs@));
                assert(decreases_to!(node.subdirs@ => node.subdirs@[i as int]));
            }
            collect_skill_candidates(d, rel.as_str(), out);
            assert(strs_of(out@) =~= start + subdir_candidates(ds, relative_dir@));
        }
        i += 1;
    }
    assert(node.subdirs@.take(node.subdirs.len() as int) =~= node.subdirs@);
    if node.has_skill_md && out.len() == before {
        let ghost kids = strs_of(out@);
        out.push(relative_dir.to_string());
        assert(strs_of(out@) =~= kids.push(relative_dir@));
        assert(subdir_candidates(node.subdirs@, relative_dir@) =~= Seq::<Seq<char>>::empty());
        assert(strs_of(out@) =~= start + seq![relative_dir@]);
    }
}

/// The `SKILL.md` paths of the skills found in a checkout, sorted.
pub fn collect_skill_markdown_files(root: &DirNode) -> (r: Vec<String>)
    ensures
        sorted(strs_of(r@)),
        strs_of(r@).to_multiset() == candidates_in(*root, "."@).map_values(
            |d: Seq<char>| skill_md_path(d),
        ).to_multiset(),
{
    let mut dirs: Vec<String> = Vec::new();
    collect_skill_candidates(root, ".", &mut dirs);
    assert(strs_of(dirs@) =~= candidates_in(*root, "."@));
    let r = skill_markdown_files_of(&dirs);
    assert(Seq::new(dirs.len() as nat, |i: int| skill_md_path(dirs@[i]@)) =~= candidates_in(
        *root,
        "."@,
    ).map_values(|d: Seq<char>| skill_md_path(d)));
    r
}

/// The `SKILL.md` paths of skill directories, sorted.
pub fn skill_markdown_files_of(relative_dirs: &Vec<String>) -> (r: Vec<String>)
    ensures
        sorted(strs_of(r@)),
        strs_of(r@).to_multiset() == Seq::new(
            relative_dirs.len() as nat,
            |i: int| skill_md_path(relative_dirs@[i]@),
        ).to_multiset(),
{
    let ghost wanted = Seq::new(
        relative_dirs.len() as nat,
        |i: int| skill_md_path(relative_dirs@[i]@),
    );
    let mut files: Vec<String> = Vec::new();
    let mut i: usize = 0;
    assert(strs_of(files@).to_multiset() =~= wanted.take(0).to_multiset()) by {
        assert(wanted.take(0) =~= Seq::<Seq<char>>::empty());
        assert(strs_of(files@) =~= Seq::<Seq<char>>::empty());
    }
    while i < relative_dirs.len()
        invariant
            i <= relative_dirs.len(),
            wanted.len() == relative_dirs.len(),
            forall|k: int|
                0 <= k < relative_dirs.len() ==> #[trigger] wanted[k] == skill_md_path(
                    relative_dirs@[k]@,
                ),
            sorted(strs_of(files@)),
            strs_of(files@).to_multiset() == wanted.take(i as int).to_multiset(),
        decreases relative_dirs.len() - i,
    {
        let path = skill_markdown_path(relative_dirs[i].as_str());
        assert(wanted.take(i + 1) =~= wanted.take(i as int).push(path@));
        insert_sorted(&mut files, path);
        i += 1;
    }
    assert(wanted.take(relative_dirs.len() as int) =~= wanted);
    files
}

// ---------------------------------------------------------------------------
// Lines
// ---------------------------------------------------------------------------

/// What `f` finds on the first line where it finds anything.
pub open spec fn first_match(
    ls: Seq<Seq<char>>,
    f: spec_fn(Seq<char>) -> Option<Seq<char>>,
) -> Option<Seq<char>>
    decreases ls.len(),
{
    if ls.len() == 0 {
        None
    } else {
        match f(ls[0]) {
            Some(x) => Some(x),
            None => first_match(ls.drop_first(), f),
        }
    }
}

pub proof fn lemma_first_match_step(
    ls: Seq<Seq<char>>,
    i: int,
    f: spec_fn(Seq<char>) -> Option<Seq<char>>,
)
    requires
        0 <= i < ls.len(),
    ensures
        first_match(ls.skip(i), f) == match f(ls[i]) {
            Some(x) => Some(x),
            None => first_match(ls.skip(i + 1), f),
        },
{
    assert(ls.skip(i).drop_first() =~= ls.skip(i + 1));
    assert(ls.skip(i)[0] == ls[i]);
}

// ---------------------------------------------------------------------------
// Slugs
// ---------------------------------------------------------------------------

/// The characters a skill slug keeps: ASCII lower-case letters and digits.
pub open spec fn slug_char(c: char) -> bool {
    is_lower(c) || is_digit(c)
}

/// A slug before its outer dashes are removed: kept characters stay, and each run of
/// other characters becomes one dash. The flag says whether it ends in such a dash.
pub open spec fn dashed(s: Seq<char>) -> (Seq<char>, bool)
    decreases s.len(),
{
    if s.len() == 0 {
        (Seq::empty(), false)
    } else {
        let prev = dashed(s.drop_last());
        let c = s.last();
        if slug_char(c) {
            (prev.0.push(c), false)
        } else if !prev.1 {
            (prev.0.push('-'), true)
        } else {
            prev
        }
    }
}

/// The slug of lower-cased text.
pub open spec fn slug_of(lower: Seq<char>) -> Seq<char> {
    trim_end_matches(trim_start_matches(dashed(lower).0, seq!['-']), seq!['-'])
}

/// The slug of a value: trimmed, lower-cased, then reduced to a slug.
pub open spec fn sanitized(value: Seq<char>) -> Seq<char> {
    slug_of(lowercased(trim(value)))
}

/// The shape of a slug: ASCII lower-case letters, digits and dashes, no two dashes in a
/// row, and no dash at either end.
pub open spec fn is_slug(s: Seq<char>) -> bool {
    &&& forall|k: int| 0 <= k < s.len() ==> slug_char(#[trigger] s[k]) || s[k] == '-'
    &&& forall|k: int, j: int|
        0 <= k && j == k + 1 && j < s.len() ==> !(#[trigger] s[k] == '-' && #[trigger] s[j]
            == '-')
    &&& s.len() > 0 ==> s[0] != '-' && s.last() != '-'
}

proof fn lemma_dashed_shape(s: Seq<char>)
    ensures
        forall|k: int|
            0 <= k < dashed(s).0.len() ==> slug_char(#[trigger] dashed(s).0[k]) || dashed(s).0[k]
                == '-',
        forall|k: int, j: int|
            0 <= k && j == k + 1 && j < dashed(s).0.len() ==> !(#[trigger] dashed(s).0[k] == '-'
                && #[trigger] dashed(s).0[j] == '-'),
        dashed(s).1 <==> (dashed(s).0.len() > 0 && dashed(s).0.last() == '-'),
    decreases s.len(),
{
    if s.len() > 0 {
        lemma_dashed_shape(s.drop_last());
    }
}

/// A slug is made of ASCII lower-case letters, digits and single dashes, and neither
/// starts nor ends with a dash.
pub proof fn law_slug_shape(lower: Seq<char>)
    ensures
        is_slug(slug_of(lower)),
{
    let o = dashed(lower).0;
    lemma_dashed_shape(lower);
    let t1 = trim_start_matches(o, seq!['-']);
    crate::text::lemma_trim_start_matches_suffix(o, seq!['-']);
    crate::text::lemma_trim_start_matches_idem(o, seq!['-']);
    let a = o.len() - t1.len();
    let t2 = trim_end_matches(t1, seq!['-']);
    crate::text::lemma_trim_end_matches_prefix(t1, seq!['-']);
    crate::text::lemma_trim_end_matches_idem(t1, seq!['-']);
    assert forall|k: int| 0 <= k < t2.len() implies slug_char(#[trigger] t2[k]) || t2[k] == '-' by {
        assert(t2[k] == t1[k]);
        assert(t1[k] == o[a + k]);
    }
    assert forall|k: int, j: int| 0 <= k && j == k + 1 && j < t2.len() implies !(
    #[trigger] t2[k] == '-' && #[trigger] t2[j] == '-') by {
        assert(t2[k] == o[a + k]);
        assert(t2[j] == o[a + j]);
        assert(o[a + k] == '-' && o[a + k + 1] == '-' ==> false);
    }
    if t2.len() > 0 {
        assert(t2[0] == t1[0]);
        assert(t1.subrange(0, 1) =~= seq![t1[0]]);
        assert(t2.subrange(t2.len() - 1, t2.len() as int) =~= seq![t2.last()]);
    }
}

proof fn lemma_dashed_of_slug(s: Seq<char>, i: int)
    requires
        is_slug(s),
        0 <= i <= s.len(),
    ensures
        dashed(s.take(i)) == (s.take(i), i > 0 && s[i - 1] == '-'),
    decreases i,
{
    if i > 0 {
        lemma_dashed_of_slug(s, i - 1);
        let p = s.take(i);
        assert(p.drop_last() =~= s.take(i - 1));
        assert(p.last() == s[i - 1]);
        if !slug_char(s[i - 1]) {
            assert(s[i - 1] == '-');
            if i >= 2 {
                assert(!(s[i - 2] == '-' && s[i - 1] == '-'));
            }
        }
        assert(s.take(i - 1).push(s[i - 1]) =~= p);
    }
}

/// Reducing a slug to a slug again changes nothing, so `slug_of(slug_of(x)) == slug_of(x)`.
pub proof fn law_slug_of_slug(s: Seq<char>)
    requires
        is_slug(s),
    ensures
        slug_of(s) == s,
{
    lemma_dashed_of_slug(s, s.len() as int);
    assert(s.take(s.len() as int) =~= s);
    let dash = seq!['-'];
    if s.len() > 0 {
        assert(!has_prefix(s, dash)) by {
            assert(s.subrange(0, 1)[0] == s[0]);
        }
        assert(!has_suffix(s, dash)) by {
            assert(s.subrange(s.len() - 1, s.len() as int)[0] == s.last());
        }
    }
    assert(trim_start_matches(s, dash) == s);
    assert(trim_end_matches(s, dash) == s);
}

/// The slug of lower-cased text: letters and digits kept, other runs made one dash, and
/// no dash at either end.
pub fn slug_from_lowercase(lower: &str) -> (r: String)
    ensures
        r@ == slug_of(lower@),
        is_slug(r@),
{
    proof {
        law_slug_shape(lower@);
    }
    let v = chars_of(lower);
    let mut out: Vec<char> = Vec::new();
    let mut last_dash = false;
    let mut i: usize = 0;
    assert(v@.take(0) =~= Seq::<char>::empty());
    assert(out@ =~= Seq::<char>::empty());
    while i < v.len()
        invariant
            i <= v.len(),
            v@ == lower@,
            (out@, last_dash) == dashed(v@.take(i as int)),
        decreases v.len() - i,
    {
        assert(v@.take(i + 1).drop_last() =~= v@.take(i as int));
        assert(v@.take(i + 1).last() == v@[i as int]);
        let c = v[i];
        if ('a' <= c && c <= 'z') || ('0' <= c && c <= '9') {
            out.push(c);
            last_dash = false;
        } else if !last_dash {
            out.push('-');
            last_dash = true;
        }
        i += 1;
    }
    assert(v@.take(v.len() as int) =~= v@);
    let dash = vec!['-'];
    assert(dash@ =~= seq!['-']);
    let n = out.len();
    assert(out@.subrange(0, n as int) =~= out@);
    let a = trim_start_matches_at(&out, 0, n, &dash);
    let b = trim_end_matches_at(&out, a, n, &dash);
    string_of(&slice_vec(&out, a, b))
}

/// The slug of a skill name or directory: the value trimmed and lower-cased, ASCII
/// letters and digits kept, every run of other characters made one dash, and no dash at
/// either end.
pub fn sanitize_skill_slug(value: &str) -> (r: String)
    ensures
        r@ == sanitized(value@),
        is_slug(r@),
{
    let t = string_of(&trim_vec(&chars_of(value)));
    let lower = to_lowercase(t.as_str());
    slug_from_lowercase(lower.as_str())
}

// ---------------------------------------------------------------------------
// Headings
// ---------------------------------------------------------------------------

/// The characters of a decorative separator line.
pub open spec fn deco_char(c: char) -> bool {
    c == '=' || c == '-' || c == '*' || c == '_' || c == '~' || c == '#'
}

/// Whether a line is a decorative separator such as `=====` rather than text.
pub open spec fn decorative(text: Seq<char>) -> bool {
    let t = trim(text);
    t.len() > 0 && forall|k: int| 0 <= k < t.len() ==> deco_char(#[trigger] t[k])
}

/// The heading a markdown line holds: the text after its leading `#`s, if it is a
/// heading with text that is not decorative.
pub open spec fn line_heading(line: Seq<char>) -> Option<Seq<char>> {
    let t = trim(line);
    let title = trim(trim_start_matches(t, seq!['#']));
    if has_prefix(t, seq!['#']) && title.len() > 0 && !decorative(title) {
        Some(title)
    } else {
        None
    }
}

/// The first heading of a markdown document.
pub open spec fn markdown_heading(markdown: Seq<char>) -> Option<Seq<char>> {
    first_match(lines(markdown), |l: Seq<char>| line_heading(l))
}

/// The characters `v` after trimming are a decorative separator.
fn is_decorative_chars(v: &Vec<char>) -> (r: bool)
    ensures
        r == decorative(v@),
{
    let t = trim_vec(v);
    if t.len() == 0 {
        return false;
    }
    let mut i: usize = 0;
    while i < t.len()
        invariant
            i <= t.len(),
            t@ == trim(v@),
            forall|k: int| 0 <= k < i ==> deco_char(#[trigger] t@[k]),
        decreases t.len() - i,
    {
        let c = t[i];
        if !(c == '=' || c == '-' || c == '*' || c == '_' || c == '~' || c == '#') {
            assert(!deco_char(t@[i as int]));
            return false;
        }
        i += 1;
    }
    true
}

/// Whether `text` is a decorative separator line such as `=====` or `*****`.
pub fn is_decorative_line(text: &str) -> (r: bool)
    ensures
        r == decorative(text@),
{
    is_decorative_chars(&chars_of(text))
}

fn heading_of_line(line: &Vec<char>) -> (r: Option<String>)
    ensures
        match r {
            Some(h) => line_heading(line@) == Some(h@),
            None => line_heading(line@) is None,
        },
{
    let t = trim_vec(line);
    let hash = vec!['#'];
    assert(hash@ =~= seq!['#']);
    if !starts_with(&t, &hash) {
        return None;
    }
    let n = t.len();
    assert(t@.subrange(0, n as int) =~= t@);
    let a = trim_start_matches_at(&t, 0, n, &hash);
    let title = trim_vec(&slice_vec(&t, a, n));
    if title.len() == 0 || is_decorative_chars(&title) {
        return None;
    }
    Some(string_of(&title))
}

/// The first markdown heading of a document that has text and is not decorative.
pub fn extract_markdown_heading(markdown: &str) -> (r: Option<String>)
    ensures
        match r {
            Some(h) => markdown_heading(markdown@) == Some(h@),
            None => markdown_heading(markdown@) is None,
        },
{
    let ls = lines_vec(&chars_of(markdown));
    let ghost all = lines(markdown@);
    let ghost f = |l: Seq<char>| line_heading(l);
    let mut i: usize = 0;
    assert(all.skip(0) =~= all);
    while i < ls.len()
        invariant
            i <= ls.len(),
            seqs_of(ls@) == all,
            all == lines(markdown@),
            f == (|l: Seq<char>| line_heading(l)),
            first_match(all, f) == first_match(all.skip(i as int), f),
        decreases ls.len() - i,
    {
        proof {
            lemma_first_match_step(all, i as int, f);
        }
        assert(all[i as int] == ls@[i as int]@);
        match heading_of_line(&ls[i]) {
            Some(h) => {
                return Some(h);
            },
            None => {},
        }
        i += 1;
    }
    assert(all.skip(ls.len() as int) =~= Seq::<Seq<char>>::empty());
    None
}

// ---------------------------------------------------------------------------
// Redirects
// ---------------------------------------------------------------------------

/// The new URL a line of git's error output gives for a moved repository.
pub open spec fn line_redirect(line: Seq<char>) -> Option<Seq<char>> {
    match strip_prefix(line, "warning: redirecting to "@) {
        Some(rest) => {
            let url = trim_end_matches(trim(rest), seq!['/']);
            if url.len() > 0 {
                Some(url)
            } else {
                None
            }
        },
        None => None,
    }
}

/// The redirect git reported in its error output, from the first line that gives one.
pub open spec fn redirect_in(text: Seq<char>) -> Option<Seq<char>> {
    first_match(lines(text), |l: Seq<char>| line_redirect(l))
}

/// The text of bytes decoded as UTF-8, with U+FFFD in place of each invalid sequence,
/// as `String::from_utf8_lossy` decodes them.
pub uninterp spec fn utf8_lossy(bytes: Seq<u8>) -> Seq<char>;

/// `String::from_utf8_lossy`. Trusted: the result is named by `utf8_lossy`; for valid
/// UTF-8 it is the decoded text, as the standard library documents.
#[verifier::external_body]
pub(crate) fn from_utf8_lossy(bytes: &[u8]) -> (r: String)
    ensures
        r@ == utf8_lossy(bytes@),
        vstd::utf8::valid_utf8(bytes@) ==> r@ == vstd::utf8::decode_utf8(bytes@),
{
    String::from_utf8_lossy(bytes).into_owned()
}

fn redirect_of_line(line: &Vec<char>) -> (r: Option<String>)
    ensures
        match r {
            Some(u) => line_redirect(line@) == Some(u@),
            None => line_redirect(line@) is None,
        },
{
    let prefix = chars_of("warning: redirecting to ");
    if !starts_with(line, &prefix) {
        return None;
    }
    let rest = slice_vec(line, prefix.len(), line.len());
    let t = trim_vec(&rest);
    let slash = vec!['/'];
    assert(slash@ =~= seq!['/']);
    let n = t.len();
    assert(t@.subrange(0, n as int) =~= t@);
    let b = trim_end_matches_at(&t, 0, n, &slash);
    if b == 0 {
        None
    } else {
        Some(string_of(&slice_vec(&t, 0, b)))
    }
}

/// The new URL of a moved repository, from git's error output as text.
pub fn redirect_url(text: &str) -> (r: Option<String>)
    ensures
        match r {
            Some(u) => redirect_in(text@) == Some(u@),
            None => redirect_in(text@) is None,
        },
{
    let ls = lines_vec(&chars_of(text));
    let ghost all = lines(text@);
    let ghost f = |l: Seq<char>| line_redirect(l);
    let mut i: usize = 0;
    assert(all.skip(0) =~= all);
    while i < ls.len()
        invariant
            i <= ls.len(),
            seqs_of(ls@) == all,
            all == lines(text@),
            f == (|l: Seq<char>| line_redirect(l)),
            first_match(all, f) == first_match(all.skip(i as int), f),
        decreases ls.len() - i,
    {
        proof {
            lemma_first_match_step(all, i as int, f);
        }
        assert(all[i as int] == ls@[i as int]@);
        match redirect_of_line(&ls[i]) {
            Some(u) => {
                return Some(u);
            },
            None => {},
        }
        i += 1;
    }
    assert(all.skip(ls.len() as int) =~= Seq::<Seq<char>>::empty());
    None
}

/// The new URL of a moved repository, from the bytes git wrote to its error output
/// (`warning: redirecting to <url>`).
pub fn parse_git_redirect(stderr: &[u8]) -> (r: Option<String>)
    ensures
        match r {
            Some(u) => redirect_in(utf8_lossy(stderr@)) == Some(u@),
            None => redirect_in(utf8_lossy(stderr@)) is None,
        },
{
    let text = from_utf8_lossy(stderr);
    redirect_url(text.as_str())
}

// ---------------------------------------------------------------------------
// SKILL.md metadata
// ---------------------------------------------------------------------------

/// Where the YAML of a markdown document's front matter is, after a leading byte-order
/// mark: the trimmed text between a leading `---` and the next `\n---`, marked `true`;
/// without such a block, the whole trimmed document, marked `false` (it counts as front
/// matter only if it parses as a YAML mapping).
pub open spec fn frontmatter_source(markdown: Seq<char>) -> (Seq<char>, bool) {
    let md = trim_start_matches(markdown, seq!['\u{feff}']);
    match strip_prefix(md, "---"@) {
        Some(rest) => {
            let i = find_seq(rest, "\n---"@);
            if i >= 0 {
                (trim(rest.subrange(0, i)), true)
            } else {
                (trim(md), false)
            }
        },
        None => (trim(md), false),
    }
}

/// The YAML text of a document's front matter, and whether it was framed by `---`
/// lines (see `frontmatter_source`).
pub fn frontmatter_text(markdown: &str) -> (r: (String, bool))
    ensures
        (r.0@, r.1) == frontmatter_source(markdown@),
{
    let v = chars_of(markdown);
    let bom = vec!['\u{feff}'];
    assert(bom@ =~= seq!['\u{feff}']);
    let n = v.len();
    assert(v@.subrange(0, n as int) =~= v@);
    let a = trim_start_matches_at(&v, 0, n, &bom);
    let md = slice_vec(&v, a, n);
    let dashes = chars_of("---");
    if starts_with(&md, &dashes) {
        let m = md.len();
        let k = dashes.len();
        let marker = chars_of("\n---");
        proof {
            reveal_strlit("\n---");
        }
        match find_seq_at(&md, k, m, &marker) {
            Some(i) => {
                let ghost rest = md@.subrange(k as int, m as int);
                assert(rest.subrange(0, i as int) =~= md@.subrange(k as int, k + i));
                let yaml = trim_vec(&slice_vec(&md, k, k + i));
                return (string_of(&yaml), true);
            },
            None => {},
        }
    }
    (string_of(&trim_vec(&md)), false)
}

/// The front matter of a document from what its YAML parsed to (`None` when it did not
/// parse): framed YAML is taken as it parsed; an unframed document only when it parsed
/// to a mapping. In every other case the front matter is an empty mapping.
pub fn frontmatter_value(framed: bool, parsed: Option<Json>) -> (r: Json)
    ensures
        if framed && parsed is Some {
            r == parsed->0
        } else if parsed matches Some(Json::Object(_)) {
            r == parsed->0
        } else {
            r matches Json::Object(o) && o@.len() == 0
        },
{
    match parsed {
        Some(v) => {
            if framed {
                v
            } else {
                match v {
                    Json::Object(o) => Json::Object(o),
                    _ => Json::Object(Vec::new()),
                }
            }
        },
        None => Json::Object(Vec::new()),
    }
}

/// The text of a line that can serve as a summary: not empty, not a `---` fence and
/// not a heading.
pub open spec fn line_summary(line: Seq<char>) -> Option<Seq<char>> {
    let t = trim(line);
    if t.len() > 0 && !has_prefix(t, "---"@) && !has_prefix(t, seq!['#']) {
        Some(t)
    } else {
        None
    }
}

/// A value trimmed, if something is left.
pub open spec fn trimmed_nonempty(v: Option<Seq<char>>) -> Option<Seq<char>> {
    match v {
        Some(s) => if trim(s).len() > 0 {
            Some(trim(s))
        } else {
            None
        },
        None => None,
    }
}

/// A skill's summary: the front matter's `description`, trimmed, when it is a non-empty
/// string; else the first line of the document that can serve as a summary.
pub open spec fn summary_of(parsed: Json, markdown: Seq<char>) -> Option<Seq<char>> {
    match trimmed_nonempty(as_str(value_get(parsed, "description"@))) {
        Some(d) => Some(d),
        None => first_match(lines(markdown), |l: Seq<char>| line_summary(l)),
    }
}

fn summary_of_line(line: &Vec<char>) -> (r: Option<String>)
    ensures
        match r {
            Some(x) => line_summary(line@) == Some(x@),
            None => line_summary(line@) is None,
        },
{
    let t = trim_vec(line);
    let hash = vec!['#'];
    assert(hash@ =~= seq!['#']);
    if t.len() == 0 || starts_with(&t, &chars_of("---")) || starts_with(&t, &hash) {
        None
    } else {
        Some(string_of(&t))
    }
}

/// The trimmed value, if something is left.
fn trim_nonempty(v: Option<&String>) -> (r: Option<String>)
    ensures
        match r {
            Some(x) => trimmed_nonempty(
                match v {
                    Some(s) => Some(s@),
                    None => None,
                },
            ) == Some(x@),
            None => trimmed_nonempty(
                match v {
                    Some(s) => Some(s@),
                    None => None,
                },
            ) is None,
        },
{
    match v {
        Some(s) => {
            let t = trim_vec(&chars_of(s.as_str()));
            if t.len() > 0 {
                Some(string_of(&t))
            } else {
                None
            }
        },
        None => None,
    }
}

/// A skill's summary from its parsed front matter and its markdown.
pub fn extract_summary(parsed: &Json, markdown: &str) -> (r: Option<String>)
    ensures
        match r {
            Some(x) => summary_of(*parsed, markdown@) == Some(x@),
            None => summary_of(*parsed, markdown@) is None,
        },
{
    match trim_nonempty(value_str(parsed, "description")) {
        Some(d) => {
            return Some(d);
        },
        None => {},
    }
    let ls = lines_vec(&chars_of(markdown));
    let ghost all = lines(markdown@);
    let ghost f = |l: Seq<char>| line_summary(l);
    let mut i: usize = 0;
    assert(all.skip(0) =~= all);
    while i < ls.len()
        invariant
            i <= ls.len(),
            seqs_of(ls@) == all,
            all == lines(markdown@),
            trimmed_nonempty(as_str(value_get(*parsed, "description"@))) is None,
            f == (|l: Seq<char>| line_summary(l)),
            first_match(all, f) == first_match(all.skip(i as int), f),
        decreases ls.len() - i,
    {
        proof {
            lemma_first_match_step(all, i as int, f);
        }
        assert(all[i as int] == ls@[i as int]@);
        match summary_of_line(&ls[i]) {
            Some(x) => {
                return Some(x);
            },
            None => {},
        }
        i += 1;
    }
    assert(all.skip(ls.len() as int) =~= Seq::<Seq<char>>::empty());
    None
}

/// The last `/`-separated segment of a path.
pub open spec fn last_segment(dir: Seq<char>) -> Seq<char> {
    let i = last_index(dir, '/');
    if i < 0 {
        dir
    } else {
        dir.subrange(i + 1, dir.len() as int)
    }
}

/// A skill's slug: the front matter's `slug`, else the directory's name (the flock's
/// slug for the root), else the skill's name, each sanitized; the first that is not
/// empty.
pub open spec fn derived_slug(
    skill_dir: Seq<char>,
    flock_slug: Seq<char>,
    name: Seq<char>,
    parsed: Json,
) -> Option<Seq<char>> {
    let front = match as_str(value_get(parsed, "slug"@)) {
        Some(s) => sanitized(s),
        None => Seq::empty(),
    };
    let dir = if skill_dir == "."@ {
        sanitized(flock_slug)
    } else {
        sanitized(last_segment(skill_dir))
    };
    if front.len() > 0 {
        Some(front)
    } else if dir.len() > 0 {
        Some(dir)
    } else if sanitized(name).len() > 0 {
        Some(sanitized(name))
    } else {
        None
    }
}

/// The slug of a skill found in `skill_dir`.
pub fn derive_skill_slug(skill_dir: &str, flock_slug: &str, name: &str, parsed: &Json) -> (r:
    Option<String>)
    ensures
        match r {
            Some(x) => derived_slug(skill_dir@, flock_slug@, name@, *parsed) == Some(x@),
            None => derived_slug(skill_dir@, flock_slug@, name@, *parsed) is None,
        },
{
    match value_str(parsed, "slug") {
        Some(s) => {
            let front = sanitize_skill_slug(s.as_str());
            if !front.as_str().is_empty() {
                return Some(front);
            }
        },
        None => {},
    }
    let dir = if str_eq(skill_dir, ".") {
        sanitize_skill_slug(flock_slug)
    } else {
        let v = chars_of(skill_dir);
        let n = v.len();
        assert(v@.subrange(0, n as int) =~= v@);
        let segment = match rfind_char_at(&v, 0, n, '/') {
            Some(i) => slice_vec(&v, i + 1, n),
            None => v,
        };
        sanitize_skill_slug(string_of(&segment).as_str())
    };
    if !dir.as_str().is_empty() {
        return Some(dir);
    }
    let fallback = sanitize_skill_slug(name);
    if !fallback.as_str().is_empty() {
        Some(fallback)
    } else {
        None
    }
}

/// What a `SKILL.md` says of its skill.
#[derive(Debug, Clone)]
pub struct ScannedSkillMetadata {
    pub name: String,
    pub description: String,
    pub version: Option<String>,
}

/// The message for a `SKILL.md` without a name.
pub open spec fn missing_name_message(skill_dir: Seq<char>) -> Seq<char> {
    "`"@ + skill_dir
        + "` must define a non-empty `name` in SKILL.md frontmatter or a markdown heading"@
}

/// The message for a `SKILL.md` without a description.
pub open spec fn missing_description_message(skill_dir: Seq<char>) -> Seq<char> {
    "`"@ + skill_dir + "` must define a non-empty `description` in SKILL.md frontmatter or body"@
}

/// The message for a skill that yields no slug.
pub open spec fn missing_slug_message(skill_dir: Seq<char>) -> Seq<char> {
    "`"@ + skill_dir
        + "` did not produce a valid skill slug from its directory name or SKILL.md"@
}

/// A skill's name: the front matter's `name`, trimmed, else the first heading.
pub open spec fn skill_name_of(parsed: Json, markdown: Seq<char>) -> Option<Seq<char>> {
    match trimmed_nonempty(as_str(value_get(parsed, "name"@))) {
        Some(n) => Some(n),
        None => markdown_heading(markdown),
    }
}

/// What a `SKILL.md` yields: its name, description and version, or the message for
/// the first of them (or the slug) that it lacks.
pub open spec fn skill_metadata(
    skill_dir: Seq<char>,
    flock_slug: Seq<char>,
    markdown: Seq<char>,
    parsed: Json,
) -> Result<(Seq<char>, Seq<char>, Option<Seq<char>>), Seq<char>> {
    match skill_name_of(parsed, markdown) {
        None => Err(missing_name_message(skill_dir)),
        Some(name) => match trimmed_nonempty(summary_of(parsed, markdown)) {
            None => Err(missing_description_message(skill_dir)),
            Some(description) => if derived_slug(skill_dir, flock_slug, name, parsed) is None {
                Err(missing_slug_message(skill_dir))
            } else {
                Ok((name, description, trimmed_nonempty(as_str(value_get(parsed, "version"@)))))
            },
        },
    }
}

/// The view of an optional string.
pub open spec fn opt_view(v: Option<String>) -> Option<Seq<char>> {
    match v {
        Some(s) => Some(s@),
        None => None,
    }
}

fn with_dir(skill_dir: &str, tail: &str) -> (r: String)
    ensures
        r@ == "`"@ + skill_dir@ + tail@,
{
    string_of(&concat(&concat(&chars_of("`"), &chars_of(skill_dir)), &chars_of(tail)))
}

/// The name, description and version a `SKILL.md` gives its skill, from the markdown
/// and its parsed front matter.
pub fn parse_skill_markdown_metadata(
    skill_dir: &str,
    flock_slug: &str,
    markdown: &str,
    parsed: &Json,
) -> (r: Result<ScannedSkillMetadata, String>)
    ensures
        match r {
            Ok(m) => skill_metadata(skill_dir@, flock_slug@, markdown@, *parsed) == Ok::<
                (Seq<char>, Seq<char>, Option<Seq<char>>),
                Seq<char>,
            >((m.name@, m.description@, opt_view(m.version))),
            Err(e) => skill_metadata(skill_dir@, flock_slug@, markdown@, *parsed) == Err::<
                (Seq<char>, Seq<char>, Option<Seq<char>>),
                Seq<char>,
            >(e@),
        },
{
    let name = match trim_nonempty(value_str(parsed, "name")) {
        Some(n) => n,
        None => match extract_markdown_heading(markdown) {
            Some(h) => h,
            None => {
                return Err(
                    with_dir(
                        skill_dir,
                        "` must define a non-empty `name` in SKILL.md frontmatter or a markdown heading",
                    ),
                );
            },
        },
    };
    let summary = extract_summary(parsed, markdown);
    let description = match trim_nonempty(summary.as_ref()) {
        Some(d) => d,
        None => {
            return Err(
                with_dir(
                    skill_dir,
                    "` must define a non-empty `description` in SKILL.md frontmatter or body",
                ),
            );
        },
    };
    if derive_skill_slug(skill_dir, flock_slug, name.as_str(), parsed).is_none() {
        return Err(
            with_dir(
                skill_dir,
                "` did not produce a valid skill slug from its directory name or SKILL.md",
            ),
        );
    }
    let version = trim_nonempty(value_str(parsed, "version"));
    Ok(ScannedSkillMetadata { name, description, version })
}

// ---------------------------------------------------------------------------
// Bundle files
// ---------------------------------------------------------------------------

/// The markdown file of a bundle to render, by position among the bundle's file paths:
/// the one named `preferred` (ignoring ASCII case), else the first `.md` file.
pub fn select_markdown_file(paths: &Vec<String>, preferred: &str) -> (r: Option<usize>)
    ensures
        match r {
            Some(i) => i < paths.len() && (ascii_lower_seq(paths@[i as int]@) == ascii_lower_seq(
                preferred@,
            ) && forall|k: int|
                0 <= k < i ==> ascii_lower_seq(#[trigger] strs_of(paths@)[k]) != ascii_lower_seq(
                    preferred@,
                )) || ((forall|k: int|
                0 <= k < paths.len() ==> ascii_lower_seq(#[trigger] strs_of(paths@)[k])
                    != ascii_lower_seq(preferred@)) && has_suffix(paths@[i as int]@, ".md"@)
                && forall|k: int| 0 <= k < i ==> !has_suffix(#[trigger] strs_of(paths@)[k], ".md"@)),
            None => forall|k: int|
                0 <= k < paths.len() ==> ascii_lower_seq(#[trigger] strs_of(paths@)[k])
                    != ascii_lower_seq(preferred@) && !has_suffix(strs_of(paths@)[k], ".md"@),
        },
{
    let wanted = ascii_lower_vec(&chars_of(preferred));
    let mut i: usize = 0;
    while i < paths.len()
        invariant
            i <= paths.len(),
            wanted@ == ascii_lower_seq(preferred@),
            forall|k: int|
                0 <= k < i ==> ascii_lower_seq(#[trigger] strs_of(paths@)[k]) != ascii_lower_seq(
                    preferred@,
                ),
        decreases paths.len() - i,
    {
        if chars_eq(&ascii_lower_vec(&chars_of(paths[i].as_str())), &wanted) {
            return Some(i);
        }
        assert(strs_of(paths@)[i as int] == paths@[i as int]@);
        i += 1;
    }
    let md = chars_of(".md");
    let mut j: usize = 0;
    while j < paths.len()
        invariant
            j <= paths.len(),
            md@ == ".md"@,
            forall|k: int|
                0 <= k < paths.len() ==> ascii_lower_seq(#[trigger] strs_of(paths@)[k])
                    != ascii_lower_seq(preferred@),
            forall|k: int| 0 <= k < j ==> !has_suffix(#[trigger] strs_of(paths@)[k], ".md"@),
        decreases paths.len() - j,
    {
        if ends_with(&chars_of(paths[j].as_str()), &md) {
            return Some(j);
        }
        assert(strs_of(paths@)[j as int] == paths@[j as int]@);
        j += 1;
    }
    None
}

} // verus!

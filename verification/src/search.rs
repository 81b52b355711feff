//! Ranking of catalog entries for a search query. A match is worth a number of points;
//! the points are counted in halves so that every weight is a whole number.
use vstd::prelude::*;

use crate::llm_eval::{lowercased, to_lowercase};
use crate::text::{chars_of, is_whitespace, is_ws, seqs_of, string_of};
use crate::users::contains_text;
use crate::text::find_seq;

verus! {

/// `str::split_whitespace`: the maximal runs of non-whitespace characters, in order.
pub open spec fn words(s: Seq<char>) -> Seq<Seq<char>>
    decreases s.len(),
{
    if s.len() == 0 {
        Seq::empty()
    } else {
        let prev = words(s.drop_last());
        let c = s.last();
        if is_ws(c) {
            prev
        } else if s.len() >= 2 && !is_ws(s[s.len() - 2]) {
            prev.update(prev.len() - 1, prev.last().push(c))
        } else {
            prev.push(seq![c])
        }
    }
}

/// A text ending in a non-whitespace character has a word.
proof fn lemma_words_nonempty(s: Seq<char>)
    requires
        s.len() > 0,
        !is_ws(s.last()),
    ensures
        words(s).len() > 0,
    decreases s.len(),
{
    if s.len() >= 2 && !is_ws(s[s.len() - 2]) {
        lemma_words_nonempty(s.drop_last());
    }
}

/// The words of `s`, as `str::split_whitespace` gives them.
pub fn split_words(s: &str) -> (r: Vec<Vec<char>>)
    ensures
        seqs_of(r@) == words(s@),
{
    let v = chars_of(s);
    let mut out: Vec<Vec<char>> = Vec::new();
    let mut in_word = false;
    let mut i: usize = 0;
    while i < v.len()
        invariant
            i <= v.len(),
            v@ == s@,
            seqs_of(out@) == words(v@.take(i as int)),
            in_word == (i > 0 && !is_ws(v@[i - 1])),
        decreases v.len() - i,
    {
        let c = v[i];
        let ghost t = v@.take(i + 1);
        assert(t.drop_last() =~= v@.take(i as int));
        assert(t.last() == c);
        if is_whitespace(c) {
            in_word = false;
        } else if in_word {
            proof {
                assert(t[t.len() - 2] == v@[i - 1]);
                lemma_words_nonempty(v@.take(i as int));
            }
            let k = out.len() - 1;
            let mut last = out.pop().unwrap();
            let ghost before = last@;
            last.push(c);
            out.push(last);
            assert(seqs_of(out@) =~= words(v@.take(i as int)).update(k as int, before.push(c)));
        } else {
            if i > 0 {
                assert(t[t.len() - 2] == v@[i - 1]);
            }
            let ghost before = seqs_of(out@);
            let fresh = vec![c];
            assert(fresh@ =~= seq![c]);
            out.push(fresh);
            assert(seqs_of(out@) =~= before.push(seq![c]));
            in_word = true;
        }
        i += 1;
    }
    assert(v@.take(v.len() as int) =~= v@);
    out
}

/// Whether `needle` occurs in `haystack`.
pub open spec fn occurs(haystack: Seq<char>, needle: Seq<char>) -> bool {
    find_seq(haystack, needle) >= 0
}

/// The half-points a query word earns against the lower-cased slug, name, summary and
/// content: 24, 16, 10 and 3 for each that contains it.
pub open spec fn word_points(
    word: Seq<char>,
    slug: Seq<char>,
    name: Seq<char>,
    summary: Seq<char>,
    content: Seq<char>,
) -> nat {
    (if occurs(slug, word) { 24nat } else { 0nat }) + (if occurs(name, word) { 16nat } else { 0nat })
        + (if occurs(summary, word) { 10nat } else { 0nat }) + (if occurs(content, word) {
        3nat
    } else {
        0nat
    })
}

/// The half-points all of `ws` earn.
pub open spec fn words_points(
    ws: Seq<Seq<char>>,
    slug: Seq<char>,
    name: Seq<char>,
    summary: Seq<char>,
    content: Seq<char>,
) -> nat
    decreases ws.len(),
{
    if ws.len() == 0 {
        0
    } else {
        words_points(ws.drop_last(), slug, name, summary, content) + word_points(
            ws.last(),
            slug,
            name,
            summary,
            content,
        )
    }
}

/// The half-points of an entry for `query`. Against the lower-cased slug, display name,
/// summary and content: 200 when the slug is the query, 90 when it contains the query,
/// 60 and 36 when the name and summary contain it, and what each word of the query earns.
pub open spec fn search_points(
    query: Seq<char>,
    slug: Seq<char>,
    display_name: Seq<char>,
    summary: Seq<char>,
    content: Seq<char>,
) -> nat {
    let s = lowercased(slug);
    let n = lowercased(display_name);
    let m = lowercased(summary);
    let c = lowercased(content);
    (if s == query { 200nat } else { 0nat }) + (if occurs(s, query) { 90nat } else { 0nat }) + (
    if occurs(n, query) {
        60nat
    } else {
        0nat
    }) + (if occurs(m, query) { 36nat } else { 0nat }) + words_points(words(query), s, n, m, c)
}

/// How well an entry matches a search query, in half-points; `None` when it does not
/// match at all.
pub fn score_text_half_points(
    query: &str,
    slug: &str,
    display_name: &str,
    summary: &str,
    content: &str,
) -> (r: Option<u128>)
    ensures
        match r {
            Some(p) => p > 0 && p == search_points(query@, slug@, display_name@, summary@, content@),
            None => search_points(query@, slug@, display_name@, summary@, content@) == 0,
        },
{
    let tokens = split_words(query);
    let s = to_lowercase(slug);
    let n = to_lowercase(display_name);
    let m = to_lowercase(summary);
    let c = to_lowercase(content);
    let ghost ws = words(query@);
    let mut points: u128 = 0;
    if crate::json::str_eq(s.as_str(), query) {
        points = points + 200;
    }
    if contains_text(s.as_str(), query) {
        points = points + 90;
    }
    if contains_text(n.as_str(), query) {
        points = points + 60;
    }
    if contains_text(m.as_str(), query) {
        points = points + 36;
    }
    let ghost base = points as nat;
    let mut k: usize = 0;
    while k < tokens.len()
        invariant
            k <= tokens.len(),
            seqs_of(tokens@) == ws,
            base <= 386,
            points as nat == base + words_points(ws.take(k as int), s@, n@, m@, c@),
            points <= 386 + 53 * k,
        decreases tokens.len() - k,
    {
        let word = string_of(&tokens[k]);
        let ghost t = ws.take(k + 1);
        assert(t.drop_last() =~= ws.take(k as int));
        assert(t.last() == word@);
        if contains_text(s.as_str(), word.as_str()) {
            points = points + 24;
        }
        if contains_text(n.as_str(), word.as_str()) {
            points = points + 16;
        }
        if contains_text(m.as_str(), word.as_str()) {
            points = points + 10;
        }
        if contains_text(c.as_str(), word.as_str()) {
            points = points + 3;
        }
        k += 1;
    }
    assert(ws.take(tokens.len() as int) =~= ws);
    if points > 0 {
        Some(points)
    } else {
        None
    }
}

} // verus!

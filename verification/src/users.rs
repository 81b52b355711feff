//! Pages of a user's profile lists: identifiers in order without repeats, cut into pages
//! by a numeric cursor. Identifiers are the 128-bit values of UUIDs.
use vstd::prelude::*;

use crate::llm_eval::{lowercased, to_lowercase};
use crate::text::{
    chars_of, decimal, find_seq, find_seq_at, parse_i64, parsed_i64, trim, trim_vec,
    usize_to_decimal, string_of,
};

verus! {

/// The identifiers in the order they first occur, each once.
pub open spec fn unique_in_order(ids: Seq<u128>) -> Seq<u128>
    decreases ids.len(),
{
    if ids.len() == 0 {
        Seq::empty()
    } else {
        let prev = unique_in_order(ids.drop_last());
        if prev.contains(ids.last()) {
            prev
        } else {
            prev.push(ids.last())
        }
    }
}

/// The identifiers in the order they first occur, without repeats.
pub fn ordered_unique_ids(ids: &Vec<u128>) -> (r: Vec<u128>)
    ensures
        r@ == unique_in_order(ids@),
{
    let mut ordered: Vec<u128> = Vec::new();
    let mut i: usize = 0;
    assert(ids@.take(0) =~= Seq::<u128>::empty());
    while i < ids.len()
        invariant
            i <= ids.len(),
            ordered@ == unique_in_order(ids@.take(i as int)),
        decreases ids.len() - i,
    {
        let id = ids[i];
        assert(ids@.take(i + 1).drop_last() =~= ids@.take(i as int));
        assert(ids@.take(i + 1).last() == id);
        let mut seen = false;
        let mut k: usize = 0;
        while k < ordered.len()
            invariant
                k <= ordered.len(),
                seen == exists|j: int| 0 <= j < k && ordered@[j] == id,
            decreases ordered.len() - k,
        {
            if ordered[k] == id {
                seen = true;
            }
            k += 1;
        }
        if !seen {
            ordered.push(id);
        }
        i += 1;
    }
    assert(ids@.take(ids.len() as int) =~= ids@);
    ordered
}

proof fn lemma_push_contains(s: Seq<u128>, v: u128)
    ensures
        forall|x: u128| s.push(v).contains(x) <==> (s.contains(x) || x == v),
{
    assert forall|x: u128| s.push(v).contains(x) <==> (s.contains(x) || x == v) by {
        if s.push(v).contains(x) {
            let k = choose|k: int| 0 <= k < s.push(v).len() && s.push(v)[k] == x;
            if k < s.len() {
                assert(s[k] == x);
            }
        }
        if s.contains(x) {
            let k = choose|k: int| 0 <= k < s.len() && s[k] == x;
            assert(s.push(v)[k] == x);
        }
        if x == v {
            assert(s.push(v)[s.len() as int] == x);
        }
    }
}

/// No identifier comes twice, and the same identifiers are there as in the input.
pub proof fn law_unique_ids(ids: Seq<u128>)
    ensures
        unique_in_order(ids).no_duplicates(),
        forall|x: u128| unique_in_order(ids).contains(x) <==> ids.contains(x),
    decreases ids.len(),
{
    if ids.len() > 0 {
        let d = ids.drop_last();
        let last = ids.last();
        law_unique_ids(d);
        let prev = unique_in_order(d);
        assert(ids =~= d.push(last));
        lemma_push_contains(d, last);
        lemma_push_contains(prev, last);
        assert forall|x: u128| unique_in_order(ids).contains(x) <==> ids.contains(x) by {
            assert(prev.contains(x) <==> d.contains(x));
            assert(prev.contains(last) <==> d.contains(last));
        }
        if !prev.contains(last) {
            assert forall|i: int, j: int|
                0 <= i < prev.push(last).len() && 0 <= j < prev.push(last).len() && i != j
                    implies prev.push(last)[i] != prev.push(last)[j] by {
                if i == prev.len() {
                    assert(prev.push(last)[j] == prev[j]);
                } else if j == prev.len() {
                    assert(prev.push(last)[i] == prev[i]);
                }
            }
        }
    } else {
        assert(unique_in_order(ids) =~= Seq::<u128>::empty());
    }
}

/// The offset a page cursor names: its number when it parses, never below zero.
pub open spec fn cursor_offset(cursor: Option<Seq<char>>) -> i64 {
    match cursor {
        Some(c) => match parsed_i64(c) {
            Some(n) => if n < 0 {
                0
            } else {
                n
            },
            None => 0,
        },
        None => 0,
    }
}

/// The offset a page cursor names.
pub fn parse_cursor(cursor: Option<String>) -> (r: i64)
    ensures
        r == cursor_offset(
            match cursor {
                Some(c) => Some(c@),
                None => None,
            },
        ),
{
    match cursor {
        Some(c) => match parse_i64(c.as_str()) {
            Some(n) => if n < 0 {
                0
            } else {
                n
            },
            None => 0,
        },
        None => 0,
    }
}

/// A page of identifiers: from the cursor's offset, at most `limit` of them (held between
/// one and `max_limit`), and the cursor of the next page when more remain.
pub open spec fn id_page(ids: Seq<u128>, limit: i64, cursor: Option<Seq<char>>, max_limit: i64) -> (
    Seq<u128>,
    Option<Seq<char>>,
) {
    let clamped: i64 = if limit < 1 {
        1
    } else if limit > max_limit {
        max_limit
    } else {
        limit
    };
    let size = (clamped as usize) as int;
    let offset = (cursor_offset(cursor) as usize) as int;
    if offset >= ids.len() {
        (Seq::empty(), None)
    } else {
        let end = if offset + size < ids.len() {
            offset + size
        } else {
            ids.len() as int
        };
        (
            ids.subrange(offset, end),
            if end < ids.len() {
                Some(decimal(end as nat))
            } else {
                None
            },
        )
    }
}


/// The offset a page starts at.
pub open spec fn page_start(cursor: Option<Seq<char>>) -> int {
    (cursor_offset(cursor) as usize) as int
}

/// Pages follow one another: the cursor of a page, when it has one, leads to the page
/// that starts right after it, so that reading pages in turn lists the identifiers in
/// order, each once; a page without a cursor is empty or ends the list. (For page sizes
/// and lists within the machine's address range.)
pub proof fn law_pages_follow_cursor(
    ids: Seq<u128>,
    limit: i64,
    cursor: Option<Seq<char>>,
    max_limit: i64,
)
    requires
        1 <= max_limit <= isize::MAX,
        ids.len() <= isize::MAX,
    ensures
        ({
            let (page, next) = id_page(ids, limit, cursor, max_limit);
            let start = page_start(cursor);
            &&& next is None ==> (page.len() == 0 || start + page.len() == ids.len())
            &&& next matches Some(c) ==> {
                let following = id_page(ids, limit, Some(c), max_limit).0;
                &&& page.len() > 0
                &&& page_start(Some(c)) == start + page.len()
                &&& page + following == ids.subrange(
                    start,
                    start + page.len() + following.len(),
                )
            }
        }),
{
    let (page, next) = id_page(ids, limit, cursor, max_limit);
    let start = page_start(cursor);
    if next is Some {
        let end = start + page.len();
        crate::text::lemma_parse_decimal(end as nat);
        assert(cursor_offset(Some(decimal(end as nat))) == end);
        let following = id_page(ids, limit, Some(decimal(end as nat)), max_limit).0;
        assert(page + following =~= ids.subrange(start, start + page.len() + following.len()));
    }
}

/// One page of a list of identifiers and the cursor of the next.
pub fn paginate_unique_ids(ids: Vec<u128>, limit: i64, cursor: Option<String>, max_limit: i64) -> (r: (
    Vec<u128>,
    Option<String>,
))
    requires
        max_limit >= 1,
    ensures
        (r.0@, match r.1 {
            Some(c) => Some(c@),
            None => None,
        }) == id_page(
            ids@,
            limit,
            match cursor {
                Some(c) => Some(c@),
                None => None,
            },
            max_limit,
        ),
{
    let size: i64 = if limit < 1 {
        1
    } else if limit > max_limit {
        max_limit
    } else {
        limit
    };
    let size = size as usize;
    let offset = parse_cursor(cursor) as usize;
    if offset >= ids.len() {
        return (Vec::new(), None);
    }
    let end = if offset.saturating_add(size) < ids.len() {
        offset + size
    } else {
        ids.len()
    };
    let next = if end < ids.len() {
        Some(usize_to_decimal(end))
    } else {
        None
    };
    let mut page: Vec<u128> = Vec::new();
    let mut i = offset;
    while i < end
        invariant
            offset <= i <= end <= ids.len(),
            page@ == ids@.subrange(offset as int, i as int),
        decreases end - i,
    {
        page.push(ids[i]);
        i += 1;
        assert(page@ =~= ids@.subrange(offset as int, i as int));
    }
    (page, next)
}

/// Whether a user shows up for a search: with no query (or a blank one) every user
/// does; else the trimmed, lower-cased query must occur in the lower-cased handle or
/// display name.
pub open spec fn user_matches(handle: Seq<char>, display_name: Option<Seq<char>>, query: Option<
    Seq<char>,
>) -> bool {
    match query {
        Some(q) => if trim(q).len() == 0 {
            true
        } else {
            let needle = lowercased(trim(q));
            find_seq(lowercased(handle), needle) >= 0 || find_seq(
                lowercased(
                    match display_name {
                        Some(d) => d,
                        None => Seq::empty(),
                    },
                ),
                needle,
            ) >= 0
        },
        None => true,
    }
}

pub(crate) fn contains_text(haystack: &str, needle: &str) -> (r: bool)
    ensures
        r == (find_seq(haystack@, needle@) >= 0),
{
    let h = chars_of(haystack);
    let n = chars_of(needle);
    if n.len() == 0 {
        assert(h@.subrange(0, 0) =~= n@);
        return true;
    }
    assert(h@.subrange(0, h.len() as int) =~= h@);
    find_seq_at(&h, 0, h.len(), &n).is_some()
}

/// Whether the user with `handle` and `display_name` shows up for the search `query`.
pub fn user_matches_query(handle: &str, display_name: Option<&str>, query: Option<&str>) -> (r:
    bool)
    ensures
        r == user_matches(
            handle@,
            match display_name {
                Some(d) => Some(d@),
                None => None,
            },
            match query {
                Some(q) => Some(q@),
                None => None,
            },
        ),
{
    match query {
        Some(q) => {
            let t = string_of(&trim_vec(&chars_of(q)));
            if t.as_str().is_empty() {
                return true;
            }
            let needle = to_lowercase(t.as_str());
            let empty = String::new();
            let name = match display_name {
                Some(d) => d,
                None => empty.as_str(),
            };
            contains_text(to_lowercase(handle).as_str(), needle.as_str()) || contains_text(
                to_lowercase(name).as_str(),
                needle.as_str(),
            )
        },
        None => true,
    }
}

} // verus!

//! Listing repositories: the search score of a repository, the order of the results,
//! and the page a cursor selects.
use vstd::prelude::*;

use crate::llm_eval::{lowercased, to_lowercase};
use crate::search::occurs;
use crate::text::{
    chars_of, i64_to_decimal, parse_i64, parsed_i64, signed_decimal, string_of, trim, trim_vec,
};
use crate::users::contains_text;

verus! {

/// The lower-cased search text of a repository listing; `None` when there is none or it
/// is blank.
pub fn repo_search_query(q: Option<&str>) -> (r: Option<String>)
    ensures
        match q {
            Some(t) => if trim(t@).len() > 0 {
                r matches Some(s) && s@ == lowercased(trim(t@))
            } else {
                r is None
            },
            None => r is None,
        },
{
    match q {
        Some(t) => {
            let trimmed = string_of(&trim_vec(&chars_of(t)));
            if trimmed.as_str().is_empty() {
                None
            } else {
                Some(to_lowercase(trimmed.as_str()))
            }
        },
        None => None,
    }
}

/// The score of a repository for the lower-cased query `q`: 80 when its URL contains the
/// query, else 70 when its name is the query, 50 when its name contains it, and 10 when
/// only its description does; `None` when none does (each compared lower-cased).
pub open spec fn repo_score(q: Seq<char>, name: Seq<char>, description: Seq<char>, git_url: Seq<
    char,
>) -> Option<i32> {
    let n = lowercased(name);
    let d = lowercased(description);
    let u = lowercased(git_url);
    if occurs(u, q) {
        Some(80)
    } else if n == q {
        Some(70)
    } else if occurs(n, q) {
        Some(50)
    } else if occurs(d, q) {
        Some(10)
    } else {
        None
    }
}

/// The score of a repository for a lower-cased search query.
pub fn repo_search_score(q: &str, name: &str, description: &str, git_url: &str) -> (r: Option<
    i32,
>)
    ensures
        r == repo_score(q@, name@, description@, git_url@),
{
    let n = to_lowercase(name);
    let d = to_lowercase(description);
    let u = to_lowercase(git_url);
    if contains_text(u.as_str(), q) {
        Some(80)
    } else if crate::json::str_eq(n.as_str(), q) {
        Some(70)
    } else if contains_text(n.as_str(), q) {
        Some(50)
    } else if contains_text(d.as_str(), q) {
        Some(10)
    } else {
        None
    }
}

/// Whether the matching repository `i` is listed before the matching repository `j`:
/// higher score first, then the more recently updated, then the earlier in the listing.
pub open spec fn ranks_before(scores: Seq<Option<i32>>, updated: Seq<i64>, i: int, j: int) -> bool {
    let a = scores[i]->0;
    let b = scores[j]->0;
    a > b || (a == b && (updated[i] > updated[j] || (updated[i] == updated[j] && i < j)))
}

/// The order of search results: the positions of the matching repositories (those with
/// a score), each once, in ranking order.
pub open spec fn is_ranking(scores: Seq<Option<i32>>, updated: Seq<i64>, r: Seq<int>) -> bool {
    &&& forall|k: int| 0 <= k < r.len() ==> 0 <= #[trigger] r[k] < scores.len() && scores[r[k]] is Some
    &&& forall|i: int| 0 <= i < scores.len() && (#[trigger] scores[i]) is Some ==> r.contains(i)
    &&& forall|a: int, b: int|
        0 <= a < b < r.len() ==> ranks_before(scores, updated, #[trigger] r[a], #[trigger] r[b])
}

/// Positions as integers.
pub open spec fn as_ints(v: Seq<usize>) -> Seq<int> {
    Seq::new(v.len(), |i: int| v[i] as int)
}

proof fn lemma_ranks_transitive(scores: Seq<Option<i32>>, updated: Seq<i64>, i: int, j: int, k: int)
    requires
        ranks_before(scores, updated, i, j),
        ranks_before(scores, updated, j, k),
    ensures
        ranks_before(scores, updated, i, k),
{
}

/// The positions of the matching repositories in ranking order; `updated` holds values
/// ordered as the repositories' update times.
pub fn rank_matches(scores: &Vec<Option<i32>>, updated: &Vec<i64>) -> (r: Vec<usize>)
    requires
        updated.len() == scores.len(),
    ensures
        is_ranking(scores@, updated@, as_ints(r@)),
{
    let ghost sc = scores@;
    let ghost up = updated@;
    let mut out: Vec<usize> = Vec::new();
    let mut i: usize = 0;
    while i < scores.len()
        invariant
            i <= scores.len(),
            updated.len() == scores.len(),
            sc == scores@,
            up == updated@,
            forall|k: int| 0 <= k < out.len() ==> #[trigger] out@[k] < i && sc[out@[k] as int] is Some,
            forall|m: int| 0 <= m < i && (#[trigger] sc[m]) is Some ==> as_ints(out@).contains(m),
            forall|a: int, b: int|
                0 <= a < b < out.len() ==> ranks_before(sc, up, #[trigger] out@[a] as int, #[trigger] out@[b] as int),
        decreases scores.len() - i,
    {
        match scores[i] {
            None => {},
            Some(s) => {
                let mut p: usize = 0;
                while p < out.len()
                    invariant
                        p <= out.len(),
                        i < scores.len(),
                        updated.len() == scores.len(),
                        sc == scores@,
                        up == updated@,
                        sc[i as int] == Some(s),
                        forall|k: int| 0 <= k < out.len() ==> #[trigger] out@[k] < i && sc[out@[k] as int] is Some,
                        forall|k: int| 0 <= k < p ==> !ranks_before(sc, up, i as int, #[trigger] out@[k] as int),
                    ensures
                        p <= out.len(),
                        forall|k: int| 0 <= k < p ==> !ranks_before(sc, up, i as int, #[trigger] out@[k] as int),
                        p < out.len() ==> ranks_before(sc, up, i as int, out@[p as int] as int),
                    decreases out.len() - p,
                {
                    let j = out[p];
                    let t = match scores[j] {
                        Some(t) => t,
                        None => s,
                    };
                    if s > t || (s == t && updated[i] > updated[j]) {
                        assert(ranks_before(sc, up, i as int, j as int));
                        break;
                    }
                    assert(!ranks_before(sc, up, i as int, j as int));
                    p += 1;
                }
                let ghost before = out@;
                out.insert(p, i);
                proof {
                    assert(out@ == before.insert(p as int, i));
                    assert forall|k: int| 0 <= k < out.len() implies #[trigger] out@[k] < i + 1 && sc[out@[k] as int] is Some by {
                        if k < p {
                            assert(out@[k] == before[k]);
                        } else if k > p {
                            assert(out@[k] == before[k - 1]);
                        }
                    }
                    assert forall|a: int, b: int| 0 <= a < b < out.len() implies ranks_before(sc, up, #[trigger] out@[a] as int, #[trigger] out@[b] as int) by {
                        if b < p {
                            assert(out@[a] == before[a] && out@[b] == before[b]);
                        } else if a > p {
                            assert(out@[a] == before[a - 1] && out@[b] == before[b - 1]);
                        } else if a == p {
                            assert(out@[b] == before[b - 1]);
                            if b - 1 > p {
                                assert(ranks_before(sc, up, before[p as int] as int, before[b - 1] as int));
                                lemma_ranks_transitive(sc, up, i as int, before[p as int] as int, before[b - 1] as int);
                            }
                        } else if b == p {
                            assert(out@[a] == before[a]);
                            assert(!ranks_before(sc, up, i as int, before[a] as int));
                            assert(before[a] < i);
                        } else {
                            assert(a < p && p < b);
                            assert(out@[a] == before[a] && out@[b] == before[b - 1]);
                            assert(!ranks_before(sc, up, i as int, before[a] as int));
                            assert(ranks_before(sc, up, before[a] as int, i as int));
                            if b - 1 > p {
                                assert(ranks_before(sc, up, before[p as int] as int, before[b - 1] as int));
                                lemma_ranks_transitive(sc, up, i as int, before[p as int] as int, before[b - 1] as int);
                            }
                            lemma_ranks_transitive(sc, up, before[a] as int, i as int, before[b - 1] as int);
                        }
                    }
                    assert forall|m: int| 0 <= m < i + 1 && (#[trigger] sc[m]) is Some implies as_ints(out@).contains(m) by {
                        if m == i {
                            assert(as_ints(out@)[p as int] == m);
                        } else {
                            assert(as_ints(before).contains(m));
                            let k = choose|k: int| 0 <= k < before.len() && as_ints(before)[k] == m;
                            if k < p {
                                assert(as_ints(out@)[k] == m);
                            } else {
                                assert(as_ints(out@)[k + 1] == m);
                            }
                        }
                    }
                }
            },
        }
        i += 1;
    }
    proof {
        let r = as_ints(out@);
        assert forall|k: int| 0 <= k < r.len() implies 0 <= #[trigger] r[k] < sc.len() && sc[r[k]] is Some by {
            assert(r[k] == out@[k] as int);
        }
        assert forall|a: int, b: int| 0 <= a < b < r.len() implies ranks_before(sc, up, #[trigger] r[a], #[trigger] r[b]) by {
            assert(r[a] == out@[a] as int && r[b] == out@[b] as int);
        }
    }
    out
}

/// The page of a listing of `total` entries that a cursor selects: the limit kept within
/// 1 and 100, the offset read from the cursor (0 when there is none or it does not
/// parse), the bounds of the page, and the next page's cursor when entries remain.
pub open spec fn listing_page(limit: i64, cursor: Option<Seq<char>>, total: nat) -> (int, int, Option<
    Seq<char>,
>) {
    let lim: i64 = if limit < 1 {
        1
    } else if limit > 100 {
        100
    } else {
        limit
    };
    let off: i64 = match cursor {
        Some(c) => match parsed_i64(c) {
            Some(n) => n,
            None => 0,
        },
        None => 0,
    };
    let start = if (off as usize) < total {
        (off as usize) as int
    } else {
        total as int
    };
    let end = if start + lim < total {
        start + lim
    } else {
        total as int
    };
    (start, end, if end < total {
        Some(signed_decimal(off + lim))
    } else {
        None
    })
}

/// The bounds of the page of a repository listing and the next page's cursor.
pub fn repo_page(limit: i64, cursor: Option<&str>, total: usize) -> (r: (usize, usize, Option<String>))
    ensures
        (r.0 as int, r.1 as int, match r.2 {
            Some(c) => Some(c@),
            None => None,
        }) == listing_page(
            limit,
            match cursor {
                Some(c) => Some(c@),
                None => None,
            },
            total as nat,
        ),
{
    let lim: i64 = if limit < 1 {
        1
    } else if limit > 100 {
        100
    } else {
        limit
    };
    let off: i64 = match cursor {
        Some(c) => match parse_i64(c) {
            Some(n) => n,
            None => 0,
        },
        None => 0,
    };
    let start: usize = if (off as usize) < total {
        off as usize
    } else {
        total
    };
    let lim_u = lim as usize;
    let end: usize = if total - start > lim_u {
        start + lim_u
    } else {
        total
    };
    let next = if end < total {
        let sum: i128 = (off as i128) + (lim as i128);
        if sum <= i64::MAX as i128 {
            Some(i64_to_decimal(sum as i64))
        } else {
            let big = crate::text::u64_to_decimal(sum as u64);
            Some(big)
        }
    } else {
        None
    };
    (start, end, next)
}


/// Whether `r` lists its entries in ranking order.
pub open spec fn in_rank_order(scores: Seq<Option<i32>>, updated: Seq<i64>, r: Seq<int>) -> bool {
    forall|a: int, b: int|
        0 <= a < b < r.len() ==> ranks_before(scores, updated, #[trigger] r[a], #[trigger] r[b])
}

proof fn lemma_rank_order_unique(scores: Seq<Option<i32>>, updated: Seq<i64>, r1: Seq<int>, r2: Seq<int>)
    requires
        in_rank_order(scores, updated, r1),
        in_rank_order(scores, updated, r2),
        forall|z: int| r1.contains(z) <==> r2.contains(z),
    ensures
        r1 == r2,
    decreases r1.len(),
{
    if r1.len() == 0 {
        if r2.len() > 0 {
            assert(r2.contains(r2[0]));
        }
        assert(r1 =~= r2);
    } else {
        let x = r1[0];
        assert(r1.contains(x));
        let q = choose|q: int| 0 <= q < r2.len() && r2[q] == x;
        let y = r2[0];
        assert(r2.contains(y));
        let p = choose|p: int| 0 <= p < r1.len() && r1[p] == y;
        if x != y {
            assert(p > 0 && q > 0);
            assert(ranks_before(scores, updated, r1[0], r1[p]));
            assert(ranks_before(scores, updated, r2[0], r2[q]));
            assert(false);
        }
        let s1 = r1.drop_first();
        let s2 = r2.drop_first();
        assert(in_rank_order(scores, updated, s1)) by {
            assert forall|a: int, b: int| 0 <= a < b < s1.len() implies ranks_before(scores, updated, #[trigger] s1[a], #[trigger] s1[b]) by {
                assert(s1[a] == r1[a + 1] && s1[b] == r1[b + 1]);
            }
        }
        assert(in_rank_order(scores, updated, s2)) by {
            assert forall|a: int, b: int| 0 <= a < b < s2.len() implies ranks_before(scores, updated, #[trigger] s2[a], #[trigger] s2[b]) by {
                assert(s2[a] == r2[a + 1] && s2[b] == r2[b + 1]);
            }
        }
        assert forall|z: int| s1.contains(z) <==> s2.contains(z) by {
            if s1.contains(z) {
                let k = choose|k: int| 0 <= k < s1.len() && s1[k] == z;
                assert(r1[k + 1] == z);
                if z == x {
                    assert(ranks_before(scores, updated, r1[0], r1[k + 1]));
                }
                assert(r1.contains(z));
                assert(r2.contains(z));
                let m = choose|m: int| 0 <= m < r2.len() && r2[m] == z;
                assert(m > 0);
                assert(s2[m - 1] == z);
            }
            if s2.contains(z) {
                let k = choose|k: int| 0 <= k < s2.len() && s2[k] == z;
                assert(r2[k + 1] == z);
                if z == x {
                    assert(ranks_before(scores, updated, r2[0], r2[k + 1]));
                }
                assert(r2.contains(z));
                assert(r1.contains(z));
                let m = choose|m: int| 0 <= m < r1.len() && r1[m] == z;
                assert(m > 0);
                assert(s1[m - 1] == z);
            }
        }
        lemma_rank_order_unique(scores, updated, s1, s2);
        assert(r1 =~= seq![x] + s1);
        assert(r2 =~= seq![x] + s2);
    }
}

/// The order of search results is determined: two listings that each hold every
/// matching repository once, in ranking order, are the same listing.
pub proof fn law_ranking_is_unique(scores: Seq<Option<i32>>, updated: Seq<i64>, r1: Seq<int>, r2: Seq<
    int,
>)
    requires
        is_ranking(scores, updated, r1),
        is_ranking(scores, updated, r2),
    ensures
        r1 == r2,
{
    assert forall|z: int| r1.contains(z) <==> r2.contains(z) by {
        if r1.contains(z) {
            let k = choose|k: int| 0 <= k < r1.len() && r1[k] == z;
            assert(0 <= r1[k] < scores.len() && scores[r1[k]] is Some);
        }
        if r2.contains(z) {
            let k = choose|k: int| 0 <= k < r2.len() && r2[k] == z;
            assert(0 <= r2[k] < scores.len() && scores[r2[k]] is Some);
        }
    }
    lemma_rank_order_unique(scores, updated, r1, r2);
}

} // verus!

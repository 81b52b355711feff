//! The order of strings (`str` and `String` compare lexicographically) and sorted lists.
use vstd::prelude::*;

use crate::text::{chars_of, strs_of};

verus! {

broadcast use vstd::seq_lib::group_to_multiset_ensures;

/// Lexicographic order on character sequences, comparing code points. It is the order in
/// which `str` and `String` compare: UTF-8 byte order and code point order agree.
pub open spec fn seq_lt(a: Seq<char>, b: Seq<char>) -> bool
    decreases a.len(),
{
    if a.len() == 0 {
        b.len() > 0
    } else if b.len() == 0 {
        false
    } else if a[0] != b[0] {
        (a[0] as int) < (b[0] as int)
    } else {
        seq_lt(a.drop_first(), b.drop_first())
    }
}

/// `a <= b` in the order of strings.
pub open spec fn seq_le(a: Seq<char>, b: Seq<char>) -> bool {
    a == b || seq_lt(a, b)
}

/// Every element is smaller than the ones after it: sorted, without repeats.
pub open spec fn strictly_sorted(s: Seq<Seq<char>>) -> bool {
    forall|i: int, j: int| 0 <= i < j < s.len() ==> seq_lt(#[trigger] s[i], #[trigger] s[j])
}

/// Every element is at most the ones after it.
pub open spec fn sorted(s: Seq<Seq<char>>) -> bool {
    forall|i: int, j: int| 0 <= i < j < s.len() ==> seq_le(#[trigger] s[i], #[trigger] s[j])
}

pub proof fn lemma_lt_irreflexive(a: Seq<char>)
    ensures
        !seq_lt(a, a),
    decreases a.len(),
{
    if a.len() > 0 {
        lemma_lt_irreflexive(a.drop_first());
    }
}

pub proof fn lemma_lt_transitive(a: Seq<char>, b: Seq<char>, c: Seq<char>)
    requires
        seq_lt(a, b),
        seq_lt(b, c),
    ensures
        seq_lt(a, c),
    decreases a.len(),
{
    if a.len() > 0 && b.len() > 0 && c.len() > 0 && a[0] == b[0] && b[0] == c[0] {
        lemma_lt_transitive(a.drop_first(), b.drop_first(), c.drop_first());
    }
}

pub proof fn lemma_lt_total(a: Seq<char>, b: Seq<char>)
    ensures
        a == b || seq_lt(a, b) || seq_lt(b, a),
    decreases a.len(),
{
    if a.len() > 0 && b.len() > 0 && a[0] == b[0] {
        lemma_lt_total(a.drop_first(), b.drop_first());
        if a.drop_first() == b.drop_first() {
            assert(a =~= seq![a[0]] + a.drop_first());
            assert(b =~= seq![b[0]] + b.drop_first());
        }
    } else if a.len() > 0 && b.len() > 0 {
        assert((a[0] as int) != (b[0] as int));
    } else if a.len() == 0 && b.len() == 0 {
        assert(a =~= b);
    }
}

/// Whether `a` comes before `b` in the order of strings.
pub fn chars_lt(a: &[char], b: &[char]) -> (r: bool)
    ensures
        r == seq_lt(a@, b@),
{
    let mut i: usize = 0;
    assert(a@.skip(0) =~= a@);
    assert(b@.skip(0) =~= b@);
    while i < a.len() && i < b.len() && a[i] == b[i]
        invariant
            i <= a.len(),
            i <= b.len(),
            seq_lt(a@, b@) == seq_lt(a@.skip(i as int), b@.skip(i as int)),
        decreases a.len() - i,
    {
        assert(a@.skip(i as int).drop_first() =~= a@.skip(i + 1));
        assert(b@.skip(i as int).drop_first() =~= b@.skip(i + 1));
        i += 1;
    }
    if i == a.len() {
        i < b.len()
    } else if i == b.len() {
        false
    } else {
        a[i] < b[i]
    }
}

/// Whether `a < b` as strings.
pub fn str_lt(a: &str, b: &str) -> (r: bool)
    ensures
        r == seq_lt(a@, b@),
{
    chars_lt(&chars_of(a), &chars_of(b))
}

/// The first position of `v` whose element is not below `x`.
fn lower_bound(v: &Vec<String>, x: &str) -> (r: usize)
    ensures
        r <= v.len(),
        forall|k: int| 0 <= k < r ==> seq_lt(#[trigger] v@[k]@, x@),
        r < v.len() ==> !seq_lt(v@[r as int]@, x@),
{
    let mut i: usize = 0;
    while i < v.len()
        invariant
            i <= v.len(),
            forall|k: int| 0 <= k < i ==> seq_lt(#[trigger] v@[k]@, x@),
        decreases v.len() - i,
    {
        if !str_lt(v[i].as_str(), x) {
            return i;
        }
        i += 1;
    }
    i
}

/// Adds `s` to a strictly sorted list, which stays strictly sorted; nothing is added
/// when `s` is already there.
pub fn insert_sorted_unique(v: &mut Vec<String>, s: String)
    requires
        strictly_sorted(strs_of(old(v)@)),
    ensures
        strictly_sorted(strs_of(final(v)@)),
        forall|x: Seq<char>|
            strs_of(final(v)@).contains(x) <==> (strs_of(old(v)@).contains(x) || x == s@),
{
    let ghost before = strs_of(v@);
    let k = lower_bound(v, s.as_str());
    if k < v.len() && crate::json::str_eq(v[k].as_str(), s.as_str()) {
        assert(before[k as int] == s@);
        return ;
    }
    proof {
        if k < v.len() {
            lemma_lt_total(v@[k as int]@, s@);
        }
    }
    v.insert(k, s);
    let ghost after = strs_of(v@);
    assert(after =~= before.insert(k as int, s@));
    assert forall|i: int, j: int| 0 <= i < j < after.len() implies seq_lt(
        #[trigger] after[i],
        #[trigger] after[j],
    ) by {
        if j < k {
        } else if j == k {
            assert(after[i] == before[i]);
        } else if i < k {
            assert(after[j] == before[j - 1]);
            assert(seq_lt(before[i], s@));
            assert(seq_lt(s@, before[k as int]));
            if j - 1 > k {
                lemma_lt_transitive(s@, before[k as int], before[j - 1]);
            }
            lemma_lt_transitive(before[i], s@, before[j - 1]);
        } else if i == k {
            assert(after[j] == before[j - 1]);
            if j - 1 > k {
                lemma_lt_transitive(s@, before[k as int], before[j - 1]);
            }
        } else {
            assert(after[i] == before[i - 1]);
            assert(after[j] == before[j - 1]);
        }
    }
    assert forall|x: Seq<char>| after.contains(x) <==> (before.contains(x) || x == s@) by {
        if after.contains(x) {
            let i = choose|i: int| 0 <= i < after.len() && after[i] == x;
            if i < k {
                assert(before[i] == x);
            } else if i > k {
                assert(before[i - 1] == x);
            }
        }
        if before.contains(x) {
            let i = choose|i: int| 0 <= i < before.len() && before[i] == x;
            if i < k {
                assert(after[i] == x);
            } else {
                assert(after[i + 1] == x);
            }
        }
        if x == s@ {
            assert(after[k as int] == x);
        }
    }
}

/// Adds `s` to a sorted list at its place; the list stays sorted and gains exactly `s`.
pub fn insert_sorted(v: &mut Vec<String>, s: String)
    requires
        sorted(strs_of(old(v)@)),
    ensures
        sorted(strs_of(final(v)@)),
        strs_of(final(v)@).to_multiset() == strs_of(old(v)@).to_multiset().insert(s@),
{
    let ghost before = strs_of(v@);
    let k = lower_bound(v, s.as_str());
    proof {
        if k < v.len() {
            lemma_lt_total(v@[k as int]@, s@);
        }
    }
    v.insert(k, s);
    let ghost after = strs_of(v@);
    assert(after =~= before.insert(k as int, s@));
    assert forall|i: int, j: int| 0 <= i < j < after.len() implies seq_le(
        #[trigger] after[i],
        #[trigger] after[j],
    ) by {
        if j < k {
        } else if j == k {
            assert(after[i] == before[i]);
        } else if i < k {
            assert(after[j] == before[j - 1]);
            assert(seq_lt(before[i], s@));
            assert(seq_le(s@, before[k as int]));
            if j - 1 > k {
                assert(seq_le(before[k as int], before[j - 1]));
                if s@ != before[k as int] && before[k as int] != before[j - 1] {
                    lemma_lt_transitive(s@, before[k as int], before[j - 1]);
                }
            }
            if s@ != before[j - 1] {
                lemma_lt_transitive(before[i], s@, before[j - 1]);
            }
        } else if i == k {
            assert(after[j] == before[j - 1]);
            assert(seq_le(s@, before[k as int]));
            if j - 1 > k {
                assert(seq_le(before[k as int], before[j - 1]));
                if s@ != before[k as int] && before[k as int] != before[j - 1] {
                    lemma_lt_transitive(s@, before[k as int], before[j - 1]);
                }
            }
        } else {
            assert(after[i] == before[i - 1]);
            assert(after[j] == before[j - 1]);
        }
    }
    proof {
        vstd::seq_lib::to_multiset_insert(before, k as int, s@);
    }
}

} // verus!

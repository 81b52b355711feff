//! Character-level model of strings and the string operations the registry relies on.
//!
//! Strings are modelled by their sequence of Unicode scalar values (`s@`). Every
//! operation below is stated as a spec function on `Seq<char>` and implemented on
//! `Vec<char>` / `&[char]`, with a conversion to and from `str` / `String`.
use vstd::prelude::*;

verus! {

broadcast use vstd::string::group_string_axioms;

use vstd::string::StringExecFns;

// ---------------------------------------------------------------------------
// Spec model
// ---------------------------------------------------------------------------

/// `char::is_whitespace`: the Unicode `White_Space` property.
pub open spec fn is_ws(c: char) -> bool {
    let u = c as u32;
    ||| 0x9 <= u <= 0xd
    ||| u == 0x20
    ||| u == 0x85
    ||| u == 0xa0
    ||| u == 0x1680
    ||| 0x2000 <= u <= 0x200a
    ||| u == 0x2028
    ||| u == 0x2029
    ||| u == 0x202f
    ||| u == 0x205f
    ||| u == 0x3000
}

/// `str::trim_start`.
pub open spec fn trim_start(s: Seq<char>) -> Seq<char>
    decreases s.len(),
{
    if s.len() > 0 && is_ws(s[0]) {
        trim_start(s.drop_first())
    } else {
        s
    }
}

/// `str::trim_end`.
pub open spec fn trim_end(s: Seq<char>) -> Seq<char>
    decreases s.len(),
{
    if s.len() > 0 && is_ws(s.last()) {
        trim_end(s.drop_last())
    } else {
        s
    }
}

/// `str::trim`.
pub open spec fn trim(s: Seq<char>) -> Seq<char> {
    trim_end(trim_start(s))
}

/// `s.starts_with(p)`.
pub open spec fn has_prefix(s: Seq<char>, p: Seq<char>) -> bool {
    p.len() <= s.len() && s.subrange(0, p.len() as int) == p
}

/// `s.ends_with(p)`.
pub open spec fn has_suffix(s: Seq<char>, p: Seq<char>) -> bool {
    p.len() <= s.len() && s.subrange(s.len() - p.len(), s.len() as int) == p
}

/// `s.strip_prefix(p)`.
pub open spec fn strip_prefix(s: Seq<char>, p: Seq<char>) -> Option<Seq<char>> {
    if has_prefix(s, p) {
        Some(s.subrange(p.len() as int, s.len() as int))
    } else {
        None
    }
}

/// `s.strip_suffix(p)`.
pub open spec fn strip_suffix(s: Seq<char>, p: Seq<char>) -> Option<Seq<char>> {
    if has_suffix(s, p) {
        Some(s.subrange(0, s.len() - p.len()))
    } else {
        None
    }
}

/// `s.trim_end_matches(p)` for a non-empty pattern.
pub open spec fn trim_end_matches(s: Seq<char>, p: Seq<char>) -> Seq<char>
    decreases s.len(),
{
    if p.len() > 0 && has_suffix(s, p) {
        trim_end_matches(s.subrange(0, s.len() - p.len()), p)
    } else {
        s
    }
}

/// `s.trim_start_matches(p)` for a non-empty pattern.
pub open spec fn trim_start_matches(s: Seq<char>, p: Seq<char>) -> Seq<char>
    decreases s.len(),
{
    if p.len() > 0 && has_prefix(s, p) {
        trim_start_matches(s.subrange(p.len() as int, s.len() as int), p)
    } else {
        s
    }
}

/// Index of the first occurrence of `c` in `s`, or -1.
pub open spec fn first_index(s: Seq<char>, c: char) -> int
    decreases s.len(),
{
    if s.len() == 0 {
        -1
    } else if s[0] == c {
        0
    } else {
        let r = first_index(s.drop_first(), c);
        if r < 0 {
            -1
        } else {
            r + 1
        }
    }
}

/// Index of the last occurrence of `c` in `s`, or -1.
pub open spec fn last_index(s: Seq<char>, c: char) -> int
    decreases s.len(),
{
    if s.len() == 0 {
        -1
    } else if s.last() == c {
        s.len() - 1
    } else {
        last_index(s.drop_last(), c)
    }
}

/// Index of the first occurrence of the non-empty pattern `p` in `s`, or -1.
pub open spec fn find_seq(s: Seq<char>, p: Seq<char>) -> int
    decreases s.len(),
{
    if s.len() < p.len() {
        -1
    } else if has_prefix(s, p) {
        0
    } else if s.len() == 0 {
        -1
    } else {
        let r = find_seq(s.drop_first(), p);
        if r < 0 {
            -1
        } else {
            r + 1
        }
    }
}

/// Start index of the last occurrence of the pattern `p` in `s`, or -1.
pub open spec fn rfind_seq(s: Seq<char>, p: Seq<char>) -> int
    decreases s.len(),
{
    if s.len() < p.len() {
        -1
    } else if has_suffix(s, p) {
        s.len() - p.len()
    } else if s.len() == 0 {
        -1
    } else {
        rfind_seq(s.drop_last(), p)
    }
}

/// `s.split_once(c)`.
pub open spec fn split_once(s: Seq<char>, c: char) -> Option<(Seq<char>, Seq<char>)> {
    let i = first_index(s, c);
    if i < 0 {
        None
    } else {
        Some((s.subrange(0, i), s.subrange(i + 1, s.len() as int)))
    }
}

/// `s.split(c)`: the pieces between occurrences of `c` (always at least one).
pub open spec fn split(s: Seq<char>, c: char) -> Seq<Seq<char>>
    decreases s.len(),
{
    let i = first_index(s, c);
    if i < 0 || i >= s.len() {
        seq![s]
    } else {
        seq![s.subrange(0, i)] + split(s.subrange(i + 1, s.len() as int), c)
    }
}

/// A line with the `\r` of a `\r\n` ending removed.
pub open spec fn strip_cr(s: Seq<char>) -> Seq<char> {
    if s.len() > 0 && s.last() == '\r' {
        s.drop_last()
    } else {
        s
    }
}

/// `s.lines()`.
pub open spec fn lines(s: Seq<char>) -> Seq<Seq<char>>
    decreases s.len(),
{
    if s.len() == 0 {
        seq![]
    } else {
        let i = first_index(s, '\n');
        if i < 0 || i >= s.len() {
            seq![s]
        } else {
            seq![strip_cr(s.subrange(0, i))] + lines(s.subrange(i + 1, s.len() as int))
        }
    }
}

/// The character sequences held by a vector of character vectors.
pub open spec fn seqs_of(v: Seq<Vec<char>>) -> Seq<Seq<char>> {
    Seq::new(v.len(), |i: int| v[i]@)
}

/// `s.replace(a, b)` for single characters.
pub open spec fn replace_char(s: Seq<char>, a: char, b: char) -> Seq<char> {
    Seq::new(s.len(), |i: int| if s[i] == a { b } else { s[i] })
}

/// `c.is_ascii_uppercase()`.
pub open spec fn is_upper(c: char) -> bool {
    'A' <= c && c <= 'Z'
}

/// `c.is_ascii_lowercase()`.
pub open spec fn is_lower(c: char) -> bool {
    'a' <= c && c <= 'z'
}

/// `c.is_ascii_digit()`.
pub open spec fn is_digit(c: char) -> bool {
    '0' <= c && c <= '9'
}

/// `c.to_ascii_lowercase()`.
pub open spec fn ascii_lower(c: char) -> char {
    if is_upper(c) {
        ((c as u32) + 32) as char
    } else {
        c
    }
}

/// `s.to_ascii_lowercase()`.
pub open spec fn ascii_lower_seq(s: Seq<char>) -> Seq<char> {
    Seq::new(s.len(), |i: int| ascii_lower(s[i]))
}

// ---------------------------------------------------------------------------
// Lemmas
// ---------------------------------------------------------------------------

/// The first index of `c` is the position of its earliest occurrence.
pub proof fn lemma_first_index(s: Seq<char>, c: char)
    ensures
        -1 <= first_index(s, c) < s.len(),
        first_index(s, c) == -1 <==> !s.contains(c),
        first_index(s, c) >= 0 ==> s[first_index(s, c)] == c,
        forall|k: int| 0 <= k < first_index(s, c) ==> s[k] != c,
        first_index(s, c) == -1 ==> forall|k: int| 0 <= k < s.len() ==> s[k] != c,
    decreases s.len(),
{
    if s.len() > 0 && s[0] != c {
        lemma_first_index(s.drop_first(), c);
        if s.contains(c) {
            let j = choose|j: int| 0 <= j < s.len() && s[j] == c;
            assert(s.drop_first()[j - 1] == c);
        }
        if s.drop_first().contains(c) {
            let j = choose|j: int| 0 <= j < s.drop_first().len() && s.drop_first()[j] == c;
            assert(s[j + 1] == c);
        }
        assert forall|k: int| 0 <= k < first_index(s, c) implies s[k] != c by {
            if k > 0 {
                assert(s[k] == s.drop_first()[k - 1]);
            }
        }
        assert forall|k: int| first_index(s, c) == -1 && 0 <= k < s.len() implies s[k] != c by {
            if k > 0 {
                assert(s[k] == s.drop_first()[k - 1]);
            }
        }
    } else if s.len() > 0 {
        assert(s.contains(c));
    }
}

/// A position is the first index of `c` when `c` sits there and nowhere before.
pub proof fn lemma_first_index_at(s: Seq<char>, c: char, i: int)
    requires
        0 <= i < s.len(),
        s[i] == c,
        forall|k: int| 0 <= k < i ==> s[k] != c,
    ensures
        first_index(s, c) == i,
{
    lemma_first_index(s, c);
    assert(s.contains(c));
}

/// Without `c`, the first index is -1.
pub proof fn lemma_first_index_none(s: Seq<char>, c: char)
    requires
        forall|k: int| 0 <= k < s.len() ==> s[k] != c,
    ensures
        first_index(s, c) == -1,
{
    lemma_first_index(s, c);
    if first_index(s, c) >= 0 {
        assert(s[first_index(s, c)] == c);
    }
}

/// The last index of `c` is the position of its latest occurrence.
pub proof fn lemma_last_index(s: Seq<char>, c: char)
    ensures
        -1 <= last_index(s, c) < s.len(),
        last_index(s, c) >= 0 ==> s[last_index(s, c)] == c,
        forall|k: int| last_index(s, c) < k < s.len() ==> s[k] != c,
    decreases s.len(),
{
    if s.len() > 0 && s.last() != c {
        lemma_last_index(s.drop_last(), c);
        assert forall|k: int| last_index(s, c) < k < s.len() implies s[k] != c by {
            if k < s.len() - 1 {
                assert(s[k] == s.drop_last()[k]);
            }
        }
    }
}

/// A position is the last index of `c` when `c` sits there and nowhere after.
pub proof fn lemma_last_index_at(s: Seq<char>, c: char, i: int)
    requires
        -1 <= i < s.len(),
        i >= 0 ==> s[i] == c,
        forall|k: int| i < k < s.len() ==> s[k] != c,
    ensures
        last_index(s, c) == i,
    decreases s.len(),
{
    if s.len() > 0 && i < s.len() - 1 {
        assert(s.last() != c);
        lemma_last_index_at(s.drop_last(), c, i);
    }
}

// ---------------------------------------------------------------------------
// Conversions
// ---------------------------------------------------------------------------

/// The characters of `s`, in order.
pub fn chars_of(s: &str) -> (r: Vec<char>)
    ensures
        r@ == s@,
{
    let mut r: Vec<char> = Vec::new();
    for c in it: s.chars()
        invariant
            r@ == it.seq().take(it.index() as int),
    {
        r.push(c);
    }
    assert(r@ =~= s@);
    r
}

/// `String::push`.
#[verifier::external_body]
pub(crate) fn push_char(s: &mut String, c: char)
    ensures
        final(s)@ == old(s)@.push(c),
{
    s.push(c);
}

/// The string made of the characters `v`.
pub fn string_of(v: &[char]) -> (r: String)
    ensures
        r@ == v@,
{
    let mut r = String::new();
    let mut i: usize = 0;
    while i < v.len()
        invariant
            i <= v.len(),
            r@ == v@.take(i as int),
        decreases v.len() - i,
    {
        push_char(&mut r, v[i]);
        i += 1;
        assert(r@ =~= v@.take(i as int));
    }
    assert(v@.take(v.len() as int) =~= v@);
    r
}

/// The characters `v[lo..hi]` as a new vector.
pub fn slice_vec(v: &[char], lo: usize, hi: usize) -> (r: Vec<char>)
    requires
        lo <= hi <= v.len(),
    ensures
        r@ == v@.subrange(lo as int, hi as int),
{
    let mut r: Vec<char> = Vec::new();
    let mut i = lo;
    while i < hi
        invariant
            lo <= i <= hi <= v.len(),
            r@ == v@.subrange(lo as int, i as int),
        decreases hi - i,
    {
        r.push(v[i]);
        i += 1;
        assert(r@ =~= v@.subrange(lo as int, i as int));
    }
    r
}

/// The concatenation of `a` and `b`.
pub fn concat(a: &[char], b: &[char]) -> (r: Vec<char>)
    ensures
        r@ == a@ + b@,
{
    let mut r = slice_vec(a, 0, a.len());
    let mut i: usize = 0;
    while i < b.len()
        invariant
            i <= b.len(),
            r@ == a@ + b@.take(i as int),
        decreases b.len() - i,
    {
        r.push(b[i]);
        i += 1;
        assert(r@ =~= a@ + b@.take(i as int));
    }
    assert(b@.take(b.len() as int) =~= b@);
    assert(a@.subrange(0, a@.len() as int) =~= a@);
    r
}

/// `a == b` on character sequences.
pub fn chars_eq(a: &[char], b: &[char]) -> (r: bool)
    ensures
        r == (a@ == b@),
{
    if a.len() != b.len() {
        return false;
    }
    let mut i: usize = 0;
    while i < a.len()
        invariant
            i <= a.len() == b.len(),
            forall|k: int| 0 <= k < i ==> a@[k] == b@[k],
        decreases a.len() - i,
    {
        if a[i] != b[i] {
            return false;
        }
        i += 1;
    }
    assert(a@ =~= b@);
    true
}

// ---------------------------------------------------------------------------
// Character classes
// ---------------------------------------------------------------------------

/// `char::is_whitespace`.
pub fn is_whitespace(c: char) -> (r: bool)
    ensures
        r == is_ws(c),
{
    let u = c as u32;
    (0x9 <= u && u <= 0xd) || u == 0x20 || u == 0x85 || u == 0xa0 || u == 0x1680 || (0x2000 <= u
        && u <= 0x200a) || u == 0x2028 || u == 0x2029 || u == 0x202f || u == 0x205f || u == 0x3000
}

/// `char::to_ascii_lowercase`.
pub fn to_ascii_lower(c: char) -> (r: char)
    ensures
        r == ascii_lower(c),
{
    if 'A' <= c && c <= 'Z' {
        let u = (c as u32) + 32;
        assert(0x61 <= u <= 0x7a);
        char_from_ascii(u)
    } else {
        c
    }
}

/// The character with the ASCII code `u`.
pub fn char_from_ascii(u: u32) -> (r: char)
    requires
        u < 128,
    ensures
        r == u as char,
        r as u32 == u,
{
    let b = u as u8;
    b as char
}

/// `s.to_ascii_lowercase()` on characters.
pub fn ascii_lower_vec(v: &[char]) -> (r: Vec<char>)
    ensures
        r@ == ascii_lower_seq(v@),
{
    let mut r: Vec<char> = Vec::new();
    let mut i: usize = 0;
    while i < v.len()
        invariant
            i <= v.len(),
            r@ == ascii_lower_seq(v@).take(i as int),
        decreases v.len() - i,
    {
        r.push(to_ascii_lower(v[i]));
        i += 1;
        assert(r@ =~= ascii_lower_seq(v@).take(i as int));
    }
    assert(ascii_lower_seq(v@).take(v.len() as int) =~= ascii_lower_seq(v@));
    r
}

// ---------------------------------------------------------------------------
// Trimming
// ---------------------------------------------------------------------------

/// The start of `str::trim_start` within `v[lo..hi]`.
pub fn trim_start_at(v: &[char], lo: usize, hi: usize) -> (r: usize)
    requires
        lo <= hi <= v.len(),
    ensures
        lo <= r <= hi,
        v@.subrange(r as int, hi as int) == trim_start(v@.subrange(lo as int, hi as int)),
{
    let mut i = lo;
    while i < hi && is_whitespace(v[i])
        invariant
            lo <= i <= hi <= v.len(),
            trim_start(v@.subrange(lo as int, hi as int)) == trim_start(
                v@.subrange(i as int, hi as int),
            ),
        decreases hi - i,
    {
        assert(v@.subrange(i as int, hi as int).drop_first() =~= v@.subrange(
            i + 1,
            hi as int,
        ));
        i += 1;
    }
    proof {
        lemma_trim_start_stops(v@.subrange(i as int, hi as int));
    }
    i
}

proof fn lemma_trim_start_stops(s: Seq<char>)
    requires
        s.len() == 0 || !is_ws(s[0]),
    ensures
        trim_start(s) == s,
{
}

/// The end of `str::trim_end` within `v[lo..hi]`.
pub fn trim_end_at(v: &[char], lo: usize, hi: usize) -> (r: usize)
    requires
        lo <= hi <= v.len(),
    ensures
        lo <= r <= hi,
        v@.subrange(lo as int, r as int) == trim_end(v@.subrange(lo as int, hi as int)),
{
    let mut j = hi;
    while j > lo && is_whitespace(v[j - 1])
        invariant
            lo <= j <= hi <= v.len(),
            trim_end(v@.subrange(lo as int, hi as int)) == trim_end(
                v@.subrange(lo as int, j as int),
            ),
        decreases j - lo,
    {
        assert(v@.subrange(lo as int, j as int).drop_last() =~= v@.subrange(
            lo as int,
            j - 1,
        ));
        j -= 1;
    }
    j
}

/// The bounds of `str::trim` within `v[lo..hi]`.
pub fn trim_at(v: &[char], lo: usize, hi: usize) -> (r: (usize, usize))
    requires
        lo <= hi <= v.len(),
    ensures
        lo <= r.0 <= r.1 <= hi,
        v@.subrange(r.0 as int, r.1 as int) == trim(v@.subrange(lo as int, hi as int)),
{
    let a = trim_start_at(v, lo, hi);
    let b = trim_end_at(v, a, hi);
    (a, b)
}

/// `str::trim` on characters.
pub fn trim_vec(v: &[char]) -> (r: Vec<char>)
    ensures
        r@ == trim(v@),
{
    let (a, b) = trim_at(v, 0, v.len());
    assert(v@.subrange(0, v.len() as int) =~= v@);
    slice_vec(v, a, b)
}

// ---------------------------------------------------------------------------
// Prefixes, suffixes and patterns
// ---------------------------------------------------------------------------

/// Whether `v[lo..hi]` starts with `p`.
pub fn has_prefix_at(v: &[char], lo: usize, hi: usize, p: &[char]) -> (r: bool)
    requires
        lo <= hi <= v.len(),
    ensures
        r == has_prefix(v@.subrange(lo as int, hi as int), p@),
{
    if p.len() > hi - lo {
        return false;
    }
    let mut i: usize = 0;
    while i < p.len()
        invariant
            p.len() <= hi - lo,
            lo <= hi <= v.len(),
            i <= p.len(),
            forall|k: int| 0 <= k < i ==> v@[lo + k] == p@[k],
        decreases p.len() - i,
    {
        if v[lo + i] != p[i] {
            assert(v@.subrange(lo as int, hi as int).subrange(0, p.len() as int)[i as int]
                != p@[i as int]);
            return false;
        }
        i += 1;
    }
    assert(v@.subrange(lo as int, hi as int).subrange(0, p.len() as int) =~= p@);
    true
}

/// Whether `v[lo..hi]` ends with `p`.
pub fn has_suffix_at(v: &[char], lo: usize, hi: usize, p: &[char]) -> (r: bool)
    requires
        lo <= hi <= v.len(),
    ensures
        r == has_suffix(v@.subrange(lo as int, hi as int), p@),
{
    if p.len() > hi - lo {
        return false;
    }
    let start = hi - p.len();
    let mut i: usize = 0;
    while i < p.len()
        invariant
            p.len() <= hi - lo,
            start == hi - p.len(),
            lo <= hi <= v.len(),
            i <= p.len(),
            forall|k: int| 0 <= k < i ==> v@[start + k] == p@[k],
        decreases p.len() - i,
    {
        if v[start + i] != p[i] {
            let ghost s = v@.subrange(lo as int, hi as int);
            assert(s.subrange(s.len() - p@.len(), s.len() as int)[i as int] != p@[i as int]);
            return false;
        }
        i += 1;
    }
    let ghost s = v@.subrange(lo as int, hi as int);
    assert(s.subrange(s.len() - p@.len(), s.len() as int) =~= p@);
    true
}

/// Whether `v` starts with `p`.
pub fn starts_with(v: &[char], p: &[char]) -> (r: bool)
    ensures
        r == has_prefix(v@, p@),
{
    assert(v@.subrange(0, v.len() as int) =~= v@);
    has_prefix_at(v, 0, v.len(), p)
}

/// Whether `v` ends with `p`.
pub fn ends_with(v: &[char], p: &[char]) -> (r: bool)
    ensures
        r == has_suffix(v@, p@),
{
    assert(v@.subrange(0, v.len() as int) =~= v@);
    has_suffix_at(v, 0, v.len(), p)
}

/// The end of `trim_end_matches(p)` within `v[lo..hi]`.
pub fn trim_end_matches_at(v: &[char], lo: usize, hi: usize, p: &[char]) -> (r: usize)
    requires
        lo <= hi <= v.len(),
        p.len() > 0,
    ensures
        lo <= r <= hi,
        v@.subrange(lo as int, r as int) == trim_end_matches(
            v@.subrange(lo as int, hi as int),
            p@,
        ),
{
    let mut j = hi;
    while has_suffix_at(v, lo, j, p)
        invariant
            lo <= j <= hi <= v.len(),
            p.len() > 0,
            trim_end_matches(v@.subrange(lo as int, hi as int), p@) == trim_end_matches(
                v@.subrange(lo as int, j as int),
                p@,
            ),
        decreases j - lo,
    {
        let ghost s = v@.subrange(lo as int, j as int);
        assert(s.subrange(0, s.len() - p@.len()) =~= v@.subrange(lo as int, j - p.len()));
        j -= p.len();
    }
    j
}

/// The start of `trim_start_matches(p)` within `v[lo..hi]`.
pub fn trim_start_matches_at(v: &[char], lo: usize, hi: usize, p: &[char]) -> (r: usize)
    requires
        lo <= hi <= v.len(),
        p.len() > 0,
    ensures
        lo <= r <= hi,
        v@.subrange(r as int, hi as int) == trim_start_matches(
            v@.subrange(lo as int, hi as int),
            p@,
        ),
{
    let mut i = lo;
    while has_prefix_at(v, i, hi, p)
        invariant
            lo <= i <= hi <= v.len(),
            p.len() > 0,
            trim_start_matches(v@.subrange(lo as int, hi as int), p@) == trim_start_matches(
                v@.subrange(i as int, hi as int),
                p@,
            ),
        decreases hi - i,
    {
        let ghost s = v@.subrange(i as int, hi as int);
        assert(s.subrange(p@.len() as int, s.len() as int) =~= v@.subrange(
            i + p.len(),
            hi as int,
        ));
        i += p.len();
    }
    i
}

/// The first index of `c` in `v[lo..hi]`, relative to `lo`.
pub fn find_char_at(v: &[char], lo: usize, hi: usize, c: char) -> (r: Option<usize>)
    requires
        lo <= hi <= v.len(),
    ensures
        match r {
            Some(i) => i as int == first_index(v@.subrange(lo as int, hi as int), c) && lo + i < hi,
            None => first_index(v@.subrange(lo as int, hi as int), c) == -1,
        },
{
    let ghost s = v@.subrange(lo as int, hi as int);
    let mut i = lo;
    while i < hi
        invariant
            lo <= i <= hi <= v.len(),
            s == v@.subrange(lo as int, hi as int),
            forall|k: int| 0 <= k < i - lo ==> s[k] != c,
        decreases hi - i,
    {
        if v[i] == c {
            proof {
                lemma_first_index_at(s, c, i - lo);
            }
            return Some(i - lo);
        }
        i += 1;
    }
    proof {
        lemma_first_index_none(s, c);
    }
    None
}

/// The last index of `c` in `v[lo..hi]`, relative to `lo`.
pub fn rfind_char_at(v: &[char], lo: usize, hi: usize, c: char) -> (r: Option<usize>)
    requires
        lo <= hi <= v.len(),
    ensures
        match r {
            Some(i) => i as int == last_index(v@.subrange(lo as int, hi as int), c) && lo + i < hi,
            None => last_index(v@.subrange(lo as int, hi as int), c) == -1,
        },
{
    let ghost s = v@.subrange(lo as int, hi as int);
    let mut j = hi;
    while j > lo
        invariant
            lo <= j <= hi <= v.len(),
            s == v@.subrange(lo as int, hi as int),
            forall|k: int| j - lo <= k < s.len() ==> s[k] != c,
        decreases j - lo,
    {
        if v[j - 1] == c {
            proof {
                lemma_last_index_at(s, c, j - 1 - lo);
            }
            return Some(j - 1 - lo);
        }
        j -= 1;
    }
    proof {
        lemma_last_index_at(s, c, -1);
    }
    None
}

// ---------------------------------------------------------------------------
// Splitting
// ---------------------------------------------------------------------------

/// `s.split(c)` on characters.
pub fn split_vec(v: &[char], c: char) -> (r: Vec<Vec<char>>)
    ensures
        seqs_of(r@) == split(v@, c),
{
    let mut r: Vec<Vec<char>> = Vec::new();
    let mut pos: usize = 0;
    let n = v.len();
    assert(v@.subrange(0, n as int) =~= v@);
    assert(seqs_of(r@) + split(v@, c) =~= split(v@, c));
    loop
        invariant
            pos <= n == v.len(),
            seqs_of(r@) + split(v@.subrange(pos as int, n as int), c) == split(v@, c),
        decreases n - pos,
    {
        let ghost sub = v@.subrange(pos as int, n as int);
        match find_char_at(v, pos, n, c) {
            Some(i) => {
                let piece = slice_vec(v, pos, pos + i);
                proof {
                    lemma_first_index(sub, c);
                    assert(sub.subrange(0, i as int) =~= piece@);
                    assert(sub.subrange(i + 1, sub.len() as int) =~= v@.subrange(
                        pos + i + 1,
                        n as int,
                    ));
                }
                let ghost before = seqs_of(r@);
                let ghost rb = r@;
                r.push(piece);
                assert(r@ == rb.push(piece));
                assert(seqs_of(r@) =~= before.push(piece@));
                assert(seqs_of(r@) + split(v@.subrange(pos + i + 1, n as int), c) =~= before
                    + split(sub, c));
                pos = pos + i + 1;
            },
            None => {
                let piece = slice_vec(v, pos, n);
                let ghost before = seqs_of(r@);
                let ghost rb = r@;
                r.push(piece);
                assert(r@ == rb.push(piece));
                assert(seqs_of(r@) =~= before.push(piece@));
                assert(seqs_of(r@) =~= before + split(sub, c));
                assert(v@.subrange(0, n as int) =~= v@);
                return r;
            },
        }
    }
}

/// Drop the `\r` of a `\r\n` line ending.
pub fn strip_cr_vec(v: Vec<char>) -> (r: Vec<char>)
    ensures
        r@ == strip_cr(v@),
{
    let mut v = v;
    if v.len() > 0 && v[v.len() - 1] == '\r' {
        v.pop();
    }
    v
}

/// `s.lines()` on characters.
pub fn lines_vec(v: &[char]) -> (r: Vec<Vec<char>>)
    ensures
        seqs_of(r@) == lines(v@),
{
    let mut r: Vec<Vec<char>> = Vec::new();
    let mut pos: usize = 0;
    let n = v.len();
    assert(v@.subrange(0, n as int) =~= v@);
    assert(seqs_of(r@) + lines(v@) =~= lines(v@));
    while pos < n
        invariant
            pos <= n == v.len(),
            seqs_of(r@) + lines(v@.subrange(pos as int, n as int)) == lines(v@),
        decreases n - pos,
    {
        let ghost sub = v@.subrange(pos as int, n as int);
        match find_char_at(v, pos, n, '\n') {
            Some(i) => {
                let piece = strip_cr_vec(slice_vec(v, pos, pos + i));
                proof {
                    lemma_first_index(sub, '\n');
                    assert(sub.subrange(0, i as int) =~= v@.subrange(pos as int, pos + i));
                    assert(sub.subrange(i + 1, sub.len() as int) =~= v@.subrange(
                        pos + i + 1,
                        n as int,
                    ));
                }
                let ghost before = seqs_of(r@);
                let ghost rb = r@;
                r.push(piece);
                assert(r@ == rb.push(piece));
                assert(seqs_of(r@) =~= before.push(piece@));
                assert(seqs_of(r@) + lines(v@.subrange(pos + i + 1, n as int)) =~= before
                    + lines(sub));
                pos = pos + i + 1;
            },
            None => {
                let piece = slice_vec(v, pos, n);
                let ghost before = seqs_of(r@);
                let ghost rb = r@;
                r.push(piece);
                assert(r@ == rb.push(piece));
                assert(seqs_of(r@) =~= before.push(piece@));
                assert(seqs_of(r@) =~= before + lines(sub));
                assert(lines(v@.subrange(n as int, n as int)) =~= Seq::<Seq<char>>::empty());
                pos = n;
            },
        }
    }
    assert(lines(v@.subrange(n as int, n as int)) =~= Seq::<Seq<char>>::empty());
    assert(seqs_of(r@) + Seq::<Seq<char>>::empty() =~= seqs_of(r@));
    r
}

/// The first start index of the non-empty pattern `p` in `v[lo..hi]`, relative to `lo`.
pub fn find_seq_at(v: &[char], lo: usize, hi: usize, p: &[char]) -> (r: Option<usize>)
    requires
        lo <= hi <= v.len(),
        p.len() > 0,
    ensures
        match r {
            Some(i) => i as int == find_seq(v@.subrange(lo as int, hi as int), p@) && lo + i
                + p.len() <= hi,
            None => find_seq(v@.subrange(lo as int, hi as int), p@) == -1,
        },
{
    let mut i = lo;
    while i < hi
        invariant
            lo <= i <= hi <= v.len(),
            p.len() > 0,
            find_seq(v@.subrange(lo as int, hi as int), p@) == (if find_seq(
                v@.subrange(i as int, hi as int),
                p@,
            ) < 0 {
                -1
            } else {
                find_seq(v@.subrange(i as int, hi as int), p@) + (i - lo)
            }),
        decreases hi - i,
    {
        if has_prefix_at(v, i, hi, p) {
            return Some(i - lo);
        }
        assert(v@.subrange(i as int, hi as int).drop_first() =~= v@.subrange(i + 1, hi as int));
        i += 1;
    }
    None
}

/// The last start index of the non-empty pattern `p` in `v[lo..hi]`, relative to `lo`.
pub fn rfind_seq_at(v: &[char], lo: usize, hi: usize, p: &[char]) -> (r: Option<usize>)
    requires
        lo <= hi <= v.len(),
        p.len() > 0,
    ensures
        match r {
            Some(i) => i as int == rfind_seq(v@.subrange(lo as int, hi as int), p@) && lo + i
                + p.len() <= hi,
            None => rfind_seq(v@.subrange(lo as int, hi as int), p@) == -1,
        },
{
    let mut j = hi;
    while j > lo
        invariant
            lo <= j <= hi <= v.len(),
            p.len() > 0,
            rfind_seq(v@.subrange(lo as int, hi as int), p@) == rfind_seq(
                v@.subrange(lo as int, j as int),
                p@,
            ),
        decreases j - lo,
    {
        if has_suffix_at(v, lo, j, p) {
            return Some(j - p.len() - lo);
        }
        assert(v@.subrange(lo as int, j as int).drop_last() =~= v@.subrange(lo as int, j - 1));
        j -= 1;
    }
    None
}

/// `s.replace(a, b)` for single characters, on characters.
pub fn replace_char_vec(v: &[char], a: char, b: char) -> (r: Vec<char>)
    ensures
        r@ == replace_char(v@, a, b),
{
    let mut r: Vec<char> = Vec::new();
    let mut i: usize = 0;
    while i < v.len()
        invariant
            i <= v.len(),
            r@ == replace_char(v@, a, b).take(i as int),
        decreases v.len() - i,
    {
        if v[i] == a {
            r.push(b);
        } else {
            r.push(v[i]);
        }
        i += 1;
        assert(r@ =~= replace_char(v@, a, b).take(i as int));
    }
    assert(replace_char(v@, a, b).take(v.len() as int) =~= replace_char(v@, a, b));
    r
}

/// Whether `c` occurs in `v`.
pub fn contains_char(v: &[char], c: char) -> (r: bool)
    ensures
        r == v@.contains(c),
{
    assert(v@.subrange(0, v.len() as int) =~= v@);
    let f = find_char_at(v, 0, v.len(), c);
    proof {
        lemma_first_index(v@, c);
    }
    f.is_some()
}

/// Trimming a sequence that neither starts nor ends with whitespace changes nothing.
pub proof fn lemma_trim_noop(s: Seq<char>)
    requires
        s.len() > 0 ==> !is_ws(s[0]) && !is_ws(s.last()),
    ensures
        trim(s) == s,
{
}

/// Removing a suffix that is not there changes nothing.
pub proof fn lemma_trim_end_matches_noop(s: Seq<char>, p: Seq<char>)
    requires
        !has_suffix(s, p),
    ensures
        trim_end_matches(s, p) == s,
{
}

/// `trim_end_matches` keeps a prefix of its input.
pub proof fn lemma_trim_end_matches_prefix(s: Seq<char>, p: Seq<char>)
    ensures
        trim_end_matches(s, p).len() <= s.len(),
        trim_end_matches(s, p) == s.subrange(0, trim_end_matches(s, p).len() as int),
    decreases s.len(),
{
    if p.len() > 0 && has_suffix(s, p) {
        let t = s.subrange(0, s.len() - p.len());
        lemma_trim_end_matches_prefix(t, p);
        let k = trim_end_matches(t, p).len() as int;
        assert(t.subrange(0, k) =~= s.subrange(0, k));
    } else {
        assert(s.subrange(0, s.len() as int) =~= s);
    }
}

/// `trim_end_matches` keeps every character up to the last one that does not end a match
/// of a one-character pattern.
pub proof fn lemma_trim_end_matches_keeps(s: Seq<char>, c: char, k: int)
    requires
        0 <= k < s.len(),
        s[k] != c,
    ensures
        trim_end_matches(s, seq![c]).len() > k,
    decreases s.len(),
{
    if has_suffix(s, seq![c]) {
        assert(s.subrange(s.len() - 1, s.len() as int)[0] == c);
        let t = s.subrange(0, s.len() - 1);
        assert(t[k] == s[k]);
        lemma_trim_end_matches_keeps(t, c, k);
    }
}

/// `trim_end_matches` leaves no match at the end.
pub proof fn lemma_trim_end_matches_idem(s: Seq<char>, p: Seq<char>)
    requires
        p.len() > 0,
    ensures
        !has_suffix(trim_end_matches(s, p), p),
        trim_end_matches(trim_end_matches(s, p), p) == trim_end_matches(s, p),
    decreases s.len(),
{
    if has_suffix(s, p) {
        lemma_trim_end_matches_idem(s.subrange(0, s.len() - p.len()), p);
    }
}

/// `trim_start_matches` leaves no match at the start.
pub proof fn lemma_trim_start_matches_idem(s: Seq<char>, p: Seq<char>)
    requires
        p.len() > 0,
    ensures
        !has_prefix(trim_start_matches(s, p), p),
    decreases s.len(),
{
    if has_prefix(s, p) {
        lemma_trim_start_matches_idem(s.subrange(p.len() as int, s.len() as int), p);
    }
}

/// `trim_start_matches` keeps a suffix of its input.
pub proof fn lemma_trim_start_matches_suffix(s: Seq<char>, p: Seq<char>)
    ensures
        trim_start_matches(s, p).len() <= s.len(),
        trim_start_matches(s, p) == s.subrange(
            s.len() - trim_start_matches(s, p).len(),
            s.len() as int,
        ),
    decreases s.len(),
{
    if p.len() > 0 && has_prefix(s, p) {
        let t = s.subrange(p.len() as int, s.len() as int);
        lemma_trim_start_matches_suffix(t, p);
        let k = trim_start_matches(t, p).len() as int;
        assert(t.subrange(t.len() - k, t.len() as int) =~= s.subrange(
            s.len() - k,
            s.len() as int,
        ));
    } else {
        assert(s.subrange(0, s.len() as int) =~= s);
    }
}

/// A part of a sequence without `c` is without `c`.
pub proof fn lemma_subrange_free(s: Seq<char>, i: int, j: int, c: char)
    requires
        0 <= i <= j <= s.len(),
        !s.contains(c),
    ensures
        !s.subrange(i, j).contains(c),
{
    if s.subrange(i, j).contains(c) {
        let k = choose|k: int| 0 <= k < j - i && s.subrange(i, j)[k] == c;
        assert(s[i + k] == c);
    }
}

/// Two sequences without `c` make a sequence without `c`.
pub proof fn lemma_concat_free(a: Seq<char>, b: Seq<char>, c: char)
    requires
        !a.contains(c),
        !b.contains(c),
    ensures
        !(a + b).contains(c),
{
    if (a + b).contains(c) {
        let k = choose|k: int| 0 <= k < (a + b).len() && (a + b)[k] == c;
        if k < a.len() {
            assert(a[k] == c);
        } else {
            assert(b[k - a.len()] == c);
        }
    }
}

/// A sequence whose characters all differ from `c` does not contain `c`.
pub proof fn lemma_free(s: Seq<char>, c: char)
    requires
        forall|k: int| 0 <= k < s.len() ==> s[k] != c,
    ensures
        !s.contains(c),
{
}

/// The character sequences held by a sequence of strings.
pub open spec fn strs_of(v: Seq<String>) -> Seq<Seq<char>> {
    Seq::new(v.len(), |i: int| v[i]@)
}

/// `parts.join(sep)`.
pub open spec fn join(parts: Seq<Seq<char>>, sep: Seq<char>) -> Seq<char>
    decreases parts.len(),
{
    if parts.len() == 0 {
        Seq::empty()
    } else if parts.len() == 1 {
        parts[0]
    } else {
        join(parts.drop_last(), sep) + sep + parts.last()
    }
}

/// `parts.join(sep)` on strings.
pub fn join_strings(parts: &Vec<String>, sep: &str) -> (r: String)
    ensures
        r@ == join(strs_of(parts@), sep@),
{
    let mut r = String::new();
    let mut i: usize = 0;
    while i < parts.len()
        invariant
            i <= parts.len(),
            r@ == join(strs_of(parts@).take(i as int), sep@),
        decreases parts.len() - i,
    {
        let ghost prev = strs_of(parts@).take(i as int);
        let ghost next = strs_of(parts@).take(i + 1);
        assert(next.drop_last() =~= prev);
        if i > 0 {
            r.append(sep);
        }
        r.append(parts[i].as_str());
        assert(r@ =~= join(next, sep@));
        i += 1;
    }
    assert(strs_of(parts@).take(parts.len() as int) =~= strs_of(parts@));
    r
}

/// The decimal digits of `n`.
pub open spec fn decimal(n: nat) -> Seq<char>
    decreases n,
{
    if n < 10 {
        seq![digit_char(n)]
    } else {
        decimal(n / 10) + seq![digit_char(n % 10)]
    }
}

/// The character of the decimal digit `d`.
pub open spec fn digit_char(d: nat) -> char {
    (('0' as u32) + d) as char
}

/// `n.to_string()`.
pub fn usize_to_decimal(n: usize) -> (r: String)
    ensures
        r@ == decimal(n as nat),
    decreases n,
{
    let d = char_from_ascii(48 + (n % 10) as u32);
    if n < 10 {
        let mut r = String::new();
        push_char(&mut r, d);
        assert(r@ =~= seq![digit_char(n as nat)]);
        r
    } else {
        let mut r = usize_to_decimal(n / 10);
        push_char(&mut r, d);
        assert(r@ =~= decimal((n / 10) as nat) + seq![digit_char((n % 10) as nat)]);
        r
    }
}

/// `n.to_string()` for a signed number.
pub open spec fn signed_decimal(n: int) -> Seq<char> {
    if n < 0 {
        seq!['-'] + decimal((-n) as nat)
    } else {
        decimal(n as nat)
    }
}

/// `n.to_string()`.
pub fn u64_to_decimal(n: u64) -> (r: String)
    ensures
        r@ == decimal(n as nat),
    decreases n,
{
    let d = char_from_ascii(48 + (n % 10) as u32);
    if n < 10 {
        let mut r = String::new();
        push_char(&mut r, d);
        assert(r@ =~= seq![digit_char(n as nat)]);
        r
    } else {
        let mut r = u64_to_decimal(n / 10);
        push_char(&mut r, d);
        assert(r@ =~= decimal((n / 10) as nat) + seq![digit_char((n % 10) as nat)]);
        r
    }
}

/// `n.to_string()` for a signed number.
pub fn i64_to_decimal(n: i64) -> (r: String)
    ensures
        r@ == signed_decimal(n as int),
{
    if n < 0 {
        let m: u64 = ((-(n + 1)) as u64) + 1;
        assert(m as int == -(n as int));
        let digits = u64_to_decimal(m);
        let minus = vec!['-'];
        assert(minus@ =~= seq!['-']);
        string_of(&concat(&minus, &chars_of(digits.as_str())))
    } else {
        u64_to_decimal(n as u64)
    }
}

/// The number decimal digits spell.
pub open spec fn digits_value(d: Seq<char>) -> int
    decreases d.len(),
{
    if d.len() == 0 {
        0
    } else {
        digits_value(d.drop_last()) * 10 + (d.last() as int - 48)
    }
}

/// Whether every character is an ASCII digit.
pub open spec fn all_digits(d: Seq<char>) -> bool {
    forall|k: int| 0 <= k < d.len() ==> is_digit(#[trigger] d[k])
}

/// What `s.parse::<i64>()` gives: an optional sign, then at least one digit and nothing
/// else, within the range of `i64`.
pub open spec fn parsed_i64(s: Seq<char>) -> Option<i64> {
    let signed = s.len() > 0 && (s[0] == '-' || s[0] == '+');
    let neg = s.len() > 0 && s[0] == '-';
    let ds = if signed {
        s.drop_first()
    } else {
        s
    };
    if ds.len() == 0 || !all_digits(ds) {
        None
    } else {
        let v = if neg {
            -digits_value(ds)
        } else {
            digits_value(ds)
        };
        if i64::MIN <= v <= i64::MAX {
            Some(v as i64)
        } else {
            None
        }
    }
}

/// The decimal digits of `n` are digits, start with a digit, and spell `n`.
pub proof fn lemma_decimal_digits(n: nat)
    ensures
        decimal(n).len() > 0,
        all_digits(decimal(n)),
        digits_value(decimal(n)) == n,
    decreases n,
{
    let d = decimal(n);
    let r = n % 10;
    assert(d.last() == digit_char(r));
    assert(digit_char(r) as int == 48 + r);
    if n >= 10 {
        lemma_decimal_digits(n / 10);
        assert(d.drop_last() =~= decimal(n / 10));
        assert(forall|k: int| 0 <= k < d.len() - 1 ==> d[k] == decimal(n / 10)[k]);
        assert(digits_value(d) == digits_value(decimal(n / 10)) * 10 + r);
        assert(n == (n / 10) * 10 + r);
    } else {
        assert(d.drop_last() =~= Seq::<char>::empty());
        assert(digits_value(d.drop_last()) == 0);
        assert(r == n);
    }
}

/// The decimal digits of a number within the range of `i64` parse back to it.
pub proof fn lemma_parse_decimal(n: nat)
    requires
        n <= i64::MAX,
    ensures
        parsed_i64(decimal(n)) == Some(n as i64),
{
    lemma_decimal_digits(n);
    let d = decimal(n);
    assert(is_digit(d[0]));
}

proof fn lemma_digits_value_grows(d: Seq<char>, i: int)
    requires
        all_digits(d),
        0 <= i <= d.len(),
    ensures
        digits_value(d) >= digits_value(d.take(i)),
        digits_value(d) >= 0,
    decreases d.len(),
{
    if d.len() > 0 {
        assert(all_digits(d.drop_last()));
        if i == d.len() {
            assert(d.take(i) =~= d);
            lemma_digits_value_grows(d.drop_last(), 0);
        } else {
            assert(d.drop_last().take(i) =~= d.take(i));
            lemma_digits_value_grows(d.drop_last(), i);
        }
    } else {
        assert(d.take(i) =~= d);
    }
}

/// `s.parse::<i64>().ok()`.
pub fn parse_i64(s: &str) -> (r: Option<i64>)
    ensures
        r == parsed_i64(s@),
{
    let v = chars_of(s);
    let signed = v.len() > 0 && (v[0] == '-' || v[0] == '+');
    let neg = v.len() > 0 && v[0] == '-';
    let start: usize = if signed {
        1
    } else {
        0
    };
    let ghost ds = if signed {
        s@.drop_first()
    } else {
        s@
    };
    assert(ds =~= v@.subrange(start as int, v.len() as int));
    if start == v.len() {
        return None;
    }
    let bound: u64 = 9223372036854775808;
    let mut acc: u64 = 0;
    let mut i = start;
    assert(ds.take(0) =~= Seq::<char>::empty());
    while i < v.len()
        invariant
            start <= i <= v.len(),
            ds =~= v@.subrange(start as int, v.len() as int),
            all_digits(ds.take(i - start)),
            acc as int == digits_value(ds.take(i - start)),
            acc <= bound,
            bound == 9223372036854775808u64,
            v@ == s@,
            signed == (s@.len() > 0 && (s@[0] == '-' || s@[0] == '+')),
            neg == (s@.len() > 0 && s@[0] == '-'),
            ds == (if signed {
                s@.drop_first()
            } else {
                s@
            }),
            ds.len() > 0,
        decreases v.len() - i,
    {
        let c = v[i];
        if !('0' <= c && c <= '9') {
            assert(!is_digit(ds[i - start]));
            return None;
        }
        let d = (c as u32 - 48) as u64;
        assert(ds.take(i - start + 1).drop_last() =~= ds.take(i - start));
        assert(ds.take(i - start + 1).last() == c);
        if acc > (bound - d) / 10 {
            proof {
                assert(digits_value(ds.take(i - start + 1)) > bound);
                if all_digits(ds) {
                    lemma_digits_value_grows(ds, i - start + 1);
                }
            }
            return None;
        }
        acc = acc * 10 + d;
        i += 1;
    }
    assert(ds.take(v.len() - start) =~= ds);
    if neg {
        if acc == bound {
            Some(-9223372036854775807i64 - 1)
        } else {
            Some(-(acc as i64))
        }
    } else if acc < bound {
        Some(acc as i64)
    } else {
        None
    }
}

/// The length in bytes of the UTF-8 encoding of some characters.
pub open spec fn utf8_size(s: Seq<char>) -> nat {
    vstd::utf8::encode_utf8(s).len()
}

/// Encoding a concatenation encodes each part.
pub proof fn lemma_encode_utf8_concat(a: Seq<char>, b: Seq<char>)
    ensures
        vstd::utf8::encode_utf8(a + b) == vstd::utf8::encode_utf8(a) + vstd::utf8::encode_utf8(b),
    decreases a.len(),
{
    if a.len() == 0 {
        assert(a + b =~= b);
        assert(vstd::utf8::encode_utf8(a) =~= Seq::<u8>::empty());
        assert(Seq::<u8>::empty() + vstd::utf8::encode_utf8(b) =~= vstd::utf8::encode_utf8(b));
    } else {
        lemma_encode_utf8_concat(a.drop_first(), b);
        assert((a + b).drop_first() =~= a.drop_first() + b);
        assert((a + b)[0] == a[0]);
        let e0 = vstd::utf8::encode_scalar(a[0] as u32);
        assert(e0 + (vstd::utf8::encode_utf8(a.drop_first()) + vstd::utf8::encode_utf8(b)) =~= (e0
            + vstd::utf8::encode_utf8(a.drop_first())) + vstd::utf8::encode_utf8(b));
    }
}

/// The UTF-8 size of the character `c`.
pub open spec fn char_size(c: char) -> nat {
    if (c as u32) <= 0x7F {
        1
    } else if (c as u32) <= 0x7FF {
        2
    } else if (c as u32) <= 0xFFFF {
        3
    } else {
        4
    }
}

proof fn lemma_size_push(s: Seq<char>, c: char)
    ensures
        utf8_size(s.push(c)) == utf8_size(s) + char_size(c),
{
    broadcast use vstd::utf8::char_is_scalar;

    lemma_encode_utf8_concat(s, seq![c]);
    assert(s.push(c) =~= s + seq![c]);
    assert(seq![c].drop_first() =~= Seq::<char>::empty());
    assert(vstd::utf8::encode_utf8(Seq::<char>::empty()) =~= Seq::<u8>::empty());
    assert(vstd::utf8::is_scalar(c as u32));
    let e = vstd::utf8::encode_scalar(c as u32);
    assert(vstd::utf8::encode_utf8(seq![c]) =~= e + Seq::<u8>::empty());
}

/// The UTF-8 size of characters, at most `usize::MAX`.
pub fn utf8_len(v: &[char]) -> (r: usize)
    ensures
        r as int == if utf8_size(v@) < usize::MAX {
            utf8_size(v@) as int
        } else {
            usize::MAX as int
        },
{
    let mut total: usize = 0;
    let mut i: usize = 0;
    assert(v@.take(0) =~= Seq::<char>::empty());
    assert(vstd::utf8::encode_utf8(Seq::<char>::empty()) =~= Seq::<u8>::empty());
    while i < v.len()
        invariant
            i <= v.len(),
            total as int == if utf8_size(v@.take(i as int)) < usize::MAX {
                utf8_size(v@.take(i as int)) as int
            } else {
                usize::MAX as int
            },
        decreases v.len() - i,
    {
        let c = v[i];
        let u = c as u32;
        let w: usize = if u <= 0x7F {
            1
        } else if u <= 0x7FF {
            2
        } else if u <= 0xFFFF {
            3
        } else {
            4
        };
        proof {
            assert(v@.take(i + 1) =~= v@.take(i as int).push(c));
            lemma_size_push(v@.take(i as int), c);
        }
        total = if total > usize::MAX - w {
            usize::MAX
        } else {
            total + w
        };
        i += 1;
    }
    assert(v@.take(v.len() as int) =~= v@);
    total
}

} // verus!

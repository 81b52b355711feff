//! The browser location's query string and fragment: reading a parameter, percent
//! decoding, and the parameters of a fragment such as `#auth_token=...`.
use vstd::prelude::*;

use crate::encoding::string_from_utf8;
use crate::git_ops::{first_match, lemma_first_match_step};
use crate::json::str_eq;
use crate::order::{seq_lt, strictly_sorted, str_lt};
use crate::text::{
    chars_eq, chars_of, concat, find_char_at, join, join_strings, seqs_of, slice_vec, split,
    split_once, split_vec, string_of, strs_of, strip_prefix, first_index, lemma_first_index,
    has_prefix,
};

verus! {

broadcast use vstd::string::group_string_axioms;

// ---------------------------------------------------------------------------
// Query strings
// ---------------------------------------------------------------------------

/// The value of `key=value` when the key is `key`.
pub open spec fn pair_value(pair: Seq<char>, key: Seq<char>) -> Option<Seq<char>> {
    match split_once(pair, '=') {
        Some(kv) => if kv.0 == key {
            Some(kv.1)
        } else {
            None
        },
        None => None,
    }
}

/// The value of the first parameter `key` of a query string (with or without its `?`).
pub open spec fn query_param_of(query: Seq<char>, key: Seq<char>) -> Option<Seq<char>> {
    let qs = match strip_prefix(query, seq!['?']) {
        Some(rest) => rest,
        None => query,
    };
    first_match(split(qs, '&'), value_for(key))
}

/// The value a `key=value` pair gives for `key`.
pub open spec fn value_for(key: Seq<char>) -> spec_fn(Seq<char>) -> Option<Seq<char>> {
    |pair: Seq<char>| pair_value(pair, key)
}

fn pair_value_of(pair: &Vec<char>, key: &str) -> (r: Option<String>)
    ensures
        match r {
            Some(v) => pair_value(pair@, key@) == Some(v@),
            None => pair_value(pair@, key@) is None,
        },
{
    let n = pair.len();
    assert(pair@.subrange(0, n as int) =~= pair@);
    match find_char_at(pair, 0, n, '=') {
        Some(k) => {
            if chars_eq(&slice_vec(pair, 0, k), &chars_of(key)) {
                Some(string_of(&slice_vec(pair, k + 1, n)))
            } else {
                None
            }
        },
        None => None,
    }
}

/// The value of the first parameter `key` of the query string `query`.
pub fn query_param(query: &str, key: &str) -> (r: Option<String>)
    ensures
        match r {
            Some(v) => query_param_of(query@, key@) == Some(v@),
            None => query_param_of(query@, key@) is None,
        },
{
    let v = chars_of(query);
    let mark = vec!['?'];
    assert(mark@ =~= seq!['?']);
    let qs = if crate::text::starts_with(&v, &mark) {
        slice_vec(&v, 1, v.len())
    } else {
        v
    };
    let pairs = split_vec(&qs, '&');
    let ghost all = split(qs@, '&');
    let ghost f = value_for(key@);
    let mut i: usize = 0;
    assert(all.skip(0) =~= all);
    while i < pairs.len()
        invariant
            i <= pairs.len(),
            seqs_of(pairs@) == all,
            all == split(qs@, '&'),
            query_param_of(query@, key@) == first_match(all, f),
            f == value_for(key@),
            first_match(all, f) == first_match(all.skip(i as int), f),
        decreases pairs.len() - i,
    {
        proof {
            lemma_first_match_step(all, i as int, f);
        }
        assert(all[i as int] == pairs@[i as int]@);
        match pair_value_of(&pairs[i], key) {
            Some(value) => {
                return Some(value);
            },
            None => {},
        }
        i += 1;
    }
    assert(all.skip(pairs.len() as int) =~= Seq::<Seq<char>>::empty());
    None
}

/// The path with the non-empty parameters as its query string (`k=v` joined by `&`).
pub open spec fn path_with_query(pathname: Seq<char>, params: Seq<(Seq<char>, Seq<char>)>) -> Seq<
    char,
> {
    let kept = params.filter(has_value());
    if kept.len() == 0 {
        pathname
    } else {
        pathname + seq!['?'] + join(kept.map_values(param_text()), seq!['&'])
    }
}

/// Whether a parameter has a value.
pub open spec fn has_value() -> spec_fn((Seq<char>, Seq<char>)) -> bool {
    |p: (Seq<char>, Seq<char>)| p.1.len() > 0
}

/// A parameter as `key=value`.
pub open spec fn param_text() -> spec_fn((Seq<char>, Seq<char>)) -> Seq<char> {
    |p: (Seq<char>, Seq<char>)| p.0 + seq!['='] + p.1
}

/// The view of a list of parameters.
pub open spec fn params_view(params: Seq<(String, String)>) -> Seq<(Seq<char>, Seq<char>)> {
    params.map_values(|p: (String, String)| (p.0@, p.1@))
}

/// The URL that shows a list's state in the address bar: the path, with the parameters
/// that have values as its query string.
pub fn location_query_url(pathname: &str, params: &Vec<(String, String)>) -> (r: String)
    ensures
        r@ == path_with_query(pathname@, params_view(params@)),
{
    let ghost pv = params_view(params@);
    let ghost keep = has_value();
    let ghost text = param_text();
    let mut parts: Vec<String> = Vec::new();
    let mut i: usize = 0;
    assert(pv.take(0).filter(keep) =~= Seq::<(Seq<char>, Seq<char>)>::empty()) by {
        assert(pv.take(0) =~= Seq::<(Seq<char>, Seq<char>)>::empty());
    }
    assert(strs_of(parts@) =~= pv.take(0).filter(keep).map_values(text));
    while i < params.len()
        invariant
            i <= params.len(),
            pv == params_view(params@),
            pv.len() == params.len(),
            keep == has_value(),
            text == param_text(),
            strs_of(parts@) == pv.take(i as int).filter(keep).map_values(text),
        decreases params.len() - i,
    {
        let ghost p = pv[i as int];
        let ghost prevf = pv.take(i as int).filter(keep);
        assert(pv.take(i + 1) =~= pv.take(i as int).push(p));
        proof {
            pv.take(i as int).lemma_filter_push(p, keep);
        }
        assert(p == (params@[i as int].0@, params@[i as int].1@));
        if !params[i].1.as_str().is_empty() {
            let eq = vec!['='];
            assert(eq@ =~= seq!['=']);
            let piece = string_of(
                &concat(
                    &concat(&chars_of(params[i].0.as_str()), &eq),
                    &chars_of(params[i].1.as_str()),
                ),
            );
            assert(piece@ == text(p));
            let ghost oldparts = strs_of(parts@);
            parts.push(piece);
            assert(pv.take(i + 1).filter(keep) == prevf.push(p));
            assert(strs_of(parts@) =~= oldparts.push(piece@));
            assert(prevf.push(p).map_values(text) =~= prevf.map_values(text).push(text(p)));
        } else {
            assert(pv.take(i + 1).filter(keep) == prevf);
        }
        i += 1;
    }
    assert(pv.take(params.len() as int) =~= pv);
    if parts.len() == 0 {
        return pathname.to_string();
    }
    let question = vec!['?'];
    assert(question@ =~= seq!['?']);
    let joined = join_strings(&parts, "&");
    proof {
        reveal_strlit("&");
    }
    assert(seq!['&'] =~= "&"@);
    string_of(&concat(&concat(&chars_of(pathname), &question), &chars_of(joined.as_str())))
}

// ---------------------------------------------------------------------------
// What the address bar is given, it gives back
// ---------------------------------------------------------------------------

/// The value of the first parameter named `key` that has a value.
pub open spec fn first_value(params: Seq<(Seq<char>, Seq<char>)>, key: Seq<char>) -> Option<
    Seq<char>,
>
    decreases params.len(),
{
    if params.len() == 0 {
        None
    } else if params[0].0 == key && params[0].1.len() > 0 {
        Some(params[0].1)
    } else {
        first_value(params.drop_first(), key)
    }
}

/// The query string of an address: from its first `?` on, or nothing.
pub open spec fn query_part(url: Seq<char>) -> Seq<char> {
    let i = first_index(url, '?');
    if i < 0 {
        Seq::empty()
    } else {
        url.subrange(i, url.len() as int)
    }
}

/// Whether a parameter is written plainly in a query string: its key holds no `=`, and
/// neither its key nor its value holds `&`.
pub open spec fn plain_param(p: (Seq<char>, Seq<char>)) -> bool {
    !p.0.contains('=') && !p.0.contains('&') && !p.1.contains('&')
}

proof fn lemma_join_front(parts: Seq<Seq<char>>, sep: Seq<char>)
    requires
        parts.len() >= 2,
    ensures
        join(parts, sep) == parts[0] + sep + join(parts.drop_first(), sep),
    decreases parts.len(),
{
    let d = parts.drop_last();
    let f = parts.drop_first();
    assert(join(parts, sep) == join(d, sep) + sep + parts.last());
    if parts.len() == 2 {
        assert(d =~= seq![parts[0]]);
        assert(f =~= seq![parts[1]]);
        assert(join(d, sep) == parts[0]);
        assert(join(f, sep) == parts[1]);
        assert(join(parts, sep) =~= parts[0] + sep + join(f, sep));
    } else {
        lemma_join_front(d, sep);
        assert(d.drop_first() =~= f.drop_last());
        assert(f.last() == parts.last());
        assert(d[0] == parts[0]);
        assert(join(f, sep) == join(f.drop_last(), sep) + sep + f.last());
        assert(join(parts, sep) =~= parts[0] + sep + join(f, sep));
    }
}

proof fn lemma_split_single(s: Seq<char>, c: char)
    requires
        !s.contains(c),
    ensures
        split(s, c) == seq![s],
{
    lemma_first_index(s, c);
}

proof fn lemma_split_join(parts: Seq<Seq<char>>)
    requires
        parts.len() > 0,
        forall|i: int| 0 <= i < parts.len() ==> !(#[trigger] parts[i]).contains('&'),
    ensures
        split(join(parts, seq!['&']), '&') == parts,
    decreases parts.len(),
{
    if parts.len() == 1 {
        lemma_split_single(parts[0], '&');
        assert(seq![parts[0]] =~= parts);
    } else {
        lemma_join_front(parts, seq!['&']);
        let a = parts[0];
        let rest = join(parts.drop_first(), seq!['&']);
        let h = a + seq!['&'] + rest;
        assert forall|k: int| 0 <= k < a.len() implies h[k] != '&' by {
            assert(h[k] == a[k]);
            assert(!parts[0].contains('&'));
        }
        assert(h[a.len() as int] == '&');
        crate::text::lemma_first_index_at(h, '&', a.len() as int);
        assert(h.subrange(0, a.len() as int) =~= a);
        assert(h.subrange(a.len() as int + 1, h.len() as int) =~= rest);
        lemma_split_join(parts.drop_first());
        assert(seq![a] + parts.drop_first() =~= parts);
    }
}

proof fn lemma_param_pair(p: (Seq<char>, Seq<char>), key: Seq<char>)
    requires
        plain_param(p),
    ensures
        pair_value(param_text()(p), key) == if p.0 == key {
            Some(p.1)
        } else {
            None
        },
        !param_text()(p).contains('&'),
{
    let t = param_text()(p);
    assert(t == p.0 + seq!['='] + p.1);
    assert forall|k: int| 0 <= k < p.0.len() implies t[k] != '=' by {
        assert(t[k] == p.0[k]);
    }
    crate::text::lemma_first_index_at(t, '=', p.0.len() as int);
    assert(t.subrange(0, p.0.len() as int) =~= p.0);
    assert(t.subrange(p.0.len() as int + 1, t.len() as int) =~= p.1);
    assert forall|k: int| 0 <= k < t.len() implies t[k] != '&' by {
        if k < p.0.len() {
            assert(t[k] == p.0[k]);
        } else if k > p.0.len() {
            assert(t[k] == p.1[k - p.0.len() - 1]);
        }
    }
}

proof fn lemma_first_value_of_texts(params: Seq<(Seq<char>, Seq<char>)>, key: Seq<char>)
    requires
        forall|i: int| 0 <= i < params.len() ==> plain_param(#[trigger] params[i]),
    ensures
        first_match(params.filter(has_value()).map_values(param_text()), value_for(key))
            == first_value(params, key),
        forall|i: int|
            0 <= i < params.filter(has_value()).map_values(param_text()).len() ==> !(
            #[trigger] params.filter(has_value()).map_values(param_text())[i]).contains('&'),
    decreases params.len(),
{
    let texts = params.filter(has_value()).map_values(param_text());
    if params.len() == 0 {
        assert(params.filter(has_value()) =~= Seq::<(Seq<char>, Seq<char>)>::empty());
        assert(texts =~= Seq::<Seq<char>>::empty());
    } else {
        let p = params[0];
        let rest = params.drop_first();
        assert(forall|i: int| 0 <= i < rest.len() ==> plain_param(#[trigger] rest[i])) by {
            assert forall|i: int| 0 <= i < rest.len() implies plain_param(#[trigger] rest[i]) by {
                assert(rest[i] == params[i + 1]);
            }
        }
        lemma_first_value_of_texts(rest, key);
        assert(params =~= seq![p] + rest);
        Seq::filter_distributes_over_add(seq![p], rest, has_value());
        let rest_texts = rest.filter(has_value()).map_values(param_text());
        assert(plain_param(params[0]));
        lemma_param_pair(p, key);
        reveal(Seq::filter);
        if p.1.len() > 0 {
            assert(seq![p].filter(has_value()) =~= seq![p]) by {
                assert(seq![p].drop_last() =~= Seq::<(Seq<char>, Seq<char>)>::empty());
                assert(Seq::<(Seq<char>, Seq<char>)>::empty().filter(has_value()) =~= Seq::<(Seq<char>, Seq<char>)>::empty());
            }
            assert(texts =~= seq![param_text()(p)] + rest_texts);
            assert(texts[0] == param_text()(p));
            assert(texts.drop_first() =~= rest_texts);
        } else {
            assert(seq![p].filter(has_value()) =~= Seq::<(Seq<char>, Seq<char>)>::empty()) by {
                assert(seq![p].drop_last() =~= Seq::<(Seq<char>, Seq<char>)>::empty());
                assert(Seq::<(Seq<char>, Seq<char>)>::empty().filter(has_value()) =~= Seq::<(Seq<char>, Seq<char>)>::empty());
            }
            assert(texts =~= rest_texts);
        }
    }
}

/// What the address bar is given, it gives back: reading a parameter from the query
/// string of an address made by `location_query_url` gives the value of the first
/// parameter of that name that has a value (for a path without `?` and parameters whose
/// keys hold no `=` and whose keys and values hold no `&`).
pub proof fn law_query_reads_back(
    pathname: Seq<char>,
    params: Seq<(Seq<char>, Seq<char>)>,
    key: Seq<char>,
)
    requires
        !pathname.contains('?'),
        forall|i: int| 0 <= i < params.len() ==> plain_param(#[trigger] params[i]),
    ensures
        query_param_of(query_part(path_with_query(pathname, params)), key) == first_value(
            params,
            key,
        ),
{
    lemma_first_value_of_texts(params, key);
    let kept = params.filter(has_value());
    let texts = kept.map_values(param_text());
    let url = path_with_query(pathname, params);
    if kept.len() == 0 {
        lemma_first_index(pathname, '?');
        assert(query_part(url) =~= Seq::<char>::empty());
        assert(!has_prefix(Seq::<char>::empty(), seq!['?']));
        lemma_split_single(Seq::<char>::empty(), '&');
        assert(texts =~= Seq::<Seq<char>>::empty());
        lemma_first_index(Seq::<char>::empty(), '=');
        let pieces = split(Seq::<char>::empty(), '&');
        assert(pieces == seq![Seq::<char>::empty()]);
        assert(pair_value(Seq::<char>::empty(), key) is None);
        assert(value_for(key)(pieces[0]) is None);
        assert(pieces.drop_first() =~= Seq::<Seq<char>>::empty());
        assert(first_match(pieces, value_for(key)) == first_match(pieces.drop_first(), value_for(key)));
        assert(first_match(texts, value_for(key)) is None);
        assert(query_param_of(query_part(url), key) is None);
    } else {
        let j = join(texts, seq!['&']);
        assert(url == pathname + seq!['?'] + j);
        assert forall|k: int| 0 <= k < pathname.len() implies url[k] != '?' by {
            assert(url[k] == pathname[k]);
        }
        crate::text::lemma_first_index_at(url, '?', pathname.len() as int);
        let q = query_part(url);
        assert(q =~= seq!['?'] + j);
        assert(q.subrange(0, 1) =~= seq!['?']);
        assert(has_prefix(q, seq!['?']));
        assert(q.subrange(1, q.len() as int) =~= j);
        assert(strip_prefix(q, seq!['?']) == Some(j));
        lemma_split_join(texts);
        assert(split(j, '&') == texts);
        assert(query_param_of(q, key) == first_match(texts, value_for(key)));
    }
}

// ---------------------------------------------------------------------------
// Percent decoding
// ---------------------------------------------------------------------------

/// The value of an ASCII hexadecimal digit byte.
pub open spec fn hex_byte_value(b: u8) -> Option<u8> {
    if 48 <= b <= 57 {
        Some((b - 48) as u8)
    } else if 97 <= b <= 102 {
        Some((b - 87) as u8)
    } else if 65 <= b <= 70 {
        Some((b - 55) as u8)
    } else {
        None
    }
}

/// The value of an ASCII hexadecimal digit byte.
pub fn decode_hex_digit(value: u8) -> (r: Option<u8>)
    ensures
        r == hex_byte_value(value),
{
    if 48 <= value && value <= 57 {
        Some(value - 48)
    } else if 97 <= value && value <= 102 {
        Some(value - 87)
    } else if 65 <= value && value <= 70 {
        Some(value - 55)
    } else {
        None
    }
}

/// Bytes with `+` made a space and each `%` followed by two hexadecimal digits made the
/// byte they spell; every other byte stays.
pub open spec fn percent_decoded(b: Seq<u8>) -> Seq<u8>
    decreases b.len(),
{
    if b.len() == 0 {
        Seq::empty()
    } else if b[0] == 43 {
        seq![32u8] + percent_decoded(b.drop_first())
    } else if b[0] == 37 && 2 < b.len() && hex_byte_value(b[1]) is Some && hex_byte_value(b[2]) is Some {
        seq![(hex_byte_value(b[1])->0 * 16 + hex_byte_value(b[2])->0) as u8] + percent_decoded(
            b.subrange(3, b.len() as int),
        )
    } else {
        seq![b[0]] + percent_decoded(b.drop_first())
    }
}

/// A fragment value percent-decoded; the value itself when the decoded bytes are not
/// UTF-8.
pub open spec fn fragment_decoded(value: Seq<char>) -> Seq<char> {
    let d = percent_decoded(vstd::utf8::encode_utf8(value));
    if vstd::utf8::valid_utf8(d) {
        vstd::utf8::decode_utf8(d)
    } else {
        value
    }
}

/// A fragment value percent-decoded.
pub fn decode_fragment_value(value: &str) -> (r: String)
    ensures
        r@ == fragment_decoded(value@),
{
    let bytes = value.as_bytes();
    let ghost b = bytes@;
    let n = bytes.len();
    let mut decoded: Vec<u8> = Vec::new();
    let mut index: usize = 0;
    assert(b.subrange(0, n as int) =~= b);
    assert(decoded@ + percent_decoded(b) =~= percent_decoded(b));
    while index < n
        invariant
            index <= n == b.len(),
            b == bytes@,
            decoded@ + percent_decoded(b.subrange(index as int, n as int)) == percent_decoded(b),
        decreases n - index,
    {
        let ghost tail = b.subrange(index as int, n as int);
        let ghost before = decoded@;
        assert(tail[0] == bytes[index as int]);
        let byte = bytes[index];
        if byte == 43 {
            decoded.push(32);
            assert(tail.drop_first() =~= b.subrange(index + 1, n as int));
            assert(before + (seq![32u8] + tail.drop_first()) =~= decoded@ + tail.drop_first());
            index += 1;
        } else if byte == 37 && n - index > 2 {
            let high = decode_hex_digit(bytes[index + 1]);
            let low = decode_hex_digit(bytes[index + 2]);
            assert(tail[1] == bytes[index + 1] && tail[2] == bytes[index + 2]);
            match (high, low) {
                (Some(h), Some(l)) => {
                    let v = h * 16 + l;
                    decoded.push(v);
                    assert(tail.subrange(3, tail.len() as int) =~= b.subrange(
                        index + 3,
                        n as int,
                    ));
                    assert(before + (seq![v] + percent_decoded(tail.subrange(3, tail.len() as int)))
                        =~= decoded@ + percent_decoded(b.subrange(index + 3, n as int)));
                    index += 3;
                },
                _ => {
                    decoded.push(byte);
                    assert(tail.drop_first() =~= b.subrange(index + 1, n as int));
                    assert(before + (seq![byte] + percent_decoded(tail.drop_first())) =~= decoded@
                        + percent_decoded(tail.drop_first()));
                    index += 1;
                },
            }
        } else {
            decoded.push(byte);
            assert(tail.drop_first() =~= b.subrange(index + 1, n as int));
            assert(before + (seq![byte] + percent_decoded(tail.drop_first())) =~= decoded@
                + percent_decoded(tail.drop_first()));
            index += 1;
        }
    }
    assert(b.subrange(n as int, n as int) =~= Seq::<u8>::empty());
    assert(decoded@ + Seq::<u8>::empty() =~= decoded@);
    match string_from_utf8(decoded) {
        Some(s) => s,
        None => value.to_string(),
    }
}

// ---------------------------------------------------------------------------
// Fragment parameters
// ---------------------------------------------------------------------------

/// The text after any leading `#` and `?` characters.
pub open spec fn without_marks(s: Seq<char>) -> Seq<char>
    decreases s.len(),
{
    if s.len() > 0 && (s[0] == '#' || s[0] == '?') {
        without_marks(s.drop_first())
    } else {
        s
    }
}

/// The decoded key and value of a `key=value` segment; none for an empty segment or one
/// without `=`.
pub open spec fn segment_entry(segment: Seq<char>) -> Option<(Seq<char>, Seq<char>)> {
    if segment.len() == 0 {
        None
    } else {
        match split_once(segment, '=') {
            Some(kv) => Some((fragment_decoded(kv.0), fragment_decoded(kv.1))),
            None => None,
        }
    }
}

/// The value the last segment with key `key` gives it.
pub open spec fn last_value(segments: Seq<Seq<char>>, key: Seq<char>) -> Option<Seq<char>>
    decreases segments.len(),
{
    if segments.len() == 0 {
        None
    } else {
        match segment_entry(segments.last()) {
            Some(e) => if e.0 == key {
                Some(e.1)
            } else {
                last_value(segments.drop_last(), key)
            },
            None => last_value(segments.drop_last(), key),
        }
    }
}

/// The segments of a fragment or query: after leading `#`/`?`, split at `&`.
pub open spec fn hash_segments(hash: Seq<char>) -> Seq<Seq<char>> {
    split(without_marks(hash), '&')
}

/// The keys of a list of pairs.
pub open spec fn pair_keys(v: Seq<(String, String)>) -> Seq<Seq<char>> {
    Seq::new(v.len(), |i: int| v[i].0@)
}

/// The value stored under `key` in a list of pairs, if a pair has that key.
pub open spec fn pair_lookup(v: Seq<(String, String)>, key: Seq<char>) -> Option<Seq<char>> {
    if exists|i: int| 0 <= i < v.len() && #[trigger] v[i].0@ == key {
        Some(v[choose|i: int| 0 <= i < v.len() && #[trigger] v[i].0@ == key].1@)
    } else {
        None
    }
}

/// In a list with strictly sorted keys, the pair at `p` is the one found for its key.
proof fn lemma_lookup_at(v: Seq<(String, String)>, p: int)
    requires
        strictly_sorted(pair_keys(v)),
        0 <= p < v.len(),
    ensures
        pair_lookup(v, v[p].0@) == Some(v[p].1@),
{
    let key = v[p].0@;
    assert(pair_keys(v)[p] == key);
    assert forall|i: int| 0 <= i < v.len() && #[trigger] v[i].0@ == key implies i == p by {
        assert(pair_keys(v)[i] == key);
        if i < p {
            assert(seq_lt(pair_keys(v)[i], pair_keys(v)[p]));
            crate::order::lemma_lt_irreflexive(key);
        } else if i > p {
            assert(seq_lt(pair_keys(v)[p], pair_keys(v)[i]));
            crate::order::lemma_lt_irreflexive(key);
        }
    }
    assert(v[p].0@ == key);
}

/// The first position whose key is not below `key`.
fn lower_bound_key(v: &Vec<(String, String)>, key: &str) -> (r: usize)
    ensures
        r <= v.len(),
        forall|k: int| 0 <= k < r ==> seq_lt(#[trigger] v@[k].0@, key@),
        r < v.len() ==> !seq_lt(v@[r as int].0@, key@),
{
    let mut i: usize = 0;
    while i < v.len()
        invariant
            i <= v.len(),
            forall|k: int| 0 <= k < i ==> seq_lt(#[trigger] v@[k].0@, key@),
        decreases v.len() - i,
    {
        if !str_lt(v[i].0.as_str(), key) {
            return i;
        }
        i += 1;
    }
    i
}

/// Stores `value` under `key` in a list with strictly sorted keys, replacing the value of
/// an equal key.
fn upsert_pair(v: &mut Vec<(String, String)>, key: String, value: String)
    requires
        strictly_sorted(pair_keys(old(v)@)),
    ensures
        strictly_sorted(pair_keys(final(v)@)),
        forall|k: Seq<char>|
            pair_lookup(final(v)@, k) == if k == key@ {
                Some(value@)
            } else {
                pair_lookup(old(v)@, k)
            },
{
    let ghost before = v@;
    let p = lower_bound_key(v, key.as_str());
    if p < v.len() && str_eq(v[p].0.as_str(), key.as_str()) {
        let ghost kv = key@;
        let ghost vv = value@;
        v.set(p, (key, value));
        let ghost after = v@;
        assert(pair_keys(after) =~= pair_keys(before));
        assert forall|k: Seq<char>| pair_lookup(after, k) == if k == kv {
            Some(vv)
        } else {
            pair_lookup(before, k)
        } by {
            if k == kv {
                lemma_lookup_at(after, p as int);
            } else {
                if exists|i: int| 0 <= i < after.len() && #[trigger] after[i].0@ == k {
                    let i = choose|i: int| 0 <= i < after.len() && #[trigger] after[i].0@ == k;
                    assert(before[i].0@ == k);
                    lemma_lookup_at(after, i);
                    lemma_lookup_at(before, i);
                }
                if exists|i: int| 0 <= i < before.len() && #[trigger] before[i].0@ == k {
                    let i = choose|i: int| 0 <= i < before.len() && #[trigger] before[i].0@ == k;
                    assert(after[i].0@ == k);
                }
            }
        }
    } else {
        let ghost kv = key@;
        let ghost vv = value@;
        proof {
            if p < v.len() {
                crate::order::lemma_lt_total(v@[p as int].0@, kv);
            }
        }
        v.insert(p, (key, value));
        let ghost after = v@;
        let ghost bk = pair_keys(before);
        let ghost ak = pair_keys(after);
        assert(ak =~= bk.insert(p as int, kv));
        assert forall|i: int, j: int| 0 <= i < j < ak.len() implies seq_lt(
            #[trigger] ak[i],
            #[trigger] ak[j],
        ) by {
            if j < p {
            } else if j == p {
                assert(ak[i] == bk[i]);
            } else if i < p {
                assert(ak[j] == bk[j - 1]);
                assert(seq_lt(bk[i], kv));
                if j - 1 > p {
                    crate::order::lemma_lt_transitive(kv, bk[p as int], bk[j - 1]);
                }
                crate::order::lemma_lt_transitive(bk[i], kv, bk[j - 1]);
            } else if i == p {
                assert(ak[j] == bk[j - 1]);
                if j - 1 > p {
                    crate::order::lemma_lt_transitive(kv, bk[p as int], bk[j - 1]);
                }
            } else {
                assert(ak[i] == bk[i - 1]);
                assert(ak[j] == bk[j - 1]);
            }
        }
        assert forall|k: Seq<char>| pair_lookup(after, k) == if k == kv {
            Some(vv)
        } else {
            pair_lookup(before, k)
        } by {
            assert(after[p as int].0@ == kv);
            if k == kv {
                lemma_lookup_at(after, p as int);
            } else {
                if exists|i: int| 0 <= i < after.len() && #[trigger] after[i].0@ == k {
                    let i = choose|i: int| 0 <= i < after.len() && #[trigger] after[i].0@ == k;
                    lemma_lookup_at(after, i);
                    if i < p {
                        assert(before[i].0@ == k);
                        lemma_lookup_at(before, i);
                    } else {
                        assert(i > p);
                        assert(before[i - 1].0@ == k);
                        lemma_lookup_at(before, i - 1);
                    }
                }
                if exists|i: int| 0 <= i < before.len() && #[trigger] before[i].0@ == k {
                    let i = choose|i: int| 0 <= i < before.len() && #[trigger] before[i].0@ == k;
                    if i < p {
                        assert(after[i].0@ == k);
                    } else {
                        assert(after[i + 1].0@ == k);
                    }
                }
            }
        }
    }
}

fn segment_entry_of(segment: &Vec<char>) -> (r: Option<(String, String)>)
    ensures
        match r {
            Some(e) => segment_entry(segment@) == Some((e.0@, e.1@)),
            None => segment_entry(segment@) is None,
        },
{
    let n = segment.len();
    if n == 0 {
        return None;
    }
    assert(segment@.subrange(0, n as int) =~= segment@);
    match find_char_at(segment, 0, n, '=') {
        Some(k) => {
            let key = string_of(&slice_vec(segment, 0, k));
            let value = string_of(&slice_vec(segment, k + 1, n));
            Some((decode_fragment_value(key.as_str()), decode_fragment_value(value.as_str())))
        },
        None => None,
    }
}

/// The parameters of a fragment or query string: each `key=value` segment decoded, keys
/// sorted and each once, with the value of the last segment that has it.
pub fn parse_hash_params(hash: &str) -> (r: Vec<(String, String)>)
    ensures
        strictly_sorted(pair_keys(r@)),
        forall|k: Seq<char>| pair_lookup(r@, k) == last_value(hash_segments(hash@), k),
{
    let v = chars_of(hash);
    let mut start: usize = 0;
    assert(v@.skip(0) =~= v@);
    while start < v.len() && (v[start] == '#' || v[start] == '?')
        invariant
            start <= v.len(),
            without_marks(v@) == without_marks(v@.skip(start as int)),
        decreases v.len() - start,
    {
        assert(v@.skip(start as int).drop_first() =~= v@.skip(start + 1));
        start += 1;
    }
    let rest = slice_vec(&v, start, v.len());
    assert(rest@ =~= v@.skip(start as int));
    let segments = split_vec(&rest, '&');
    let ghost all = hash_segments(hash@);
    let mut params: Vec<(String, String)> = Vec::new();
    let mut i: usize = 0;
    while i < segments.len()
        invariant
            i <= segments.len(),
            seqs_of(segments@) == all,
            strictly_sorted(pair_keys(params@)),
            forall|k: Seq<char>| pair_lookup(params@, k) == last_value(all.take(i as int), k),
        decreases segments.len() - i,
    {
        let ghost before = params@;
        assert(all.take(i + 1).drop_last() =~= all.take(i as int));
        assert(all.take(i + 1).last() == segments@[i as int]@);
        match segment_entry_of(&segments[i]) {
            Some((key, value)) => {
                upsert_pair(&mut params, key, value);
            },
            None => {},
        }
        i += 1;
    }
    assert(all.take(segments.len() as int) =~= all);
    params
}

/// The value stored under `key` in the parameters `params`.
pub fn param_value(params: &Vec<(String, String)>, key: &str) -> (r: Option<String>)
    requires
        strictly_sorted(pair_keys(params@)),
    ensures
        match r {
            Some(v) => pair_lookup(params@, key@) == Some(v@),
            None => pair_lookup(params@, key@) is None,
        },
{
    let mut i: usize = 0;
    while i < params.len()
        invariant
            i <= params.len(),
            strictly_sorted(pair_keys(params@)),
            forall|k: int| 0 <= k < i ==> #[trigger] params@[k].0@ != key@,
        decreases params.len() - i,
    {
        if str_eq(params[i].0.as_str(), key) {
            proof {
                lemma_lookup_at(params@, i as int);
            }
            return Some(params[i].1.clone());
        }
        i += 1;
    }
    None
}

} // verus!

//! Byte encodings: lower-case hexadecimal text, UTF-8 decoding and SHA-256 digests.
use vstd::prelude::*;

use sha2::Digest;

use crate::text::{char_from_ascii, push_char};

verus! {

broadcast use vstd::string::group_string_axioms;

/// The lower-case hexadecimal digit of `d` (below 16).
pub open spec fn hex_digit(d: int) -> char {
    if d < 10 {
        (48 + d) as char
    } else {
        (87 + d) as char
    }
}

/// Bytes as lower-case hexadecimal text, two digits per byte, high digit first.
pub open spec fn hex_text(bytes: Seq<u8>) -> Seq<char>
    decreases bytes.len(),
{
    if bytes.len() == 0 {
        Seq::empty()
    } else {
        seq![hex_digit(bytes[0] as int / 16), hex_digit(bytes[0] as int % 16)] + hex_text(bytes.drop_first())
    }
}

/// The value of a hexadecimal digit, as `char::to_digit(16)` reads it (either case).
pub open spec fn hex_value(c: char) -> Option<u8> {
    if '0' <= c && c <= '9' {
        Some((c as int - 48) as u8)
    } else if 'a' <= c && c <= 'f' {
        Some((c as int - 87) as u8)
    } else if 'A' <= c && c <= 'F' {
        Some((c as int - 55) as u8)
    } else {
        None
    }
}

/// The bytes that characters taken two at a time spell in hexadecimal, high digit first;
/// a last character without a partner is ignored. `None` when a pair holds a character
/// that is not a hexadecimal digit.
pub open spec fn hex_bytes(cs: Seq<char>) -> Option<Seq<u8>>
    decreases cs.len(),
{
    if cs.len() < 2 {
        Some(Seq::empty())
    } else {
        match (hex_value(cs[0]), hex_value(cs[1])) {
            (Some(h), Some(l)) => match hex_bytes(cs.subrange(2, cs.len() as int)) {
                Some(rest) => Some(seq![(h * 16 + l) as u8] + rest),
                None => None,
            },
            _ => None,
        }
    }
}

/// Hexadecimal text has two digits per byte.
proof fn lemma_hex_text_len(bytes: Seq<u8>)
    ensures
        hex_text(bytes).len() == 2 * bytes.len(),
    decreases bytes.len(),
{
    if bytes.len() > 0 {
        lemma_hex_text_len(bytes.drop_first());
    }
}

proof fn lemma_hex_text_push(bytes: Seq<u8>, b: u8)
    ensures
        hex_text(bytes.push(b)) == hex_text(bytes) + seq![hex_digit(b as int / 16), hex_digit(b as int % 16)],
    decreases bytes.len(),
{
    let two = seq![hex_digit(b as int / 16), hex_digit(b as int % 16)];
    if bytes.len() > 0 {
        assert(bytes.push(b).drop_first() =~= bytes.drop_first().push(b));
        assert(bytes.push(b)[0] == bytes[0]);
        lemma_hex_text_push(bytes.drop_first(), b);
        let first = seq![hex_digit(bytes[0] as int / 16), hex_digit(bytes[0] as int % 16)];
        assert(hex_text(bytes.push(b)) == first + hex_text(bytes.drop_first().push(b)));
        assert(first + (hex_text(bytes.drop_first()) + two) =~= (first + hex_text(
            bytes.drop_first(),
        )) + two);
    } else {
        assert(bytes.push(b).drop_first() =~= Seq::<u8>::empty());
        assert(bytes.push(b)[0] == b);
        assert(hex_text(bytes) =~= Seq::<char>::empty());
        assert(hex_text(bytes.push(b).drop_first()) =~= Seq::<char>::empty());
        assert(hex_text(bytes.push(b)) =~= two + Seq::<char>::empty());
        assert(two + Seq::<char>::empty() =~= Seq::<char>::empty() + two);
    }
}

/// The lower-case hexadecimal digit of `d`.
fn hex_digit_char(d: u8) -> (r: char)
    requires
        d < 16,
    ensures
        r == hex_digit(d as int),
{
    if d < 10 {
        char_from_ascii(48 + d as u32)
    } else {
        char_from_ascii(87 + d as u32)
    }
}

/// Bytes as lower-case hexadecimal text.
pub fn hex_string(bytes: &[u8]) -> (r: String)
    ensures
        r@ == hex_text(bytes@),
{
    let mut r = String::new();
    let mut i: usize = 0;
    assert(bytes@.take(0) =~= Seq::<u8>::empty());
    while i < bytes.len()
        invariant
            i <= bytes.len(),
            r@ == hex_text(bytes@.take(i as int)),
        decreases bytes.len() - i,
    {
        let b = bytes[i];
        proof {
            assert(bytes@.take(i + 1) =~= bytes@.take(i as int).push(b));
            lemma_hex_text_push(bytes@.take(i as int), b);
        }
        push_char(&mut r, hex_digit_char(b / 16));
        push_char(&mut r, hex_digit_char(b % 16));
        assert(r@ =~= hex_text(bytes@.take(i as int)) + seq![
            hex_digit(b as int / 16),
            hex_digit(b as int % 16),
        ]);
        i += 1;
    }
    assert(bytes@.take(bytes.len() as int) =~= bytes@);
    r
}

/// The value of a hexadecimal digit.
fn hex_digit_value(c: char) -> (r: Option<u8>)
    ensures
        r == hex_value(c),
{
    if '0' <= c && c <= '9' {
        Some(((c as u32) - 48) as u8)
    } else if 'a' <= c && c <= 'f' {
        Some(((c as u32) - 87) as u8)
    } else if 'A' <= c && c <= 'F' {
        Some(((c as u32) - 55) as u8)
    } else {
        None
    }
}

/// The bytes spelled by characters taken two at a time in hexadecimal.
pub fn hex_pairs(cs: &[char]) -> (r: Option<Vec<u8>>)
    ensures
        match r {
            Some(b) => hex_bytes(cs@) == Some(b@),
            None => hex_bytes(cs@) is None,
        },
{
    let mut out: Vec<u8> = Vec::new();
    let mut i: usize = 0;
    assert(cs@.subrange(0, cs.len() as int) =~= cs@);
    assert(out@ + Seq::<u8>::empty() =~= out@);
    while i < cs.len() && cs.len() - i >= 2
        invariant
            i <= cs.len(),
            match hex_bytes(cs@) {
                Some(all) => match hex_bytes(cs@.subrange(i as int, cs.len() as int)) {
                    Some(rest) => all == out@ + rest,
                    None => false,
                },
                None => hex_bytes(cs@.subrange(i as int, cs.len() as int)) is None,
            },
        decreases cs.len() - i,
    {
        let ghost tail = cs@.subrange(i as int, cs.len() as int);
        assert(tail.subrange(2, tail.len() as int) =~= cs@.subrange(i + 2, cs.len() as int));
        assert(tail[0] == cs@[i as int] && tail[1] == cs@[i + 1]);
        let h = hex_digit_value(cs[i]);
        let l = hex_digit_value(cs[i + 1]);
        match (h, l) {
            (Some(h), Some(l)) => {
                let ghost before = out@;
                out.push(h * 16 + l);
                proof {
                    if let Some(rest) = hex_bytes(cs@.subrange(i + 2, cs.len() as int)) {
                        assert(before + (seq![(h * 16 + l) as u8] + rest) =~= out@ + rest);
                    }
                }
            },
            _ => {
                return None;
            },
        }
        i += 2;
    }
    proof {
        let tail = cs@.subrange(i as int, cs.len() as int);
        assert(hex_bytes(tail) == Some(Seq::<u8>::empty()));
        assert(out@ + Seq::<u8>::empty() =~= out@);
    }
    Some(out)
}

/// `String::from_utf8`. Trusted: as the standard library documents, it succeeds exactly
/// on valid UTF-8, and then holds the decoded characters.
#[verifier::external_body]
pub(crate) fn string_from_utf8(bytes: Vec<u8>) -> (r: Option<String>)
    ensures
        r is Some <==> vstd::utf8::valid_utf8(bytes@),
        r matches Some(s) ==> s@ == vstd::utf8::decode_utf8(bytes@),
{
    String::from_utf8(bytes).ok()
}

/// The SHA-256 digest of some bytes, as the `sha2` crate computes it.
pub uninterp spec fn sha256_digest(data: Seq<u8>) -> Seq<u8>;

/// `sha2::Sha256::digest`. Trusted: the digest of `data`, named by `sha256_digest`;
/// it is 32 bytes long, the output size of SHA-256.
#[verifier::external_body]
fn sha256(data: &[u8]) -> (r: Vec<u8>)
    ensures
        r@ == sha256_digest(data@),
        r@.len() == 32,
{
    sha2::Sha256::digest(data).to_vec()
}

/// The SHA-256 digest of a string's UTF-8 bytes, as 64 lower-case hexadecimal digits.
pub fn hash_string(value: &str) -> (r: String)
    ensures
        r@ == hex_text(sha256_digest(vstd::utf8::encode_utf8(value@))),
        r@.len() == 64,
{
    let digest = sha256(value.as_bytes());
    proof {
        lemma_hex_text_len(digest@);
    }
    hex_string(&digest)
}

} // verus!

//! The Code Extractor: given a redirect URL, the value of its `code` query
//! parameter, form-decoded (`+` to space, then percent-decoding), or nothing
//! when the parameter is absent.
//!
//! The query string is the part of the URL between the first `?` and the
//! next `?` or the end. It is split on `&` into pairs, empty pairs are
//! skipped, and each pair is split at its first `=` into a key and a value;
//! both are form-decoded, and the first pair whose decoded key is `code`
//! supplies the result.

use vstd::prelude::*;

use crate::scan::byte_index;
use crate::scan::{QUESTION, AMPERSAND, EQUALS_SIGN, PERCENT, PLUS, SPACE};
use crate::scan::find_byte;
use crate::scan::lemma_byte_index_props;
use vstd::utf8::encode_utf8;
use vstd::utf8::valid_utf8;
use vstd::utf8::decode_utf8;

verus! {

/// Whether `b` is an ASCII hexadecimal digit.
pub open spec fn is_hex_digit(b: u8) -> bool {
    (48 <= b && b <= 57) || (65 <= b && b <= 70) || (97 <= b && b <= 102)
}

/// The numeric value of an ASCII hexadecimal digit.
pub open spec fn hex_value(b: u8) -> u8
    recommends
        is_hex_digit(b),
{
    if 48 <= b && b <= 57 {
        (b - 48) as u8
    } else if 65 <= b && b <= 70 {
        (b - 55) as u8
    } else {
        (b - 87) as u8
    }
}

/// Every `+` replaced by a space.
pub open spec fn plus_to_space(s: Seq<u8>) -> Seq<u8> {
    s.map_values(|b: u8| if b == PLUS { SPACE } else { b })
}

/// Percent-decoding: each `%` followed by two hexadecimal digits becomes the
/// byte they denote; any other byte, a lone `%` included, stands for itself.
pub open spec fn percent_decode(s: Seq<u8>) -> Seq<u8>
    decreases s.len(),
{
    if s.len() == 0 {
        Seq::empty()
    } else if s[0] == PERCENT && s.len() >= 3 && is_hex_digit(s[1]) && is_hex_digit(s[2]) {
        seq![(16 * hex_value(s[1]) + hex_value(s[2])) as u8] + percent_decode(s.skip(3))
    } else {
        seq![s[0]] + percent_decode(s.skip(1))
    }
}

/// Form decoding of a query key or value: `+` to space, then percent-decoding.
pub open spec fn form_decode(s: Seq<u8>) -> Seq<u8> {
    percent_decode(plus_to_space(s))
}

/// The bytes of the parameter name `code`.
pub open spec fn code_key() -> Seq<u8> {
    seq![99, 111, 100, 101]
}

/// The key of a `key=value` pair: everything before the first `=`.
pub open spec fn pair_key(seg: Seq<u8>) -> Seq<u8> {
    seg.take(byte_index(seg, EQUALS_SIGN) as int)
}

/// The value of a `key=value` pair: everything after the first `=`, or empty
/// when the pair has no `=`.
pub open spec fn pair_value(seg: Seq<u8>) -> Seq<u8> {
    let i = byte_index(seg, EQUALS_SIGN) as int;
    if i < seg.len() {
        seg.skip(i + 1)
    } else {
        Seq::empty()
    }
}

/// The still-encoded value of the first pair of the query `q` whose decoded
/// key is `code`, or nothing when no pair has that key.
pub open spec fn query_code(q: Seq<u8>) -> Option<Seq<u8>>
    decreases q.len(),
    via query_code_dec
{
    if q.len() == 0 {
        None
    } else {
        let a = byte_index(q, AMPERSAND) as int;
        let seg = q.take(a);
        let rest = if a < q.len() {
            q.skip(a + 1)
        } else {
            Seq::<u8>::empty()
        };
        if seg.len() == 0 {
            query_code(rest)
        } else if form_decode(pair_key(seg)) == code_key() {
            Some(pair_value(seg))
        } else {
            query_code(rest)
        }
    }
}

#[via_fn]
proof fn query_code_dec(q: Seq<u8>) {
    lemma_byte_index_props(q, AMPERSAND);
}

/// The query string of a URL: the part between the first `?` and the next
/// `?` or the end; nothing when the URL has no `?`.
pub open spec fn url_query(url: Seq<u8>) -> Option<Seq<u8>> {
    let i = byte_index(url, QUESTION) as int;
    if i < url.len() {
        let rest = url.skip(i + 1);
        Some(rest.take(byte_index(rest, QUESTION) as int))
    } else {
        None
    }
}

/// The still-encoded `code` value carried by a URL, at the byte level.
pub open spec fn extracted_code(url: Seq<u8>) -> Option<Seq<u8>> {
    match url_query(url) {
        Some(q) => match query_code(q) {
            Some(v) => Some(form_decode(v)),
            None => None,
        },
        None => None,
    }
}

/// What `String::from_utf8_lossy` makes of a byte sequence; a function of
/// the bytes alone.
pub uninterp spec fn lossy_decode(bytes: Seq<u8>) -> Seq<char>;

/// The authorization code carried by a URL, as characters: the byte-level
/// extraction, decoded as UTF-8 (lossily, as the byte level cannot promise
/// well-formed text).
pub open spec fn spec_extract_code(url: Seq<char>) -> Option<Seq<char>> {
    match extracted_code(encode_utf8(url)) {
        Some(bytes) => Some(lossy_decode(bytes)),
        None => None,
    }
}

/// Relies on `String::from_utf8_lossy`: the result is a function of the
/// bytes alone, and a valid UTF-8 input decodes to its own characters
/// unchanged.
#[verifier::external_body]
pub(crate) fn bytes_to_string_lossy(v: &[u8]) -> (r: String)
    ensures
        r@ == lossy_decode(v@),
        valid_utf8(v@) ==> r@ == decode_utf8(v@),
{
    String::from_utf8_lossy(v).into_owned()
}

/// Whether `b` is an ASCII hexadecimal digit.
fn is_hex_digit_exec(b: u8) -> (r: bool)
    ensures
        r == is_hex_digit(b),
{
    (48 <= b && b <= 57) || (65 <= b && b <= 70) || (97 <= b && b <= 102)
}

/// The numeric value of an ASCII hexadecimal digit.
fn hex_value_exec(b: u8) -> (r: u8)
    requires
        is_hex_digit(b),
    ensures
        r == hex_value(b),
{
    if 48 <= b && b <= 57 {
        b - 48
    } else if 65 <= b && b <= 70 {
        b - 55
    } else {
        b - 87
    }
}

/// Every `+` replaced by a space.
fn plus_to_space_exec(s: &[u8]) -> (r: Vec<u8>)
    ensures
        r@ == plus_to_space(s@),
{
    let n: usize = s.len();
    let mut r: Vec<u8> = Vec::new();
    let mut i: usize = 0;
    while i < n
        invariant
            0 <= i <= n,
            n == s@.len(),
            r@ == plus_to_space(s@.take(i as int)),
        decreases n - i,
    {
        if s[i] == PLUS {
            r.push(SPACE);
        } else {
            r.push(s[i]);
        }
        i = i + 1;
        proof {
            assert(r@ =~= plus_to_space(s@.take(i as int)));
        }
    }
    proof {
        assert(s@.take(n as int) =~= s@);
    }
    r
}

/// Percent-decoding of a byte sequence.
fn percent_decode_exec(s: &[u8]) -> (r: Vec<u8>)
    ensures
        r@ == percent_decode(s@),
{
    let n: usize = s.len();
    let mut r: Vec<u8> = Vec::new();
    let mut i: usize = 0;
    proof {
        assert(s@.skip(0) =~= s@);
    }
    while i < n
        invariant
            0 <= i <= n,
            n == s@.len(),
            percent_decode(s@) == r@ + percent_decode(s@.skip(i as int)),
        decreases n - i,
    {
        let ghost pre = s@.skip(i as int);
        assert(pre[0] == s@[i as int]);
        if s[i] == PERCENT && n - i > 2 && is_hex_digit_exec(s[i + 1]) && is_hex_digit_exec(
            s[i + 2],
        ) {
            assert(pre[1] == s@[i + 1] && pre[2] == s@[i + 2]);
            r.push(16 * hex_value_exec(s[i + 1]) + hex_value_exec(s[i + 2]));
            i = i + 3;
            proof {
                assert(pre.skip(3) =~= s@.skip(i as int));
            }
        } else {
            r.push(s[i]);
            i = i + 1;
            proof {
                assert(pre.skip(1) =~= s@.skip(i as int));
            }
        }
    }
    proof {
        assert(s@.skip(n as int) =~= Seq::<u8>::empty());
        assert(r@ =~= r@ + percent_decode(s@.skip(n as int)));
    }
    r
}

/// Form decoding: `+` to space, then percent-decoding.
fn form_decode_exec(s: &[u8]) -> (r: Vec<u8>)
    ensures
        r@ == form_decode(s@),
{
    let replaced = plus_to_space_exec(s);
    percent_decode_exec(replaced.as_slice())
}

/// Whether `k` spells exactly `code`.
fn is_code_key(k: &[u8]) -> (r: bool)
    ensures
        r == (k@ == code_key()),
{
    let r = k.len() == 4 && k[0] == 99 && k[1] == 111 && k[2] == 100 && k[3] == 101;
    proof {
        if r {
            assert(k@ =~= code_key());
        }
    }
    r
}

/// The still-encoded value of the first `code` pair of a query string.
fn query_code_exec(q: &[u8]) -> (r: Option<Vec<u8>>)
    ensures
        match r {
            Some(v) => query_code(q@) == Some(v@),
            None => query_code(q@) is None,
        },
{
    let n: usize = q.len();
    let mut pos: usize = 0;
    proof {
        assert(q@.skip(0) =~= q@);
    }
    while pos < n
        invariant
            0 <= pos <= n,
            n == q@.len(),
            query_code(q@) == query_code(q@.skip(pos as int)),
        decreases n - pos,
    {
        let ghost cur = q@.skip(pos as int);
        let rest = &q[pos..n];
        assert(rest@ =~= cur);
        let a = find_byte(rest, AMPERSAND);
        proof {
            lemma_byte_index_props(cur, AMPERSAND);
        }
        let seg = &rest[0..a];
        assert(seg@ =~= cur.take(a as int));
        if a == 0 {
            pos = pos + 1;
            proof {
                assert(cur.skip(1) =~= q@.skip(pos as int));
            }
        } else {
            let e = find_byte(seg, EQUALS_SIGN);
            proof {
                lemma_byte_index_props(seg@, EQUALS_SIGN);
            }
            let key = &seg[0..e];
            assert(key@ =~= pair_key(seg@));
            let decoded_key = form_decode_exec(key);
            if is_code_key(decoded_key.as_slice()) {
                let value = if e < seg.len() {
                    &seg[e + 1..seg.len()]
                } else {
                    &seg[0..0]
                };
                assert(value@ =~= pair_value(seg@));
                return Some(vstd::slice::slice_to_vec(value));
            } else if a < rest.len() {
                pos = pos + a + 1;
                proof {
                    assert(cur.skip(a + 1) =~= q@.skip(pos as int));
                }
            } else {
                pos = n;
                proof {
                    assert(q@.skip(n as int) =~= Seq::<u8>::empty());
                }
            }
        }
    }
    proof {
        assert(q@.skip(n as int) =~= Seq::<u8>::empty());
    }
    None
}

/// The value of the `code` query parameter of `url`, form-decoded, or
/// nothing when the parameter is absent.
pub fn extract_code(url: &str) -> (r: Option<String>)
    ensures
        r is Some <==> spec_extract_code(url@) is Some,
        r matches Some(s) ==> Some(s@) == spec_extract_code(url@),
{
    let bytes: &[u8] = url.as_bytes();
    let qi = find_byte(bytes, QUESTION);
    proof {
        lemma_byte_index_props(bytes@, QUESTION);
    }
    if qi == bytes.len() {
        return None;
    }
    let rest = &bytes[qi + 1..bytes.len()];
    assert(rest@ =~= bytes@.skip(qi + 1));
    let qe = find_byte(rest, QUESTION);
    proof {
        lemma_byte_index_props(rest@, QUESTION);
    }
    let q = &rest[0..qe];
    assert(q@ =~= rest@.take(qe as int));
    assert(url_query(bytes@) == Some(q@));
    match query_code_exec(q) {
        Some(v) => {
            let decoded = form_decode_exec(v.as_slice());
            Some(bytes_to_string_lossy(decoded.as_slice()))
        },
        None => None,
    }
}

} // verus!

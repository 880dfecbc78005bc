//! Laws of the Code Extractor: what form-decoding does to `+` and `%`
//! escapes, and which pair of a query supplies the extracted code,
//! whatever order the parameters come in.

use vstd::prelude::*;

use crate::scan::byte_index;
use crate::scan::lemma_byte_index_absent;
use crate::scan::lemma_byte_index_concat;
use crate::scan::lemma_byte_index_props;
use crate::scan::{QUESTION, AMPERSAND, EQUALS_SIGN, PERCENT, PLUS, SPACE};
use crate::query::code_key;
use crate::query::extracted_code;
use crate::query::form_decode;
use crate::query::hex_value;
use crate::query::is_hex_digit;
use crate::query::pair_key;
use crate::query::pair_value;
use crate::query::percent_decode;
use crate::query::plus_to_space;
use crate::query::query_code;
use crate::query::url_query;

verus! {

/// Law: a leading `+` decodes to a space, whatever follows.
pub proof fn lemma_form_decode_plus(rest: Seq<u8>)
    ensures
        form_decode(seq![PLUS] + rest) == seq![SPACE] + form_decode(rest),
{
    let s = seq![PLUS] + rest;
    assert(plus_to_space(s) =~= seq![SPACE] + plus_to_space(rest));
    let t = seq![SPACE] + plus_to_space(rest);
    assert(t.skip(1) =~= plus_to_space(rest));
    assert(percent_decode(t) == seq![SPACE] + percent_decode(plus_to_space(rest)));
}

/// Law: a leading `%` followed by two hexadecimal digits decodes to the byte
/// they denote, whatever follows.
pub proof fn lemma_form_decode_escape(h1: u8, h2: u8, rest: Seq<u8>)
    requires
        is_hex_digit(h1),
        is_hex_digit(h2),
    ensures
        form_decode(seq![PERCENT, h1, h2] + rest) == seq![(16 * hex_value(h1) + hex_value(h2)) as u8]
            + form_decode(rest),
{
    let s = seq![PERCENT, h1, h2] + rest;
    assert(plus_to_space(s) =~= seq![PERCENT, h1, h2] + plus_to_space(rest));
    let t = seq![PERCENT, h1, h2] + plus_to_space(rest);
    assert(t.skip(3) =~= plus_to_space(rest));
    assert(percent_decode(t) == seq![(16 * hex_value(h1) + hex_value(h2)) as u8] + percent_decode(
        plus_to_space(rest),
    ));
}

/// Law: a sequence free of `%` and `+` decodes to itself.
pub proof fn lemma_form_decode_inert(s: Seq<u8>)
    requires
        !s.contains(PERCENT),
        !s.contains(PLUS),
    ensures
        form_decode(s) == s,
    decreases s.len(),
{
    assert forall|j: int| 0 <= j < s.len() implies s[j] != PERCENT && s[j] != PLUS by {
        if s[j] == PERCENT {
            assert(s.contains(PERCENT));
        }
        if s[j] == PLUS {
            assert(s.contains(PLUS));
        }
    }
    assert(plus_to_space(s) =~= s);
    if s.len() == 0 {
        assert(percent_decode(s) =~= s);
    } else {
        let rest = s.skip(1);
        assert forall|j: int| 0 <= j < rest.len() implies rest[j] != PERCENT && rest[j] != PLUS by {
            assert(rest[j] == s[j + 1]);
        }
        assert(!rest.contains(PERCENT) && !rest.contains(PLUS));
        lemma_form_decode_inert(rest);
        assert(plus_to_space(rest) =~= rest);
        assert(percent_decode(s) == seq![s[0]] + percent_decode(rest));
        assert(seq![s[0]] + rest =~= s);
    }
}

/// The name `code` decodes to itself.
pub proof fn lemma_code_key_inert()
    ensures
        form_decode(code_key()) == code_key(),
{
    if code_key().contains(PERCENT) {
        let i = choose|i: int| 0 <= i < code_key().len() && code_key()[i] == PERCENT;
        assert(false);
    }
    if code_key().contains(PLUS) {
        let i = choose|i: int| 0 <= i < code_key().len() && code_key()[i] == PLUS;
        assert(false);
    }
    lemma_form_decode_inert(code_key());
}

/// Splitting a pair at its first `=`: with an `=`-free key, the key and the
/// value come out unchanged.
pub proof fn lemma_pair_split(key: Seq<u8>, val: Seq<u8>)
    requires
        !key.contains(EQUALS_SIGN),
    ensures
        pair_key(key + seq![EQUALS_SIGN] + val) == key,
        pair_value(key + seq![EQUALS_SIGN] + val) == val,
{
    let seg = key + seq![EQUALS_SIGN] + val;
    lemma_byte_index_concat(key, EQUALS_SIGN, val);
    assert(seg.take(key.len() as int) =~= key);
    assert(seg.skip(key.len() as int + 1) =~= val);
}

/// One step of the query scan: the first `&`-free pair either supplies the
/// code or is skipped.
pub proof fn lemma_query_code_step(seg: Seq<u8>, rest: Seq<u8>)
    requires
        !seg.contains(AMPERSAND),
        seg.len() > 0,
    ensures
        query_code(seg + seq![AMPERSAND] + rest) == (if form_decode(pair_key(seg)) == code_key() {
            Some(pair_value(seg))
        } else {
            query_code(rest)
        }),
{
    let q = seg + seq![AMPERSAND] + rest;
    lemma_byte_index_concat(seg, AMPERSAND, rest);
    assert(q.take(seg.len() as int) =~= seg);
    assert(q.skip(seg.len() as int + 1) =~= rest);
}

/// The last pair of a query: an `&`-free trailing pair either supplies the
/// code or the scan ends empty-handed.
pub proof fn lemma_query_code_last(seg: Seq<u8>)
    requires
        !seg.contains(AMPERSAND),
        seg.len() > 0,
    ensures
        query_code(seg) == (if form_decode(pair_key(seg)) == code_key() {
            Some(pair_value(seg))
        } else {
            None
        }),
{
    lemma_byte_index_absent(seg, AMPERSAND);
    assert(seg.take(seg.len() as int) =~= seg);
    assert(query_code(Seq::<u8>::empty()) is None);
}

/// The query of `path?q` is `q`, when neither part holds a further `?`.
pub proof fn lemma_url_query_split(path: Seq<u8>, q: Seq<u8>)
    requires
        !path.contains(QUESTION),
        !q.contains(QUESTION),
    ensures
        url_query(path + seq![QUESTION] + q) == Some(q),
{
    let url = path + seq![QUESTION] + q;
    lemma_byte_index_concat(path, QUESTION, q);
    assert(url.skip(path.len() as int + 1) =~= q);
    lemma_byte_index_absent(q, QUESTION);
    assert(q.take(q.len() as int) =~= q);
}

/// Law: a URL without `?` has no query and yields no code.
pub proof fn lemma_no_question_no_code(url: Seq<u8>)
    requires
        !url.contains(QUESTION),
    ensures
        extracted_code(url) is None,
{
    lemma_byte_index_absent(url, QUESTION);
}

/// A `key=value` pair, as bytes.
pub open spec fn pair_of(key: Seq<u8>, val: Seq<u8>) -> Seq<u8> {
    key + seq![EQUALS_SIGN] + val
}

/// Whether a key or value may stand in a two-pair query without disturbing
/// the pair structure: it holds no `&` and no `?`.
pub open spec fn plain_in_query(s: Seq<u8>) -> bool {
    !s.contains(AMPERSAND) && !s.contains(QUESTION)
}

proof fn lemma_pair_of_plain(key: Seq<u8>, val: Seq<u8>)
    requires
        plain_in_query(key),
        plain_in_query(val),
    ensures
        !pair_of(key, val).contains(AMPERSAND),
        !pair_of(key, val).contains(QUESTION),
        pair_of(key, val).len() > 0,
{
    let seg = pair_of(key, val);
    assert forall|j: int| 0 <= j < seg.len() implies seg[j] != AMPERSAND && seg[j] != QUESTION by {
        if j < key.len() {
            if seg[j] == AMPERSAND {
                assert(key.contains(AMPERSAND));
            }
            if seg[j] == QUESTION {
                assert(key.contains(QUESTION));
            }
        } else if j > key.len() {
            assert(seg[j] == val[j - key.len() - 1]);
            if seg[j] == AMPERSAND {
                assert(val.contains(AMPERSAND));
            }
            if seg[j] == QUESTION {
                assert(val.contains(QUESTION));
            }
        }
    }
    if seg.contains(AMPERSAND) {
        let i = choose|i: int| 0 <= i < seg.len() && seg[i] == AMPERSAND;
        assert(false);
    }
    if seg.contains(QUESTION) {
        let i = choose|i: int| 0 <= i < seg.len() && seg[i] == QUESTION;
        assert(false);
    }
}

proof fn lemma_two_pair_query(k1: Seq<u8>, v1: Seq<u8>, k2: Seq<u8>, v2: Seq<u8>)
    requires
        plain_in_query(k1),
        plain_in_query(v1),
        plain_in_query(k2),
        plain_in_query(v2),
        !k1.contains(EQUALS_SIGN),
        !k2.contains(EQUALS_SIGN),
    ensures
        query_code(pair_of(k1, v1) + seq![AMPERSAND] + pair_of(k2, v2)) == (if form_decode(k1)
            == code_key() {
            Some(v1)
        } else if form_decode(k2) == code_key() {
            Some(v2)
        } else {
            None
        }),
{
    lemma_pair_of_plain(k1, v1);
    lemma_pair_of_plain(k2, v2);
    lemma_pair_split(k1, v1);
    lemma_pair_split(k2, v2);
    lemma_query_code_step(pair_of(k1, v1), pair_of(k2, v2));
    lemma_query_code_last(pair_of(k2, v2));
}

/// Law: in a URL `path?code=x&okey=oval`, or `path?okey=oval&code=x`, where
/// the other pair's decoded key is not `code`, the extractor yields exactly
/// `x`, form-decoded — the order of the parameters does not matter.
pub proof fn lemma_extract_code_both_orders(path: Seq<u8>, x: Seq<u8>, okey: Seq<u8>, oval: Seq<u8>)
    requires
        !path.contains(QUESTION),
        plain_in_query(x),
        plain_in_query(okey),
        plain_in_query(oval),
        !okey.contains(EQUALS_SIGN),
        form_decode(okey) != code_key(),
    ensures
        extracted_code(path + seq![QUESTION] + (pair_of(code_key(), x) + seq![AMPERSAND] + pair_of(
            okey,
            oval,
        ))) == Some(form_decode(x)),
        extracted_code(path + seq![QUESTION] + (pair_of(okey, oval) + seq![AMPERSAND] + pair_of(
            code_key(),
            x,
        ))) == Some(form_decode(x)),
{
    lemma_code_key_plain();
    lemma_code_key_inert();
    let q1 = pair_of(code_key(), x) + seq![AMPERSAND] + pair_of(okey, oval);
    let q2 = pair_of(okey, oval) + seq![AMPERSAND] + pair_of(code_key(), x);
    lemma_pair_of_plain(code_key(), x);
    lemma_pair_of_plain(okey, oval);
    lemma_query_plain(pair_of(code_key(), x), pair_of(okey, oval));
    lemma_query_plain(pair_of(okey, oval), pair_of(code_key(), x));
    lemma_two_pair_query(code_key(), x, okey, oval);
    lemma_two_pair_query(okey, oval, code_key(), x);
    lemma_url_query_split(path, q1);
    lemma_url_query_split(path, q2);
}

/// Law: in a URL `path?k1=v1&k2=v2` where neither decoded key is `code`,
/// the extractor yields nothing.
pub proof fn lemma_no_code_two_pairs(
    path: Seq<u8>,
    k1: Seq<u8>,
    v1: Seq<u8>,
    k2: Seq<u8>,
    v2: Seq<u8>,
)
    requires
        !path.contains(QUESTION),
        plain_in_query(k1),
        plain_in_query(v1),
        plain_in_query(k2),
        plain_in_query(v2),
        !k1.contains(EQUALS_SIGN),
        !k2.contains(EQUALS_SIGN),
        form_decode(k1) != code_key(),
        form_decode(k2) != code_key(),
    ensures
        extracted_code(path + seq![QUESTION] + (pair_of(k1, v1) + seq![AMPERSAND] + pair_of(
            k2,
            v2,
        ))) is None,
{
    let q = pair_of(k1, v1) + seq![AMPERSAND] + pair_of(k2, v2);
    lemma_pair_of_plain(k1, v1);
    lemma_pair_of_plain(k2, v2);
    lemma_query_plain(pair_of(k1, v1), pair_of(k2, v2));
    lemma_two_pair_query(k1, v1, k2, v2);
    lemma_url_query_split(path, q);
}

/// The name `code` holds none of the delimiter bytes.
proof fn lemma_code_key_plain()
    ensures
        plain_in_query(code_key()),
        !code_key().contains(EQUALS_SIGN),
{
    if code_key().contains(AMPERSAND) {
        let i = choose|i: int| 0 <= i < code_key().len() && code_key()[i] == AMPERSAND;
        assert(false);
    }
    if code_key().contains(QUESTION) {
        let i = choose|i: int| 0 <= i < code_key().len() && code_key()[i] == QUESTION;
        assert(false);
    }
    if code_key().contains(EQUALS_SIGN) {
        let i = choose|i: int| 0 <= i < code_key().len() && code_key()[i] == EQUALS_SIGN;
        assert(false);
    }
}

/// A two-pair query built of plain parts holds no `?`.
proof fn lemma_query_plain(seg1: Seq<u8>, seg2: Seq<u8>)
    requires
        !seg1.contains(QUESTION),
        !seg2.contains(QUESTION),
    ensures
        !(seg1 + seq![AMPERSAND] + seg2).contains(QUESTION),
{
    let q = seg1 + seq![AMPERSAND] + seg2;
    assert forall|j: int| 0 <= j < q.len() implies q[j] != QUESTION by {
        if j < seg1.len() {
            if q[j] == QUESTION {
                assert(seg1.contains(QUESTION));
            }
        } else if j > seg1.len() {
            assert(q[j] == seg2[j - seg1.len() - 1]);
            if q[j] == QUESTION {
                assert(seg2.contains(QUESTION));
            }
        }
    }
    if q.contains(QUESTION) {
        let i = choose|i: int| 0 <= i < q.len() && q[i] == QUESTION;
        assert(false);
    }
}


/// The non-empty `&`-separated segments of a query, in order.
pub open spec fn segments(q: Seq<u8>) -> Seq<Seq<u8>>
    decreases q.len(),
    via segments_dec
{
    if q.len() == 0 {
        Seq::empty()
    } else {
        let e = byte_index(q, AMPERSAND) as int;
        let seg = q.take(e);
        let rest = if e < q.len() {
            q.skip(e + 1)
        } else {
            Seq::<u8>::empty()
        };
        let head: Seq<Seq<u8>> = if seg.len() == 0 {
            Seq::empty()
        } else {
            seq![seg]
        };
        head + segments(rest)
    }
}

#[via_fn]
proof fn segments_dec(q: Seq<u8>) {
    lemma_byte_index_props(q, AMPERSAND);
}

/// Whether a pair's decoded key is `code`.
pub open spec fn has_code_key(seg: Seq<u8>) -> bool {
    form_decode(pair_key(seg)) == code_key()
}

/// Law: the scan of a query is characterized by its segment list. It finds
/// nothing exactly when no segment's decoded key is `code`; otherwise it
/// yields the value of the first segment whose decoded key is `code` —
/// wherever in the query that pair stands.
pub proof fn lemma_query_code_characterization(q: Seq<u8>)
    ensures
        match query_code(q) {
            None => forall|k: int| 0 <= k < segments(q).len() ==> !has_code_key(
                #[trigger] segments(q)[k],
            ),
            Some(v) => exists|k: int|
                0 <= k < segments(q).len() && has_code_key(#[trigger] segments(q)[k]) && v
                    == pair_value(segments(q)[k]) && (forall|j: int| 0 <= j < k ==> !has_code_key(
                    #[trigger] segments(q)[j],
                )),
        },
    decreases q.len(),
{
    lemma_byte_index_props(q, AMPERSAND);
    if q.len() > 0 {
        let e = byte_index(q, AMPERSAND) as int;
        let seg = q.take(e);
        let rest = if e < q.len() {
            q.skip(e + 1)
        } else {
            Seq::<u8>::empty()
        };
        lemma_query_code_characterization(rest);
        if seg.len() == 0 {
            assert(segments(q) =~= segments(rest));
        } else if has_code_key(seg) {
            assert(segments(q)[0] == seg);
            assert(query_code(q) == Some(pair_value(seg)));
        } else {
            assert(segments(q)[0] == seg);
            assert(forall|k: int| 1 <= k < segments(q).len() ==> #[trigger] segments(q)[k]
                == segments(rest)[k - 1]);
            match query_code(rest) {
                None => {
                    assert forall|k: int| 0 <= k < segments(q).len() implies !has_code_key(
                        #[trigger] segments(q)[k],
                    ) by {
                        if k > 0 {
                            assert(!has_code_key(segments(rest)[k - 1]));
                        }
                    }
                },
                Some(v) => {
                    let k0 = choose|k0: int|
                        0 <= k0 < segments(rest).len() && has_code_key(
                            #[trigger] segments(rest)[k0],
                        ) && v == pair_value(segments(rest)[k0]) && (forall|j: int|
                            0 <= j < k0 ==> !has_code_key(#[trigger] segments(rest)[j]));
                    assert(segments(q)[k0 + 1] == segments(rest)[k0]);
                    assert forall|j: int| 0 <= j < k0 + 1 implies !has_code_key(
                        #[trigger] segments(q)[j],
                    ) by {
                        if j > 0 {
                            assert(!has_code_key(segments(rest)[j - 1]));
                        }
                    }
                    assert(0 <= k0 + 1 < segments(q).len() && has_code_key(segments(q)[k0 + 1])
                        && v == pair_value(segments(q)[k0 + 1]));
                },
            }
        }
    }
}


/// Law: a URL `path?q` yields no code exactly when no pair of its query has
/// the decoded key `code` — whatever the parameters are and in whatever
/// order they stand.
pub proof fn lemma_extracted_code_none_iff(path: Seq<u8>, q: Seq<u8>)
    requires
        !path.contains(QUESTION),
        !q.contains(QUESTION),
    ensures
        extracted_code(path + seq![QUESTION] + q) is None <==> (forall|k: int|
            0 <= k < segments(q).len() ==> !has_code_key(#[trigger] segments(q)[k])),
{
    lemma_url_query_split(path, q);
    lemma_query_code_characterization(q);
    match query_code(q) {
        None => {
        },
        Some(v) => {
            let k0 = choose|k0: int|
                0 <= k0 < segments(q).len() && has_code_key(#[trigger] segments(q)[k0]) && v
                    == pair_value(segments(q)[k0]) && (forall|j: int|
                    0 <= j < k0 ==> !has_code_key(#[trigger] segments(q)[j]));
            assert(has_code_key(segments(q)[k0]));
        },
    }
}

} // verus!

//! Byte-level scanning primitives shared by the query-string and theme-file
//! parsers: first-occurrence search and slice equality, each tied to a
//! recursive specification.

use vstd::prelude::*;

verus! {

// ASCII bytes that the parsers look for, by name: Verus takes no byte
// literals.
pub const QUESTION: u8 = 63;

pub const AMPERSAND: u8 = 38;

pub const EQUALS_SIGN: u8 = 61;

pub const PERCENT: u8 = 37;

pub const PLUS: u8 = 43;

pub const SPACE: u8 = 32;

pub const TAB: u8 = 9;

pub const LINE_FEED: u8 = 10;

pub const CARRIAGE_RETURN: u8 = 13;

pub const SEMICOLON: u8 = 59;

/// The index of the first occurrence of `b` in `s`, or `s.len()` when `b`
/// does not occur.
pub open spec fn byte_index(s: Seq<u8>, b: u8) -> nat
    decreases s.len(),
{
    if s.len() == 0 {
        0
    } else if s[0] == b {
        0
    } else {
        (1 + byte_index(s.drop_first(), b)) as nat
    }
}

/// `byte_index` is a position in `0 ..= s.len()`, points at `b` unless it is
/// `s.len()`, and nothing before it is `b`.
pub proof fn lemma_byte_index_props(s: Seq<u8>, b: u8)
    ensures
        byte_index(s, b) <= s.len(),
        byte_index(s, b) < s.len() ==> s[byte_index(s, b) as int] == b,
        forall|j: int| 0 <= j < byte_index(s, b) ==> s[j] != b,
    decreases s.len(),
{
    if s.len() > 0 && s[0] != b {
        lemma_byte_index_props(s.drop_first(), b);
        assert forall|j: int| 0 <= j < byte_index(s, b) implies s[j] != b by {
            if j > 0 {
                assert(s.drop_first()[j - 1] != b);
            }
        }
    }
}

/// Any position with the three properties of `lemma_byte_index_props` is
/// `byte_index` itself.
pub proof fn lemma_byte_index_unique(s: Seq<u8>, b: u8, i: int)
    requires
        0 <= i <= s.len(),
        i < s.len() ==> s[i] == b,
        forall|j: int| 0 <= j < i ==> s[j] != b,
    ensures
        i == byte_index(s, b),
{
    lemma_byte_index_props(s, b);
    let k = byte_index(s, b) as int;
    if k < i {
        assert(s[k] != b);
    }
    if i < k {
        assert(s[i] != b);
    }
}

/// A sequence free of `b` has `byte_index` equal to its length.
pub proof fn lemma_byte_index_absent(s: Seq<u8>, b: u8)
    requires
        !s.contains(b),
    ensures
        byte_index(s, b) == s.len(),
{
    assert forall|j: int| 0 <= j < s.len() implies s[j] != b by {
        if s[j] == b {
            assert(s.contains(b));
        }
    }
    lemma_byte_index_unique(s, b, s.len() as int);
}

/// When everything before a literal `b` is free of `b`, the first occurrence
/// in `pre + [b] + post` is exactly at `pre.len()`.
pub proof fn lemma_byte_index_concat(pre: Seq<u8>, b: u8, post: Seq<u8>)
    requires
        !pre.contains(b),
    ensures
        byte_index(pre + seq![b] + post, b) == pre.len(),
{
    let s = pre + seq![b] + post;
    assert forall|j: int| 0 <= j < pre.len() implies s[j] != b by {
        if s[j] == b {
            assert(pre[j] == b);
            assert(pre.contains(b));
        }
    }
    assert(s[pre.len() as int] == b);
    lemma_byte_index_unique(s, b, pre.len() as int);
}

/// First occurrence of `b` in `s`, or `s.len()` when absent.
pub fn find_byte(s: &[u8], b: u8) -> (i: usize)
    ensures
        i == byte_index(s@, b),
{
    let n: usize = s.len();
    let mut i: usize = 0;
    while i < n
        invariant
            0 <= i <= n,
            n == s@.len(),
            forall|j: int| 0 <= j < i ==> s@[j] != b,
        decreases n - i,
    {
        if s[i] == b {
            proof {
                lemma_byte_index_unique(s@, b, i as int);
            }
            return i;
        }
        i = i + 1;
    }
    proof {
        lemma_byte_index_unique(s@, b, n as int);
    }
    n
}

/// How many leading bytes of `s` satisfy `f`.
pub open spec fn count_while(s: Seq<u8>, f: spec_fn(u8) -> bool) -> nat
    decreases s.len(),
{
    if s.len() > 0 && f(s[0]) {
        (1 + count_while(s.drop_first(), f)) as nat
    } else {
        0
    }
}

/// Any position whose prefix satisfies `f` and which itself does not is
/// `count_while`.
pub proof fn lemma_count_while_unique(s: Seq<u8>, f: spec_fn(u8) -> bool, i: int)
    requires
        0 <= i <= s.len(),
        forall|j: int| 0 <= j < i ==> f(s[j]),
        i < s.len() ==> !f(s[i]),
    ensures
        count_while(s, f) == i,
    decreases i,
{
    if i > 0 {
        let t = s.drop_first();
        assert forall|j: int| 0 <= j < i - 1 implies f(t[j]) by {
            assert(t[j] == s[j + 1]);
        }
        if i - 1 < t.len() {
            assert(t[i - 1] == s[i]);
        }
        lemma_count_while_unique(t, f, i - 1);
    }
}

/// How many trailing bytes of `s` satisfy `f`.
pub open spec fn count_while_end(s: Seq<u8>, f: spec_fn(u8) -> bool) -> nat
    decreases s.len(),
{
    if s.len() > 0 && f(s.last()) {
        (1 + count_while_end(s.drop_last(), f)) as nat
    } else {
        0
    }
}

/// Any count of trailing bytes that satisfy `f`, bounded by a byte that does
/// not, is `count_while_end`.
pub proof fn lemma_count_while_end_unique(s: Seq<u8>, f: spec_fn(u8) -> bool, i: int)
    requires
        0 <= i <= s.len(),
        forall|j: int| s.len() - i <= j < s.len() ==> f(s[j]),
        i < s.len() ==> !f(s[s.len() - 1 - i]),
    ensures
        count_while_end(s, f) == i,
    decreases i,
{
    if i > 0 {
        let t = s.drop_last();
        assert forall|j: int| t.len() - (i - 1) <= j < t.len() implies f(t[j]) by {
            assert(t[j] == s[j]);
        }
        if i - 1 < t.len() {
            assert(t[t.len() - 1 - (i - 1)] == s[s.len() - 1 - i]);
        }
        lemma_count_while_end_unique(t, f, i - 1);
    }
}

/// The position of the first occurrence of `p` as a contiguous subsequence
/// of `s`, if any.
pub open spec fn first_match(s: Seq<u8>, p: Seq<u8>) -> Option<nat>
    decreases s.len(),
{
    if p.len() == 0 {
        Some(0)
    } else if s.len() < p.len() {
        None
    } else if s.take(p.len() as int) == p {
        Some(0)
    } else {
        match first_match(s.drop_first(), p) {
            Some(i) => Some((i + 1) as nat),
            None => None,
        }
    }
}

/// A position where `p` occurs, with no occurrence before it, is
/// `first_match`.
pub proof fn lemma_first_match_unique(s: Seq<u8>, p: Seq<u8>, i: int)
    requires
        p.len() > 0,
        0 <= i,
        i + p.len() <= s.len(),
        s.subrange(i, i + p.len()) == p,
        forall|j: int| 0 <= j < i ==> #[trigger] s.subrange(j, j + p.len()) != p,
    ensures
        first_match(s, p) == Some(i as nat),
    decreases i,
{
    let j0: int = 0;
    if i == 0 {
        assert(s.take(p.len() as int) =~= s.subrange(j0, j0 + p.len()));
    } else {
        assert(s.subrange(j0, j0 + p.len()) != p);
        assert(s.take(p.len() as int) =~= s.subrange(j0, j0 + p.len()));
        let t = s.drop_first();
        assert(t.subrange(i - 1, i - 1 + p.len()) =~= s.subrange(i, i + p.len()));
        assert forall|j: int| 0 <= j < i - 1 implies #[trigger] t.subrange(j, j + p.len()) != p by {
            assert(t.subrange(j, j + p.len()) =~= s.subrange(j + 1, j + 1 + p.len()));
        }
        lemma_first_match_unique(t, p, i - 1);
    }
}

/// When `p` occurs nowhere in `s`, `first_match` finds nothing.
pub proof fn lemma_first_match_none(s: Seq<u8>, p: Seq<u8>)
    requires
        p.len() > 0,
        forall|j: int| 0 <= j && j + p.len() <= s.len() ==> #[trigger] s.subrange(j, j + p.len()) != p,
    ensures
        first_match(s, p) is None,
    decreases s.len(),
{
    if s.len() >= p.len() {
        let j0: int = 0;
        assert(s.subrange(j0, j0 + p.len()) != p);
        assert(s.take(p.len() as int) =~= s.subrange(j0, j0 + p.len()));
        let t = s.drop_first();
        assert forall|j: int| 0 <= j && j + p.len() <= t.len() implies #[trigger] t.subrange(j, j + p.len())
            != p by {
            assert(t.subrange(j, j + p.len()) =~= s.subrange(j + 1, j + 1 + p.len()));
        }
        lemma_first_match_none(t, p);
    }
}

/// The position of the first occurrence of `p` as a contiguous run of bytes
/// in `s`, if any.
pub fn find_sub(s: &[u8], p: &[u8]) -> (r: Option<usize>)
    requires
        p@.len() > 0,
    ensures
        match r {
            Some(i) => first_match(s@, p@) == Some(i as nat) && i + p@.len() <= s@.len()
                && s@.subrange(i as int, i as int + p@.len()) == p@,
            None => first_match(s@, p@) is None,
        },
{
    if p.len() > s.len() {
        proof {
            lemma_first_match_none(s@, p@);
        }
        return None;
    }
    let n: usize = s.len();
    let bound: usize = n - p.len();
    let mut i: usize = 0;
    loop
        invariant
            0 <= i <= bound + 1,
            n == s@.len(),
            bound == s@.len() - p@.len(),
            p@.len() > 0,
            p@.len() <= s@.len(),
            forall|j: int| 0 <= j < i ==> #[trigger] s@.subrange(j, j + p@.len()) != p@,
        decreases bound + 1 - i,
    {
        if i > bound {
            proof {
                lemma_first_match_none(s@, p@);
            }
            return None;
        }
        let window = &s[i..i + p.len()];
        if bytes_eq(window, p) {
            proof {
                lemma_first_match_unique(s@, p@, i as int);
            }
            return Some(i);
        }
        i = i + 1;
    }
}

/// Whether `s` begins with the bytes of `p`.
pub fn has_prefix(s: &[u8], p: &[u8]) -> (r: bool)
    ensures
        r == (s@.len() >= p@.len() && s@.take(p@.len() as int) == p@),
{
    if s.len() < p.len() {
        return false;
    }
    let head = &s[0..p.len()];
    bytes_eq(head, p)
}

/// Whether two byte slices hold the same bytes.
pub fn bytes_eq(a: &[u8], b: &[u8]) -> (r: bool)
    ensures
        r == (a@ == b@),
{
    if a.len() != b.len() {
        return false;
    }
    let n: usize = a.len();
    let mut i: usize = 0;
    while i < n
        invariant
            0 <= i <= n,
            n == a@.len(),
            n == b@.len(),
            forall|j: int| 0 <= j < i ==> a@[j] == b@[j],
        decreases n - i,
    {
        if a[i] != b[i] {
            return false;
        }
        i = i + 1;
    }
    proof {
        assert(a@ =~= b@);
    }
    true
}

} // verus!

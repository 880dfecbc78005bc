//! The GTK theme subsystem's pure logic: parsing `@define-color`
//! declarations and `@import url(...)` directives out of CSS text, reading
//! the dark-theme preference out of `settings.ini` text, and the debounce
//! decisions of the directory watcher. All file reading, path resolution
//! and event plumbing stay with the caller.

use vstd::prelude::*;

use crate::query::bytes_to_string_lossy;
use crate::query::lossy_decode;
use crate::scan::byte_index;
use crate::scan::bytes_eq;
use crate::scan::count_while;
use crate::scan::count_while_end;
use crate::scan::find_byte;
use crate::scan::find_sub;
use crate::scan::first_match;
use crate::scan::has_prefix;
use crate::scan::lemma_byte_index_props;
use crate::scan::lemma_count_while_end_unique;
use crate::scan::lemma_count_while_unique;
use crate::scan::{SPACE, TAB, LINE_FEED, CARRIAGE_RETURN, SEMICOLON, EQUALS_SIGN};
use vstd::utf8::encode_utf8;

verus! {

/// A double quote.
pub const DOUBLE_QUOTE: u8 = 34;

/// A single quote.
pub const SINGLE_QUOTE: u8 = 39;

/// A closing parenthesis.
pub const CLOSE_PAREN: u8 = 41;

/// The ASCII whitespace bytes that line trimming removes.
pub open spec fn is_space_byte(b: u8) -> bool {
    b == SPACE || b == TAB || b == LINE_FEED || b == CARRIAGE_RETURN || b == 11 || b == 12
}

/// The leading-whitespace predicate, as one shared value.
pub open spec fn space_pred() -> spec_fn(u8) -> bool {
    |b: u8| is_space_byte(b)
}

/// The trailing-semicolon predicate, as one shared value.
pub open spec fn semi_pred() -> spec_fn(u8) -> bool {
    |b: u8| b == SEMICOLON
}

/// The quote predicate, as one shared value.
pub open spec fn quote_pred() -> spec_fn(u8) -> bool {
    |b: u8| b == DOUBLE_QUOTE || b == SINGLE_QUOTE
}

/// Whether a byte may stand inside an `url(...)` path: anything up to the
/// first quote or closing parenthesis.
pub open spec fn path_char_pred() -> spec_fn(u8) -> bool {
    |b: u8| b != DOUBLE_QUOTE && b != SINGLE_QUOTE && b != CLOSE_PAREN
}

/// `s` without its leading ASCII whitespace.
pub open spec fn trim_start_bytes(s: Seq<u8>) -> Seq<u8> {
    s.skip(count_while(s, space_pred()) as int)
}

/// `s` without its trailing ASCII whitespace.
pub open spec fn trim_end_bytes(s: Seq<u8>) -> Seq<u8> {
    s.take(s.len() - count_while_end(s, space_pred()))
}

/// `s` without leading or trailing ASCII whitespace.
pub open spec fn trim_bytes_spec(s: Seq<u8>) -> Seq<u8> {
    trim_end_bytes(trim_start_bytes(s))
}

/// `s` without its trailing semicolons.
pub open spec fn strip_semicolons(s: Seq<u8>) -> Seq<u8> {
    s.take(s.len() - count_while_end(s, semi_pred()))
}

/// Whether `b` is an ASCII whitespace byte.
fn is_space_exec(b: u8) -> (r: bool)
    ensures
        r == is_space_byte(b),
{
    b == SPACE || b == TAB || b == LINE_FEED || b == CARRIAGE_RETURN || b == 11 || b == 12
}

/// `s` without leading or trailing ASCII whitespace.
fn trim_bytes(s: &[u8]) -> (r: &[u8])
    ensures
        r@ == trim_bytes_spec(s@),
{
    let n: usize = s.len();
    let mut a: usize = 0;
    while a < n && is_space_exec(s[a])
        invariant
            0 <= a <= n,
            n == s@.len(),
            forall|j: int| 0 <= j < a ==> is_space_byte(s@[j]),
        decreases n - a,
    {
        a = a + 1;
    }
    proof {
        lemma_count_while_unique(s@, space_pred(), a as int);
    }
    let t = &s[a..n];
    assert(t@ =~= trim_start_bytes(s@));
    let m: usize = t.len();
    let mut e: usize = m;
    while e > 0 && is_space_exec(t[e - 1])
        invariant
            0 <= e <= m,
            m == t@.len(),
            forall|j: int| e <= j < m ==> is_space_byte(t@[j]),
        decreases e,
    {
        e = e - 1;
    }
    proof {
        lemma_count_while_end_unique(t@, space_pred(), m - e);
    }
    let r = &t[0..e];
    assert(r@ =~= trim_end_bytes(t@));
    r
}

/// The bytes of `dc_prefix`, built at run time.
fn dc_prefix_vec() -> (v: Vec<u8>)
    ensures
        v@ == dc_prefix(),
{
    let mut v: Vec<u8> = Vec::new();
    v.push(64);
    v.push(100);
    v.push(101);
    v.push(102);
    v.push(105);
    v.push(110);
    v.push(101);
    v.push(45);
    v.push(99);
    v.push(111);
    v.push(108);
    v.push(111);
    v.push(114);
    v.push(32);
    proof {
        assert(v@ =~= dc_prefix());
    }
    v
}

/// The bytes of `dc_marker`, built at run time.
fn dc_marker_vec() -> (v: Vec<u8>)
    ensures
        v@ == dc_marker(),
{
    let mut v: Vec<u8> = Vec::new();
    v.push(64);
    v.push(100);
    v.push(101);
    v.push(102);
    v.push(105);
    v.push(110);
    v.push(101);
    v.push(45);
    v.push(99);
    v.push(111);
    v.push(108);
    v.push(111);
    v.push(114);
    proof {
        assert(v@ =~= dc_marker());
    }
    v
}

/// The bytes of `import_prefix`, built at run time.
fn import_prefix_vec() -> (v: Vec<u8>)
    ensures
        v@ == import_prefix(),
{
    let mut v: Vec<u8> = Vec::new();
    v.push(64);
    v.push(105);
    v.push(109);
    v.push(112);
    v.push(111);
    v.push(114);
    v.push(116);
    proof {
        assert(v@ =~= import_prefix());
    }
    v
}

/// The bytes of `url_marker`, built at run time.
fn url_marker_vec() -> (v: Vec<u8>)
    ensures
        v@ == url_marker(),
{
    let mut v: Vec<u8> = Vec::new();
    v.push(117);
    v.push(114);
    v.push(108);
    v.push(40);
    proof {
        assert(v@ =~= url_marker());
    }
    v
}

/// The bytes of `dark_key`, built at run time.
fn dark_key_vec() -> (v: Vec<u8>)
    ensures
        v@ == dark_key(),
{
    let mut v: Vec<u8> = Vec::new();
    v.push(103);
    v.push(116);
    v.push(107);
    v.push(45);
    v.push(97);
    v.push(112);
    v.push(112);
    v.push(108);
    v.push(105);
    v.push(99);
    v.push(97);
    v.push(116);
    v.push(105);
    v.push(111);
    v.push(110);
    v.push(45);
    v.push(112);
    v.push(114);
    v.push(101);
    v.push(102);
    v.push(101);
    v.push(114);
    v.push(45);
    v.push(100);
    v.push(97);
    v.push(114);
    v.push(107);
    v.push(45);
    v.push(116);
    v.push(104);
    v.push(101);
    v.push(109);
    v.push(101);
    proof {
        assert(v@ =~= dark_key());
    }
    v
}

/// The bytes of `true_bytes`, built at run time.
fn true_bytes_vec() -> (v: Vec<u8>)
    ensures
        v@ == true_bytes(),
{
    let mut v: Vec<u8> = Vec::new();
    v.push(116);
    v.push(114);
    v.push(117);
    v.push(101);
    proof {
        assert(v@ =~= true_bytes());
    }
    v
}

/// The bytes of `@define-color ` (the declaration prefix, trailing space
/// included).
pub open spec fn dc_prefix() -> Seq<u8> {
    seq![64u8, 100u8, 101u8, 102u8, 105u8, 110u8, 101u8, 45u8, 99u8, 111u8, 108u8, 111u8, 114u8, 32u8]
}

/// The bytes of `@define-color` (the bare marker a theme file is searched
/// for).
pub open spec fn dc_marker() -> Seq<u8> {
    seq![64u8, 100u8, 101u8, 102u8, 105u8, 110u8, 101u8, 45u8, 99u8, 111u8, 108u8, 111u8, 114u8]
}

/// The bytes of `@import`.
pub open spec fn import_prefix() -> Seq<u8> {
    seq![64u8, 105u8, 109u8, 112u8, 111u8, 114u8, 116u8]
}

/// The bytes of `url(`.
pub open spec fn url_marker() -> Seq<u8> {
    seq![117u8, 114u8, 108u8, 40u8]
}

/// The bytes of `gtk-application-prefer-dark-theme`.
pub open spec fn dark_key() -> Seq<u8> {
    seq![103u8, 116u8, 107u8, 45u8, 97u8, 112u8, 112u8, 108u8, 105u8, 99u8, 97u8, 116u8, 105u8, 111u8, 110u8, 45u8, 112u8, 114u8, 101u8, 102u8, 101u8, 114u8, 45u8, 100u8, 97u8, 114u8, 107u8, 45u8, 116u8, 104u8, 101u8, 109u8, 101u8]
}

/// The bytes of `true`.
pub open spec fn true_bytes() -> Seq<u8> {
    seq![116u8, 114u8, 117u8, 101u8]
}

/// What one CSS line declares: a trimmed line of the form
/// `@define-color <name> <value>`, with the value's trailing semicolons and
/// surrounding whitespace removed; nothing otherwise.
pub open spec fn line_color_entry(line: Seq<u8>) -> Option<(Seq<u8>, Seq<u8>)> {
    let t = trim_bytes_spec(line);
    if t.len() >= dc_prefix().len() && t.take(dc_prefix().len() as int) == dc_prefix() {
        let rest = t.skip(dc_prefix().len() as int);
        let sp = byte_index(rest, SPACE) as int;
        if sp < rest.len() {
            Some((rest.take(sp), trim_bytes_spec(strip_semicolons(rest.skip(sp + 1)))))
        } else {
            None
        }
    } else {
        None
    }
}

/// The `@define-color` declarations of a CSS text, line by line, in order.
pub open spec fn color_pairs(css: Seq<u8>) -> Seq<(Seq<u8>, Seq<u8>)>
    decreases css.len(),
    via color_pairs_dec
{
    if css.len() == 0 {
        Seq::empty()
    } else {
        let e = byte_index(css, LINE_FEED) as int;
        let line = css.take(e);
        let rest = if e < css.len() {
            css.skip(e + 1)
        } else {
            Seq::<u8>::empty()
        };
        let head: Seq<(Seq<u8>, Seq<u8>)> = match line_color_entry(line) {
            Some(p) => seq![p],
            None => Seq::empty(),
        };
        head + color_pairs(rest)
    }
}

#[via_fn]
proof fn color_pairs_dec(css: Seq<u8>) {
    lemma_byte_index_props(css, LINE_FEED);
}

/// The `@define-color` declaration of one line, if any, as strings.
fn line_color_entry_exec(line: &[u8]) -> (r: Option<(String, String)>)
    ensures
        r is Some <==> line_color_entry(line@) is Some,
        r matches Some(p) ==> (line_color_entry(line@) matches Some(q) && p.0@ == lossy_decode(
            q.0,
        ) && p.1@ == lossy_decode(q.1)),
{
    let t = trim_bytes(line);
    let prefix = dc_prefix_vec();
    if !has_prefix(t, prefix.as_slice()) {
        return None;
    }
    let rest = &t[prefix.len()..t.len()];
    assert(rest@ =~= trim_bytes_spec(line@).skip(dc_prefix().len() as int));
    let sp = find_byte(rest, SPACE);
    proof {
        lemma_byte_index_props(rest@, SPACE);
    }
    if sp == rest.len() {
        return None;
    }
    let name = &rest[0..sp];
    assert(name@ =~= rest@.take(sp as int));
    let after = &rest[sp + 1..rest.len()];
    assert(after@ =~= rest@.skip(sp as int + 1));
    let m: usize = after.len();
    let mut e: usize = m;
    while e > 0 && after[e - 1] == SEMICOLON
        invariant
            0 <= e <= m,
            m == after@.len(),
            forall|j: int| e <= j < m ==> after@[j] == SEMICOLON,
        decreases e,
    {
        e = e - 1;
    }
    proof {
        lemma_count_while_end_unique(after@, semi_pred(), m - e);
    }
    let stripped = &after[0..e];
    assert(stripped@ =~= strip_semicolons(after@));
    let value = trim_bytes(stripped);
    Some((bytes_to_string_lossy(name), bytes_to_string_lossy(value)))
}

/// The names and values of all `@define-color` declarations in `css`, in
/// order of declaration. A name declared twice appears twice; the later
/// entry is the one a map built from the list keeps.
pub fn parse_define_colors(css: &str) -> (r: Vec<(String, String)>)
    ensures
        r@.len() == color_pairs(encode_utf8(css@)).len(),
        forall|k: int| 0 <= k < r@.len() ==> #[trigger] r@[k].0@ == lossy_decode(
            color_pairs(encode_utf8(css@))[k].0,
        ) && r@[k].1@ == lossy_decode(color_pairs(encode_utf8(css@))[k].1),
{
    let bytes: &[u8] = css.as_bytes();
    let n: usize = bytes.len();
    let mut out: Vec<(String, String)> = Vec::new();
    let ghost total = color_pairs(bytes@);
    let ghost mut done: Seq<(Seq<u8>, Seq<u8>)> = Seq::empty();
    let mut pos: usize = 0;
    proof {
        assert(bytes@.skip(0) =~= bytes@);
    }
    while pos < n
        invariant
            0 <= pos <= n,
            n == bytes@.len(),
            total == color_pairs(bytes@),
            total == done + color_pairs(bytes@.skip(pos as int)),
            out@.len() == done.len(),
            forall|k: int| 0 <= k < done.len() ==> #[trigger] out@[k].0@ == lossy_decode(done[k].0)
                && out@[k].1@ == lossy_decode(done[k].1),
        decreases n - pos,
    {
        let ghost rem = bytes@.skip(pos as int);
        let remslice = &bytes[pos..n];
        assert(remslice@ =~= rem);
        let e = find_byte(remslice, LINE_FEED);
        proof {
            lemma_byte_index_props(rem, LINE_FEED);
        }
        let line = &remslice[0..e];
        assert(line@ =~= rem.take(e as int));
        match line_color_entry_exec(line) {
            Some(p) => {
                out.push(p);
                proof {
                    done = done.push(line_color_entry(line@).unwrap());
                }
            },
            None => {
            },
        }
        if e < remslice.len() {
            pos = pos + e + 1;
            proof {
                assert(rem.skip(e as int + 1) =~= bytes@.skip(pos as int));
            }
        } else {
            pos = n;
            proof {
                assert(bytes@.skip(n as int) =~= Seq::<u8>::empty());
            }
        }
        proof {
            assert(color_pairs(Seq::<u8>::empty()) =~= Seq::<(Seq<u8>, Seq<u8>)>::empty());
            assert(total == done + color_pairs(bytes@.skip(pos as int)));
        }
    }
    proof {
        assert(bytes@.skip(n as int) =~= Seq::<u8>::empty());
        assert(color_pairs(Seq::<u8>::empty()) =~= Seq::<(Seq<u8>, Seq<u8>)>::empty());
        assert(done + Seq::<(Seq<u8>, Seq<u8>)>::empty() =~= done);
    }
    out
}

/// Whether the CSS text mentions `@define-color` at all.
pub fn contains_define_color(css: &str) -> (r: bool)
    ensures
        r == (first_match(encode_utf8(css@), dc_marker()) is Some),
{
    let bytes: &[u8] = css.as_bytes();
    let marker = dc_marker_vec();
    match find_sub(bytes, marker.as_slice()) {
        Some(_) => true,
        None => false,
    }
}

/// The path written in one `@import url(...)` line, if any: the trimmed
/// line must start with `@import` and contain `url(`; the path is what
/// stands after `url(` and any opening quotes, up to the first quote or
/// closing parenthesis.
pub open spec fn line_import_entry(line: Seq<u8>) -> Option<Seq<u8>> {
    let t = trim_bytes_spec(line);
    if t.len() >= import_prefix().len() && t.take(import_prefix().len() as int)
        == import_prefix() {
        let rest = t.skip(import_prefix().len() as int);
        match first_match(rest, url_marker()) {
            Some(i) => {
                let after = rest.skip(i as int + url_marker().len() as int);
                let unquoted = after.skip(count_while(after, quote_pred()) as int);
                Some(unquoted.take(count_while(unquoted, path_char_pred()) as int))
            },
            None => None,
        }
    } else {
        None
    }
}

/// The paths of all `@import url(...)` lines of `css`, in order.
pub open spec fn import_path_list(css: Seq<u8>) -> Seq<Seq<u8>>
    decreases css.len(),
    via import_path_list_dec
{
    if css.len() == 0 {
        Seq::empty()
    } else {
        let e = byte_index(css, LINE_FEED) as int;
        let line = css.take(e);
        let rest = if e < css.len() {
            css.skip(e + 1)
        } else {
            Seq::<u8>::empty()
        };
        let head: Seq<Seq<u8>> = match line_import_entry(line) {
            Some(p) => seq![p],
            None => Seq::empty(),
        };
        head + import_path_list(rest)
    }
}

#[via_fn]
proof fn import_path_list_dec(css: Seq<u8>) {
    lemma_byte_index_props(css, LINE_FEED);
}

/// The `@import url(...)` path of one line, if any, as a string.
fn line_import_entry_exec(line: &[u8]) -> (r: Option<String>)
    ensures
        r is Some <==> line_import_entry(line@) is Some,
        r matches Some(p) ==> (line_import_entry(line@) matches Some(q) && p@ == lossy_decode(q)),
{
    let t = trim_bytes(line);
    let prefix = import_prefix_vec();
    if !has_prefix(t, prefix.as_slice()) {
        return None;
    }
    let rest = &t[prefix.len()..t.len()];
    assert(rest@ =~= trim_bytes_spec(line@).skip(import_prefix().len() as int));
    let marker = url_marker_vec();
    let i = match find_sub(rest, marker.as_slice()) {
        Some(i) => i,
        None => {
            return None;
        },
    };
    let after = &rest[i + marker.len()..rest.len()];
    assert(after@ =~= rest@.skip(i as int + url_marker().len() as int));
    let la: usize = after.len();
    let mut a: usize = 0;
    while a < la && (after[a] == DOUBLE_QUOTE || after[a] == SINGLE_QUOTE)
        invariant
            0 <= a <= la,
            la == after@.len(),
            forall|j: int| 0 <= j < a ==> (after@[j] == DOUBLE_QUOTE || after@[j] == SINGLE_QUOTE),
        decreases la - a,
    {
        a = a + 1;
    }
    proof {
        lemma_count_while_unique(after@, quote_pred(), a as int);
    }
    let unquoted = &after[a..la];
    assert(unquoted@ =~= after@.skip(count_while(after@, quote_pred()) as int));
    let lu: usize = unquoted.len();
    let mut c: usize = 0;
    while c < lu && unquoted[c] != DOUBLE_QUOTE && unquoted[c] != SINGLE_QUOTE && unquoted[c]
        != CLOSE_PAREN
        invariant
            0 <= c <= lu,
            lu == unquoted@.len(),
            forall|j: int| 0 <= j < c ==> (unquoted@[j] != DOUBLE_QUOTE && unquoted@[j]
                != SINGLE_QUOTE && unquoted@[j] != CLOSE_PAREN),
        decreases lu - c,
    {
        c = c + 1;
    }
    proof {
        lemma_count_while_unique(unquoted@, path_char_pred(), c as int);
    }
    let path = &unquoted[0..c];
    assert(path@ =~= unquoted@.take(count_while(unquoted@, path_char_pred()) as int));
    Some(bytes_to_string_lossy(path))
}

/// The paths of all `@import url(...)` lines of `css`, in order, as
/// strings. The caller resolves each against the file system and keeps the
/// first that exists.
pub fn import_paths(css: &str) -> (r: Vec<String>)
    ensures
        r@.len() == import_path_list(encode_utf8(css@)).len(),
        forall|k: int| 0 <= k < r@.len() ==> #[trigger] r@[k]@ == lossy_decode(
            import_path_list(encode_utf8(css@))[k],
        ),
{
    let bytes: &[u8] = css.as_bytes();
    let n: usize = bytes.len();
    let mut out: Vec<String> = Vec::new();
    let ghost total = import_path_list(bytes@);
    let ghost mut done: Seq<Seq<u8>> = Seq::empty();
    let mut pos: usize = 0;
    proof {
        assert(bytes@.skip(0) =~= bytes@);
    }
    while pos < n
        invariant
            0 <= pos <= n,
            n == bytes@.len(),
            total == import_path_list(bytes@),
            total == done + import_path_list(bytes@.skip(pos as int)),
            out@.len() == done.len(),
            forall|k: int| 0 <= k < done.len() ==> #[trigger] out@[k]@ == lossy_decode(done[k]),
        decreases n - pos,
    {
        let ghost rem = bytes@.skip(pos as int);
        let remslice = &bytes[pos..n];
        assert(remslice@ =~= rem);
        let e = find_byte(remslice, LINE_FEED);
        proof {
            lemma_byte_index_props(rem, LINE_FEED);
        }
        let line = &remslice[0..e];
        assert(line@ =~= rem.take(e as int));
        match line_import_entry_exec(line) {
            Some(p) => {
                out.push(p);
                proof {
                    done = done.push(line_import_entry(line@).unwrap());
                }
            },
            None => {
            },
        }
        if e < remslice.len() {
            pos = pos + e + 1;
            proof {
                assert(rem.skip(e as int + 1) =~= bytes@.skip(pos as int));
            }
        } else {
            pos = n;
            proof {
                assert(bytes@.skip(n as int) =~= Seq::<u8>::empty());
            }
        }
        proof {
            assert(import_path_list(Seq::<u8>::empty()) =~= Seq::<Seq<u8>>::empty());
            assert(total == done + import_path_list(bytes@.skip(pos as int)));
        }
    }
    proof {
        assert(bytes@.skip(n as int) =~= Seq::<u8>::empty());
        assert(import_path_list(Seq::<u8>::empty()) =~= Seq::<Seq<u8>>::empty());
        assert(done + Seq::<Seq<u8>>::empty() =~= done);
    }
    out
}

/// Upper-case ASCII letters lowered, all else unchanged.
pub open spec fn ascii_lower(s: Seq<u8>) -> Seq<u8> {
    s.map_values(|b: u8| if 65 <= b && b <= 90 { (b + 32) as u8 } else { b })
}

/// Upper-case ASCII letters lowered, all else unchanged.
fn ascii_lower_exec(s: &[u8]) -> (r: Vec<u8>)
    ensures
        r@ == ascii_lower(s@),
{
    let n: usize = s.len();
    let mut r: Vec<u8> = Vec::new();
    let mut i: usize = 0;
    while i < n
        invariant
            0 <= i <= n,
            n == s@.len(),
            r@ == ascii_lower(s@.take(i as int)),
        decreases n - i,
    {
        if 65 <= s[i] && s[i] <= 90 {
            r.push(s[i] + 32);
        } else {
            r.push(s[i]);
        }
        i = i + 1;
        proof {
            assert(r@ =~= ascii_lower(s@.take(i as int)));
        }
    }
    proof {
        assert(s@.take(n as int) =~= s@);
    }
    r
}

/// What one settings line says about the dark preference: a trimmed line
/// `gtk-application-prefer-dark-theme ... = <v>` answers whether the
/// trimmed, lowered `<v>` is `true` or `1`; a line without the key, or with
/// the key but no `=`, says nothing.
pub open spec fn line_dark_entry(line: Seq<u8>) -> Option<bool> {
    let t = trim_bytes_spec(line);
    if t.len() >= dark_key().len() && t.take(dark_key().len() as int) == dark_key() {
        let rest = t.skip(dark_key().len() as int);
        let e = byte_index(rest, EQUALS_SIGN) as int;
        if e < rest.len() {
            let v = ascii_lower(trim_bytes_spec(rest.skip(e + 1)));
            Some(v == true_bytes() || v == seq![49u8])
        } else {
            None
        }
    } else {
        None
    }
}

/// The dark preference of a settings text: what its first line with the
/// key and an `=` answers, or `false` when no line does.
pub open spec fn dark_pref(content: Seq<u8>) -> bool
    decreases content.len(),
    via dark_pref_dec
{
    if content.len() == 0 {
        false
    } else {
        let e = byte_index(content, LINE_FEED) as int;
        let line = content.take(e);
        let rest = if e < content.len() {
            content.skip(e + 1)
        } else {
            Seq::<u8>::empty()
        };
        match line_dark_entry(line) {
            Some(b) => b,
            None => dark_pref(rest),
        }
    }
}

#[via_fn]
proof fn dark_pref_dec(content: Seq<u8>) {
    lemma_byte_index_props(content, LINE_FEED);
}

/// What one settings line says about the dark preference, if anything.
fn line_dark_entry_exec(line: &[u8]) -> (r: Option<bool>)
    ensures
        r == line_dark_entry(line@),
{
    let t = trim_bytes(line);
    let key = dark_key_vec();
    if !has_prefix(t, key.as_slice()) {
        return None;
    }
    let rest = &t[key.len()..t.len()];
    assert(rest@ =~= trim_bytes_spec(line@).skip(dark_key().len() as int));
    let e = find_byte(rest, EQUALS_SIGN);
    proof {
        lemma_byte_index_props(rest@, EQUALS_SIGN);
    }
    if e == rest.len() {
        return None;
    }
    let raw = &rest[e + 1..rest.len()];
    assert(raw@ =~= rest@.skip(e as int + 1));
    let trimmed = trim_bytes(raw);
    let low = ascii_lower_exec(trimmed);
    let tr = true_bytes_vec();
    let is_true = bytes_eq(low.as_slice(), tr.as_slice());
    let is_one = low.len() == 1 && low[0] == 49;
    proof {
        if is_one {
            assert(low@ =~= seq![49u8]);
        }
        if low@ == seq![49u8] {
            assert(low@.len() == 1 && low@[0] == 49);
        }
    }
    Some(is_true || is_one)
}

/// Whether the settings text asks for the dark theme:
/// `gtk-application-prefer-dark-theme` set to `true` or `1` (in any case),
/// on the first line that carries the key with an `=`; `false` otherwise.
pub fn dark_preference_from_ini(content: &str) -> (r: bool)
    ensures
        r == dark_pref(encode_utf8(content@)),
{
    let bytes: &[u8] = content.as_bytes();
    let n: usize = bytes.len();
    let mut pos: usize = 0;
    proof {
        assert(bytes@.skip(0) =~= bytes@);
    }
    while pos < n
        invariant
            0 <= pos <= n,
            n == bytes@.len(),
            bytes@ == encode_utf8(content@),
            dark_pref(bytes@) == dark_pref(bytes@.skip(pos as int)),
        decreases n - pos,
    {
        let ghost rem = bytes@.skip(pos as int);
        let remslice = &bytes[pos..n];
        assert(remslice@ =~= rem);
        let e = find_byte(remslice, LINE_FEED);
        proof {
            lemma_byte_index_props(rem, LINE_FEED);
        }
        let line = &remslice[0..e];
        assert(line@ =~= rem.take(e as int));
        match line_dark_entry_exec(line) {
            Some(b) => {
                proof {
                    assert(dark_pref(rem) == b);
                }
                return b;
            },
            None => {
            },
        }
        if e < remslice.len() {
            pos = pos + e + 1;
            proof {
                assert(rem.skip(e as int + 1) =~= bytes@.skip(pos as int));
            }
        } else {
            pos = n;
            proof {
                assert(bytes@.skip(n as int) =~= Seq::<u8>::empty());
            }
        }
    }
    false
}

/// The parsed GTK theme: its color declarations, the dark preference, and
/// the path of the file the colors came from, when one was found.
#[derive(Clone, Debug)]
pub struct GtkThemeColors {
    /// The `@define-color` declarations, in order of declaration.
    pub colors: Vec<(String, String)>,
    /// Whether `settings.ini` asks for the dark theme.
    pub prefer_dark: bool,
    /// The theme CSS file the colors came from, if any.
    pub theme_path: Option<String>,
}

/// How long a burst of change notifications is coalesced before one
/// theme-changed notification goes out, in milliseconds.
pub const DEBOUNCE_MS: u64 = 200;

/// Where the watcher's loop stands.
#[derive(Clone, Copy, Debug, PartialEq, Eq, Structural)]
pub enum WatchPhase {
    /// Waiting, unhurried, for the next change.
    Idle,
    /// A change arrived; draining the burst until a quiet period passes.
    Draining,
    /// The event source is gone; the loop is over.
    Stopped,
}

/// What the watcher's loop observed while waiting.
#[derive(Clone, Copy, Debug, PartialEq, Eq, Structural)]
pub enum WatchEvent {
    /// A change notification arrived.
    Changed,
    /// The debounce window elapsed with no further change.
    QuietPeriod,
    /// The event source disconnected.
    Disconnected,
}

/// The next phase and whether to emit the theme-changed notification now.
pub open spec fn spec_watch_step(phase: WatchPhase, ev: WatchEvent) -> (WatchPhase, bool) {
    match (phase, ev) {
        (WatchPhase::Idle, WatchEvent::Changed) => (WatchPhase::Draining, false),
        (WatchPhase::Idle, WatchEvent::QuietPeriod) => (WatchPhase::Idle, false),
        (WatchPhase::Idle, WatchEvent::Disconnected) => (WatchPhase::Stopped, false),
        (WatchPhase::Draining, WatchEvent::Changed) => (WatchPhase::Draining, false),
        (WatchPhase::Draining, WatchEvent::QuietPeriod) => (WatchPhase::Idle, true),
        (WatchPhase::Draining, WatchEvent::Disconnected) => (WatchPhase::Idle, true),
        (WatchPhase::Stopped, _) => (WatchPhase::Stopped, false),
    }
}

/// One decision of the watcher's loop: a change starts or extends a
/// drain; a quiet period ends the drain and emits one notification; a
/// disconnect during a drain still emits the pending notification, and a
/// disconnect while idle stops the loop for good.
pub fn watch_step(phase: WatchPhase, ev: WatchEvent) -> (r: (WatchPhase, bool))
    ensures
        r == spec_watch_step(phase, ev),
        r.1 ==> phase is Draining,
        phase is Stopped ==> r.0 is Stopped && !r.1,
{
    match (phase, ev) {
        (WatchPhase::Idle, WatchEvent::Changed) => (WatchPhase::Draining, false),
        (WatchPhase::Idle, WatchEvent::QuietPeriod) => (WatchPhase::Idle, false),
        (WatchPhase::Idle, WatchEvent::Disconnected) => (WatchPhase::Stopped, false),
        (WatchPhase::Draining, WatchEvent::Changed) => (WatchPhase::Draining, false),
        (WatchPhase::Draining, WatchEvent::QuietPeriod) => (WatchPhase::Idle, true),
        (WatchPhase::Draining, WatchEvent::Disconnected) => (WatchPhase::Idle, true),
        (WatchPhase::Stopped, _) => (WatchPhase::Stopped, false),
    }
}

} // verus!

//! The pure half of the generic URL fetch: once the transport has produced
//! a status and a body, decide what the caller receives. A status outside
//! the success range becomes the message `HTTP <status>`, with the status
//! printed in decimal.

use vstd::prelude::*;

verus! {

/// The decimal digit `d` as a character.
pub open spec fn digit_char(d: nat) -> char
    recommends
        d < 10,
{
    if d == 0 {
        '0'
    } else if d == 1 {
        '1'
    } else if d == 2 {
        '2'
    } else if d == 3 {
        '3'
    } else if d == 4 {
        '4'
    } else if d == 5 {
        '5'
    } else if d == 6 {
        '6'
    } else if d == 7 {
        '7'
    } else if d == 8 {
        '8'
    } else {
        '9'
    }
}

/// The decimal notation of `n`, most significant digit first, without
/// leading zeros (`0` itself is written `0`).
pub open spec fn dec_digits(n: nat) -> Seq<char>
    decreases n,
{
    if n < 10 {
        seq![digit_char(n)]
    } else {
        dec_digits(n / 10) + seq![digit_char(n % 10)]
    }
}

/// Whether an HTTP status is in the success range.
pub open spec fn is_success_status(status: u16) -> bool {
    200 <= status < 300
}

/// The error message for a non-success HTTP status.
pub open spec fn http_status_message(status: u16) -> Seq<char> {
    "HTTP "@ + dec_digits(status as nat)
}

/// One decimal digit as a string.
fn digit_str(d: u16) -> (r: String)
    requires
        d < 10,
    ensures
        r@ == seq![digit_char(d as nat)],
{
    let r = match d {
        0 => String::from_str("0"),
        1 => String::from_str("1"),
        2 => String::from_str("2"),
        3 => String::from_str("3"),
        4 => String::from_str("4"),
        5 => String::from_str("5"),
        6 => String::from_str("6"),
        7 => String::from_str("7"),
        8 => String::from_str("8"),
        _ => String::from_str("9"),
    };
    proof {
        reveal_strlit("0");
        reveal_strlit("1");
        reveal_strlit("2");
        reveal_strlit("3");
        reveal_strlit("4");
        reveal_strlit("5");
        reveal_strlit("6");
        reveal_strlit("7");
        reveal_strlit("8");
        reveal_strlit("9");
        assert(r@ =~= seq![digit_char(d as nat)]);
    }
    r
}

/// The decimal notation of `n`.
pub fn u16_to_decimal(n: u16) -> (r: String)
    ensures
        r@ == dec_digits(n as nat),
    decreases n,
{
    if n < 10 {
        digit_str(n)
    } else {
        let mut prefix = u16_to_decimal(n / 10);
        let last = digit_str(n % 10);
        prefix.append(last.as_str());
        prefix
    }
}

/// What the caller of the URL fetch receives, the transport having yielded
/// an HTTP status and a body: the body on a success status, the message
/// `HTTP <status>` otherwise.
pub fn fetch_outcome(status: u16, body: String) -> (r: Result<String, String>)
    ensures
        is_success_status(status) ==> (r matches Ok(b) && b@ == body@),
        !is_success_status(status) ==> (r matches Err(m) && m@ == http_status_message(status)),
{
    if 200 <= status && status < 300 {
        Ok(body)
    } else {
        let mut m = String::from_str("HTTP ");
        let digits = u16_to_decimal(status);
        m.append(digits.as_str());
        Err(m)
    }
}

} // verus!

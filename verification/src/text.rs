//! Small text utilities shared across the crate: conversions between
//! `String` and `Vec<char>` / `Vec<u8>`, and decimal formatting of counters
//! for CSV file names.

use vstd::prelude::*;

verus! {

/// Relies on str::chars and Iterator::collect: the collected vector holds
/// exactly the characters of the string, in order.
#[verifier::external_body]
pub fn string_chars(s: &str) -> (r: Vec<char>)
    ensures
        r@ == s@,
{
    s.chars().collect()
}

/// Relies on String's FromIterator<char>: the collected string holds exactly
/// the characters of the vector, in order.
#[verifier::external_body]
pub fn chars_to_string(cs: &Vec<char>) -> (r: String)
    ensures
        r@ == cs@,
{
    cs.iter().collect()
}

/// Relies on String::from_utf8: it succeeds exactly on valid UTF-8 input,
/// and the resulting string decodes those bytes.
#[verifier::external_body]
pub fn utf8_to_string(bytes: &Vec<u8>) -> (r: Option<String>)
    ensures
        r is Some <==> vstd::utf8::valid_utf8(bytes@),
        r matches Some(s) ==> s@ == vstd::utf8::decode_utf8(bytes@),
{
    String::from_utf8(bytes.clone()).ok()
}

/// The character of a single decimal digit.
pub open spec fn digit_char(d: int) -> char {
    ((d + 48) as u8) as char
}

/// The decimal digit characters of `n`, most significant first.
pub open spec fn dec_chars(n: nat) -> Seq<char>
    decreases n,
{
    if n < 10 {
        seq![digit_char(n as int)]
    } else {
        dec_chars(n / 10).push(digit_char((n % 10) as int))
    }
}

fn digit_to_char(d: u8) -> (c: char)
    requires
        d < 10,
    ensures
        c == digit_char(d as int),
{
    (48 + d) as char
}

/// Formats `n` in decimal, most significant digit first.
pub fn u32_to_chars(n: u32) -> (r: Vec<char>)
    ensures
        r@ == dec_chars(n as nat),
    decreases n,
{
    if n < 10 {
        let mut r: Vec<char> = Vec::new();
        r.push(digit_to_char(n as u8));
        r
    } else {
        let mut r = u32_to_chars(n / 10);
        r.push(digit_to_char((n % 10) as u8));
        r
    }
}

/// Formats `n` as exactly two decimal digits, zero-padded.
pub fn two_digit_chars(n: u8) -> (r: Vec<char>)
    requires
        n < 100,
    ensures
        r@ == seq![digit_char(n as int / 10), digit_char(n as int % 10)],
{
    let mut r: Vec<char> = Vec::new();
    r.push(digit_to_char(n / 10));
    r.push(digit_to_char(n % 10));
    r
}

} // verus!

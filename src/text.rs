//! Small text helpers over `String`, with their character-level models.
use vstd::prelude::*;
use vstd::utf8::{decode_utf8, valid_utf8};

verus! {

/// Relies on `String::push`: the character is appended at the end.
#[verifier::external_body]
pub(crate) fn push_char(s: &mut String, c: char)
    ensures
        final(s)@ == old(s)@.push(c),
{
    s.push(c)
}

/// Relies on `String::push_str`: the text is appended at the end.
#[verifier::external_body]
pub(crate) fn push_text(s: &mut String, t: &str)
    ensures
        final(s)@ == old(s)@ + t@,
{
    s.push_str(t)
}

/// Relies on `str::ends_with` with a `char` pattern.
#[verifier::external_body]
pub(crate) fn ends_with_char(s: &String, c: char) -> (r: bool)
    ensures
        r == (s@.len() > 0 && s@.last() == c),
{
    s.ends_with(c)
}

/// Relies on `std::str::from_utf8`: it accepts exactly the valid UTF-8
/// byte strings, and then yields the characters they encode.
#[verifier::external_body]
pub(crate) fn utf8_text(p: &[u8], start: usize, end: usize) -> (r: Option<String>)
    requires
        start <= end <= p@.len(),
    ensures
        r.is_some() == valid_utf8(p@.subrange(start as int, end as int)),
        r matches Some(s) ==> s@ == decode_utf8(p@.subrange(start as int, end as int)),
{
    match std::str::from_utf8(&p[start..end]) {
        Ok(s) => Some(s.to_string()),
        Err(_) => None,
    }
}

/// The decimal digit `d` as a character.
pub open spec fn digit_char(d: int) -> char {
    if d == 0 { '0' } else if d == 1 { '1' } else if d == 2 { '2' } else if d == 3 { '3' }
    else if d == 4 { '4' } else if d == 5 { '5' } else if d == 6 { '6' } else if d == 7 { '7' }
    else if d == 8 { '8' } else if d == 9 { '9' } else if d == 10 { 'a' } else if d == 11 { 'b' }
    else if d == 12 { 'c' } else if d == 13 { 'd' } else if d == 14 { 'e' } else { 'f' }
}

fn digit(d: u8) -> (c: char)
    requires
        d < 16,
    ensures
        c == digit_char(d as int),
{
    match d {
        0 => '0', 1 => '1', 2 => '2', 3 => '3', 4 => '4', 5 => '5', 6 => '6', 7 => '7',
        8 => '8', 9 => '9', 10 => 'a', 11 => 'b', 12 => 'c', 13 => 'd', 14 => 'e', _ => 'f',
    }
}

/// Decimal text of a byte, without leading zeros.
pub open spec fn decimal_text(b: u8) -> Seq<char> {
    let n = b as int;
    if n >= 100 {
        seq![digit_char(n / 100), digit_char((n / 10) % 10), digit_char(n % 10)]
    } else if n >= 10 {
        seq![digit_char(n / 10), digit_char(n % 10)]
    } else {
        seq![digit_char(n)]
    }
}

/// Lowercase hexadecimal text of a 16-bit group, without leading zeros.
pub open spec fn hex_text(w: u16) -> Seq<char> {
    let v = w as int;
    if v >= 0x1000 {
        seq![digit_char(v / 0x1000), digit_char((v / 0x100) % 16), digit_char((v / 16) % 16), digit_char(v % 16)]
    } else if v >= 0x100 {
        seq![digit_char(v / 0x100), digit_char((v / 16) % 16), digit_char(v % 16)]
    } else if v >= 16 {
        seq![digit_char(v / 16), digit_char(v % 16)]
    } else {
        seq![digit_char(v)]
    }
}

pub(crate) fn push_decimal(s: &mut String, n: u8)
    ensures
        final(s)@ == old(s)@ + decimal_text(n),
{
    let ghost s0 = s@;
    if n >= 100 {
        push_char(s, digit(n / 100));
        push_char(s, digit((n / 10) % 10));
        push_char(s, digit(n % 10));
    } else if n >= 10 {
        push_char(s, digit(n / 10));
        push_char(s, digit(n % 10));
    } else {
        push_char(s, digit(n));
    }
    assert(s@ =~= s0 + decimal_text(n));
}

pub(crate) fn push_hex(s: &mut String, v: u16)
    ensures
        final(s)@ == old(s)@ + hex_text(v),
{
    let ghost s0 = s@;
    if v >= 0x1000 {
        push_char(s, digit((v / 0x1000) as u8));
        push_char(s, digit(((v / 0x100) % 16) as u8));
        push_char(s, digit(((v / 16) % 16) as u8));
        push_char(s, digit((v % 16) as u8));
    } else if v >= 0x100 {
        push_char(s, digit((v / 0x100) as u8));
        push_char(s, digit(((v / 16) % 16) as u8));
        push_char(s, digit((v % 16) as u8));
    } else if v >= 16 {
        push_char(s, digit((v / 16) as u8));
        push_char(s, digit((v % 16) as u8));
    } else {
        push_char(s, digit(v as u8));
    }
    assert(s@ =~= s0 + hex_text(v));
}

} // verus!

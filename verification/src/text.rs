use vstd::prelude::*;

use crate::models::{ipv4_octets, octets};

verus! {

/// Calls `String::push`. Claimed, as std documents it: the character is
/// appended to the end of the string.
#[verifier::external_body]
pub(crate) fn push_char(s: &mut String, c: char)
    ensures
        final(s)@ == old(s)@.push(c),
{
    s.push(c);
}

/// The character of a decimal digit.
pub open spec fn digit_char(d: u8) -> char {
    (48 + d) as char
}

/// The decimal numeral of a byte, without leading zeros.
pub open spec fn decimal(n: u8) -> Seq<char> {
    if n < 10 {
        seq![digit_char(n)]
    } else if n < 100 {
        seq![digit_char(n / 10), digit_char(n % 10)]
    } else {
        seq![digit_char(n / 100), digit_char((n / 10) % 10), digit_char(n % 10)]
    }
}

/// The dotted-decimal text of an IPv4 address.
pub open spec fn ipv4_text(ip: u32) -> Seq<char> {
    let o = ipv4_octets(ip);
    decimal(o[0]) + seq!['.'] + decimal(o[1]) + seq!['.'] + decimal(o[2]) + seq!['.'] + decimal(o[3])
}

/// The lower-case hexadecimal digit of a value below 16.
pub open spec fn hex_char(d: u8) -> char {
    if d < 10 { (48 + d) as char } else { (87 + d) as char }
}

/// The two lower-case hexadecimal digits of a byte.
pub open spec fn hex_byte(b: u8) -> Seq<char> {
    seq![hex_char(b / 16), hex_char(b % 16)]
}

/// `s` followed by spaces up to `width` characters; `s` itself when it is
/// already that long.
pub open spec fn pad_right(s: Seq<char>, width: nat) -> Seq<char> {
    if s.len() < width {
        s + Seq::new((width - s.len()) as nat, |i: int| ' ')
    } else {
        s
    }
}

fn push_digit(s: &mut String, d: u8)
    requires
        d < 10,
    ensures
        final(s)@ == old(s)@.push(digit_char(d)),
{
    push_char(s, (48 + d) as char);
}

/// Appends the decimal numeral of `n`.
fn push_decimal(s: &mut String, n: u8)
    ensures
        final(s)@ == old(s)@ + decimal(n),
{
    let ghost start = s@;
    if n < 10 {
        push_digit(s, n);
    } else if n < 100 {
        push_digit(s, n / 10);
        push_digit(s, n % 10);
    } else {
        push_digit(s, n / 100);
        push_digit(s, (n / 10) % 10);
        push_digit(s, n % 10);
    }
    assert(s@ =~= start + decimal(n));
}

/// The dotted-decimal text of an IPv4 address, as in "192.168.1.10".
pub fn ipv4_to_string(ip: u32) -> (text: String)
    ensures
        text@ == ipv4_text(ip),
{
    let o = octets(ip);
    let mut s = String::new();
    push_decimal(&mut s, o[0]);
    push_char(&mut s, '.');
    push_decimal(&mut s, o[1]);
    push_char(&mut s, '.');
    push_decimal(&mut s, o[2]);
    push_char(&mut s, '.');
    push_decimal(&mut s, o[3]);
    assert(s@ =~= ipv4_text(ip));
    s
}

/// Appends the two hexadecimal digits of a byte.
pub(crate) fn push_hex_byte(s: &mut String, b: u8)
    ensures
        final(s)@ == old(s)@ + hex_byte(b),
{
    let ghost start = s@;
    let hi = b / 16;
    let lo = b % 16;
    let c1: char = if hi < 10 { (48 + hi) as char } else { (87 + hi) as char };
    let c2: char = if lo < 10 { (48 + lo) as char } else { (87 + lo) as char };
    push_char(s, c1);
    push_char(s, c2);
    assert(s@ =~= start + hex_byte(b));
}

/// `s` padded with spaces on the right to `width` characters.
pub fn pad_right_to(s: &str, width: usize) -> (out: String)
    ensures
        out@ == pad_right(s@, width as nat),
{
    let len = s.unicode_len();
    let mut out = String::from_str(s);
    let mut i: usize = len;
    while i < width
        invariant
            len == s@.len(),
            len <= i,
            i <= width || len >= width,
            len >= width ==> i == len,
            out@ == s@ + Seq::new((i - len) as nat, |k: int| ' '),
        decreases width - i,
    {
        push_char(&mut out, ' ');
        i += 1;
        assert(out@ =~= s@ + Seq::new((i - len) as nat, |k: int| ' '));
    }
    if len >= width {
        assert(out@ =~= s@);
    }
    assert(out@ =~= pad_right(s@, width as nat));
    out
}

} // verus!

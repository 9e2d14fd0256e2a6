//! Human-readable descriptions of the file structures: decimal and
//! hexadecimal numbers as characters, and strings built from them.

use vstd::prelude::*;
use vstd::string::StringExecFns;

use super::text::{decimal, push_decimal, string_from_chars};

verus! {

/// The character of a hexadecimal digit, upper case.
pub open spec fn hex_digit_char(d: int) -> char {
    if d < 10 {
        ((d + 48) as u8) as char
    } else {
        ((d + 55) as u8) as char
    }
}

/// A signed number in decimal, with a minus sign when negative.
pub open spec fn signed_decimal(n: int) -> Seq<char> {
    if n < 0 {
        seq!['-'] + decimal((-n) as nat)
    } else {
        decimal(n as nat)
    }
}

/// A byte as two upper-case hexadecimal digits.
pub open spec fn hex2(b: u8) -> Seq<char> {
    seq![hex_digit_char(b as int / 16), hex_digit_char(b as int % 16)]
}

/// A 16-bit number as four upper-case hexadecimal digits.
pub open spec fn hex4(n: u16) -> Seq<char> {
    hex2((n as int / 256) as u8) + hex2((n as int % 256) as u8)
}

/// Bytes listed in hexadecimal, as in `[4B, 47]`.
pub open spec fn hex_list(bytes: Seq<u8>) -> Seq<char> {
    seq!['['] + hex_items(bytes) + seq![']']
}

/// The items of [`hex_list`], separated by ", ".
pub open spec fn hex_items(bytes: Seq<u8>) -> Seq<char>
    decreases bytes.len(),
{
    if bytes.len() == 0 {
        Seq::empty()
    } else if bytes.len() == 1 {
        hex2(bytes[0])
    } else {
        hex_items(bytes.drop_last()) + seq![',', ' '] + hex2(bytes.last())
    }
}

/// The character of the hexadecimal digit `d`.
fn hex_digit(d: u8) -> (c: char)
    requires
        d < 16,
    ensures
        c == hex_digit_char(d as int),
{
    if d < 10 {
        (d + 48u8) as char
    } else {
        (d + 55u8) as char
    }
}

/// `n` in decimal, with a minus sign when negative.
pub fn signed_string(n: i64) -> (r: String)
    ensures
        r@ == signed_decimal(n as int),
{
    let mut out: Vec<char> = Vec::new();
    if n < 0 {
        out.push('-');
        let m: u64 = if n == i64::MIN {
            0x8000_0000_0000_0000u64
        } else {
            (-n) as u64
        };
        push_decimal(&mut out, m);
    } else {
        push_decimal(&mut out, n as u64);
    }
    assert(out@ =~= signed_decimal(n as int));
    string_from_chars(&out)
}

/// Appends the two hexadecimal digits of `b`.
fn push_hex2(out: &mut Vec<char>, b: u8)
    ensures
        final(out)@ == old(out)@ + hex2(b),
{
    out.push(hex_digit(b / 16));
    out.push(hex_digit(b % 16));
    assert(final(out)@ =~= old(out)@ + hex2(b)) by {
        assert(out@ =~= old(out)@ + hex2(b));
    }
}

/// `n` as four upper-case hexadecimal digits.
pub fn hex4_string(n: u16) -> (r: String)
    ensures
        r@ == hex4(n),
{
    let mut out: Vec<char> = Vec::new();
    push_hex2(&mut out, (n / 256) as u8);
    push_hex2(&mut out, (n % 256) as u8);
    assert(out@ =~= hex4(n));
    string_from_chars(&out)
}

/// Bytes listed in hexadecimal, as in `[4B, 47]`.
pub fn hex_list_string(bytes: &[u8]) -> (r: String)
    ensures
        r@ == hex_list(bytes@),
{
    let mut out: Vec<char> = Vec::new();
    out.push('[');
    let mut i: usize = 0;
    while i < bytes.len()
        invariant
            i <= bytes@.len(),
            out@ == seq!['['] + hex_items(bytes@.subrange(0, i as int)),
        decreases bytes@.len() - i,
    {
        let ghost before = out@;
        if i > 0 {
            out.push(',');
            out.push(' ');
        }
        push_hex2(&mut out, bytes[i]);
        proof {
            let p = bytes@.subrange(0, i + 1);
            assert(p.drop_last() =~= bytes@.subrange(0, i as int));
            assert(p.last() == bytes@[i as int]);
            if i == 0 {
                assert(bytes@.subrange(0, 0) =~= Seq::<u8>::empty());
                assert(out@ =~= seq!['['] + hex_items(p));
            } else {
                assert(out@ =~= seq!['['] + hex_items(p));
            }
        }
        i = i + 1;
    }
    out.push(']');
    assert(bytes@.subrange(0, bytes@.len() as int) =~= bytes@);
    assert(out@ =~= hex_list(bytes@));
    string_from_chars(&out)
}

/// Appends `n` in decimal to `s`.
pub fn append_decimal(s: &mut String, n: u64)
    ensures
        final(s)@ == old(s)@ + decimal(n as nat),
{
    let mut out: Vec<char> = Vec::new();
    push_decimal(&mut out, n);
    assert(out@ =~= decimal(n as nat));
    let d = string_from_chars(&out);
    s.append(d.as_str());
}

} // verus!

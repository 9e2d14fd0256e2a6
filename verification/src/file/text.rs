//! Text fields stored as fixed-size byte arrays: decoding them into
//! strings, trimming, and comparing names without regard to ASCII case.

use vstd::prelude::*;
use vstd::string::StrSliceExecFns;
use vstd::string::StringSliceAdditionalSpecFns;

verus! {

/// The characters that `String::from_utf8_lossy` yields for `bytes`.
pub uninterp spec fn lossy_chars(bytes: Seq<u8>) -> Seq<char>;

/// Whether every byte is an ASCII byte.
pub open spec fn all_ascii(bytes: Seq<u8>) -> bool {
    forall|i: int| 0 <= i < bytes.len() ==> bytes[i] < 128
}

/// The characters of an ASCII byte sequence.
pub open spec fn ascii_chars(bytes: Seq<u8>) -> Seq<char> {
    Seq::new(bytes.len(), |i: int| bytes[i] as char)
}

/// Decodes bytes as UTF-8, replacing each invalid sequence by U+FFFD.
///
/// Calls `String::from_utf8_lossy`. The contract names its result and
/// states the documented fact that valid UTF-8 comes back unchanged: as
/// the characters it encodes, and for ASCII as one character per byte.
#[verifier::external_body]
fn utf8_lossy(bytes: &[u8]) -> (r: Vec<char>)
    ensures
        r@ == lossy_chars(bytes@),
        vstd::utf8::valid_utf8(bytes@) ==> r@ == vstd::utf8::decode_utf8(bytes@),
        all_ascii(bytes@) ==> r@ == ascii_chars(bytes@),
{
    String::from_utf8_lossy(bytes).chars().collect()
}

/// Builds a `String` holding exactly the given characters.
///
/// Calls `String::from_iter`; the contract claims that the string holds the
/// characters in order.
#[verifier::external_body]
pub fn string_from_chars(chars: &Vec<char>) -> (s: String)
    ensures
        s@ == chars@,
{
    String::from_iter(chars.iter())
}

/// Unicode white space, as `char::is_whitespace` classifies it.
pub open spec fn is_white(c: char) -> bool {
    ('\u{9}' <= c && c <= '\u{d}') || c == ' ' || c == '\u{85}' || c == '\u{a0}' || c
        == '\u{1680}' || ('\u{2000}' <= c && c <= '\u{200a}') || c == '\u{2028}' || c
        == '\u{2029}' || c == '\u{202f}' || c == '\u{205f}' || c == '\u{3000}'
}

/// Executable form of [`is_white`].
pub fn char_is_white(c: char) -> (r: bool)
    ensures
        r == is_white(c),
{
    ('\u{9}' <= c && c <= '\u{d}') || c == ' ' || c == '\u{85}' || c == '\u{a0}' || c
        == '\u{1680}' || ('\u{2000}' <= c && c <= '\u{200a}') || c == '\u{2028}' || c
        == '\u{2029}' || c == '\u{202f}' || c == '\u{205f}' || c == '\u{3000}'
}

/// `s` without its trailing NUL characters.
pub open spec fn strip_trailing_nul(s: Seq<char>) -> Seq<char>
    decreases s.len(),
{
    if s.len() > 0 && s.last() == '\0' {
        strip_trailing_nul(s.drop_last())
    } else {
        s
    }
}

/// `s` without its trailing white space.
pub open spec fn strip_trailing_white(s: Seq<char>) -> Seq<char>
    decreases s.len(),
{
    if s.len() > 0 && is_white(s.last()) {
        strip_trailing_white(s.drop_last())
    } else {
        s
    }
}

/// `s` without its leading white space.
pub open spec fn strip_leading_white(s: Seq<char>) -> Seq<char>
    decreases s.len(),
{
    if s.len() > 0 && is_white(s[0]) {
        strip_leading_white(s.drop_first())
    } else {
        s
    }
}

/// The name shown for a stored name field: NUL padding removed from the end,
/// then white space trimmed at both ends.
pub open spec fn trim_name(s: Seq<char>) -> Seq<char> {
    strip_leading_white(strip_trailing_white(strip_trailing_nul(s)))
}

/// The displayed name of a raw name field.
pub open spec fn spec_decode_name(raw: Seq<u8>) -> Seq<char> {
    trim_name(lossy_chars(raw))
}

proof fn lemma_strip_nul_prefix(s: Seq<char>, n: int)
    requires
        0 <= n <= s.len(),
        forall|k: int| n <= k < s.len() ==> s[k] == '\0',
        n == 0 || s[n - 1] != '\0',
    ensures
        strip_trailing_nul(s) == s.subrange(0, n),
    decreases s.len(),
{
    if s.len() > n {
        assert(s.drop_last() =~= s.subrange(0, s.len() - 1));
        lemma_strip_nul_prefix(s.drop_last(), n);
        assert(s.drop_last().subrange(0, n) =~= s.subrange(0, n));
    } else {
        assert(s.subrange(0, n) =~= s);
    }
}

proof fn lemma_strip_white_prefix(s: Seq<char>, n: int)
    requires
        0 <= n <= s.len(),
        forall|k: int| n <= k < s.len() ==> is_white(s[k]),
        n == 0 || !is_white(s[n - 1]),
    ensures
        strip_trailing_white(s) == s.subrange(0, n),
    decreases s.len(),
{
    if s.len() > n {
        lemma_strip_white_prefix(s.drop_last(), n);
        assert(s.drop_last().subrange(0, n) =~= s.subrange(0, n));
    } else {
        assert(s.subrange(0, n) =~= s);
    }
}

proof fn lemma_strip_white_suffix(s: Seq<char>, n: int)
    requires
        0 <= n <= s.len(),
        forall|k: int| 0 <= k < n ==> is_white(s[k]),
        n == s.len() || !is_white(s[n]),
    ensures
        strip_leading_white(s) == s.subrange(n, s.len() as int),
    decreases n,
{
    if n > 0 {
        lemma_strip_white_suffix(s.drop_first(), n - 1);
        assert(s.drop_first().subrange(n - 1, s.len() - 1) =~= s.subrange(n, s.len() as int));
    } else {
        assert(s.subrange(0, s.len() as int) =~= s);
    }
}

/// Removes trailing NULs, then white space at both ends.
pub fn trim_chars(s: &Vec<char>) -> (r: Vec<char>)
    ensures
        r@ == trim_name(s@),
{
    let mut end = s.len();
    while end > 0 && s[end - 1] == '\0'
        invariant
            end <= s@.len(),
            forall|k: int| end <= k < s@.len() ==> s@[k] == '\0',
        decreases end,
    {
        end = end - 1;
    }
    proof {
        lemma_strip_nul_prefix(s@, end as int);
    }
    let ghost t1 = s@.subrange(0, end as int);
    let mut end2 = end;
    while end2 > 0 && char_is_white(s[end2 - 1])
        invariant
            end2 <= end <= s@.len(),
            t1 == s@.subrange(0, end as int),
            forall|k: int| end2 <= k < end ==> is_white(s@[k]),
        decreases end2,
    {
        end2 = end2 - 1;
    }
    proof {
        lemma_strip_white_prefix(t1, end2 as int);
    }
    let ghost t2 = t1.subrange(0, end2 as int);
    let mut start: usize = 0;
    while start < end2 && char_is_white(s[start])
        invariant
            start <= end2 <= end <= s@.len(),
            t2 == s@.subrange(0, end2 as int),
            forall|k: int| 0 <= k < start ==> is_white(s@[k]),
        decreases end2 - start,
    {
        start = start + 1;
    }
    proof {
        lemma_strip_white_suffix(t2, start as int);
    }
    let mut out: Vec<char> = Vec::new();
    let mut i = start;
    while i < end2
        invariant
            start <= i <= end2 <= s@.len(),
            out@ == s@.subrange(start as int, i as int),
        decreases end2 - i,
    {
        out.push(s[i]);
        i = i + 1;
        assert(out@ =~= s@.subrange(start as int, i as int));
    }
    assert(t2.subrange(start as int, t2.len() as int) =~= s@.subrange(start as int, end2 as int));
    out
}

/// The name shown for a raw name field.
pub fn decode_name(raw: &[u8]) -> (s: String)
    ensures
        s@ == spec_decode_name(raw@),
{
    let chars = utf8_lossy(raw);
    let trimmed = trim_chars(&chars);
    string_from_chars(&trimmed)
}

/// ASCII lower-casing of a character.
pub open spec fn ascii_lower(c: char) -> char {
    if 'A' <= c && c <= 'Z' {
        ((c as u32) + 32) as char
    } else {
        c
    }
}

/// Whether two character sequences are equal ignoring ASCII case.
pub open spec fn eq_ignore_ascii_case(a: Seq<char>, b: Seq<char>) -> bool {
    a.len() == b.len() && forall|i: int| 0 <= i < a.len() ==> ascii_lower(a[i]) == ascii_lower(
        b[i],
    )
}

fn char_ascii_lower(c: char) -> (r: char)
    ensures
        r == ascii_lower(c),
{
    if 'A' <= c && c <= 'Z' {
        let b: u8 = (c as u8) + 32;
        b as char
    } else {
        c
    }
}

/// Compares a character vector with a string, ignoring ASCII case.
pub fn chars_eq_ignore_ascii_case(a: &Vec<char>, b: &str) -> (r: bool)
    ensures
        r == eq_ignore_ascii_case(a@, b@),
{
    let n = b.unicode_len();
    if a.len() != n {
        return false;
    }
    let mut i: usize = 0;
    while i < n
        invariant
            i <= n,
            n == a@.len(),
            n == b@.len(),
            forall|k: int| 0 <= k < i ==> ascii_lower(a@[k]) == ascii_lower(b@[k]),
        decreases n - i,
    {
        let ca = char_ascii_lower(a[i]);
        let cb = char_ascii_lower(b.get_char(i));
        if ca != cb {
            return false;
        }
        i = i + 1;
    }
    true
}

/// Decodes a raw name field into characters (before building a `String`).
pub fn decode_name_chars(raw: &[u8]) -> (r: Vec<char>)
    ensures
        r@ == spec_decode_name(raw@),
{
    let chars = utf8_lossy(raw);
    trim_chars(&chars)
}

/// The character of a decimal digit.
pub open spec fn digit_char(d: int) -> char {
    if d == 0 {
        '0'
    } else if d == 1 {
        '1'
    } else if d == 2 {
        '2'
    } else if d == 3 {
        '3'
    } else if d == 4 {
        '4'
    } else if d == 5 {
        '5'
    } else if d == 6 {
        '6'
    } else if d == 7 {
        '7'
    } else if d == 8 {
        '8'
    } else {
        '9'
    }
}

/// The decimal representation of `n`, without leading zeros.
pub open spec fn decimal(n: nat) -> Seq<char>
    decreases n,
{
    if n < 10 {
        seq![digit_char(n as int)]
    } else {
        decimal(n / 10).push(digit_char((n % 10) as int))
    }
}

/// Appends the characters of `s`.
pub fn push_str(out: &mut Vec<char>, s: &str)
    ensures
        final(out)@ == old(out)@ + s@,
{
    let n = s.unicode_len();
    let mut i: usize = 0;
    while i < n
        invariant
            i <= n,
            n == s@.len(),
            out@ == old(out)@ + s@.subrange(0, i as int),
        decreases n - i,
    {
        out.push(s.get_char(i));
        i = i + 1;
        assert(out@ =~= old(out)@ + s@.subrange(0, i as int));
    }
    assert(s@.subrange(0, n as int) =~= s@);
}

/// Appends the decimal representation of `n`.
pub fn push_decimal(out: &mut Vec<char>, n: u64)
    ensures
        final(out)@ == old(out)@ + decimal(n as nat),
    decreases n,
{
    if n >= 10 {
        push_decimal(out, n / 10);
    }
    let d = n % 10;
    let c = if d == 0 {
        '0'
    } else if d == 1 {
        '1'
    } else if d == 2 {
        '2'
    } else if d == 3 {
        '3'
    } else if d == 4 {
        '4'
    } else if d == 5 {
        '5'
    } else if d == 6 {
        '6'
    } else if d == 7 {
        '7'
    } else if d == 8 {
        '8'
    } else {
        '9'
    };
    out.push(c);
    assert(final(out)@ =~= old(out)@ + decimal(n as nat));
}

/// `prefix`, the decimal representation of `n`, then `suffix`.
pub fn number_message(prefix: &str, n: u64, suffix: &str) -> (r: String)
    ensures
        r@ == prefix@ + decimal(n as nat) + suffix@,
{
    let mut out: Vec<char> = Vec::new();
    push_str(&mut out, prefix);
    push_decimal(&mut out, n);
    push_str(&mut out, suffix);
    assert(out@ =~= prefix@ + decimal(n as nat) + suffix@);
    string_from_chars(&out)
}

/// The ASCII bytes of the decimal representation of `n`.
pub open spec fn decimal_bytes(n: nat) -> Seq<u8>
    decreases n,
{
    if n < 10 {
        seq![(48 + n) as u8]
    } else {
        decimal_bytes(n / 10).push((48 + n % 10) as u8)
    }
}

/// Appends the ASCII bytes of the decimal representation of `n`.
pub fn push_decimal_bytes(out: &mut Vec<u8>, n: u64)
    ensures
        final(out)@ == old(out)@ + decimal_bytes(n as nat),
    decreases n,
{
    if n >= 10 {
        push_decimal_bytes(out, n / 10);
    }
    out.push((48 + n % 10) as u8);
    assert(final(out)@ =~= old(out)@ + decimal_bytes(n as nat));
}

/// Interprets bytes as UTF-8 text, if they are valid UTF-8.
///
/// Calls `std::str::from_utf8`. The contract claims what its documentation
/// says: it succeeds exactly on valid UTF-8, and the text then consists of
/// those bytes.
#[verifier::external_body]
pub fn str_from_utf8(bytes: &[u8]) -> (r: Option<&str>)
    ensures
        r is Some <==> vstd::utf8::valid_utf8(bytes@),
        r matches Some(s) ==> s.spec_bytes() == bytes@,
{
    std::str::from_utf8(bytes).ok()
}

} // verus!

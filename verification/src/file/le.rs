//! Little-endian integer fields: their mathematical meaning and the
//! executable readers and writers used by every file format.

use vstd::prelude::*;

verus! {

/// The unsigned 16-bit value of two little-endian bytes.
pub open spec fn u16_of(b0: u8, b1: u8) -> u16 {
    (b0 as int + 256 * b1 as int) as u16
}

/// The 16-bit value stored at `off` in `s`.
pub open spec fn u16_at(s: Seq<u8>, off: int) -> u16 {
    u16_of(s[off], s[off + 1])
}

/// The 32-bit value stored at `off` in `s`.
pub open spec fn u32_at(s: Seq<u8>, off: int) -> u32 {
    (s[off] as int + 256 * s[off + 1] as int + 65536 * s[off + 2] as int + 16777216
        * s[off + 3] as int) as u32
}

/// The 64-bit value stored at `off` in `s`.
pub open spec fn u64_at(s: Seq<u8>, off: int) -> u64 {
    (u32_at(s, off) as int + 4294967296 * u32_at(s, off + 4) as int) as u64
}

/// Two's complement reading of a 16-bit field.
pub open spec fn i16_of_u16(u: u16) -> i16 {
    if u < 32768 {
        u as i16
    } else {
        (u - 65536) as i16
    }
}

/// The signed 16-bit value stored at `off` in `s`.
pub open spec fn i16_at(s: Seq<u8>, off: int) -> i16 {
    i16_of_u16(u16_at(s, off))
}

/// The two's complement bit pattern of a signed 16-bit value.
pub open spec fn u16_of_i16(x: i16) -> u16 {
    if x >= 0 {
        x as u16
    } else {
        (x + 65536) as u16
    }
}

/// Little-endian encoding of a 16-bit value.
pub open spec fn u16_bytes(x: u16) -> Seq<u8> {
    seq![(x % 256) as u8, (x / 256) as u8]
}

/// Little-endian encoding of a 32-bit value.
pub open spec fn u32_bytes(x: u32) -> Seq<u8> {
    seq![(x % 256) as u8, ((x / 256) % 256) as u8, ((x / 65536) % 256) as u8, (x / 16777216) as u8]
}

/// Little-endian encoding of a 64-bit value.
pub open spec fn u64_bytes(x: u64) -> Seq<u8> {
    u32_bytes((x % 4294967296) as u32) + u32_bytes((x / 4294967296) as u32)
}

/// Little-endian encoding of a signed 16-bit value.
pub open spec fn i16_bytes(x: i16) -> Seq<u8> {
    u16_bytes(u16_of_i16(x))
}

/// Reading back an encoded 16-bit value gives the value.
pub proof fn lemma_u16_roundtrip(x: u16, s: Seq<u8>, off: int)
    requires
        0 <= off,
        off + 2 <= s.len(),
        s.subrange(off, off + 2) == u16_bytes(x),
    ensures
        u16_at(s, off) == x,
{
    assert(s[off] == u16_bytes(x)[0]);
    assert(s[off + 1] == u16_bytes(x)[1]);
}

/// Reading back an encoded 32-bit value gives the value.
pub proof fn lemma_u32_roundtrip(x: u32, s: Seq<u8>, off: int)
    requires
        0 <= off,
        off + 4 <= s.len(),
        s.subrange(off, off + 4) == u32_bytes(x),
    ensures
        u32_at(s, off) == x,
{
    assert(s[off] == u32_bytes(x)[0]);
    assert(s[off + 1] == u32_bytes(x)[1]);
    assert(s[off + 2] == u32_bytes(x)[2]);
    assert(s[off + 3] == u32_bytes(x)[3]);
}

/// Reading back an encoded 64-bit value gives the value.
pub proof fn lemma_u64_roundtrip(x: u64, s: Seq<u8>, off: int)
    requires
        0 <= off,
        off + 8 <= s.len(),
        s.subrange(off, off + 8) == u64_bytes(x),
    ensures
        u64_at(s, off) == x,
{
    let lo = (x % 4294967296) as u32;
    let hi = (x / 4294967296) as u32;
    assert(s.subrange(off, off + 4) =~= u32_bytes(lo)) by {
        assert(u64_bytes(x).subrange(0, 4) =~= u32_bytes(lo));
        assert(s.subrange(off, off + 4) =~= s.subrange(off, off + 8).subrange(0, 4));
    }
    assert(s.subrange(off + 4, off + 8) =~= u32_bytes(hi)) by {
        assert(u64_bytes(x).subrange(4, 8) =~= u32_bytes(hi));
        assert(s.subrange(off + 4, off + 8) =~= s.subrange(off, off + 8).subrange(4, 8));
    }
    lemma_u32_roundtrip(lo, s, off);
    lemma_u32_roundtrip(hi, s, off + 4);
}

/// Reading back an encoded signed 16-bit value gives the value.
pub proof fn lemma_i16_roundtrip(x: i16, s: Seq<u8>, off: int)
    requires
        0 <= off,
        off + 2 <= s.len(),
        s.subrange(off, off + 2) == i16_bytes(x),
    ensures
        i16_at(s, off) == x,
{
    lemma_u16_roundtrip(u16_of_i16(x), s, off);
}

/// Encoding a value read from two bytes gives those two bytes back.
pub proof fn lemma_u16_bytes_of_read(s: Seq<u8>, off: int)
    requires
        0 <= off,
        off + 2 <= s.len(),
    ensures
        u16_bytes(u16_at(s, off)) =~= s.subrange(off, off + 2),
{
}

/// Reads the 16-bit little-endian value at `off`.
pub fn read_u16(data: &[u8], off: usize) -> (r: u16)
    requires
        off + 2 <= data@.len(),
    ensures
        r == u16_at(data@, off as int),
{
    data[off] as u16 + 256 * (data[off + 1] as u16)
}

/// Reads the 32-bit little-endian value at `off`.
pub fn read_u32(data: &[u8], off: usize) -> (r: u32)
    requires
        off + 4 <= data@.len(),
    ensures
        r == u32_at(data@, off as int),
{
    data[off] as u32 + 256 * (data[off + 1] as u32) + 65536 * (data[off + 2] as u32) + 16777216 * (
    data[off + 3] as u32)
}

/// Reads the 64-bit little-endian value at `off`.
pub fn read_u64(data: &[u8], off: usize) -> (r: u64)
    requires
        off + 8 <= data@.len(),
    ensures
        r == u64_at(data@, off as int),
{
    let _n = data.len();
    let lo = read_u32(data, off);
    let hi = read_u32(data, off + 4);
    lo as u64 + 4294967296 * (hi as u64)
}

/// Reads the signed 16-bit little-endian value at `off`.
pub fn read_i16(data: &[u8], off: usize) -> (r: i16)
    requires
        off + 2 <= data@.len(),
    ensures
        r == i16_at(data@, off as int),
{
    let u = read_u16(data, off);
    if u < 32768 {
        u as i16
    } else {
        (u as i32 - 65536) as i16
    }
}

/// Appends the little-endian encoding of a 16-bit value.
pub fn push_u16(out: &mut Vec<u8>, x: u16)
    ensures
        final(out)@ == old(out)@ + u16_bytes(x),
{
    out.push((x % 256) as u8);
    out.push((x / 256) as u8);
    assert(final(out)@ =~= old(out)@ + u16_bytes(x));
}

/// Appends the little-endian encoding of a 32-bit value.
pub fn push_u32(out: &mut Vec<u8>, x: u32)
    ensures
        final(out)@ == old(out)@ + u32_bytes(x),
{
    out.push((x % 256) as u8);
    out.push(((x / 256) % 256) as u8);
    out.push(((x / 65536) % 256) as u8);
    out.push((x / 16777216) as u8);
    assert(final(out)@ =~= old(out)@ + u32_bytes(x));
}

/// Appends the little-endian encoding of a 64-bit value.
pub fn push_u64(out: &mut Vec<u8>, x: u64)
    ensures
        final(out)@ == old(out)@ + u64_bytes(x),
{
    push_u32(out, (x % 4294967296) as u32);
    push_u32(out, (x / 4294967296) as u32);
    assert(final(out)@ =~= old(out)@ + u64_bytes(x));
}

/// Appends the little-endian encoding of a signed 16-bit value.
pub fn push_i16(out: &mut Vec<u8>, x: i16)
    ensures
        final(out)@ == old(out)@ + i16_bytes(x),
{
    let u: u16 = if x >= 0 {
        x as u16
    } else {
        (x as i32 + 65536) as u16
    };
    push_u16(out, u);
}

/// Appends all bytes of `s`.
pub fn push_slice(out: &mut Vec<u8>, s: &[u8])
    ensures
        final(out)@ == old(out)@ + s@,
{
    let mut i: usize = 0;
    while i < s.len()
        invariant
            i <= s@.len(),
            out@ == old(out)@ + s@.subrange(0, i as int),
        decreases s@.len() - i,
    {
        out.push(s[i]);
        i = i + 1;
        assert(out@ =~= old(out)@ + s@.subrange(0, i as int));
    }
    assert(s@.subrange(0, s@.len() as int) =~= s@);
}

/// Copies a range of a slice into a new vector.
pub fn copy_range(s: &[u8], start: usize, end: usize) -> (r: Vec<u8>)
    requires
        start <= end <= s@.len(),
    ensures
        r@ == s@.subrange(start as int, end as int),
{
    let mut out: Vec<u8> = Vec::new();
    let mut i: usize = start;
    while i < end
        invariant
            start <= i <= end <= s@.len(),
            out@ == s@.subrange(start as int, i as int),
        decreases end - i,
    {
        out.push(s[i]);
        i = i + 1;
        assert(out@ =~= s@.subrange(start as int, i as int));
    }
    out
}

/// Overwrites `buf[off..off + src.len()]` with the bytes of `src`.
pub fn write_at(buf: &mut Vec<u8>, off: usize, src: &[u8])
    requires
        off + src@.len() <= old(buf)@.len(),
    ensures
        final(buf)@ == old(buf)@.subrange(0, off as int) + src@ + old(buf)@.subrange(
            off + src@.len(),
            old(buf)@.len() as int,
        ),
{
    let _n = buf.len();
    let mut i: usize = 0;
    while i < src.len()
        invariant
            i <= src@.len(),
            off + src@.len() <= buf@.len(),
            buf@.len() <= usize::MAX,
            buf@.len() == old(buf)@.len(),
            buf@ == old(buf)@.subrange(0, off as int) + src@.subrange(0, i as int) + old(
                buf,
            )@.subrange(off + i, old(buf)@.len() as int),
        decreases src@.len() - i,
    {
        buf.set(off + i, src[i]);
        i = i + 1;
        assert(buf@ =~= old(buf)@.subrange(0, off as int) + src@.subrange(0, i as int) + old(
            buf,
        )@.subrange(off + i, old(buf)@.len() as int));
    }
    assert(src@.subrange(0, src@.len() as int) =~= src@);
}

/// A vector of `n` copies of `value`.
pub fn filled(value: u8, n: usize) -> (r: Vec<u8>)
    ensures
        r@ == Seq::new(n as nat, |i: int| value),
{
    let mut out: Vec<u8> = Vec::new();
    let mut i: usize = 0;
    while i < n
        invariant
            i <= n,
            out@ == Seq::new(i as nat, |k: int| value),
        decreases n - i,
    {
        out.push(value);
        i = i + 1;
        assert(out@ =~= Seq::new(i as nat, |k: int| value));
    }
    out
}

} // verus!

//! The bit streams of KG images: bytes read from the most significant bit
//! down, and numbers written with their most significant bit first.

use vstd::arithmetic::power2::pow2;
use vstd::prelude::*;

verus! {

/// Bit `i` of `v`, counting from the least significant bit.
pub open spec fn bit_of(v: int, i: int) -> bool
    decreases i,
{
    if i <= 0 {
        v % 2 == 1
    } else {
        bit_of(v / 2, i - 1)
    }
}

/// The bits of a byte stream, each byte from its most significant bit down.
pub open spec fn stream_bits(data: Seq<u8>) -> Seq<bool> {
    Seq::new(8 * data.len(), |p: int| bit_of(data[p / 8] as int, 7 - p % 8))
}

/// The number whose binary digits, most significant first, are `s`.
pub open spec fn bits_value(s: Seq<bool>) -> nat
    decreases s.len(),
{
    if s.len() == 0 {
        0
    } else {
        2 * bits_value(s.drop_last()) + if s.last() {
            1nat
        } else {
            0nat
        }
    }
}

/// The lowest `n` bits of `v`, most significant first.
pub open spec fn value_bits(v: int, n: int) -> Seq<bool> {
    Seq::new(n as nat, |j: int| bit_of(v, n - 1 - j))
}

/// `n` zero bits.
pub open spec fn zero_bits(n: int) -> Seq<bool> {
    Seq::new(n as nat, |j: int| false)
}

/// Bit `i` of `v` is the parity of `v / 2^i`.
pub proof fn lemma_bit_of_div(v: int, i: nat)
    requires
        v >= 0,
    ensures
        bit_of(v, i as int) == ((v / pow2(i) as int) % 2 == 1),
    decreases i,
{
    vstd::arithmetic::power2::lemma_pow2_pos(i);
    if i == 0 {
        vstd::arithmetic::power2::lemma2_to64();
    } else {
        lemma_bit_of_div(v / 2, (i - 1) as nat);
        vstd::arithmetic::power2::lemma_pow2_unfold(i);
        vstd::arithmetic::power2::lemma_pow2_pos((i - 1) as nat);
        vstd::arithmetic::div_mod::lemma_div_denominator(v, 2, pow2((i - 1) as nat) as int);
    }
}

/// The bits of `v` from bit 32 on are zero when `v` fits in 32 bits.
pub proof fn lemma_bit_of_high(v: int, i: nat)
    requires
        0 <= v < 0x1_0000_0000,
        i >= 32,
    ensures
        !bit_of(v, i as int),
{
    lemma_bit_of_div(v, i);
    vstd::arithmetic::power2::lemma2_to64();
    if i > 32 {
        vstd::arithmetic::power2::lemma_pow2_strictly_increases(32, i);
    }
    vstd::arithmetic::div_mod::lemma_basic_div(v, pow2(i) as int);
}

/// Appending a bit to a number shifts its bits up by one.
pub proof fn lemma_value_bits_push(b: int, x: bool, k: int)
    requires
        b >= 0,
        k >= 0,
    ensures
        value_bits(2 * b + if x {
            1int
        } else {
            0int
        }, k + 1) == value_bits(b, k).push(x),
{
    let v = 2 * b + if x {
        1int
    } else {
        0int
    };
    assert(v / 2 == b);
    assert forall|j: int| 0 <= j < k + 1 implies #[trigger] value_bits(v, k + 1)[j] == value_bits(
        b,
        k,
    ).push(x)[j] by {
        if j < k {
            assert(bit_of(v, k - j) == bit_of(v / 2, k - j - 1));
        }
    }
    assert(value_bits(v, k + 1) =~= value_bits(b, k).push(x));
}

/// The number of the lowest `n` bits of `v` is `v`, when `v < 2^n`.
pub proof fn lemma_bits_value_of(v: int, n: nat)
    requires
        0 <= v < pow2(n),
    ensures
        bits_value(value_bits(v, n as int)) == v,
    decreases n,
{
    if n == 0 {
        vstd::arithmetic::power2::lemma2_to64();
        assert(value_bits(v, 0) =~= Seq::<bool>::empty());
    } else {
        vstd::arithmetic::power2::lemma_pow2_unfold(n);
        let x = v % 2 == 1;
        lemma_value_bits_push(v / 2, x, n - 1);
        assert(2 * (v / 2) + (if x {
            1int
        } else {
            0int
        }) == v);
        lemma_bits_value_of(v / 2, (n - 1) as nat);
        assert(value_bits(v, n as int).drop_last() =~= value_bits(v / 2, n - 1));
    }
}

/// The bits of the number of `s` are `s`.
pub proof fn lemma_value_bits_of(s: Seq<bool>)
    ensures
        value_bits(bits_value(s) as int, s.len() as int) == s,
    decreases s.len(),
{
    if s.len() == 0 {
        assert(value_bits(0, 0) =~= s);
    } else {
        lemma_value_bits_of(s.drop_last());
        lemma_value_bits_push(bits_value(s.drop_last()) as int, s.last(), s.len() - 1);
        assert(s.drop_last().push(s.last()) =~= s);
    }
}

/// The number of `n` bits is below `2^n`.
pub proof fn lemma_bits_value_bound(s: Seq<bool>)
    ensures
        bits_value(s) < pow2(s.len()),
    decreases s.len(),
{
    if s.len() == 0 {
        vstd::arithmetic::power2::lemma2_to64();
    } else {
        lemma_bits_value_bound(s.drop_last());
        vstd::arithmetic::power2::lemma_pow2_unfold(s.len());
    }
}

/// Appending a byte appends its eight bits.
pub proof fn lemma_stream_bits_push(data: Seq<u8>, b: u8)
    ensures
        stream_bits(data.push(b)) == stream_bits(data) + value_bits(b as int, 8),
{
    let n = data.len() as int;
    assert forall|p: int| 0 <= p < 8 * (n + 1) implies #[trigger] stream_bits(data.push(b))[p] == (
    stream_bits(data) + value_bits(b as int, 8))[p] by {
        if p < 8 * n {
            assert(p / 8 < n);
        } else {
            assert(p / 8 == n);
            assert(p % 8 == p - 8 * n);
        }
    }
    assert(stream_bits(data.push(b)) =~= stream_bits(data) + value_bits(b as int, 8));
}

/// Zero bits are the low bits of 0, and their number is 0.
pub proof fn lemma_zero_bits_value(n: int)
    requires
        n >= 0,
    ensures
        bits_value(zero_bits(n)) == 0,
        zero_bits(n) == value_bits(0, n),
    decreases n,
{
    assert forall|j: int| 0 <= j < n implies !#[trigger] bit_of(0, j) by {
        lemma_bit_of_div(0, j as nat);
        vstd::arithmetic::power2::lemma_pow2_pos(j as nat);
    }
    assert(zero_bits(n) =~= value_bits(0, n));
    if n > 0 {
        lemma_zero_bits_value(n - 1);
        assert(zero_bits(n).drop_last() =~= zero_bits(n - 1));
    }
}

/// Reads the bit of a byte at `i`, counting from the least significant bit.
pub fn byte_bit(b: u8, i: u32) -> (r: bool)
    requires
        i < 8,
    ensures
        r == bit_of(b as int, i as int),
{
    let mut v: u8 = b;
    let mut k: u32 = i;
    while k > 0
        invariant
            k <= i,
            bit_of(b as int, i as int) == bit_of(v as int, k as int),
        decreases k,
    {
        v = v / 2;
        k = k - 1;
    }
    v % 2 == 1
}

/// The bytes whose bits, most significant first, are `s`, eight bits to a
/// byte (bits after the last full byte are left out).
pub open spec fn pack_bits(s: Seq<bool>) -> Seq<u8> {
    Seq::new(s.len() / 8, |i: int| bits_value(s.subrange(8 * i, 8 * i + 8)) as u8)
}

/// Packing the bits of a byte stream gives the stream back.
pub proof fn lemma_pack_stream(data: Seq<u8>)
    ensures
        pack_bits(stream_bits(data)) == data,
{
    let s = stream_bits(data);
    assert(s.len() / 8 == data.len());
    assert forall|i: int| 0 <= i < data.len() implies #[trigger] pack_bits(s)[i] == data[i] by {
        assert(s.subrange(8 * i, 8 * i + 8) =~= value_bits(data[i] as int, 8)) by {
            assert forall|k: int| 0 <= k < 8 implies s[8 * i + k] == value_bits(data[i] as int, 8)[k] by {
                assert((8 * i + k) / 8 == i && (8 * i + k) % 8 == k) by (nonlinear_arith)
                    requires
                        0 <= k < 8,
                ;
            }
        }
        vstd::arithmetic::power2::lemma2_to64();
        lemma_bits_value_of(data[i] as int, 8);
    }
    assert(pack_bits(s) =~= data);
}

} // verus!

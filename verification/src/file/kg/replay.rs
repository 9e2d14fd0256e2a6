//! Proofs that the decoder replays the encoder: each operation the encoder
//! writes is read back by one decoder step, which rebuilds exactly the
//! pixels the encoder has covered.

use vstd::arithmetic::power2::pow2;
use vstd::prelude::*;

use super::bits::{
    bits_value, lemma_bits_value_of, lemma_zero_bits_value, value_bits, zero_bits,
};
use super::decode::{
    copy_seq, copy_source, dec_step, lemma_bits_value_one, lru_position, lru_row, lru_update,
    read_at, read_length, read_op, DecState, LRU_WAYS,
};
use super::encode::{length_bits, opcode_bits};

verus! {

/// Whether the stream `s` begins with the bits `w`.
pub open spec fn extends(w: Seq<bool>, s: Seq<bool>) -> bool {
    w.len() <= s.len() && s.subrange(0, w.len() as int) == w
}

/// The decoder state that matches an encoder that has covered the first
/// `rp` pixels of `d`: those pixels, then zeros.
pub open spec fn enc_state(d: Seq<u8>, rp: int, pos: int, cur: u8, lru: Seq<u8>) -> DecState {
    DecState {
        pos,
        out: d.subrange(0, rp) + Seq::new((d.len() - rp) as nat, |i: int| 0u8),
        wp: rp,
        cur,
        lru,
    }
}

/// How many pixels from `a` on equal those from `b` on, while `b` stays
/// before `a`.
pub open spec fn run_from(d: Seq<u8>, a: int, b: int) -> nat
    decreases d.len() - a,
{
    if 0 <= b < a < d.len() && d[a] == d[b] {
        1 + run_from(d, a + 1, b + 1)
    } else {
        0
    }
}

/// The bits of a colour written after the lookup code: its index in the
/// cache row of the previous pixel when it is there, else the colour.
pub open spec fn color_bits(lru: Seq<u8>, d: Seq<u8>, rp: int, c: u8) -> Seq<bool> {
    if rp < 1 {
        value_bits(1, 1) + value_bits(c as int, 8)
    } else {
        let p = lru_position(lru_row(lru, d[rp - 1] as int), c, 0);
        if p < LRU_WAYS {
            value_bits(0, 1) + value_bits(p, 3)
        } else {
            value_bits(1, 1) + value_bits(c as int, 8)
        }
    }
}

/// A run of `run_from` pixels matches and stays within the pixels.
pub proof fn lemma_run_from(d: Seq<u8>, a: int, b: int)
    requires
        0 <= b < a <= d.len(),
    ensures
        a + run_from(d, a, b) <= d.len(),
        forall|i: int| 0 <= i < run_from(d, a, b) ==> d[a + i] == #[trigger] d[b + i],
    decreases d.len() - a,
{
    if a < d.len() && d[a] == d[b] {
        lemma_run_from(d, a + 1, b + 1);
        assert forall|i: int| 0 <= i < run_from(d, a, b) implies d[a + i] == #[trigger] d[b + i] by {
            if i > 0 {
                assert(d[(a + 1) + (i - 1)] == d[(b + 1) + (i - 1)]);
            }
        }
    }
}

/// The bits of a field inside a stretch of the stream.
pub proof fn lemma_field(s: Seq<bool>, pos: int, x: Seq<bool>, off: int, n: int)
    requires
        0 <= pos,
        pos + x.len() <= s.len(),
        s.subrange(pos, pos + x.len()) == x,
        0 <= off,
        0 <= n,
        off + n <= x.len(),
    ensures
        s.subrange(pos + off, pos + off + n) == x.subrange(off, off + n),
{
    assert(s.subrange(pos + off, pos + off + n) =~= s.subrange(pos, pos + x.len()).subrange(
        off,
        off + n,
    ));
}

/// A number written in `n` bits reads back.
pub proof fn lemma_read_value(s: Seq<bool>, pos: int, v: int, n: int)
    requires
        0 <= pos,
        0 <= n,
        pos + n <= s.len(),
        s.subrange(pos, pos + n) == value_bits(v, n),
        0 <= v < pow2(n as nat),
    ensures
        read_at(s, pos, n) == Some(v),
{
    lemma_bits_value_of(v, n as nat);
}

/// Zero bits read back as 0.
pub proof fn lemma_read_zero(s: Seq<bool>, pos: int, n: int)
    requires
        0 <= pos,
        0 <= n,
        pos + n <= s.len(),
        s.subrange(pos, pos + n) == zero_bits(n),
    ensures
        read_at(s, pos, n) == Some(0int),
{
    lemma_zero_bits_value(n);
    vstd::arithmetic::power2::lemma_pow2_pos(n as nat);
    lemma_read_value(s, pos, 0, n);
}

/// An operation code reads back.
pub proof fn lemma_read_op(s: Seq<bool>, pos: int, op: u8)
    requires
        op == 0 || op == 2 || 12 <= op <= 15,
        0 <= pos,
        pos + opcode_bits(op).len() <= s.len(),
        s.subrange(pos, pos + opcode_bits(op).len()) == opcode_bits(op),
    ensures
        read_op(s, pos) == Some((op, pos + opcode_bits(op).len())),
{
    vstd::arithmetic::power2::lemma2_to64();
    let x = opcode_bits(op);
    if op == 0 {
        lemma_read_value(s, pos, 0, 1);
    } else if op == 2 {
        reveal_with_fuel(super::bits::bit_of, 3);
        assert(x =~= seq![true, false]);
        lemma_field(s, pos, x, 0, 1);
        lemma_field(s, pos, x, 1, 1);
        lemma_bits_value_one(x.subrange(0, 1));
        lemma_bits_value_one(x.subrange(1, 2));
    } else {
        reveal_with_fuel(super::bits::bit_of, 5);
        let i = op - 12;
        assert(x =~= seq![true, true, i / 2 == 1, i % 2 == 1]);
        lemma_field(s, pos, x, 0, 1);
        lemma_field(s, pos, x, 1, 1);
        lemma_field(s, pos, x, 2, 2);
        lemma_bits_value_one(x.subrange(0, 1));
        lemma_bits_value_one(x.subrange(1, 2));
        let y = x.subrange(2, 4);
        assert(y.drop_last() =~= x.subrange(2, 3));
        lemma_bits_value_one(x.subrange(2, 3));
        assert(bits_value(y) == 2 * bits_value(y.drop_last()) + if y.last() {
            1nat
        } else {
            0nat
        });
    }
}

/// A copy length of at least 1 reads back.
pub proof fn lemma_read_length(s: Seq<bool>, pos: int, v: u32)
    requires
        v >= 1,
        0 <= pos,
        pos + length_bits(v).len() <= s.len(),
        s.subrange(pos, pos + length_bits(v).len()) == length_bits(v),
    ensures
        read_length(s, pos) == Some((v as int, pos + length_bits(v).len())),
{
    vstd::arithmetic::power2::lemma2_to64();
    let x = length_bits(v);
    if 1 <= v <= 3 {
        lemma_read_value(s, pos, v as int, 2);
    } else if 4 <= v <= 18 {
        lemma_field(s, pos, x, 0, 2);
        lemma_field(s, pos, x, 2, 4);
        assert(x.subrange(0, 2) =~= zero_bits(2));
        assert(x.subrange(2, 6) =~= value_bits(v - 3, 4));
        lemma_read_zero(s, pos, 2);
        lemma_read_value(s, pos + 2, v - 3, 4);
    } else if 19 <= v <= 255 {
        lemma_field(s, pos, x, 0, 2);
        lemma_field(s, pos, x, 2, 4);
        lemma_field(s, pos, x, 6, 8);
        assert(x.subrange(0, 2) =~= zero_bits(2));
        assert(x.subrange(2, 6) =~= zero_bits(4));
        assert(x.subrange(6, 14) =~= value_bits(v as int, 8));
        lemma_read_zero(s, pos, 2);
        lemma_read_zero(s, pos + 2, 4);
        lemma_read_value(s, pos + 6, v as int, 8);
    } else if 256 <= v <= 65535 {
        lemma_field(s, pos, x, 0, 2);
        lemma_field(s, pos, x, 2, 4);
        lemma_field(s, pos, x, 6, 8);
        lemma_field(s, pos, x, 14, 16);
        assert(x.subrange(0, 2) =~= zero_bits(2));
        assert(x.subrange(2, 6) =~= zero_bits(4));
        assert(x.subrange(6, 14) =~= zero_bits(8));
        assert(x.subrange(14, 30) =~= value_bits(v as int, 16));
        lemma_read_zero(s, pos, 2);
        lemma_read_zero(s, pos + 2, 4);
        lemma_read_zero(s, pos + 6, 8);
        lemma_read_value(s, pos + 14, v as int, 16);
    } else {
        lemma_field(s, pos, x, 0, 2);
        lemma_field(s, pos, x, 2, 4);
        lemma_field(s, pos, x, 6, 8);
        lemma_field(s, pos, x, 14, 16);
        lemma_field(s, pos, x, 30, 16);
        lemma_field(s, pos, x, 46, 16);
        assert(x.subrange(0, 2) =~= zero_bits(2));
        assert(x.subrange(2, 6) =~= zero_bits(4));
        assert(x.subrange(6, 14) =~= zero_bits(8));
        assert(x.subrange(14, 30) =~= zero_bits(16));
        assert(x.subrange(30, 46) =~= value_bits((v / 65536) as int, 16));
        assert(x.subrange(46, 62) =~= value_bits((v % 65536) as int, 16));
        lemma_read_zero(s, pos, 2);
        lemma_read_zero(s, pos + 2, 4);
        lemma_read_zero(s, pos + 6, 8);
        lemma_read_zero(s, pos + 14, 16);
        lemma_read_value(s, pos + 30, (v / 65536) as int, 16);
        lemma_read_value(s, pos + 46, (v % 65536) as int, 16);
    }
}

/// Copying a matching run onto the covered pixels covers the run.
pub proof fn lemma_copy_run(d: Seq<u8>, rp: int, src: int, len: int)
    requires
        0 <= src < rp,
        0 <= len,
        rp + len <= d.len(),
        forall|i: int| 0 <= i < len ==> d[rp + i] == #[trigger] d[src + i],
    ensures
        copy_seq(
            d.subrange(0, rp) + Seq::new((d.len() - rp) as nat, |i: int| 0u8),
            rp,
            src,
            len,
        ) == d.subrange(0, rp + len) + Seq::new((d.len() - rp - len) as nat, |i: int| 0u8),
    decreases len,
{
    let o0 = d.subrange(0, rp) + Seq::new((d.len() - rp) as nat, |i: int| 0u8);
    if len == 0 {
        assert(o0 =~= d.subrange(0, rp + len) + Seq::new((d.len() - rp - len) as nat, |i: int| 0u8));
    } else {
        lemma_copy_run(d, rp, src, len - 1);
        let o = d.subrange(0, rp + len - 1) + Seq::new(
            (d.len() - rp - len + 1) as nat,
            |i: int| 0u8,
        );
        assert(o[src + len - 1] == d[src + len - 1]);
        assert(d[rp + (len - 1)] == d[src + (len - 1)]);
        assert(o.update(rp + len - 1, o[src + len - 1]) =~= d.subrange(0, rp + len) + Seq::new(
            (d.len() - rp - len) as nat,
            |i: int| 0u8,
        ));
    }
}

/// The decoder replays a copy the encoder wrote: operation `op`, then the
/// length of a matching run from `src`.
pub proof fn lemma_copy_replay(
    s: Seq<bool>,
    w: int,
    d: Seq<u8>,
    rp: int,
    pos: int,
    cur: u8,
    lru: Seq<u8>,
    op: u8,
    src: int,
    len: u32,
)
    requires
        op == 2 || 12 <= op <= 15,
        copy_source(op, rp, w) == Some(src),
        0 <= src < rp,
        len >= 1,
        rp + len <= d.len(),
        forall|i: int| 0 <= i < len ==> d[rp + i] == #[trigger] d[src + i],
        0 <= pos <= s.len(),
        extends(opcode_bits(op) + length_bits(len), s.subrange(pos, s.len() as int)),
    ensures
        dec_step(s, w, d.len() as int, enc_state(d, rp, pos, cur, lru)) == Some(
            enc_state(
                d,
                rp + len,
                pos + opcode_bits(op).len() + length_bits(len).len(),
                cur,
                lru,
            ),
        ),
{
    let a = opcode_bits(op);
    let b = length_bits(len);
    let x = a + b;
    assert(s.subrange(pos, pos + x.len()) =~= s.subrange(pos, s.len() as int).subrange(0, x.len() as int));
    lemma_field(s, pos, x, 0, a.len() as int);
    assert(x.subrange(0, a.len() as int) =~= a);
    lemma_read_op(s, pos, op);
    lemma_field(s, pos, x, a.len() as int, b.len() as int);
    assert(x.subrange(a.len() as int, x.len() as int) =~= b);
    lemma_read_length(s, pos + a.len(), len);
    lemma_copy_run(d, rp, src, len as int);
}

/// The decoder replays a colour lookup the encoder wrote for pixel `rp`.
pub proof fn lemma_dict_replay(
    s: Seq<bool>,
    w: int,
    d: Seq<u8>,
    rp: int,
    pos: int,
    cur: u8,
    lru: Seq<u8>,
)
    requires
        1 <= rp < d.len(),
        lru.len() == 256 * LRU_WAYS,
        0 <= pos <= s.len(),
        extends(
            opcode_bits(0) + color_bits(lru, d, rp, d[rp]),
            s.subrange(pos, s.len() as int),
        ),
    ensures
        dec_step(s, w, d.len() as int, enc_state(d, rp, pos, cur, lru)) == Some(
            enc_state(
                d,
                rp + 1,
                pos + 1 + color_bits(lru, d, rp, d[rp]).len(),
                d[rp - 1],
                lru_update(lru, d[rp - 1] as int, d[rp]),
            ),
        ),
{
    vstd::arithmetic::power2::lemma2_to64();
    let c = d[rp];
    let a = opcode_bits(0);
    let b = color_bits(lru, d, rp, c);
    let x = a + b;
    let st = enc_state(d, rp, pos, cur, lru);
    assert(s.subrange(pos, pos + x.len()) =~= s.subrange(pos, s.len() as int).subrange(0, x.len() as int));
    lemma_field(s, pos, x, 0, 1);
    assert(x.subrange(0, 1) =~= a);
    lemma_read_op(s, pos, 0);
    let row = lru_row(lru, d[rp - 1] as int);
    let p = lru_position(row, c, 0);
    assert(st.out[st.wp - 1] == d[rp - 1]);
    lemma_field(s, pos, x, 1, 1);
    if p < LRU_WAYS {
        lemma_field(s, pos, x, 2, 3);
        assert(x.subrange(1, 2) =~= value_bits(0, 1));
        assert(x.subrange(2, 5) =~= value_bits(p, 3));
        lemma_read_value(s, pos + 1, 0, 1);
        lemma_lru_position(row, c, 0);
        lemma_read_value(s, pos + 2, p, 3);
        assert(lru[LRU_WAYS * d[rp - 1] + p] == row[p]);
    } else {
        lemma_field(s, pos, x, 2, 8);
        assert(x.subrange(1, 2) =~= value_bits(1, 1));
        assert(x.subrange(2, 10) =~= value_bits(c as int, 8));
        lemma_read_value(s, pos + 1, 1, 1);
        lemma_read_value(s, pos + 2, c as int, 8);
    }
    let out2 = st.out.update(rp, c);
    assert(out2 =~= d.subrange(0, rp + 1) + Seq::new((d.len() - rp - 1) as nat, |i: int| 0u8));
    assert(out2[rp - 1] == d[rp - 1]);
}

/// The colour at the position the cache search finds.
pub proof fn lemma_lru_position(row: Seq<u8>, c: u8, i: int)
    requires
        0 <= i <= LRU_WAYS,
        row.len() == LRU_WAYS,
    ensures
        i <= lru_position(row, c, i) <= LRU_WAYS,
        lru_position(row, c, i) < LRU_WAYS ==> row[lru_position(row, c, i)] == c,
    decreases LRU_WAYS - i,
{
    if i < LRU_WAYS && row[i] != c {
        lemma_lru_position(row, c, i + 1);
    }
}

} // verus!

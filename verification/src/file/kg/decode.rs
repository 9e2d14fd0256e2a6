//! Decompression of KG pixel data: the bit stream is replayed as colour
//! lookups (direct or through a most-recently-used list of colours per
//! preceding colour) and copies of earlier pixels.

use vstd::prelude::*;

use super::super::error::{DvFileError, FileType};
use super::super::le::{copy_range, u16_at, u32_at};
use super::bits::{bit_of, bits_value, byte_bit, stream_bits};
use super::{header_failure, header_ok, palette_view, Compression, File, Header, HEADER_SIZE};
use vstd::string::StringExecFns;

verus! {

/// Number of colour rows of the most-recently-used cache.
pub const LRU_ROWS: usize = 256;

/// Number of colours kept per row of the cache.
pub const LRU_WAYS: usize = 8;

/// The number of the `n` bits at `pos`, when the stream holds them.
pub open spec fn read_at(bits: Seq<bool>, pos: int, n: int) -> Option<int> {
    if 0 <= pos && 0 <= n && pos + n <= bits.len() {
        Some(bits_value(bits.subrange(pos, pos + n)) as int)
    } else {
        None
    }
}

/// A copy length at `pos` and the position after it: two bits if not
/// zero, else four bits (plus 3) if not zero, else eight, else sixteen
/// bits if not zero, else two 16-bit halves.
pub open spec fn read_length(bits: Seq<bool>, pos: int) -> Option<(int, int)> {
    match read_at(bits, pos, 2) {
        None => None,
        Some(v2) => if v2 != 0 {
            Some((v2, pos + 2))
        } else {
            match read_at(bits, pos + 2, 4) {
                None => None,
                Some(v4) => if v4 != 0 {
                    Some((v4 + 3, pos + 6))
                } else {
                    match read_at(bits, pos + 6, 8) {
                        None => None,
                        Some(v8) => if v8 != 0 {
                            Some((v8, pos + 14))
                        } else {
                            match read_at(bits, pos + 14, 16) {
                                None => None,
                                Some(v16) => if v16 != 0 {
                                    Some((v16, pos + 30))
                                } else {
                                    match (read_at(bits, pos + 30, 16), read_at(bits, pos + 46, 16)) {
                                        (Some(high), Some(low)) => Some(
                                            (high * 65536 + low, pos + 62),
                                        ),
                                        _ => None,
                                    }
                                },
                            }
                        },
                    }
                },
            }
        },
    }
}

/// An operation code at `pos` and the position after it: `0` is 0, `10`
/// is 2, `11` and two bits `i` is 12 + `i`.
pub open spec fn read_op(bits: Seq<bool>, pos: int) -> Option<(u8, int)> {
    match read_at(bits, pos, 1) {
        None => None,
        Some(b1) => if b1 == 0 {
            Some((0u8, pos + 1))
        } else {
            match read_at(bits, pos + 1, 1) {
                None => None,
                Some(b2) => if b2 == 0 {
                    Some((2u8, pos + 2))
                } else {
                    match read_at(bits, pos + 2, 2) {
                        None => None,
                        Some(i) => Some(((12 + i) as u8, pos + 4)),
                    }
                },
            }
        },
    }
}

/// The index of the first `color` in a cache row from `i` on; 8 if none.
pub open spec fn lru_position(row: Seq<u8>, color: u8, i: int) -> int
    decreases LRU_WAYS - i,
{
    if i >= LRU_WAYS {
        LRU_WAYS as int
    } else if row[i] == color {
        i
    } else {
        lru_position(row, color, i + 1)
    }
}

/// A cache row with `color` moved (or, when absent, put) in front; an
/// absent colour pushes out the last one.
pub open spec fn lru_moved(row: Seq<u8>, color: u8) -> Seq<u8> {
    let p = lru_position(row, color, 0);
    if p == 0 {
        row
    } else {
        let q = if p == LRU_WAYS {
            LRU_WAYS - 1
        } else {
            p
        };
        seq![color] + row.subrange(0, q) + row.subrange(q + 1, LRU_WAYS as int)
    }
}

/// Row `r` of the cache.
pub open spec fn lru_row(lru: Seq<u8>, r: int) -> Seq<u8> {
    lru.subrange(LRU_WAYS * r, LRU_WAYS * r + LRU_WAYS)
}

/// The cache with `color` moved to the front of row `r`.
pub open spec fn lru_update(lru: Seq<u8>, r: int, color: u8) -> Seq<u8> {
    lru.subrange(0, LRU_WAYS * r) + lru_moved(lru_row(lru, r), color) + lru.subrange(
        LRU_WAYS * r + LRU_WAYS,
        lru.len() as int,
    )
}

/// The starting cache: every row holds 0 to 7.
pub open spec fn initial_lru() -> Seq<u8> {
    Seq::new((LRU_ROWS * LRU_WAYS) as nat, |i: int| (i % 8) as u8)
}

/// The state of the decoder: the bit position, the pixels, the write
/// position, the colour whose cache row was last updated, and the cache.
pub struct DecState {
    pub pos: int,
    pub out: Seq<u8>,
    pub wp: int,
    pub cur: u8,
    pub lru: Seq<u8>,
}

/// The pixels after copying `len` pixels, one at a time, from `src` on to
/// `dst` on (so a copy may repeat pixels it has just written).
pub open spec fn copy_seq(out: Seq<u8>, dst: int, src: int, len: int) -> Seq<u8>
    decreases len,
{
    if len <= 0 {
        out
    } else {
        let o = copy_seq(out, dst, src, len - 1);
        o.update(dst + len - 1, o[src + len - 1])
    }
}

/// Where a copy operation reads from, for an image `w` pixels wide: the
/// previous pixel (2), one line up (12), one line up and one right (13),
/// one line up and one left (14), two pixels back (15); `None` when that
/// lies before the start.
pub open spec fn copy_source(op: u8, wp: int, w: int) -> Option<int> {
    if op == 2 {
        if wp >= 1 {
            Some(wp - 1)
        } else {
            None
        }
    } else if op == 12 {
        if wp >= w {
            Some(wp - w)
        } else {
            None
        }
    } else if op == 13 {
        if wp >= w {
            Some(wp - w + 1)
        } else {
            None
        }
    } else if op == 14 {
        if wp >= w + 1 {
            Some(wp - w - 1)
        } else {
            None
        }
    } else if op == 15 {
        if wp >= 2 {
            Some(wp - 2)
        } else {
            None
        }
    } else {
        None
    }
}

/// A colour at `p1` and the position after it: a flag bit, then either the
/// colour (8 bits) or its index (3 bits) in the cache row of the previous
/// pixel.
pub open spec fn read_color(bits: Seq<bool>, st: DecState, p1: int) -> Option<(u8, int)> {
    match read_at(bits, p1, 1) {
        None => None,
        Some(flag) => if flag == 1 {
            match read_at(bits, p1 + 1, 8) {
                Some(v) => Some((v as u8, p1 + 9)),
                None => None,
            }
        } else {
            match read_at(bits, p1 + 1, 3) {
                Some(ci) => Some((st.lru[LRU_WAYS * st.out[st.wp - 1] + ci], p1 + 4)),
                None => None,
            }
        },
    }
}

/// A colour lookup after the operation code: the colour is written, and
/// moved to the front of the cache row of the previous pixel.
pub open spec fn dict_step(bits: Seq<bool>, st: DecState, p1: int) -> Option<DecState> {
    match read_color(bits, st, p1) {
        None => None,
        Some((color, p2)) => {
            let out2 = st.out.update(st.wp, color);
            let cur = out2[st.wp - 1];
            Some(
                DecState {
                    pos: p2,
                    out: out2,
                    wp: st.wp + 1,
                    cur,
                    lru: lru_update(st.lru, cur as int, color),
                },
            )
        },
    }
}

/// A copy after the operation code: the length, then the copy, which has
/// to lie within the `t` pixels.
pub open spec fn copy_step(bits: Seq<bool>, w: int, t: int, st: DecState, op: u8, p1: int) -> Option<
    DecState,
> {
    match read_length(bits, p1) {
        None => None,
        Some((len, p2)) => match copy_source(op, st.wp, w) {
            None => None,
            Some(src) => if st.wp + len <= t && (len == 0 || src + len <= t) {
                Some(
                    DecState {
                        pos: p2,
                        out: copy_seq(st.out, st.wp, src, len),
                        wp: st.wp + len,
                        cur: st.cur,
                        lru: st.lru,
                    },
                )
            } else {
                None
            },
        },
    }
}

/// One operation of the decoder.
pub open spec fn dec_step(bits: Seq<bool>, w: int, t: int, st: DecState) -> Option<DecState> {
    match read_op(bits, st.pos) {
        None => None,
        Some((op, p1)) => if op == 0 {
            dict_step(bits, st, p1)
        } else {
            copy_step(bits, w, t, st, op, p1)
        },
    }
}

/// The pixels once operations have been replayed up to the last pixel;
/// `None` when an operation fails.
pub open spec fn dec_loop(bits: Seq<bool>, w: int, t: int, st: DecState) -> Option<Seq<u8>>
    decreases bits.len() - st.pos,
{
    if st.wp >= t {
        Some(st.out)
    } else {
        match dec_step(bits, w, t, st) {
            None => None,
            Some(st2) => if st.pos < st2.pos <= bits.len() {
                dec_loop(bits, w, t, st2)
            } else {
                None
            },
        }
    }
}

/// The state after the first two pixels, read as 8 bits each.
pub open spec fn dec_init(bits: Seq<bool>, t: int) -> Option<DecState> {
    if t >= 2 && bits.len() >= 16 {
        Some(
            DecState {
                pos: 16,
                out: Seq::new(t as nat, |i: int| 0u8).update(0, bits_value(bits.subrange(0, 8)) as u8).update(
                    1,
                    bits_value(bits.subrange(8, 16)) as u8,
                ),
                wp: 2,
                cur: 0,
                lru: initial_lru(),
            },
        )
    } else {
        None
    }
}

/// The `t` palette indices of an image `w` pixels wide decoded from a bit
/// stream, or `None` when the stream is malformed.
pub open spec fn decode_bits(bits: Seq<bool>, w: int, t: int) -> Option<Seq<u8>> {
    match dec_init(bits, t) {
        Some(st) => dec_loop(bits, w, t, st),
        None => None,
    }
}

/// The `t` palette indices of an image `w` pixels wide decoded from the
/// compressed bytes, or `None` when the data is malformed.
pub open spec fn decode_indices(data: Seq<u8>, w: int, t: int) -> Option<Seq<u8>> {
    decode_bits(stream_bits(data), w, t)
}

/// The number of a single bit.
pub proof fn lemma_bits_value_one(s: Seq<bool>)
    requires
        s.len() == 1,
    ensures
        bits_value(s) == if s[0] {
            1nat
        } else {
            0nat
        },
{
    assert(s.drop_last() =~= Seq::<bool>::empty());
    assert(bits_value(Seq::<bool>::empty()) == 0);
}

/// An operation moves the bit position forward, and not past the stream.
proof fn lemma_step_advances(bits: Seq<bool>, w: int, t: int, st: DecState)
    requires
        0 <= st.pos,
    ensures
        dec_step(bits, w, t, st) matches Some(s2) ==> st.pos < s2.pos <= bits.len(),
{
}

/// Copying keeps the number of pixels.
proof fn lemma_copy_seq_len(out: Seq<u8>, dst: int, src: int, len: int)
    requires
        0 <= dst,
        dst + len <= out.len(),
    ensures
        copy_seq(out, dst, src, len).len() == out.len(),
    decreases len,
{
    if len > 0 {
        lemma_copy_seq_len(out, dst, src, len - 1);
    }
}

/// Moves `color` to the front of row `row_color` of the cache (see
/// `lru_moved`).
pub fn move_to_front(cache: &mut Vec<u8>, row_color: u8, color: u8)
    requires
        old(cache)@.len() == LRU_ROWS * LRU_WAYS,
    ensures
        final(cache)@ == lru_update(old(cache)@, row_color as int, color),
        final(cache)@.len() == old(cache)@.len(),
{
    let base = (row_color as usize) * LRU_WAYS;
    let ghost lru = cache@;
    let ghost row = lru_row(lru, row_color as int);
    let mut i: usize = 0;
    while i < LRU_WAYS && cache[base + i] != color
        invariant
            i <= LRU_WAYS,
            base == LRU_WAYS * row_color,
            cache@ == lru,
            lru.len() == LRU_ROWS * LRU_WAYS,
            row == lru_row(lru, row_color as int),
            lru_position(row, color, 0) == lru_position(row, color, i as int),
        decreases LRU_WAYS - i,
    {
        assert(row[i as int] == lru[base + i]);
        i = i + 1;
    }
    if i < LRU_WAYS {
        assert(row[i as int] == lru[base + i]);
    }
    let mut position: usize = i;
    assert(position == lru_position(row, color, 0));
    if position == 0 {
        assert(row.subrange(0, 0) =~= Seq::<u8>::empty());
        assert(lru_update(lru, row_color as int, color) =~= lru);
        return ;
    }
    if position == LRU_WAYS {
        position = LRU_WAYS - 1;
    }
    let mut j: usize = position;
    while j > 0
        invariant
            0 < position < LRU_WAYS,
            j <= position,
            base == LRU_WAYS * row_color,
            lru.len() == LRU_ROWS * LRU_WAYS,
            row == lru_row(lru, row_color as int),
            cache@.len() == lru.len(),
            forall|k: int|
                0 <= k < lru.len() && !(base + j < k <= base + position) ==> #[trigger] cache@[k]
                    == lru[k],
            forall|k: int| j < k <= position ==> #[trigger] cache@[base + k] == row[k - 1],
        decreases j,
    {
        let v = cache[base + j - 1];
        assert(v == row[j - 1]);
        cache.set(base + j, v);
        j = j - 1;
    }
    cache.set(base, color);
    let ghost want = lru_update(lru, row_color as int, color);
    let ghost moved = lru_moved(row, color);
    assert(moved =~= seq![color] + row.subrange(0, position as int) + row.subrange(
        position + 1,
        LRU_WAYS as int,
    ));
    assert(moved.len() == LRU_WAYS);
    assert forall|k: int| 0 <= k < lru.len() implies #[trigger] cache@[k] == want[k] by {
        if k < base {
            assert(want[k] == lru[k]);
        } else if k < base + LRU_WAYS {
            let m = k - base;
            assert(want[k] == moved[m]);
            if m == 0 {
            } else if m <= position {
                assert(cache@[base + m] == row[m - 1]);
                assert(moved[m] == row[m - 1]);
            } else {
                assert(moved[m] == row[m]);
                assert(row[m] == lru[k]);
            }
        } else {
            assert(want[k] == lru[k]);
        }
    }
    assert(cache@ =~= want);
}

/// The decoder over compressed bytes.
struct DecompressorState {
    output_buffer: Vec<u8>,
    compressed_data: Vec<u8>,
    read_offset: usize,
    bit_index: u32,
    write_position: usize,
    total_size: usize,
    line_bytes: usize,
    current_color: u8,
    lru_cache: Vec<u8>,
}

impl DecompressorState {
    spec fn bits(&self) -> Seq<bool> {
        stream_bits(self.compressed_data@)
    }

    spec fn state(&self) -> DecState {
        DecState {
            pos: 8 * self.read_offset + self.bit_index,
            out: self.output_buffer@,
            wp: self.write_position as int,
            cur: self.current_color,
            lru: self.lru_cache@,
        }
    }

    /// Only the read position differs from `other`.
    spec fn only_read(&self, other: &Self) -> bool {
        &&& self.compressed_data@ == other.compressed_data@
        &&& self.output_buffer@ == other.output_buffer@
        &&& self.write_position == other.write_position
        &&& self.total_size == other.total_size
        &&& self.line_bytes == other.line_bytes
        &&& self.current_color == other.current_color
        &&& self.lru_cache@ == other.lru_cache@
    }

    spec fn wf(&self) -> bool {
        &&& self.read_offset <= self.compressed_data@.len()
        &&& self.bit_index < 8
        &&& self.read_offset == self.compressed_data@.len() ==> self.bit_index == 0
        &&& self.output_buffer@.len() == self.total_size
        &&& self.lru_cache@.len() == LRU_ROWS * LRU_WAYS
        &&& self.write_position <= self.total_size
    }

    /// A decoder at the start of `data`, for `total_size` pixels in lines of
    /// `line_bytes`.
    fn new(total_size: usize, line_bytes: usize, compressed_data: Vec<u8>) -> (r: Self)
        ensures
            r.wf(),
            r.bits() == stream_bits(compressed_data@),
            r.state() == (DecState {
                pos: 0,
                out: Seq::new(total_size as nat, |i: int| 0u8),
                wp: 0,
                cur: 0,
                lru: initial_lru(),
            }),
            r.total_size == total_size,
            r.line_bytes == line_bytes,
    {
        let mut output_buffer: Vec<u8> = Vec::new();
        let mut i: usize = 0;
        while i < total_size
            invariant
                i <= total_size,
                output_buffer@ == Seq::new(i as nat, |j: int| 0u8),
            decreases total_size - i,
        {
            output_buffer.push(0);
            i = i + 1;
        }
        let mut lru_cache: Vec<u8> = Vec::new();
        let mut k: usize = 0;
        while k < LRU_ROWS * LRU_WAYS
            invariant
                k <= LRU_ROWS * LRU_WAYS,
                lru_cache@ == Seq::new(k as nat, |j: int| (j % 8) as u8),
            decreases LRU_ROWS * LRU_WAYS - k,
        {
            lru_cache.push((k % 8) as u8);
            k = k + 1;
        }
        assert(lru_cache@ =~= initial_lru());
        DecompressorState {
            output_buffer,
            compressed_data,
            read_offset: 0,
            bit_index: 0,
            write_position: 0,
            total_size,
            line_bytes,
            current_color: 0,
            lru_cache,
        }
    }

    /// Reads one bit; `None` at the end of the data.
    fn read_bit(&mut self) -> (r: Option<u32>)
        requires
            old(self).wf(),
        ensures
            final(self).wf(),
            final(self).only_read(old(self)),
            match read_at(old(self).bits(), old(self).state().pos, 1) {
                Some(v) => r == Some(v as u32) && final(self).state().pos == old(self).state().pos
                    + 1,
                None => r is None,
            },
    {
        let ghost pos = self.state().pos;
        if self.read_offset >= self.compressed_data.len() {
            return None;
        }
        let b = byte_bit(self.compressed_data[self.read_offset], 7 - self.bit_index);
        proof {
            let s = self.bits().subrange(pos, pos + 1);
            assert(pos / 8 == self.read_offset && pos % 8 == self.bit_index);
            assert(s.drop_last() =~= Seq::<bool>::empty());
            assert(s.last() == self.bits()[pos]);
            assert(s.last() == bit_of(self.compressed_data@[self.read_offset as int] as int, 7 - pos % 8));
            lemma_bits_value_one(s);
        }
        self.bit_index = self.bit_index + 1;
        if self.bit_index == 8 {
            self.read_offset = self.read_offset + 1;
            self.bit_index = 0;
        }
        if b {
            Some(1)
        } else {
            Some(0)
        }
    }

    /// Reads `num_bits` bits (at most 16) as a number, most significant
    /// first; `None` when the data ends first.
    fn read_bits(&mut self, num_bits: u32) -> (r: Option<u32>)
        requires
            old(self).wf(),
            num_bits <= 16,
        ensures
            final(self).wf(),
            final(self).only_read(old(self)),
            match read_at(old(self).bits(), old(self).state().pos, num_bits as int) {
                Some(v) => r == Some(v as u32) && final(self).state().pos == old(self).state().pos
                    + num_bits && v < vstd::arithmetic::power2::pow2(num_bits as nat),
                None => r is None,
            },
    {
        let ghost pos0 = self.state().pos;
        let ghost bits = self.bits();
        let mut value: u32 = 0;
        let mut i: u32 = 0;
        proof {
            vstd::arithmetic::power2::lemma2_to64();
            assert(bits.subrange(pos0, pos0) =~= Seq::<bool>::empty());
        }
        while i < num_bits
            invariant
                self.wf(),
                bits == self.bits(),
                self.only_read(old(self)),
                pos0 == old(self).state().pos,
                i <= num_bits <= 16,
                self.state().pos == pos0 + i,
                pos0 + i <= bits.len(),
                value == bits_value(bits.subrange(pos0, pos0 + i)),
                value < vstd::arithmetic::power2::pow2(i as nat),
            decreases num_bits - i,
        {
            let ghost p = self.state().pos;
            let bit = match self.read_bit() {
                Some(b) => b,
                None => {
                    return None;
                },
            };
            proof {
                let s = bits.subrange(pos0, pos0 + i + 1);
                assert(s.drop_last() =~= bits.subrange(pos0, pos0 + i));
                assert(bits.subrange(p, p + 1)[0] == s.last());
                lemma_bits_value_one(bits.subrange(p, p + 1));
                vstd::arithmetic::power2::lemma_pow2_unfold((i + 1) as nat);
                vstd::arithmetic::power2::lemma2_to64();
                if i < 16 {
                    vstd::arithmetic::power2::lemma_pow2_strictly_increases(i as nat, 16);
                }
            }
            value = value * 2 + bit;
            i = i + 1;
        }
        Some(value)
    }

    /// Reads a copy length (see `read_length`).
    fn read_variable_length(&mut self) -> (r: Option<u32>)
        requires
            old(self).wf(),
        ensures
            final(self).wf(),
            final(self).only_read(old(self)),
            match read_length(old(self).bits(), old(self).state().pos) {
                Some((v, p)) => r == Some(v as u32) && final(self).state().pos == p && 0 <= v
                    < 0x1_0000_0000,
                None => r is None,
            },
    {
        proof {
            vstd::arithmetic::power2::lemma2_to64();
        }
        let value = match self.read_bits(2) {
            Some(v) => v,
            None => {
                return None;
            },
        };
        if value != 0 {
            return Some(value);
        }
        let value = match self.read_bits(4) {
            Some(v) => v,
            None => {
                return None;
            },
        };
        if value != 0 {
            return Some(value + 3);
        }
        let value = match self.read_bits(8) {
            Some(v) => v,
            None => {
                return None;
            },
        };
        if value != 0 {
            return Some(value);
        }
        let value = match self.read_bits(16) {
            Some(v) => v,
            None => {
                return None;
            },
        };
        if value != 0 {
            return Some(value);
        }
        let high = match self.read_bits(16) {
            Some(v) => v,
            None => {
                return None;
            },
        };
        let low = match self.read_bits(16) {
            Some(v) => v,
            None => {
                return None;
            },
        };
        assert((high << 16) | low == high * 65536 + low) by (bit_vector)
            requires
                high < 65536,
                low < 65536,
        ;
        Some((high << 16) | low)
    }

    /// Reads an operation code (see `read_op`).
    fn read_opcode(&mut self) -> (r: Option<u8>)
        requires
            old(self).wf(),
        ensures
            final(self).wf(),
            final(self).only_read(old(self)),
            match read_op(old(self).bits(), old(self).state().pos) {
                Some((op, p)) => r == Some(op) && final(self).state().pos == p,
                None => r is None,
            },
    {
        proof {
            vstd::arithmetic::power2::lemma2_to64();
        }
        let bit1 = match self.read_bits(1) {
            Some(v) => v,
            None => {
                return None;
            },
        };
        if bit1 == 0 {
            return Some(0);
        }
        let bit2 = match self.read_bits(1) {
            Some(v) => v,
            None => {
                return None;
            },
        };
        if bit2 == 0 {
            return Some(2);
        }
        let index = match self.read_bits(2) {
            Some(v) => v,
            None => {
                return None;
            },
        };
        match index {
            0 => Some(12),
            1 => Some(13),
            2 => Some(14),
            _ => Some(15),
        }
    }

    /// Moves `new_color` to the front of the cache row of the current
    /// colour (see `lru_moved`).
    fn update_lru_cache(&mut self, new_color: u8)
        requires
            old(self).wf(),
        ensures
            final(self).wf(),
            final(self).lru_cache@ == lru_update(
                old(self).lru_cache@,
                old(self).current_color as int,
                new_color,
            ),
            final(self).compressed_data@ == old(self).compressed_data@,
            final(self).output_buffer@ == old(self).output_buffer@,
            final(self).write_position == old(self).write_position,
            final(self).total_size == old(self).total_size,
            final(self).line_bytes == old(self).line_bytes,
            final(self).current_color == old(self).current_color,
            final(self).read_offset == old(self).read_offset,
            final(self).bit_index == old(self).bit_index,
    {
        let mut cache: Vec<u8> = Vec::new();
        std::mem::swap(&mut cache, &mut self.lru_cache);
        move_to_front(&mut cache, self.current_color, new_color);
        self.lru_cache = cache;
    }

    /// The decoder went from `old` to the state `next` (`ok`), or failed.
    spec fn stepped(&self, old: &Self, next: Option<DecState>, ok: bool) -> bool {
        &&& self.wf()
        &&& self.compressed_data@ == old.compressed_data@
        &&& self.total_size == old.total_size
        &&& self.line_bytes == old.line_bytes
        &&& ok == next is Some
        &&& ok ==> self.state() == next->0
    }

    /// Reads a colour (see `read_color`).
    fn read_color_index(&mut self) -> (r: Option<u8>)
        requires
            old(self).wf(),
            1 <= old(self).write_position <= old(self).total_size,
        ensures
            final(self).wf(),
            final(self).only_read(old(self)),
            match read_color(old(self).bits(), old(self).state(), old(self).state().pos) {
                Some((c, p)) => r == Some(c) && final(self).state().pos == p,
                None => r is None,
            },
    {
        proof {
            vstd::arithmetic::power2::lemma2_to64();
        }
        let flag = match self.read_bits(1) {
            Some(v) => v,
            None => {
                return None;
            },
        };
        if flag == 1 {
            match self.read_bits(8) {
                Some(v) => Some(v as u8),
                None => None,
            }
        } else {
            let ref_pos = self.write_position - 1;
            let reference_color = self.output_buffer[ref_pos];
            let cache_index = match self.read_bits(3) {
                Some(v) => v as usize,
                None => {
                    return None;
                },
            };
            Some(self.lru_cache[(reference_color as usize) * LRU_WAYS + cache_index])
        }
    }

    /// Copies `length` pixels one at a time from `src` on to the write
    /// position on, and moves the write position past them.
    fn copy_data(&mut self, src: usize, length: usize)
        requires
            old(self).wf(),
            old(self).write_position + length <= old(self).total_size,
            length == 0 || src + length <= old(self).total_size,
        ensures
            final(self).wf(),
            final(self).compressed_data@ == old(self).compressed_data@,
            final(self).total_size == old(self).total_size,
            final(self).line_bytes == old(self).line_bytes,
            final(self).state() == (DecState {
                out: copy_seq(
                    old(self).output_buffer@,
                    old(self).write_position as int,
                    src as int,
                    length as int,
                ),
                wp: old(self).write_position + length,
                ..old(self).state()
            }),
    {
        let dst = self.write_position;
        let mut out: Vec<u8> = Vec::new();
        std::mem::swap(&mut out, &mut self.output_buffer);
        let mut i: usize = 0;
        while i < length
            invariant
                i <= length,
                dst + length <= out@.len(),
                length == 0 || src + length <= out@.len(),
                out@ == copy_seq(old(self).output_buffer@, dst as int, src as int, i as int),
                out@.len() == old(self).output_buffer@.len(),
                out@.len() == old(self).total_size,
            decreases length - i,
        {
            proof {
                lemma_copy_seq_len(old(self).output_buffer@, dst as int, src as int, i as int);
            }
            let v = out[src + i];
            out.set(dst + i, v);
            i = i + 1;
        }
        self.output_buffer = out;
        self.write_position = self.write_position + length;
    }

    /// Checks that a copy of `length` pixels from `src` stays within the
    /// image, then makes it; `false` when it would not.
    fn copy_checked(&mut self, src: usize, length: u32) -> (ok: bool)
        requires
            old(self).wf(),
        ensures
            final(self).wf(),
            final(self).compressed_data@ == old(self).compressed_data@,
            final(self).total_size == old(self).total_size,
            final(self).line_bytes == old(self).line_bytes,
            ok == (old(self).write_position + length <= old(self).total_size && (length == 0 || src
                + length <= old(self).total_size)),
            ok ==> final(self).state() == (DecState {
                out: copy_seq(
                    old(self).output_buffer@,
                    old(self).write_position as int,
                    src as int,
                    length as int,
                ),
                wp: old(self).write_position + length,
                ..old(self).state()
            }),
    {
        let length = length as usize;
        if length > self.total_size - self.write_position {
            return false;
        }
        if length > 0 && (src > self.total_size || length > self.total_size - src) {
            return false;
        }
        self.copy_data(src, length);
        true
    }

    /// Opcode 0: a colour lookup.
    fn opcode_0_dictionary_lookup(&mut self) -> (ok: bool)
        requires
            old(self).wf(),
            1 <= old(self).write_position < old(self).total_size,
        ensures
            final(self).stepped(
                old(self),
                dict_step(old(self).bits(), old(self).state(), old(self).state().pos),
                ok,
            ),
    {
        let color_index = match self.read_color_index() {
            Some(c) => c,
            None => {
                return false;
            },
        };
        self.output_buffer.set(self.write_position, color_index);
        let ref_pos = self.write_position - 1;
        let reference_color = self.output_buffer[ref_pos];
        self.current_color = reference_color;
        self.update_lru_cache(color_index);
        self.write_position = self.write_position + 1;
        true
    }

    /// Opcode 2: a copy of the previous pixel.
    fn opcode_2_copy_previous_pixel(&mut self) -> (ok: bool)
        requires
            old(self).wf(),
        ensures
            final(self).stepped(
                old(self),
                copy_step(
                    old(self).bits(),
                    old(self).line_bytes as int,
                    old(self).total_size as int,
                    old(self).state(),
                    2,
                    old(self).state().pos,
                ),
                ok,
            ),
    {
        let length = match self.read_variable_length() {
            Some(v) => v,
            None => {
                return false;
            },
        };
        if self.write_position < 1 {
            return false;
        }
        let src = self.write_position - 1;
        self.copy_checked(src, length)
    }

    /// Opcode 12: a copy from one line up.
    fn opcode_12_copy_up_1_line(&mut self) -> (ok: bool)
        requires
            old(self).wf(),
        ensures
            final(self).stepped(
                old(self),
                copy_step(
                    old(self).bits(),
                    old(self).line_bytes as int,
                    old(self).total_size as int,
                    old(self).state(),
                    12,
                    old(self).state().pos,
                ),
                ok,
            ),
    {
        let length = match self.read_variable_length() {
            Some(v) => v,
            None => {
                return false;
            },
        };
        if self.write_position < self.line_bytes {
            return false;
        }
        let src = self.write_position - self.line_bytes;
        self.copy_checked(src, length)
    }

    /// Opcode 13: a copy from one line up and one pixel right.
    fn opcode_13_copy_up_right(&mut self) -> (ok: bool)
        requires
            old(self).wf(),
            old(self).write_position < old(self).total_size,
        ensures
            final(self).stepped(
                old(self),
                copy_step(
                    old(self).bits(),
                    old(self).line_bytes as int,
                    old(self).total_size as int,
                    old(self).state(),
                    13,
                    old(self).state().pos,
                ),
                ok,
            ),
    {
        let length = match self.read_variable_length() {
            Some(v) => v,
            None => {
                return false;
            },
        };
        if self.write_position < self.line_bytes {
            return false;
        }
        let src = self.write_position - self.line_bytes + 1;
        self.copy_checked(src, length)
    }

    /// Opcode 14: a copy from one line up and one pixel left.
    fn opcode_14_copy_up_left(&mut self) -> (ok: bool)
        requires
            old(self).wf(),
        ensures
            final(self).stepped(
                old(self),
                copy_step(
                    old(self).bits(),
                    old(self).line_bytes as int,
                    old(self).total_size as int,
                    old(self).state(),
                    14,
                    old(self).state().pos,
                ),
                ok,
            ),
    {
        let length = match self.read_variable_length() {
            Some(v) => v,
            None => {
                return false;
            },
        };
        if self.write_position < self.line_bytes || self.write_position - self.line_bytes < 1 {
            return false;
        }
        let src = self.write_position - self.line_bytes - 1;
        self.copy_checked(src, length)
    }

    /// Opcode 15: a copy from two pixels back.
    fn opcode_15_copy_up_double(&mut self) -> (ok: bool)
        requires
            old(self).wf(),
        ensures
            final(self).stepped(
                old(self),
                copy_step(
                    old(self).bits(),
                    old(self).line_bytes as int,
                    old(self).total_size as int,
                    old(self).state(),
                    15,
                    old(self).state().pos,
                ),
                ok,
            ),
    {
        let length = match self.read_variable_length() {
            Some(v) => v,
            None => {
                return false;
            },
        };
        if self.write_position < 2 {
            return false;
        }
        let src = self.write_position - 2;
        self.copy_checked(src, length)
    }

    /// Writes a pixel at the write position.
    fn write_pixel(&mut self, value: u8)
        requires
            old(self).wf(),
            old(self).write_position < old(self).total_size,
        ensures
            final(self).wf(),
            final(self).state() == (DecState {
                out: old(self).output_buffer@.update(old(self).write_position as int, value),
                ..old(self).state()
            }),
            final(self).compressed_data@ == old(self).compressed_data@,
            final(self).total_size == old(self).total_size,
            final(self).line_bytes == old(self).line_bytes,
            final(self).write_position == old(self).write_position,
    {
        self.output_buffer.set(self.write_position, value);
    }

    /// Decodes the pixels: the first two as 8 bits each, then operations
    /// until the last pixel is written; `false` when the data is malformed.
    fn decompress_type1(&mut self) -> (ok: bool)
        requires
            old(self).wf(),
            old(self).state() == (DecState {
                pos: 0,
                out: Seq::new(old(self).total_size as nat, |i: int| 0u8),
                wp: 0,
                cur: 0,
                lru: initial_lru(),
            }),
        ensures
            final(self).compressed_data@ == old(self).compressed_data@,
            final(self).total_size == old(self).total_size,
            ok == decode_indices(
                old(self).compressed_data@,
                old(self).line_bytes as int,
                old(self).total_size as int,
            ) is Some,
            ok ==> final(self).output_buffer@ == decode_indices(
                old(self).compressed_data@,
                old(self).line_bytes as int,
                old(self).total_size as int,
            )->0,
    {
        let ghost bits = self.bits();
        let ghost w = self.line_bytes as int;
        let ghost t = self.total_size as int;
        let ghost ans = decode_indices(self.compressed_data@, w, t);
        proof {
            vstd::arithmetic::power2::lemma2_to64();
        }
        let b0 = match self.read_bits(8) {
            Some(v) => v as u8,
            None => {
                return false;
            },
        };
        if self.write_position >= self.total_size {
            return false;
        }
        self.write_pixel(b0);
        self.write_position = self.write_position + 1;
        let b1 = match self.read_bits(8) {
            Some(v) => v as u8,
            None => {
                return false;
            },
        };
        if self.write_position >= self.total_size {
            return false;
        }
        self.write_pixel(b1);
        self.write_position = self.write_position + 1;
        assert(self.state() == dec_init(bits, t)->0);
        while self.write_position < self.total_size
            invariant
                self.wf(),
                bits == self.bits(),
                bits.len() == 8 * self.compressed_data@.len(),
                self.compressed_data@ == old(self).compressed_data@,
                w == self.line_bytes,
                t == self.total_size,
                self.total_size == old(self).total_size,
                self.line_bytes == old(self).line_bytes,
                self.write_position >= 2,
                ans == decode_indices(old(self).compressed_data@, w, t),
                dec_loop(bits, w, t, self.state()) == ans,
            decreases bits.len() - self.state().pos,
        {
            let ghost st = self.state();
            let opcode = match self.read_opcode() {
                Some(op) => op,
                None => {
                    return false;
                },
            };
            let ok = match opcode {
                0 => self.opcode_0_dictionary_lookup(),
                2 => self.opcode_2_copy_previous_pixel(),
                12 => self.opcode_12_copy_up_1_line(),
                13 => self.opcode_13_copy_up_right(),
                14 => self.opcode_14_copy_up_left(),
                15 => self.opcode_15_copy_up_double(),
                _ => false,
            };
            if !ok {
                return false;
            }
            proof {
                lemma_step_advances(bits, w, t, st);
            }
        }
        true
    }
}

/// The colour at `off` of the stored palette (blue, green, red, unused) as
/// red, green, blue, 0; zero when it lies past the data.
pub open spec fn color_at(data: Seq<u8>, off: int) -> Seq<u8> {
    if off + 3 < data.len() {
        seq![data[off + 2], data[off + 1], data[off], 0u8]
    } else {
        seq![0u8, 0u8, 0u8, 0u8]
    }
}

/// The 256 colours of the palette stored at `offset`.
pub open spec fn palette_in(data: Seq<u8>, offset: int) -> Seq<Seq<u8>> {
    Seq::new(256, |i: int| color_at(data, offset + 4 * i))
}

/// The RGB triples of palette indices.
pub open spec fn pixels_rgb(indices: Seq<u8>, pal: Seq<Seq<u8>>) -> Seq<u8>
    decreases indices.len(),
{
    if indices.len() == 0 {
        Seq::empty()
    } else {
        pixels_rgb(indices.drop_last(), pal) + pal[indices.last() as int].subrange(0, 3)
    }
}

/// Whether `e` is the decompression error of a KG file with message `m`.
pub open spec fn is_kg_decompression_error(e: DvFileError, m: Seq<char>) -> bool {
    e matches DvFileError::DecompressionError { file_type, message } && file_type == FileType::Kg
        && message@ == m
}

/// What decompressing `data` gives: a header error; a palette offset inside
/// the header; padding or compressed data past the end; a missing palette;
/// malformed compressed data; or the image, whose pixels are the decoded
/// palette indices looked up in the palette.
pub open spec fn decompressed(data: Seq<u8>, r: Result<File, DvFileError>) -> bool {
    if !header_ok(data) {
        r matches Err(e) && header_failure(data, e)
    } else {
        let po = u32_at(data, 12) as int;
        let dof = u32_at(data, 16) as int;
        let w = u16_at(data, 4) as int;
        let h = u16_at(data, 6) as int;
        if 0 < po < HEADER_SIZE {
            r matches Err(e) && is_kg_decompression_error(
                e,
                "Palette offset lies inside the header"@,
            )
        } else if po > HEADER_SIZE && po > data.len() {
            r == Err::<File, DvFileError>(
                DvFileError::InsufficientData {
                    file_type: FileType::Kg,
                    expected: po as usize,
                    actual: data.len() as usize,
                },
            )
        } else if dof > data.len() {
            r == Err::<File, DvFileError>(
                DvFileError::InsufficientData {
                    file_type: FileType::Kg,
                    expected: dof as usize,
                    actual: data.len() as usize,
                },
            )
        } else if po == 0 {
            r matches Err(e) && is_kg_decompression_error(e, "Missing palette"@)
        } else {
            match decode_indices(data.subrange(dof, data.len() as int), w, w * h) {
                None => r matches Err(e) && is_kg_decompression_error(
                    e,
                    "Compressed data is malformed"@,
                ),
                Some(indices) => r matches Ok(f) && f.spec_header().is_header_of(data)
                    && f.spec_padding() == (if po > HEADER_SIZE {
                    Some(data.subrange(HEADER_SIZE as int, po))
                } else {
                    None::<Seq<u8>>
                }) && f.spec_palette() == Some(palette_in(data, po)) && f.spec_pixels()
                    == pixels_rgb(indices, palette_in(data, po)),
            }
        }
    }
}

/// The palette stored at the palette offset, when the image is compressed
/// and has a palette offset.
fn load_palette(data: &[u8], header: &Header) -> (r: Option<[[u8; 4]; 256]>)
    ensures
        header.spec_compression() != Compression::BPP3 || header.spec_palette_offset() == 0 ==> r is None,
        header.spec_compression() == Compression::BPP3 && header.spec_palette_offset() != 0 ==> (r matches Some(
            p,
        ) && palette_view(p@) == palette_in(data@, header.spec_palette_offset() as int)),
{
    if header.compression_type() != Compression::BPP3 {
        return None;
    }
    if header.palette_offset() == 0 {
        return None;
    }
    let mut palette = [[0u8; 4]; 256];
    let po = header.palette_offset() as u64;
    let ghost want = palette_in(data@, po as int);
    let mut i: usize = 0;
    while i < 256
        invariant
            i <= 256,
            po == header.spec_palette_offset(),
            want == palette_in(data@, po as int),
            palette@.len() == 256,
            forall|j: int| 0 <= j < i ==> (#[trigger] palette@[j])@ == want[j],
            forall|j: int| i <= j < 256 ==> (#[trigger] palette@[j])@ == seq![0u8, 0u8, 0u8, 0u8],
        decreases 256 - i,
    {
        let offset = po + (i as u64) * 4;
        if offset + 3 < data.len() as u64 {
            let o = offset as usize;
            let color = [data[o + 2], data[o + 1], data[o], 0u8];
            assert(color@ =~= want[i as int]);
            palette[i] = color;
        } else {
            assert(palette@[i as int]@ =~= want[i as int]);
        }
        i = i + 1;
    }
    assert(palette_view(palette@) =~= want);
    Some(palette)
}

/// The RGB triples of palette indices, or the indices themselves without a
/// palette.
fn apply_palette(indexed_data: &[u8], palette: Option<&[[u8; 4]; 256]>) -> (r: Vec<u8>)
    ensures
        match palette {
            Some(p) => r@ == pixels_rgb(indexed_data@, palette_view(p@)),
            None => r@ == indexed_data@,
        },
{
    let pal = match palette {
        Some(p) => p,
        None => {
            return copy_range(indexed_data, 0, indexed_data.len());
        },
    };
    let ghost pv = palette_view(pal@);
    let mut rgb_data: Vec<u8> = Vec::new();
    let mut i: usize = 0;
    while i < indexed_data.len()
        invariant
            i <= indexed_data@.len(),
            pv == palette_view(pal@),
            pal@.len() == 256,
            rgb_data@ == pixels_rgb(indexed_data@.subrange(0, i as int), pv),
        decreases indexed_data@.len() - i,
    {
        let index = indexed_data[i];
        let color = pal[index as usize];
        rgb_data.push(color[0]);
        rgb_data.push(color[1]);
        rgb_data.push(color[2]);
        assert(indexed_data@.subrange(0, i + 1).drop_last() =~= indexed_data@.subrange(0, i as int));
        assert(pv[index as int] == color@);
        assert(rgb_data@ =~= pixels_rgb(indexed_data@.subrange(0, i + 1), pv));
        i = i + 1;
    }
    assert(indexed_data@.subrange(0, indexed_data@.len() as int) =~= indexed_data@);
    rgb_data
}

/// Decompresses a KG file into its header, padding, palette and RGB pixels.
pub fn decompress(data: &[u8]) -> (r: Result<File, DvFileError>)
    ensures
        decompressed(data@, r),
{
    let header = match Header::from_bytes(data) {
        Ok(h) => h,
        Err(e) => {
            return Err(e);
        },
    };
    let po = header.palette_offset();
    if po > 0 && po < HEADER_SIZE as u32 {
        return Err(
            DvFileError::DecompressionError {
                file_type: FileType::Kg,
                message: String::from_str("Palette offset lies inside the header"),
            },
        );
    }
    let padding = match header.padding_size() {
        Some(size) => {
            if data.len() < HEADER_SIZE + size {
                return Err(
                    DvFileError::insufficient_data(FileType::Kg, HEADER_SIZE + size, data.len()),
                );
            }
            Some(copy_range(data, HEADER_SIZE, HEADER_SIZE + size))
        },
        None => None,
    };
    let palette = load_palette(data, &header);
    let width = header.width() as usize;
    let height = header.height() as usize;
    let data_offset = header.data_offset() as usize;
    if data_offset > data.len() {
        return Err(DvFileError::insufficient_data(FileType::Kg, data_offset, data.len()));
    }
    let compressed_data = copy_range(data, data_offset, data.len());
    let pal = match palette {
        Some(p) => p,
        None => {
            return Err(
                DvFileError::DecompressionError {
                    file_type: FileType::Kg,
                    message: String::from_str("Missing palette"),
                },
            );
        },
    };
    assert(width * height <= 0xFFFF * 0xFFFF) by (nonlinear_arith)
        requires
            width <= 0xFFFF,
            height <= 0xFFFF,
    ;
    let mut state = DecompressorState::new(width * height, width, compressed_data);
    if !state.decompress_type1() {
        return Err(
            DvFileError::DecompressionError {
                file_type: FileType::Kg,
                message: String::from_str("Compressed data is malformed"),
            },
        );
    }
    let pixels = apply_palette(state.output_buffer.as_slice(), Some(&pal));
    Ok(File { header, padding, palette: Some(pal), pixels })
}

} // verus!

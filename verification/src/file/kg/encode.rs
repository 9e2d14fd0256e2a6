//! Compression of images into the KG format: the colours become palette
//! indices, and the indices are written as copy operations and colour
//! lookups that the decoder replays.

use vstd::arithmetic::power2::pow2;
use vstd::prelude::*;

use super::bits::{
    bit_of, lemma_bit_of_div, lemma_bit_of_high, lemma_stream_bits_push, lemma_value_bits_push,
    lemma_pack_stream, lemma_zero_bits_value, pack_bits, stream_bits, value_bits, zero_bits,
};
use super::decode::{
    copy_source, dec_init, dec_loop, dec_step, decode_bits, initial_lru, lru_position, lru_row,
    lru_update, move_to_front, LRU_ROWS, LRU_WAYS,
};
use super::super::error::{DvFileError, FileType};
use super::super::le::{lemma_u16_roundtrip, lemma_u32_roundtrip, push_slice, u16_at, u16_bytes, u32_at, u32_bytes};
use super::super::text::{decimal, number_message, push_decimal, push_str, string_from_chars};
use vstd::string::StringExecFns;
use super::{compression_code, Compression, File, Header, HEADER_SIZE, MAGIC_G, MAGIC_K};
use super::{OP_COPY_DIAGONAL_1, OP_COPY_DIAGONAL_2, OP_COPY_DOUBLE_BPP, OP_COPY_PREV_LINE, OP_COPY_PREV_PIXEL, OP_DICT_LOOKUP};
use super::replay::{
    color_bits, enc_state, extends, lemma_copy_replay, lemma_dict_replay, lemma_lru_position,
    lemma_run_from, run_from,
};

verus! {

/// The bits that encode a copy length: two bits for 1 to 3, then four bits
/// (less 3) for 4 to 18, eight bits up to 255, sixteen bits up to 65535,
/// and otherwise the two 16-bit halves, each form behind the zero bits of
/// the shorter forms.
pub open spec fn length_bits(v: u32) -> Seq<bool> {
    if 1 <= v <= 3 {
        value_bits(v as int, 2)
    } else if 4 <= v <= 18 {
        zero_bits(2) + value_bits(v - 3, 4)
    } else if 19 <= v <= 255 {
        zero_bits(6) + value_bits(v as int, 8)
    } else if 256 <= v <= 65535 {
        zero_bits(14) + value_bits(v as int, 16)
    } else {
        zero_bits(30) + value_bits((v / 65536) as int, 16) + value_bits((v % 65536) as int, 16)
    }
}

/// The bits that encode an operation: `0` for a colour lookup, `10` for a
/// copy of the previous pixel, `11` and two bits for the other copies.
pub open spec fn opcode_bits(op: u8) -> Seq<bool> {
    if op == 0 {
        value_bits(0, 1)
    } else if op == 2 {
        value_bits(2, 2)
    } else if 12 <= op <= 15 {
        value_bits(op as int, 4)
    } else {
        Seq::empty()
    }
}

/// Writes bits most significant first, packing them into bytes.
#[derive(Debug)]
pub struct BitWriter {
    data: Vec<u8>,
    bit_buffer: u8,
    bits_in_buffer: u32,
}

/// Bit `i` of `value`, as 0 or 1.
fn value_bit(value: u32, i: u32) -> (r: u32)
    ensures
        r == if bit_of(value as int, i as int) {
            1u32
        } else {
            0u32
        },
{
    if i < 32 {
        let x = value >> i;
        proof {
            vstd::bits::lemma_u32_shr_is_div(value, i);
            lemma_bit_of_div(value as int, i as nat);
        }
        assert(x & 1 == x % 2) by (bit_vector);
        x & 1
    } else {
        proof {
            lemma_bit_of_high(value as int, i as nat);
        }
        0
    }
}

impl BitWriter {
    /// The bits written so far, the full bytes and then the pending bits.
    pub closed spec fn spec_bits(&self) -> Seq<bool> {
        stream_bits(self.data@) + value_bits(self.bit_buffer as int, self.bits_in_buffer as int)
    }

    /// The number of bits waiting for their byte to fill up.
    pub closed spec fn spec_pending(&self) -> int {
        self.bits_in_buffer as int
    }

    /// Fewer than eight bits are pending, and the buffer holds just them.
    pub closed spec fn wf(&self) -> bool {
        &&& self.bits_in_buffer < 8
        &&& (self.bit_buffer as int) < pow2(self.bits_in_buffer as nat)
    }

    /// A writer with nothing written.
    pub fn new() -> (r: Self)
        ensures
            r.wf(),
            r.spec_bits() == Seq::<bool>::empty(),
            r.spec_pending() == 0,
    {
        let r = BitWriter { data: Vec::new(), bit_buffer: 0, bits_in_buffer: 0 };
        proof {
            vstd::arithmetic::power2::lemma2_to64();
        }
        assert(r.spec_bits() =~= Seq::<bool>::empty());
        r
    }

    /// Appends one bit (`bit` is 0 or 1), storing the byte once it is full.
    fn push_bit(&mut self, bit: u32)
        requires
            old(self).wf(),
            bit < 2,
        ensures
            final(self).wf(),
            final(self).spec_bits() == old(self).spec_bits().push(bit == 1),
            final(self).spec_pending() == (old(self).spec_pending() + 1) % 8,
    {
        let b = self.bit_buffer;
        let x = bit as u8;
        proof {
            vstd::arithmetic::power2::lemma2_to64();
            if self.bits_in_buffer < 7 {
                vstd::arithmetic::power2::lemma_pow2_strictly_increases(
                    self.bits_in_buffer as nat,
                    7,
                );
            }
        }
        assert(b < 128);
        assert((b << 1) | x == 2 * b + x) by (bit_vector)
            requires
                b < 128,
                x < 2,
        ;
        self.bit_buffer = (self.bit_buffer << 1) | x;
        self.bits_in_buffer = self.bits_in_buffer + 1;
        proof {
            lemma_value_bits_push(b as int, bit == 1, old(self).bits_in_buffer as int);
            vstd::arithmetic::power2::lemma_pow2_unfold(self.bits_in_buffer as nat);
        }
        if self.bits_in_buffer == 8 {
            let ghost d = self.data@;
            self.data.push(self.bit_buffer);
            self.bit_buffer = 0;
            self.bits_in_buffer = 0;
            proof {
                lemma_stream_bits_push(d, (2 * b + x) as u8);
            }
            assert(value_bits(0, 0) =~= Seq::<bool>::empty());
        }
    }

    /// Writes the lowest `num_bits` bits of `value`, most significant first
    /// (bits above the 32 of `value` are zero).
    pub fn write_bits(&mut self, value: u32, num_bits: u32)
        requires
            old(self).wf(),
        ensures
            final(self).wf(),
            final(self).spec_bits() == old(self).spec_bits() + value_bits(
                value as int,
                num_bits as int,
            ),
            final(self).spec_pending() == (old(self).spec_pending() + num_bits) % 8,
    {
        let ghost want = value_bits(value as int, num_bits as int);
        if num_bits == 0 {
            assert(old(self).spec_bits() + want =~= old(self).spec_bits());
            return ;
        }
        let mut i: u32 = num_bits;
        while i > 0
            invariant
                self.wf(),
                i <= num_bits,
                want == value_bits(value as int, num_bits as int),
                self.spec_bits() == old(self).spec_bits() + want.subrange(0, num_bits - i),
                self.spec_pending() == (old(self).spec_pending() + (num_bits - i)) % 8,
            decreases i,
        {
            i = i - 1;
            let bit = value_bit(value, i);
            self.push_bit(bit);
            assert(want.subrange(0, num_bits - i) =~= want.subrange(0, num_bits - i - 1).push(
                bit_of(value as int, i as int),
            ));
        }
        assert(want.subrange(0, num_bits as int) =~= want);
    }

    /// Writes a copy length (see `length_bits`).
    pub fn write_variable_length(&mut self, value: u32)
        requires
            old(self).wf(),
        ensures
            final(self).wf(),
            final(self).spec_bits() == old(self).spec_bits() + length_bits(value),
    {
        proof {
            lemma_zero_bits_value(2);
            lemma_zero_bits_value(4);
            lemma_zero_bits_value(6);
            lemma_zero_bits_value(8);
            lemma_zero_bits_value(14);
            lemma_zero_bits_value(16);
            lemma_zero_bits_value(30);
        }
        let ghost s0 = self.spec_bits();
        if 1 <= value && value <= 3 {
            self.write_bits(value, 2);
        } else if 4 <= value && value <= 18 {
            self.write_bits(0, 2);
            self.write_bits(value - 3, 4);
            assert(self.spec_bits() =~= s0 + length_bits(value));
        } else if 19 <= value && value <= 255 {
            self.write_bits(0, 2);
            self.write_bits(0, 4);
            self.write_bits(value, 8);
            assert(zero_bits(2) + zero_bits(4) =~= zero_bits(6));
            assert(self.spec_bits() =~= s0 + length_bits(value));
        } else if 256 <= value && value <= 65535 {
            self.write_bits(0, 2);
            self.write_bits(0, 4);
            self.write_bits(0, 8);
            self.write_bits(value, 16);
            assert(zero_bits(2) + zero_bits(4) + zero_bits(8) =~= zero_bits(14));
            assert(self.spec_bits() =~= s0 + length_bits(value));
        } else {
            self.write_bits(0, 2);
            self.write_bits(0, 4);
            self.write_bits(0, 8);
            self.write_bits(0, 16);
            assert(value >> 16 == value / 65536) by (bit_vector);
            assert(value & 0xFFFF == value % 65536) by (bit_vector);
            let high = value >> 16;
            let low = value & 0xFFFF;
            self.write_bits(high, 16);
            self.write_bits(low, 16);
            assert(zero_bits(2) + zero_bits(4) + zero_bits(8) + zero_bits(16) =~= zero_bits(30));
            assert(self.spec_bits() =~= s0 + length_bits(value));
        }
    }

    /// Writes an operation code (see `opcode_bits`; other codes write
    /// nothing).
    pub fn write_opcode(&mut self, opcode: u8)
        requires
            old(self).wf(),
        ensures
            final(self).wf(),
            final(self).spec_bits() == old(self).spec_bits() + opcode_bits(opcode),
    {
        match opcode {
            0 => self.write_bits(0, 1),
            2 => self.write_bits(0b10, 2),
            12 => self.write_bits(0b1100, 4),
            13 => self.write_bits(0b1101, 4),
            14 => self.write_bits(0b1110, 4),
            15 => self.write_bits(0b1111, 4),
            _ => {
                assert(old(self).spec_bits() + opcode_bits(opcode) =~= old(self).spec_bits());
            },
        }
    }

    /// Pads the pending bits with zero bits to a full byte and stores it.
    pub fn flush(&mut self)
        requires
            old(self).wf(),
        ensures
            final(self).wf(),
            final(self).spec_pending() == 0,
            final(self).spec_bits() == old(self).spec_bits() + zero_bits(
                if old(self).spec_pending() > 0 {
                    8 - old(self).spec_pending()
                } else {
                    0
                },
            ),
    {
        if self.bits_in_buffer > 0 {
            let k = self.bits_in_buffer;
            let b = self.bit_buffer;
            let s: u8 = (8 - k) as u8;
            proof {
                vstd::arithmetic::power2::lemma_pow2_adds(k as nat, s as nat);
                vstd::arithmetic::power2::lemma2_to64();
                vstd::arithmetic::power2::lemma_pow2_pos(s as nat);
                vstd::arithmetic::mul::lemma_mul_strict_inequality(
                    b as int,
                    pow2(k as nat) as int,
                    pow2(s as nat) as int,
                );
                vstd::bits::lemma_u8_shl_is_mul(b, s);
                lemma_shifted_bits(b as int, k as int, s as nat);
            }
            self.bit_buffer = self.bit_buffer << s;
            let ghost d = self.data@;
            self.data.push(self.bit_buffer);
            proof {
                lemma_stream_bits_push(d, self.bit_buffer);
            }
            self.bit_buffer = 0;
            self.bits_in_buffer = 0;
            assert(value_bits(0, 0) =~= Seq::<bool>::empty());
            assert(self.spec_bits() =~= old(self).spec_bits() + zero_bits(8 - k));
        } else {
            assert(zero_bits(0) =~= Seq::<bool>::empty());
            assert(self.spec_bits() =~= old(self).spec_bits() + zero_bits(0));
        }
    }

    /// The bytes written, the pending bits padded with zero bits.
    pub fn into_data(self) -> (r: Vec<u8>)
        requires
            self.wf(),
        ensures
            stream_bits(r@) == self.spec_bits() + zero_bits(
                if self.spec_bits().len() % 8 > 0 {
                    8 - self.spec_bits().len() % 8
                } else {
                    0
                },
            ),
    {
        assert(self.spec_bits().len() % 8 == self.spec_pending());
        let mut w = self;
        w.flush();
        assert(value_bits(w.bit_buffer as int, 0) =~= Seq::<bool>::empty());
        assert(w.spec_bits() =~= stream_bits(w.data@));
        w.data
    }
}

/// The bits of `b` shifted up by `s` places are those of `b` then `s` zeros.
proof fn lemma_shifted_bits(b: int, k: int, s: nat)
    requires
        b >= 0,
        k >= 0,
    ensures
        value_bits(b * pow2(s), k + s) == value_bits(b, k) + zero_bits(s as int),
    decreases s,
{
    if s == 0 {
        vstd::arithmetic::power2::lemma2_to64();
        assert(value_bits(b, k) + zero_bits(0) =~= value_bits(b, k));
    } else {
        lemma_shifted_bits(b, k, (s - 1) as nat);
        vstd::arithmetic::power2::lemma_pow2_unfold(s);
        vstd::arithmetic::power2::lemma_pow2_pos((s - 1) as nat);
        vstd::arithmetic::mul::lemma_mul_is_associative(b, 2, pow2((s - 1) as nat) as int);
        vstd::arithmetic::mul::lemma_mul_is_commutative(b, 2);
        vstd::arithmetic::mul::lemma_mul_nonnegative(b, pow2((s - 1) as nat) as int);
        assert(b * pow2(s) == 2 * (b * pow2((s - 1) as nat)) + 0) by {
            vstd::arithmetic::mul::lemma_mul_is_associative(2, b, pow2((s - 1) as nat) as int);
        }
        lemma_value_bits_push(b * pow2((s - 1) as nat), false, k + s - 1);
        assert(zero_bits(s - 1).push(false) =~= zero_bits(s as int));
        assert((value_bits(b, k) + zero_bits(s - 1)).push(false) =~= value_bits(b, k) + zero_bits(
            s as int,
        ));
    }
}

/// The better of the copy found so far and a copy with operation `op` from
/// `src` (when `ok`): the new one if it covers at least 2 pixels and more
/// than the one so far.
pub open spec fn better(best: Option<(u8, int)>, op: u8, ok: bool, d: Seq<u8>, rp: int, src: int) -> Option<
    (u8, int),
> {
    let longer = match best {
        Some((_, l)) => run_from(d, rp, src) > l,
        None => true,
    };
    if ok && run_from(d, rp, src) >= 2 && longer {
        Some((op, run_from(d, rp, src) as int))
    } else {
        best
    }
}

/// The copy the encoder chooses at pixel `rp` of an image `w` pixels wide:
/// the longest run of at least 2 pixels from the previous pixel, one line
/// up, up and right, up and left, or two pixels back, the earlier of these
/// on a tie.
pub open spec fn best_copy(d: Seq<u8>, rp: int, w: int) -> Option<(u8, int)> {
    let b2 = better(None, 2, rp >= 1, d, rp, rp - 1);
    let b12 = better(b2, 12, rp >= w, d, rp, rp - w);
    let b13 = better(b12, 13, rp >= w && w > 1, d, rp, rp - w + 1);
    let b14 = better(b13, 14, rp >= w + 1, d, rp, rp - w - 1);
    better(b14, 15, rp >= 2, d, rp, rp - 2)
}

/// Splitting a stream that begins with `w` then `b`.
proof fn lemma_extends_split(w: Seq<bool>, b: Seq<bool>, s: Seq<bool>)
    requires
        extends(w + b, s),
    ensures
        extends(w, s),
        extends(b, s.subrange(w.len() as int, s.len() as int)),
        w.len() <= s.len(),
{
    let sw = s.subrange(0, (w + b).len() as int);
    assert(sw == w + b);
    assert(s.subrange(0, w.len() as int) =~= sw.subrange(0, w.len() as int));
    assert(sw.subrange(0, w.len() as int) =~= w);
    assert(s.subrange(w.len() as int, s.len() as int).subrange(0, b.len() as int) =~= sw.subrange(
        w.len() as int,
        sw.len() as int,
    ));
    assert(sw.subrange(w.len() as int, sw.len() as int) =~= b);
}

/// The chosen copy reads from a valid source before the read position, and
/// its length is the run from there.
pub proof fn lemma_best_copy(d: Seq<u8>, rp: int, w: int) -> (src: int)
    requires
        0 <= rp,
        0 <= w,
        best_copy(d, rp, w) is Some,
    ensures
        ({
            let (op, len) = best_copy(d, rp, w)->0;
            &&& op == 2 || 12 <= op <= 15
            &&& copy_source(op, rp, w) == Some(src)
            &&& 0 <= src < rp
            &&& len == run_from(d, rp, src)
            &&& len >= 2
        }),
{
    let b2 = better(None, 2, rp >= 1, d, rp, rp - 1);
    let b12 = better(b2, 12, rp >= w, d, rp, rp - w);
    let b13 = better(b12, 13, rp >= w && w > 1, d, rp, rp - w + 1);
    let b14 = better(b13, 14, rp >= w + 1, d, rp, rp - w - 1);
    let (op, len) = best_copy(d, rp, w)->0;
    if op == 15 && b14 != best_copy(d, rp, w) {
        rp - 2
    } else if b14 == best_copy(d, rp, w) && op == 14 && b13 != b14 {
        rp - w - 1
    } else if b14 == best_copy(d, rp, w) && b13 == b14 && op == 13 && b12 != b13 {
        rp - w + 1
    } else if b14 == best_copy(d, rp, w) && b13 == b14 && b12 == b13 && op == 12 && b2 != b12 {
        rp - w
    } else {
        rp - 1
    }
}

/// A copy of at least 2 pixels takes at most 10 bits per pixel.
proof fn lemma_copy_bits(op: u8, len: u32)
    requires
        op == 2 || 12 <= op <= 15,
        len >= 2,
    ensures
        opcode_bits(op).len() + length_bits(len).len() <= 10 * len,
{
}

/// The bits written for the palette indices `d` of an image `w` pixels
/// wide from pixel `rp` on, with colour cache `lru`: at each pixel the copy
/// that `best_copy` chooses, else a colour lookup, which moves the colour to
/// the front of the cache row of the pixel before it.
pub open spec fn greedy_bits(d: Seq<u8>, w: int, rp: int, lru: Seq<u8>) -> Seq<bool>
    decreases d.len() - rp,
{
    if rp < 1 || rp >= d.len() || w < 0 {
        Seq::empty()
    } else {
        match best_copy(d, rp, w) {
            Some((op, len)) => {
                proof {
                    let src = lemma_best_copy(d, rp, w);
                    lemma_run_from(d, rp, src);
                }
                opcode_bits(op) + length_bits(len as u32) + greedy_bits(d, w, rp + len, lru)
            },
            None => opcode_bits(0) + color_bits(lru, d, rp, d[rp]) + greedy_bits(
                d,
                w,
                rp + 1,
                lru_update(lru, d[rp - 1] as int, d[rp]),
            ),
        }
    }
}

/// The bits the encoder writes for the palette indices `d` of an image `w`
/// pixels wide: the first two indices as 8 bits each, then the copies and
/// colour lookups from the third pixel on.
pub open spec fn greedy_stream(d: Seq<u8>, w: int) -> Seq<bool> {
    if d.len() == 0 {
        Seq::empty()
    } else if d.len() == 1 {
        value_bits(d[0] as int, 8)
    } else {
        value_bits(d[0] as int, 8) + value_bits(d[1] as int, 8) + greedy_bits(d, w, 2, initial_lru())
    }
}

/// Bits padded with zero bits to a whole number of bytes.
pub open spec fn padded(bits: Seq<bool>) -> Seq<bool> {
    bits + zero_bits(
        if bits.len() % 8 > 0 {
            8 - bits.len() % 8
        } else {
            0
        },
    )
}

/// The encoder of palette indices.
struct CompressorState {
    indexed_data: Vec<u8>,
    writer: BitWriter,
    read_position: usize,
    line_bytes: usize,
    lru_cache: Vec<u8>,
    current_color: u8,
}

impl CompressorState {
    /// The encoder has covered the pixels before the read position: every
    /// stream that begins with the bits written decodes as the decoder
    /// would continue from the matching state.
    spec fn replays(&self) -> bool {
        forall|s: Seq<bool>|
            extends(self.writer.spec_bits(), s) ==> #[trigger] decode_bits(
                s,
                self.line_bytes as int,
                self.indexed_data@.len() as int,
            ) == dec_loop(
                s,
                self.line_bytes as int,
                self.indexed_data@.len() as int,
                enc_state(
                    self.indexed_data@,
                    self.read_position as int,
                    self.writer.spec_bits().len() as int,
                    self.current_color,
                    self.lru_cache@,
                ),
            )
    }

    spec fn parts_ok(&self) -> bool {
        &&& self.writer.wf()
        &&& self.indexed_data@.len() <= 0xFFFF_FFFF
        &&& self.read_position <= self.indexed_data@.len()
        &&& self.lru_cache@.len() == LRU_ROWS * LRU_WAYS
    }

    spec fn wf(&self) -> bool {
        &&& self.parts_ok()
        &&& self.writer.spec_bits().len() <= 10 * self.read_position
    }

    /// An encoder at the start of the indices, for lines of `line_bytes`.
    fn new(indexed_data: Vec<u8>, line_bytes: usize) -> (r: Self)
        requires
            indexed_data@.len() <= 0xFFFF_FFFF,
        ensures
            r.wf(),
            r.indexed_data@ == indexed_data@,
            r.line_bytes == line_bytes,
            r.read_position == 0,
            r.writer.spec_bits() == Seq::<bool>::empty(),
            r.current_color == 0,
            r.lru_cache@ == initial_lru(),
    {
        let mut lru_cache: Vec<u8> = Vec::new();
        let mut k: usize = 0;
        while k < LRU_ROWS * LRU_WAYS
            invariant
                k <= LRU_ROWS * LRU_WAYS,
                lru_cache@ == Seq::new(k as nat, |j: int| (j % 8) as u8),
            decreases LRU_ROWS * LRU_WAYS - k,
        {
            lru_cache.push((k % 8) as u8);
            k = k + 1;
        }
        assert(lru_cache@ =~= initial_lru());
        CompressorState {
            indexed_data,
            writer: BitWriter::new(),
            read_position: 0,
            line_bytes,
            lru_cache,
            current_color: 0,
        }
    }

    /// Moves `new_color` to the front of the cache row of the current
    /// colour, as the decoder does.
    fn update_lru_cache(&mut self, new_color: u8)
        requires
            old(self).parts_ok(),
        ensures
            final(self).parts_ok(),
            final(self).lru_cache@ == lru_update(
                old(self).lru_cache@,
                old(self).current_color as int,
                new_color,
            ),
            final(self).indexed_data@ == old(self).indexed_data@,
            final(self).writer == old(self).writer,
            final(self).read_position == old(self).read_position,
            final(self).line_bytes == old(self).line_bytes,
            final(self).current_color == old(self).current_color,
    {
        let mut cache: Vec<u8> = Vec::new();
        std::mem::swap(&mut cache, &mut self.lru_cache);
        move_to_front(&mut cache, self.current_color, new_color);
        self.lru_cache = cache;
    }

    /// Writes a colour: its index in the cache row of the previous pixel
    /// when it is there (4 bits), else the colour itself (9 bits); returns
    /// the number of bits written.
    fn write_color_index(&mut self, color_index: u8) -> (r: u32)
        requires
            old(self).parts_ok(),
        ensures
            final(self).parts_ok(),
            final(self).writer.spec_bits() == old(self).writer.spec_bits() + color_bits(
                old(self).lru_cache@,
                old(self).indexed_data@,
                old(self).read_position as int,
                color_index,
            ),
            r == color_bits(
                old(self).lru_cache@,
                old(self).indexed_data@,
                old(self).read_position as int,
                color_index,
            ).len(),
            final(self).indexed_data@ == old(self).indexed_data@,
            final(self).read_position == old(self).read_position,
            final(self).line_bytes == old(self).line_bytes,
            final(self).current_color == old(self).current_color,
            final(self).lru_cache@ == old(self).lru_cache@,
    {
        let ghost w0 = self.writer.spec_bits();
        if self.read_position < 1 {
            self.writer.write_bits(1, 1);
            self.writer.write_bits(color_index as u32, 8);
            assert(self.writer.spec_bits() =~= w0 + color_bits(
                self.lru_cache@,
                self.indexed_data@,
                self.read_position as int,
                color_index,
            ));
            return 9;
        }
        let ref_pos = self.read_position - 1;
        let reference_color = self.indexed_data[ref_pos];
        let base = (reference_color as usize) * LRU_WAYS;
        let ghost row = lru_row(self.lru_cache@, reference_color as int);
        let mut i: usize = 0;
        while i < LRU_WAYS && self.lru_cache[base + i] != color_index
            invariant
                i <= LRU_WAYS,
                base == LRU_WAYS * reference_color,
                self.lru_cache@.len() == LRU_ROWS * LRU_WAYS,
                row == lru_row(self.lru_cache@, reference_color as int),
                lru_position(row, color_index, 0) == lru_position(row, color_index, i as int),
            decreases LRU_WAYS - i,
        {
            assert(row[i as int] == self.lru_cache@[base + i]);
            i = i + 1;
        }
        if i < LRU_WAYS {
            assert(row[i as int] == self.lru_cache@[base + i]);
        }
        assert(i == lru_position(row, color_index, 0));
        if i < LRU_WAYS {
            self.writer.write_bits(0, 1);
            self.writer.write_bits(i as u32, 3);
            assert(self.writer.spec_bits() =~= w0 + color_bits(
                self.lru_cache@,
                self.indexed_data@,
                self.read_position as int,
                color_index,
            ));
            4
        } else {
            self.writer.write_bits(1, 1);
            self.writer.write_bits(color_index as u32, 8);
            assert(self.writer.spec_bits() =~= w0 + color_bits(
                self.lru_cache@,
                self.indexed_data@,
                self.read_position as int,
                color_index,
            ));
            9
        }
    }

    /// Encodes the pixel at the read position as a colour lookup.
    fn encode_dictionary_lookup(&mut self)
        requires
            old(self).wf(),
            1 <= old(self).read_position < old(self).indexed_data@.len(),
            old(self).replays(),
        ensures
            final(self).wf(),
            final(self).replays(),
            final(self).indexed_data@ == old(self).indexed_data@,
            final(self).line_bytes == old(self).line_bytes,
            final(self).read_position == old(self).read_position + 1,
            final(self).writer.spec_bits() == old(self).writer.spec_bits() + (opcode_bits(0)
                + color_bits(
                old(self).lru_cache@,
                old(self).indexed_data@,
                old(self).read_position as int,
                old(self).indexed_data@[old(self).read_position as int],
            )),
            final(self).lru_cache@ == lru_update(
                old(self).lru_cache@,
                old(self).indexed_data@[old(self).read_position - 1] as int,
                old(self).indexed_data@[old(self).read_position as int],
            ),
    {
        let ghost d = self.indexed_data@;
        let ghost rp = self.read_position as int;
        let ghost w = self.line_bytes as int;
        let ghost w0 = self.writer.spec_bits();
        let ghost lru0 = self.lru_cache@;
        let ghost cur0 = self.current_color;
        let _len = self.indexed_data.len();
        let color_index = self.indexed_data[self.read_position];
        self.writer.write_opcode(OP_DICT_LOOKUP);
        self.write_color_index(color_index);
        if self.read_position >= 1 {
            let ref_pos = self.read_position - 1;
            let reference_color = self.indexed_data[ref_pos];
            self.current_color = reference_color;
            self.update_lru_cache(color_index);
        }
        self.read_position = self.read_position + 1;
        let ghost b = opcode_bits(0) + color_bits(lru0, d, rp, d[rp]);
        assert(self.writer.spec_bits() =~= w0 + b);
        assert forall|s: Seq<bool>| extends(self.writer.spec_bits(), s) implies #[trigger] decode_bits(
            s,
            w,
            d.len() as int,
        ) == dec_loop(
            s,
            w,
            d.len() as int,
            enc_state(d, rp + 1, self.writer.spec_bits().len() as int, d[rp - 1], self.lru_cache@),
        ) by {
            lemma_extends_split(w0, b, s);
            lemma_dict_replay(s, w, d, rp, w0.len() as int, cur0, lru0);
        }
    }

    /// The number of pixels from the read position on that equal those from
    /// `src_pos` on, while `src_pos` stays before the read position.
    fn check_run_length(&self, src_pos: usize) -> (r: usize)
        ensures
            r == run_from(self.indexed_data@, self.read_position as int, src_pos as int),
    {
        let ghost d = self.indexed_data@;
        let mut length: usize = 0;
        let mut read_pos = self.read_position;
        let mut src = src_pos;
        let total_size = self.indexed_data.len();
        while read_pos < total_size && src < read_pos && self.indexed_data[read_pos]
            == self.indexed_data[src]
            invariant
                d == self.indexed_data@,
                total_size == d.len(),
                read_pos == self.read_position + length,
                src == src_pos + length,
                run_from(d, self.read_position as int, src_pos as int) == length + run_from(
                    d,
                    read_pos as int,
                    src as int,
                ),
            decreases total_size - read_pos,
        {
            length = length + 1;
            read_pos = read_pos + 1;
            src = src + 1;
        }
        length
    }

    /// The copy to encode at the read position (see `best_copy`).
    fn find_best_copy_operation(&self) -> (r: Option<(u8, usize)>)
        ensures
            match r {
                Some((op, len)) => best_copy(
                    self.indexed_data@,
                    self.read_position as int,
                    self.line_bytes as int,
                ) == Some((op, len as int)),
                None => best_copy(
                    self.indexed_data@,
                    self.read_position as int,
                    self.line_bytes as int,
                ) is None,
            },
    {
        let ghost d = self.indexed_data@;
        let ghost rp = self.read_position as int;
        let ghost w = self.line_bytes as int;
        let min_length: usize = 2;
        let mut best_op: Option<(u8, usize)> = None;
        if self.read_position >= 1 {
            let src = self.read_position - 1;
            let length = self.check_run_length(src);
            if length >= min_length {
                best_op = Some((OP_COPY_PREV_PIXEL, length));
            }
        }
        let ghost b2 = better(None, 2, rp >= 1, d, rp, rp - 1);
        assert(match best_op {
            Some((o, l)) => b2 == Some((o, l as int)),
            None => b2 is None,
        });
        if self.read_position >= self.line_bytes {
            let src = self.read_position - self.line_bytes;
            let length = self.check_run_length(src);
            if length >= min_length && (match best_op { Some((_, len)) => length > len, None => true }) {
                best_op = Some((OP_COPY_PREV_LINE, length));
            }
        }
        let ghost b12 = better(b2, 12, rp >= w, d, rp, rp - w);
        assert(match best_op {
            Some((o, l)) => b12 == Some((o, l as int)),
            None => b12 is None,
        });
        if self.read_position >= self.line_bytes && self.line_bytes > 1 {
            let src = self.read_position - self.line_bytes + 1;
            if src < self.read_position {
                let length = self.check_run_length(src);
                if length >= min_length && (match best_op { Some((_, len)) => length > len, None => true }) {
                    best_op = Some((OP_COPY_DIAGONAL_1, length));
                }
            }
        }
        let ghost b13 = better(b12, 13, rp >= w && w > 1, d, rp, rp - w + 1);
        assert(match best_op {
            Some((o, l)) => b13 == Some((o, l as int)),
            None => b13 is None,
        });
        if self.read_position > self.line_bytes {
            let src = self.read_position - self.line_bytes - 1;
            let length = self.check_run_length(src);
            if length >= min_length && (match best_op { Some((_, len)) => length > len, None => true }) {
                best_op = Some((OP_COPY_DIAGONAL_2, length));
            }
        }
        let ghost b14 = better(b13, 14, rp >= w + 1, d, rp, rp - w - 1);
        assert(match best_op {
            Some((o, l)) => b14 == Some((o, l as int)),
            None => b14 is None,
        });
        if self.read_position >= 2 {
            let src = self.read_position - 2;
            let length = self.check_run_length(src);
            if length >= min_length && (match best_op { Some((_, len)) => length > len, None => true }) {
                best_op = Some((OP_COPY_DOUBLE_BPP, length));
            }
        }
        best_op
    }

    /// Encodes the chosen copy at the read position.
    fn encode_copy_operation(&mut self, opcode: u8, length: usize)
        requires
            old(self).wf(),
            old(self).replays(),
            old(self).read_position < old(self).indexed_data@.len(),
            best_copy(
                old(self).indexed_data@,
                old(self).read_position as int,
                old(self).line_bytes as int,
            ) == Some((opcode, length as int)),
        ensures
            final(self).wf(),
            final(self).replays(),
            final(self).indexed_data@ == old(self).indexed_data@,
            final(self).line_bytes == old(self).line_bytes,
            final(self).read_position == old(self).read_position + length,
            length >= 2,
            final(self).writer.spec_bits() == old(self).writer.spec_bits() + (opcode_bits(opcode)
                + length_bits(length as u32)),
            final(self).lru_cache@ == old(self).lru_cache@,
    {
        let ghost d = self.indexed_data@;
        let ghost rp = self.read_position as int;
        let ghost w = self.line_bytes as int;
        let ghost w0 = self.writer.spec_bits();
        let ghost src = lemma_best_copy(d, rp, w);
        proof {
            lemma_run_from(d, rp, src);
            lemma_copy_bits(opcode, length as u32);
        }
        self.writer.write_opcode(opcode);
        self.writer.write_variable_length(length as u32);
        self.read_position = self.read_position + length;
        let ghost b = opcode_bits(opcode) + length_bits(length as u32);
        assert(self.writer.spec_bits() =~= w0 + b);
        assert forall|s: Seq<bool>| extends(self.writer.spec_bits(), s) implies #[trigger] decode_bits(
            s,
            w,
            d.len() as int,
        ) == dec_loop(
            s,
            w,
            d.len() as int,
            enc_state(
                d,
                rp + length,
                self.writer.spec_bits().len() as int,
                self.current_color,
                self.lru_cache@,
            ),
        ) by {
            lemma_extends_split(w0, b, s);
            lemma_copy_replay(
                s,
                w,
                d,
                rp,
                w0.len() as int,
                self.current_color,
                self.lru_cache@,
                opcode,
                src,
                length as u32,
            );
        }
    }

    /// Encodes all the indices: the first two as 8 bits each, then a copy
    /// or a colour lookup at a time.
    fn compress_type1(&mut self)
        requires
            old(self).wf(),
            old(self).read_position == 0,
            old(self).writer.spec_bits() == Seq::<bool>::empty(),
            old(self).current_color == 0,
            old(self).lru_cache@ == initial_lru(),
        ensures
            final(self).wf(),
            final(self).indexed_data@ == old(self).indexed_data@,
            final(self).line_bytes == old(self).line_bytes,
            old(self).indexed_data@.len() >= 2 ==> forall|s: Seq<bool>|
                extends(final(self).writer.spec_bits(), s) ==> #[trigger] decode_bits(
                    s,
                    old(self).line_bytes as int,
                    old(self).indexed_data@.len() as int,
                ) == Some(old(self).indexed_data@),
            old(self).indexed_data@.len() == 1 ==> final(self).writer.spec_bits() == value_bits(
                old(self).indexed_data@[0] as int,
                8,
            ),
            old(self).indexed_data@.len() == 0 ==> final(self).writer.spec_bits() == Seq::<
                bool,
            >::empty(),
            final(self).writer.spec_bits() == greedy_stream(
                old(self).indexed_data@,
                old(self).line_bytes as int,
            ),
    {
        let ghost d = self.indexed_data@;
        let ghost w = self.line_bytes as int;
        let total_size = self.indexed_data.len();
        if self.read_position < total_size {
            let byte_val = self.indexed_data[self.read_position];
            self.writer.write_bits(byte_val as u32, 8);
            self.read_position = self.read_position + 1;
        }
        if self.read_position < total_size {
            let byte_val = self.indexed_data[self.read_position];
            self.writer.write_bits(byte_val as u32, 8);
            self.read_position = self.read_position + 1;
        }
        if total_size < 2 {
            if total_size == 1 {
                assert(Seq::<bool>::empty() + value_bits(d[0] as int, 8) =~= value_bits(
                    d[0] as int,
                    8,
                ));
            }
            return ;
        }
        assert(self.writer.spec_bits() + greedy_bits(d, w, 2, initial_lru()) =~= greedy_stream(d, w));
        proof {
            vstd::arithmetic::power2::lemma2_to64();
            let bits = self.writer.spec_bits();
            assert(bits =~= value_bits(d[0] as int, 8) + value_bits(d[1] as int, 8));
            assert forall|s: Seq<bool>| extends(self.writer.spec_bits(), s) implies #[trigger] decode_bits(
                s,
                w,
                d.len() as int,
            ) == dec_loop(s, w, d.len() as int, enc_state(d, 2, 16, 0, initial_lru())) by {
                assert(s.subrange(0, 8) =~= bits.subrange(0, 8));
                assert(bits.subrange(0, 8) =~= value_bits(d[0] as int, 8));
                assert(s.subrange(8, 16) =~= bits.subrange(8, 16));
                assert(bits.subrange(8, 16) =~= value_bits(d[1] as int, 8));
                super::bits::lemma_bits_value_of(d[0] as int, 8);
                super::bits::lemma_bits_value_of(d[1] as int, 8);
                let st = dec_init(s, d.len() as int)->0;
                assert(st.out =~= enc_state(d, 2, 16, 0, initial_lru()).out);
            }
        }
        while self.read_position < total_size
            invariant
                self.wf(),
                self.replays(),
                total_size == self.indexed_data@.len(),
                d == self.indexed_data@,
                w == self.line_bytes,
                2 <= self.read_position <= total_size,
                self.writer.spec_bits() + greedy_bits(d, w, self.read_position as int, self.lru_cache@)
                    == greedy_stream(d, w),
            decreases total_size - self.read_position,
        {
            let ghost b0 = self.writer.spec_bits();
            let ghost rp0 = self.read_position as int;
            let ghost lru0 = self.lru_cache@;
            match self.find_best_copy_operation() {
                Some((opcode, length)) => {
                    self.encode_copy_operation(opcode, length);
                    let ghost x = opcode_bits(opcode) + length_bits(length as u32);
                    assert(greedy_bits(d, w, rp0, lru0) == x + greedy_bits(
                        d,
                        w,
                        rp0 + length,
                        lru0,
                    ));
                    assert(b0 + x + greedy_bits(d, w, rp0 + length, lru0) =~= b0 + (x + greedy_bits(
                        d,
                        w,
                        rp0 + length,
                        lru0,
                    )));
                },
                None => {
                    self.encode_dictionary_lookup();
                    let ghost x = opcode_bits(0) + color_bits(lru0, d, rp0, d[rp0]);
                    let ghost lru1 = lru_update(lru0, d[rp0 - 1] as int, d[rp0]);
                    assert(greedy_bits(d, w, rp0, lru0) == x + greedy_bits(d, w, rp0 + 1, lru1));
                    assert(b0 + x + greedy_bits(d, w, rp0 + 1, lru1) =~= b0 + (x + greedy_bits(
                        d,
                        w,
                        rp0 + 1,
                        lru1,
                    )));
                },
            }
        }
        assert(self.writer.spec_bits() + greedy_bits(d, w, self.read_position as int, self.lru_cache@)
            =~= self.writer.spec_bits());
        assert forall|s: Seq<bool>| extends(self.writer.spec_bits(), s) implies #[trigger] decode_bits(
            s,
            w,
            d.len() as int,
        ) == Some(d) by {
            let st = enc_state(
                d,
                d.len() as int,
                self.writer.spec_bits().len() as int,
                self.current_color,
                self.lru_cache@,
            );
            assert(st.out =~= d);
        }
    }
}

/// The colour of pixel `i` of RGB data, with a fourth byte 0.
pub open spec fn pixel_color(rgb: Seq<u8>, i: int) -> Seq<u8> {
    seq![rgb[3 * i], rgb[3 * i + 1], rgb[3 * i + 2], 0u8]
}

/// The distinct colours of the first `k` pixels, in order of first
/// appearance.
pub open spec fn colors_upto(rgb: Seq<u8>, k: int) -> Seq<Seq<u8>>
    decreases k,
{
    if k <= 0 {
        Seq::empty()
    } else {
        let prev = colors_upto(rgb, k - 1);
        if prev.contains(pixel_color(rgb, k - 1)) {
            prev
        } else {
            prev.push(pixel_color(rgb, k - 1))
        }
    }
}

/// The index of the first `c` in `list` from `i` on (the length if none).
pub open spec fn index_from(list: Seq<Seq<u8>>, c: Seq<u8>, i: int) -> int
    decreases list.len() - i,
{
    if i < 0 || i >= list.len() {
        list.len() as int
    } else if list[i] == c {
        i
    } else {
        index_from(list, c, i + 1)
    }
}

/// The first pixel, from `k` on among the first `n`, whose colour would be
/// the 257th distinct colour.
pub open spec fn overflow_from(rgb: Seq<u8>, n: int, k: int) -> Option<int>
    decreases n - k,
{
    if k < 0 || k >= n {
        None
    } else if colors_upto(rgb, k).len() >= 256 && !colors_upto(rgb, k).contains(pixel_color(rgb, k)) {
        Some(k)
    } else {
        overflow_from(rgb, n, k + 1)
    }
}

/// The palette index of each of the first `n` pixels: the place of its
/// colour among the distinct colours.
pub open spec fn palette_indices(rgb: Seq<u8>, n: int) -> Seq<u8> {
    Seq::new(n as nat, |i: int| index_from(colors_upto(rgb, i + 1), pixel_color(rgb, i), 0) as u8)
}

/// The 256 palette entries for the distinct colours (zero after them).
pub open spec fn palette_entries(colors: Seq<Seq<u8>>) -> Seq<Seq<u8>> {
    Seq::new(
        256,
        |j: int|
            if j < colors.len() {
                colors[j]
            } else {
                seq![0u8, 0u8, 0u8, 0u8]
            },
    )
}

/// The stored palette: blue, green, red and 0 for each entry.
pub open spec fn bgr_bytes(pal: Seq<Seq<u8>>) -> Seq<u8>
    decreases pal.len(),
{
    if pal.len() == 0 {
        Seq::empty()
    } else {
        bgr_bytes(pal.drop_last()) + seq![pal.last()[2], pal.last()[1], pal.last()[0], 0u8]
    }
}

/// Whether `e` is the compression error of a KG file with message `m`.
pub open spec fn is_compression_error(e: DvFileError, m: Seq<char>) -> bool {
    e matches DvFileError::CompressionError { file_type, message } && file_type == FileType::Kg
        && message@ == m
}

/// The message for RGB data of the wrong size.
pub open spec fn size_message(expected: nat, width: u16, height: u16, got: nat) -> Seq<char> {
    "Invalid RGB data size: expected "@ + decimal(expected) + " bytes ("@ + decimal(width as nat)
        + "x"@ + decimal(height as nat) + " * 3), got "@ + decimal(got) + " bytes"@
}

/// The file size field of a file of `n` bytes (its low 32 bits).
pub open spec fn size_field(n: int) -> u32 {
    (n % 0x1_0000_0000) as u32
}

/// The first 48 bytes written for an image: the header (palette at 48,
/// data at 1072, the total file size) and 16 bytes of zero padding.
pub open spec fn image_head(width: u16, height: u16, size: u32) -> Seq<u8> {
    seq![MAGIC_K, MAGIC_G, 2u8, 1u8] + u16_bytes(width) + u16_bytes(height) + seq![0u8, 0u8, 0u8, 0u8]
        + u32_bytes(48) + u32_bytes(1072) + u32_bytes(size) + Seq::new(8, |i: int| 0u8) + Seq::new(
        16,
        |i: int| 0u8,
    )
}

/// The first 1072 bytes written for an image: the header and padding, then
/// the palette.
pub open spec fn image_prefix(width: u16, height: u16, size: u32, colors: Seq<Seq<u8>>) -> Seq<u8> {
    image_head(width, height, size) + bgr_bytes(palette_entries(colors))
}

/// Whether `c` is what the encoder writes for the palette indices `d` of an
/// image `w` pixels wide: bits that decode to `d`, or for fewer than two
/// pixels the indices themselves.
pub open spec fn encodes(c: Seq<u8>, d: Seq<u8>, w: int) -> bool {
    &&& d.len() >= 2 ==> super::decode::decode_indices(c, w, d.len() as int) == Some(d)
    &&& d.len() == 1 ==> stream_bits(c) == value_bits(d[0] as int, 8)
    &&& d.len() == 0 ==> c.len() == 0
    &&& c.len() <= 2 * d.len()
}

/// What compressing RGB data gives: an error for data of the wrong size or
/// for more than 256 colours; otherwise the header (with the total file
/// size), padding and palette, then the encoded indices: the bytes of the
/// bits that `greedy_stream` gives, padded to whole bytes, which decode back
/// to the indices.
pub open spec fn compressed(rgb: Seq<u8>, width: u16, height: u16, r: Result<Vec<u8>, DvFileError>) -> bool {
    let t = width as int * height as int;
    if rgb.len() != 3 * t {
        r matches Err(e) && is_compression_error(
            e,
            size_message((3 * t) as nat, width, height, rgb.len()),
        )
    } else {
        match overflow_from(rgb, t, 0) {
            Some(k) => r matches Err(e) && is_compression_error(
                e,
                "Image has more than 256 unique colors (found at pixel "@ + decimal(k as nat) + ")"@,
            ),
            None => r matches Ok(bytes) && {
                &&& bytes@.len() >= 1072
                &&& bytes@.subrange(0, 1072) == image_prefix(
                    width,
                    height,
                    size_field(bytes@.len() as int),
                    colors_upto(rgb, t),
                )
                &&& bytes@.subrange(1072, bytes@.len() as int) == pack_bits(
                    padded(greedy_stream(palette_indices(rgb, t), width as int)),
                )
                &&& encodes(
                    bytes@.subrange(1072, bytes@.len() as int),
                    palette_indices(rgb, t),
                    width as int,
                )
            },
        }
    }
}

/// Builds the palette of the distinct colours (at most 256) and the index
/// of each pixel.
fn build_palette(rgb_data: &[u8]) -> (r: Result<([[u8; 4]; 256], Vec<u8>), DvFileError>)
    ensures
        ({
            let n = rgb_data@.len() / 3;
            match overflow_from(rgb_data@, n as int, 0) {
                Some(k) => r matches Err(e) && is_compression_error(
                    e,
                    "Image has more than 256 unique colors (found at pixel "@ + decimal(k as nat)
                        + ")"@,
                ),
                None => r matches Ok((pal, idx)) && super::palette_view(pal@) == palette_entries(
                    colors_upto(rgb_data@, n as int),
                ) && idx@ == palette_indices(rgb_data@, n as int) && colors_upto(
                    rgb_data@,
                    n as int,
                ).len() <= 256,
            }
        }),
{
    let ghost rgb = rgb_data@;
    let pixel_count = rgb_data.len() / 3;
    let mut unique_colors: Vec<[u8; 4]> = Vec::new();
    let mut indexed_data: Vec<u8> = Vec::new();
    let mut i: usize = 0;
    while i < pixel_count
        invariant
            rgb == rgb_data@,
            pixel_count == rgb.len() / 3,
            i <= pixel_count,
            super::palette_view(unique_colors@) == colors_upto(rgb, i as int),
            unique_colors@.len() <= 256,
            indexed_data@ == palette_indices(rgb, i as int),
            overflow_from(rgb, pixel_count as int, 0) == overflow_from(rgb, pixel_count as int, i as int),
        decreases pixel_count - i,
    {
        let len = rgb_data.len();
        assert(3 * i + 2 < len) by (nonlinear_arith)
            requires
                i < pixel_count,
                pixel_count == len / 3,
        ;
        let r = rgb_data[i * 3];
        let g = rgb_data[i * 3 + 1];
        let b = rgb_data[i * 3 + 2];
        let ghost c = pixel_color(rgb, i as int);
        let ghost list = colors_upto(rgb, i as int);
        let mut j: usize = 0;
        while j < unique_colors.len() && !(unique_colors[j][0] == r && unique_colors[j][1] == g
            && unique_colors[j][2] == b && unique_colors[j][3] == 0)
            invariant
                j <= unique_colors@.len(),
                list == super::palette_view(unique_colors@),
                c == seq![r, g, b, 0u8],
                index_from(list, c, 0) == index_from(list, c, j as int),
            decreases unique_colors@.len() - j,
        {
            assert(list[j as int] != c) by {
                if list[j as int] == c {
                    assert(list[j as int][0] == r);
                }
            }
            j = j + 1;
        }
        if j < unique_colors.len() {
            assert(list[j as int] =~= c);
        }
        let ghost found = j < unique_colors.len();
        proof {
            lemma_index_from(list, c, 0);
        }
        let index = if j < unique_colors.len() {
            j
        } else {
            if unique_colors.len() >= 256 {
                let ghost _k = i;
                assert(!list.contains(c));
                return Err(
                    DvFileError::CompressionError {
                        file_type: FileType::Kg,
                        message: number_message(
                            "Image has more than 256 unique colors (found at pixel ",
                            i as u64,
                            ")",
                        ),
                    },
                );
            }
            let color = [r, g, b, 0u8];
            unique_colors.push(color);
            assert(color@ =~= c);
            unique_colors.len() - 1
        };
        indexed_data.push(index as u8);
        proof {
            assert(super::palette_view(unique_colors@) =~= colors_upto(rgb, i + 1));
            assert(colors_upto(rgb, i + 1)[index as int] == c);
            lemma_index_from(colors_upto(rgb, i + 1), c, 0);
            assert(indexed_data@ =~= palette_indices(rgb, i + 1));
        }
        i = i + 1;
    }
    let mut palette = [[0u8; 4]; 256];
    let mut k: usize = 0;
    while k < unique_colors.len()
        invariant
            k <= unique_colors@.len() <= 256,
            palette@.len() == 256,
            forall|j: int| 0 <= j < k ==> (#[trigger] palette@[j]) == unique_colors@[j],
            forall|j: int| k <= j < 256 ==> (#[trigger] palette@[j])@ == seq![0u8, 0u8, 0u8, 0u8],
        decreases unique_colors@.len() - k,
    {
        palette[k] = unique_colors[k];
        k = k + 1;
    }
    assert(super::palette_view(palette@) =~= palette_entries(colors_upto(rgb, pixel_count as int)));
    Ok((palette, indexed_data))
}

/// The first place of `c` in `list` holds `c`, and no earlier place does.
proof fn lemma_index_from(list: Seq<Seq<u8>>, c: Seq<u8>, i: int)
    requires
        0 <= i <= list.len(),
    ensures
        i <= index_from(list, c, i) <= list.len(),
        index_from(list, c, i) < list.len() ==> list[index_from(list, c, i)] == c,
        forall|j: int| i <= j < index_from(list, c, i) ==> list[j] != c,
        index_from(list, c, i) == list.len() ==> forall|j: int| i <= j < list.len() ==> list[j] != c,
    decreases list.len() - i,
{
    if i < list.len() && list[i] != c {
        lemma_index_from(list, c, i + 1);
    }
}

/// The stored palette: blue, green, red and 0 for each of the 256 colours.
fn palette_to_bgr(palette: &[[u8; 4]; 256]) -> (r: Vec<u8>)
    ensures
        r@ == bgr_bytes(super::palette_view(palette@)),
{
    let ghost pv = super::palette_view(palette@);
    let mut bgr_data: Vec<u8> = Vec::new();
    let mut i: usize = 0;
    while i < 256
        invariant
            i <= 256,
            palette@.len() == 256,
            pv == super::palette_view(palette@),
            bgr_data@ == bgr_bytes(pv.subrange(0, i as int)),
        decreases 256 - i,
    {
        let color = palette[i];
        bgr_data.push(color[2]);
        bgr_data.push(color[1]);
        bgr_data.push(color[0]);
        bgr_data.push(0);
        assert(pv.subrange(0, i + 1).drop_last() =~= pv.subrange(0, i as int));
        assert(pv[i as int] == color@);
        assert(bgr_data@ =~= bgr_bytes(pv.subrange(0, i + 1)));
        i = i + 1;
    }
    assert(pv.subrange(0, 256) =~= pv);
    bgr_data
}

/// The stored palette has four bytes per colour.
proof fn lemma_bgr_bytes_len(pal: Seq<Seq<u8>>)
    ensures
        bgr_bytes(pal).len() == 4 * pal.len(),
    decreases pal.len(),
{
    if pal.len() > 0 {
        lemma_bgr_bytes_len(pal.drop_last());
    }
}

/// Compresses RGB data of `width` by `height` pixels into a KG file: the
/// header, 16 bytes of zero padding, the palette of the distinct colours,
/// and the palette indices encoded as copies and colour lookups.
pub fn compress(rgb_data: &[u8], width: u16, height: u16) -> (r: Result<Vec<u8>, DvFileError>)
    ensures
        compressed(rgb_data@, width, height, r),
{
    assert((width as u64) * (height as u64) <= 0xFFFF * 0xFFFF) by (nonlinear_arith)
        requires
            width <= 0xFFFF,
            height <= 0xFFFF,
    ;
    let wh: u64 = (width as u64) * (height as u64);
    let expected_size: u64 = wh * 3;
    if rgb_data.len() as u64 != expected_size {
        let mut msg: Vec<char> = Vec::new();
        push_str(&mut msg, "Invalid RGB data size: expected ");
        push_decimal(&mut msg, expected_size);
        push_str(&mut msg, " bytes (");
        push_decimal(&mut msg, width as u64);
        push_str(&mut msg, "x");
        push_decimal(&mut msg, height as u64);
        push_str(&mut msg, " * 3), got ");
        push_decimal(&mut msg, rgb_data.len() as u64);
        push_str(&mut msg, " bytes");
        return Err(
            DvFileError::CompressionError {
                file_type: FileType::Kg,
                message: string_from_chars(&msg),
            },
        );
    }
    let ghost t = width as int * height as int;
    let (palette, indexed_data) = match build_palette(rgb_data) {
        Ok(p) => p,
        Err(e) => {
            return Err(e);
        },
    };
    assert(rgb_data@.len() / 3 == t);
    assert(t <= 0xFFFF_FFFF) by (nonlinear_arith)
        requires
            t == width as int * height as int,
            width <= 0xFFFF,
            height <= 0xFFFF,
    ;
    let mut state = CompressorState::new(indexed_data, width as usize);
    state.compress_type1();
    let ghost bits = state.writer.spec_bits();
    let compressed_data = state.writer.into_data();
    let padding = Header::default().create_default_padding();
    let palette_offset = (HEADER_SIZE + padding.len()) as u32;
    let palette_bytes = palette_to_bgr(&palette);
    proof {
        lemma_bgr_bytes_len(super::palette_view(palette@));
    }
    let data_offset = palette_offset + palette_bytes.len() as u32;
    let ghost c = compressed_data@;
    proof {
        assert(stream_bits(c).len() == 8 * c.len());
        if t >= 2 {
            assert(8 * c.len() <= 16 * t);
        }
    }
    let total: u64 = data_offset as u64 + compressed_data.len() as u64;
    let file_size: u32 = (total % 0x1_0000_0000u64) as u32;
    let header = Header {
        width,
        height,
        palette_offset,
        data_offset,
        file_size,
        compression_type: Compression::BPP3,
        version: 0x02,
        ..Header::default()
    };
    let header_bytes = header.to_bytes();
    let mut output: Vec<u8> = Vec::new();
    push_slice(&mut output, header_bytes.as_slice());
    push_slice(&mut output, padding.as_slice());
    push_slice(&mut output, palette_bytes.as_slice());
    push_slice(&mut output, compressed_data.as_slice());
    proof {
        let pre = header_bytes@ + padding@ + palette_bytes@;
        assert(output@ =~= pre + c);
        assert(u32_bytes(0) =~= seq![0u8, 0u8, 0u8, 0u8]);
        assert(u32_bytes(0) + u32_bytes(0) =~= Seq::new(8, |i: int| 0u8));
        assert(padding@ =~= Seq::new(16, |i: int| 0u8));
        assert(output@.len() == total);
        assert(pre =~= image_prefix(width, height, size_field(output@.len() as int), colors_upto(rgb_data@, t)));
        assert(output@.subrange(0, 1072) =~= pre);
        assert(output@.subrange(1072, output@.len() as int) =~= c);
        lemma_pack_stream(c);
        if t >= 2 {
            assert(stream_bits(c).subrange(0, bits.len() as int) =~= bits);
            assert(extends(bits, stream_bits(c)));
        } else if t == 1 {
            assert(stream_bits(c) =~= bits);
        }
    }
    Ok(output)
}

/// Compresses a decoded image back into a KG file from its pixels.
pub fn compress_file(file: &File) -> (r: Result<Vec<u8>, DvFileError>)
    ensures
        compressed(
            file.spec_pixels(),
            file.spec_header().spec_width(),
            file.spec_header().spec_height(),
            r,
        ),
{
    let width = file.header().width();
    let height = file.header().height();
    compress(file.pixels(), width, height)
}

/// Colour `j` of the stored palette sits at bytes `4 * j` to `4 * j + 3`.
proof fn lemma_bgr_at(pal: Seq<Seq<u8>>, j: int)
    requires
        0 <= j < pal.len(),
    ensures
        bgr_bytes(pal).subrange(4 * j, 4 * j + 4) == seq![pal[j][2], pal[j][1], pal[j][0], 0u8],
    decreases pal.len(),
{
    let d = pal.drop_last();
    lemma_bgr_bytes_len(d);
    if j == pal.len() - 1 {
        assert(bgr_bytes(pal).subrange(4 * j, 4 * j + 4) =~= seq![pal[j][2], pal[j][1], pal[j][0], 0u8]);
    } else {
        lemma_bgr_at(d, j);
        assert(bgr_bytes(pal).subrange(4 * j, 4 * j + 4) =~= bgr_bytes(d).subrange(4 * j, 4 * j + 4));
    }
}

/// The distinct colours of fewer pixels begin those of more pixels.
proof fn lemma_colors_prefix(rgb: Seq<u8>, k: int, n: int)
    requires
        0 <= k <= n,
    ensures
        colors_upto(rgb, k).len() <= colors_upto(rgb, n).len(),
        colors_upto(rgb, n).subrange(0, colors_upto(rgb, k).len() as int) == colors_upto(rgb, k),
    decreases n,
{
    if k == n {
        assert(colors_upto(rgb, n).subrange(0, colors_upto(rgb, k).len() as int) =~= colors_upto(
            rgb,
            k,
        ));
    } else {
        lemma_colors_prefix(rgb, k, n - 1);
        let a = colors_upto(rgb, n - 1);
        let b = colors_upto(rgb, n);
        assert(b.subrange(0, colors_upto(rgb, k).len() as int) =~= a.subrange(
            0,
            colors_upto(rgb, k).len() as int,
        ));
    }
}

/// Without an overflow, there are at most 256 distinct colours.
proof fn lemma_colors_bound(rgb: Seq<u8>, n: int, k: int)
    requires
        0 <= k <= n,
        overflow_from(rgb, n, 0) is None,
    ensures
        colors_upto(rgb, k).len() <= 256,
    decreases k,
{
    if k > 0 {
        lemma_colors_bound(rgb, n, k - 1);
        lemma_no_overflow_at(rgb, n, 0, k - 1);
    }
}

/// Without an overflow from `j` on, no pixel from `j` on overflows.
proof fn lemma_no_overflow_at(rgb: Seq<u8>, n: int, j: int, k: int)
    requires
        0 <= j <= k < n,
        overflow_from(rgb, n, j) is None,
    ensures
        !(colors_upto(rgb, k).len() >= 256 && !colors_upto(rgb, k).contains(pixel_color(rgb, k))),
    decreases k - j,
{
    if j < k {
        lemma_no_overflow_at(rgb, n, j + 1, k);
    }
}

/// Pixel `k`'s palette entry holds its colour.
proof fn lemma_index_color(rgb: Seq<u8>, n: int, k: int)
    requires
        0 <= k < n,
        overflow_from(rgb, n, 0) is None,
    ensures
        palette_indices(rgb, n)[k] < colors_upto(rgb, n).len(),
        colors_upto(rgb, n)[palette_indices(rgb, n)[k] as int] == pixel_color(rgb, k),
{
    let list = colors_upto(rgb, k + 1);
    let c = pixel_color(rgb, k);
    assert(list.contains(c)) by {
        let prev = colors_upto(rgb, k);
        if !prev.contains(c) {
            assert(list[prev.len() as int] == c);
        }
    }
    lemma_index_from(list, c, 0);
    let i = index_from(list, c, 0);
    if i == list.len() {
        let w = choose|w: int| 0 <= w < list.len() && list[w] == c;
        assert(list[w] != c);
    }
    lemma_colors_bound(rgb, n, k + 1);
    lemma_colors_prefix(rgb, k + 1, n);
    assert(colors_upto(rgb, n)[i] == list[i]);
}

/// Looking the palette indices up in the stored palette gives the RGB
/// pixels back.
proof fn lemma_pixels_back(rgb: Seq<u8>, n: int, pal: Seq<Seq<u8>>, k: int)
    requires
        rgb.len() == 3 * n,
        0 <= k <= n,
        overflow_from(rgb, n, 0) is None,
        pal.len() == 256,
        forall|j: int|
            0 <= j < 256 ==> (#[trigger] pal[j]).subrange(0, 3) == palette_entries(
                colors_upto(rgb, n),
            )[j].subrange(0, 3),
    ensures
        super::decode::pixels_rgb(palette_indices(rgb, n).subrange(0, k), pal) == rgb.subrange(0, 3 * k),
    decreases k,
{
    let idx = palette_indices(rgb, n);
    if k == 0 {
        assert(rgb.subrange(0, 0) =~= Seq::<u8>::empty());
    } else {
        lemma_pixels_back(rgb, n, pal, k - 1);
        lemma_index_color(rgb, n, k - 1);
        lemma_colors_bound(rgb, n, n);
        assert(idx.subrange(0, k).drop_last() =~= idx.subrange(0, k - 1));
        let i = idx[k - 1] as int;
        assert(pal[i].subrange(0, 3) == palette_entries(colors_upto(rgb, n))[i].subrange(0, 3));
        assert(palette_entries(colors_upto(rgb, n))[i] == pixel_color(rgb, k - 1));
        assert(pixel_color(rgb, k - 1).subrange(0, 3) =~= rgb.subrange(3 * (k - 1), 3 * k));
        assert(rgb.subrange(0, 3 * (k - 1)) + rgb.subrange(3 * (k - 1), 3 * k) =~= rgb.subrange(
            0,
            3 * k,
        ));
    }
}

/// Every distinct colour has four bytes.
proof fn lemma_colors_len(rgb: Seq<u8>, k: int)
    ensures
        forall|i: int| 0 <= i < colors_upto(rgb, k).len() ==> (#[trigger] colors_upto(rgb, k)[i]).len() == 4,
    decreases k,
{
    if k > 0 {
        lemma_colors_len(rgb, k - 1);
        let prev = colors_upto(rgb, k - 1);
        assert forall|i: int| 0 <= i < colors_upto(rgb, k).len() implies (#[trigger] colors_upto(
            rgb,
            k,
        )[i]).len() == 4 by {
            if i < prev.len() {
                assert(colors_upto(rgb, k)[i] == prev[i]);
            }
        }
    }
}

/// The header fields stored in the first bytes of a compressed image.
proof fn lemma_prefix_fields(width: u16, height: u16, size: u32, colors: Seq<Seq<u8>>, data: Seq<u8>)
    requires
        data.len() >= 1072,
        data.subrange(0, 1072) == image_prefix(width, height, size, colors),
    ensures
        super::header_ok(data),
        u16_at(data, 4) == width,
        u16_at(data, 6) == height,
        u32_at(data, 12) == 48,
        u32_at(data, 16) == 1072,
        u32_at(data, 20) == size,
{
    let pre = image_prefix(width, height, size, colors);
    lemma_bgr_bytes_len(palette_entries(colors));
    assert(pre.subrange(0, 4) =~= seq![MAGIC_K, MAGIC_G, 2u8, 1u8]);
    assert(data[0] == pre[0] && data[1] == pre[1] && data[3] == pre[3]);
    assert(data.subrange(4, 6) =~= pre.subrange(4, 6));
    assert(pre.subrange(4, 6) =~= u16_bytes(width));
    lemma_u16_roundtrip(width, data, 4);
    assert(data.subrange(6, 8) =~= pre.subrange(6, 8));
    assert(pre.subrange(6, 8) =~= u16_bytes(height));
    lemma_u16_roundtrip(height, data, 6);
    assert(data.subrange(12, 16) =~= pre.subrange(12, 16));
    assert(pre.subrange(12, 16) =~= u32_bytes(48));
    lemma_u32_roundtrip(48, data, 12);
    assert(data.subrange(16, 20) =~= pre.subrange(16, 20));
    assert(pre.subrange(16, 20) =~= u32_bytes(1072));
    lemma_u32_roundtrip(1072, data, 16);
    assert(data.subrange(20, 24) =~= pre.subrange(20, 24));
    assert(pre.subrange(20, 24) =~= u32_bytes(size));
    lemma_u32_roundtrip(size, data, 20);
}

/// Entry `j` of the palette read from a compressed image is the entry the
/// encoder stored.
proof fn lemma_palette_entry(
    width: u16,
    height: u16,
    size: u32,
    colors: Seq<Seq<u8>>,
    data: Seq<u8>,
    j: int,
)
    requires
        data.len() >= 1072,
        data.subrange(0, 1072) == image_prefix(width, height, size, colors),
        forall|i: int| 0 <= i < colors.len() ==> (#[trigger] colors[i]).len() == 4,
        0 <= j < 256,
    ensures
        super::decode::palette_in(data, 48)[j].subrange(0, 3) == palette_entries(colors)[j].subrange(
            0,
            3,
        ),
{
    let pre = image_prefix(width, height, size, colors);
    let ents = palette_entries(colors);
    lemma_bgr_bytes_len(ents);
    lemma_bgr_at(ents, j);
    let head = image_head(width, height, size);
    assert(head.len() == 48);
    let b = bgr_bytes(ents);
    assert(data.subrange(48 + 4 * j, 52 + 4 * j) =~= pre.subrange(48 + 4 * j, 52 + 4 * j));
    assert(pre.subrange(48 + 4 * j, 52 + 4 * j) =~= b.subrange(4 * j, 4 * j + 4));
    assert(ents[j].len() == 4);
    let off = 48 + 4 * j;
    assert(data[off] == ents[j][2] && data[off + 1] == ents[j][1] && data[off + 2] == ents[j][0]);
    assert(super::decode::palette_in(data, 48)[j].subrange(0, 3) =~= ents[j].subrange(0, 3));
}

/// Compressing an image succeeds whenever its data holds three bytes per
/// pixel and it has at most 256 distinct colours.
pub proof fn lemma_compress_succeeds(rgb: Seq<u8>, width: u16, height: u16, r: Result<Vec<u8>, DvFileError>)
    requires
        rgb.len() == 3 * (width as int * height as int),
        overflow_from(rgb, width as int * height as int, 0) is None,
        compressed(rgb, width, height, r),
    ensures
        r is Ok,
{
}

/// Decompressing what `compress` makes of an image of at least two pixels
/// gives back its RGB pixels and its size.
pub proof fn lemma_kg_roundtrip(
    rgb: Seq<u8>,
    width: u16,
    height: u16,
    bytes: Vec<u8>,
    r: Result<File, DvFileError>,
)
    requires
        width as int * height as int >= 2,
        compressed(rgb, width, height, Ok(bytes)),
        super::decode::decompressed(bytes@, r),
    ensures
        r matches Ok(f) && f.spec_pixels() == rgb && f.spec_header().spec_width() == width
            && f.spec_header().spec_height() == height,
{
    let t = width as int * height as int;
    let data = bytes@;
    let colors = colors_upto(rgb, t);
    let size = size_field(data.len() as int);
    lemma_prefix_fields(width, height, size, colors, data);
    lemma_colors_len(rgb, t);
    let pal = super::decode::palette_in(data, 48);
    assert forall|j: int| 0 <= j < 256 implies (#[trigger] pal[j]).subrange(0, 3)
        == palette_entries(colors)[j].subrange(0, 3) by {
        lemma_palette_entry(width, height, size, colors, data, j);
    }
    lemma_pixels_back(rgb, t, pal, t);
    assert(palette_indices(rgb, t).subrange(0, t) =~= palette_indices(rgb, t));
    assert(rgb.subrange(0, 3 * t) =~= rgb);
}

} // verus!

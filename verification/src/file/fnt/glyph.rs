//! Glyphs of a font: packed 1-bit-per-pixel bitmaps, big-endian bit order,
//! and their unpacked form as a vector of booleans.

use vstd::prelude::*;
use vstd::string::StringExecFns;

use super::super::text::string_from_chars;
use super::{bytes_per_glyph_of, font_size_name, side_of, FontSize};
use super::super::show::{hex4, hex4_string};

verus! {

/// Bit `k` (0 = least significant) of byte `d`.
pub open spec fn bit_of(d: u8, k: u8) -> bool {
    (d >> k) & 1u8 == 1u8
}

/// The value of pixel `i` of packed data: bit `7 - i % 8` of byte `i / 8`.
pub open spec fn packed_pixel(data: Seq<u8>, i: int) -> bool {
    bit_of(data[i / 8], (7 - i % 8) as u8)
}

/// The bit index of pixel (x, y), coordinates wrapping at the glyph side.
pub open spec fn wrapped_index(n: int, x: int, y: int) -> int {
    (y % n) * n + (x % n)
}

/// The byte whose bits, most significant first, are `b[0..8]`.
pub open spec fn byte_of_bits(b: Seq<bool>) -> u8 {
    ((if b[0] { 128int } else { 0 }) + (if b[1] { 64int } else { 0 }) + (if b[2] { 32int } else { 0 })
        + (if b[3] { 16int } else { 0 }) + (if b[4] { 8int } else { 0 }) + (if b[5] { 4int } else { 0 })
        + (if b[6] { 2int } else { 0 }) + (if b[7] { 1int } else { 0 })) as u8
}

/// The sum of the weights of the first `k` of eight bits.
pub open spec fn bits_prefix_value(b: Seq<bool>, k: int) -> int
    decreases k,
{
    if k <= 0 {
        0
    } else {
        bits_prefix_value(b, k - 1) + if b[k - 1] {
            pow2_7_minus(k - 1)
        } else {
            0
        }
    }
}

/// `2^(7 - k)` for `0 <= k < 8`.
pub open spec fn pow2_7_minus(k: int) -> int {
    if k == 0 {
        128
    } else if k == 1 {
        64
    } else if k == 2 {
        32
    } else if k == 3 {
        16
    } else if k == 4 {
        8
    } else if k == 5 {
        4
    } else if k == 6 {
        2
    } else {
        1
    }
}

/// The packed form of a pixel vector: byte `j` holds pixels `8j .. 8j + 8`.
pub open spec fn pack_pixels(px: Seq<bool>, nbytes: int) -> Seq<u8> {
    Seq::new(nbytes as nat, |j: int| byte_of_bits(px.subrange(8 * j, 8 * j + 8)))
}

/// The unpacked form of packed data.
pub open spec fn unpack_pixels(data: Seq<u8>, npixels: int) -> Seq<bool> {
    Seq::new(npixels as nat, |i: int| packed_pixel(data, i))
}

proof fn lemma_byte_bits(b0: bool, b1: bool, b2: bool, b3: bool, b4: bool, b5: bool, b6: bool, b7: bool)
    ensures
        ({
            let v = ((if b0 { 128u8 } else { 0u8 }) | (if b1 { 64u8 } else { 0u8 }) | (if b2 { 32u8 } else { 0u8 })
                | (if b3 { 16u8 } else { 0u8 }) | (if b4 { 8u8 } else { 0u8 }) | (if b5 { 4u8 } else { 0u8 }) | (
            if b6 { 2u8 } else { 0u8 }) | (if b7 { 1u8 } else { 0u8 }));
            &&& ((v >> 7u8) & 1u8 == 1u8) == b0
            &&& ((v >> 6u8) & 1u8 == 1u8) == b1
            &&& ((v >> 5u8) & 1u8 == 1u8) == b2
            &&& ((v >> 4u8) & 1u8 == 1u8) == b3
            &&& ((v >> 3u8) & 1u8 == 1u8) == b4
            &&& ((v >> 2u8) & 1u8 == 1u8) == b5
            &&& ((v >> 1u8) & 1u8 == 1u8) == b6
            &&& ((v >> 0u8) & 1u8 == 1u8) == b7
        }),
{
    assert({
        let v = ((if b0 { 128u8 } else { 0u8 }) | (if b1 { 64u8 } else { 0u8 }) | (if b2 { 32u8 } else { 0u8 })
            | (if b3 { 16u8 } else { 0u8 }) | (if b4 { 8u8 } else { 0u8 }) | (if b5 { 4u8 } else { 0u8 }) | (
        if b6 { 2u8 } else { 0u8 }) | (if b7 { 1u8 } else { 0u8 }));
        &&& ((v >> 7u8) & 1u8 == 1u8) == b0
        &&& ((v >> 6u8) & 1u8 == 1u8) == b1
        &&& ((v >> 5u8) & 1u8 == 1u8) == b2
        &&& ((v >> 4u8) & 1u8 == 1u8) == b3
        &&& ((v >> 3u8) & 1u8 == 1u8) == b4
        &&& ((v >> 2u8) & 1u8 == 1u8) == b5
        &&& ((v >> 1u8) & 1u8 == 1u8) == b6
        &&& ((v >> 0u8) & 1u8 == 1u8) == b7
    }) by (bit_vector);
}

proof fn lemma_or_is_sum(b0: bool, b1: bool, b2: bool, b3: bool, b4: bool, b5: bool, b6: bool, b7: bool)
    ensures
        ((if b0 { 128u8 } else { 0u8 }) | (if b1 { 64u8 } else { 0u8 }) | (if b2 { 32u8 } else { 0u8 }) | (
        if b3 { 16u8 } else { 0u8 }) | (if b4 { 8u8 } else { 0u8 }) | (if b5 { 4u8 } else { 0u8 }) | (if b6 {
            2u8
        } else {
            0u8
        }) | (if b7 { 1u8 } else { 0u8 })) as int == (if b0 { 128int } else { 0 }) + (if b1 { 64int } else { 0 })
            + (if b2 { 32int } else { 0 }) + (if b3 { 16int } else { 0 }) + (if b4 { 8int } else { 0 }) + (if b5 {
            4int
        } else {
            0
        }) + (if b6 { 2int } else { 0 }) + (if b7 { 1int } else { 0 }),
{
    assert(((if b0 { 128u8 } else { 0u8 }) | (if b1 { 64u8 } else { 0u8 }) | (if b2 { 32u8 } else { 0u8 }) | (
    if b3 { 16u8 } else { 0u8 }) | (if b4 { 8u8 } else { 0u8 }) | (if b5 { 4u8 } else { 0u8 }) | (if b6 {
        2u8
    } else {
        0u8
    }) | (if b7 { 1u8 } else { 0u8 })) == (if b0 { 128u8 } else { 0u8 }) + (if b1 { 64u8 } else { 0u8 }) + (
    if b2 { 32u8 } else { 0u8 }) + (if b3 { 16u8 } else { 0u8 }) + (if b4 { 8u8 } else { 0u8 }) + (if b5 {
        4u8
    } else {
        0u8
    }) + (if b6 { 2u8 } else { 0u8 }) + (if b7 { 1u8 } else { 0u8 })) by (bit_vector);
}

/// Reading the bits of a byte built from eight bits gives those bits.
pub proof fn lemma_bits_of_byte(b: Seq<bool>)
    requires
        b.len() == 8,
    ensures
        forall|k: int| 0 <= k < 8 ==> #[trigger] bit_of(byte_of_bits(b), (7 - k) as u8) == b[k],
{
    lemma_byte_bits(b[0], b[1], b[2], b[3], b[4], b[5], b[6], b[7]);
    lemma_or_is_sum(b[0], b[1], b[2], b[3], b[4], b[5], b[6], b[7]);
}

proof fn lemma_byte_of_own_bits(d: u8)
    ensures
        d == ((if (d >> 7u8) & 1u8 == 1u8 { 128u8 } else { 0u8 }) | (if (d >> 6u8) & 1u8 == 1u8 { 64u8 } else { 0u8 })
            | (if (d >> 5u8) & 1u8 == 1u8 { 32u8 } else { 0u8 }) | (if (d >> 4u8) & 1u8 == 1u8 { 16u8 } else { 0u8 })
            | (if (d >> 3u8) & 1u8 == 1u8 { 8u8 } else { 0u8 }) | (if (d >> 2u8) & 1u8 == 1u8 { 4u8 } else { 0u8 })
            | (if (d >> 1u8) & 1u8 == 1u8 { 2u8 } else { 0u8 }) | (if (d >> 0u8) & 1u8 == 1u8 { 1u8 } else { 0u8 })),
{
    assert(d == ((if (d >> 7u8) & 1u8 == 1u8 { 128u8 } else { 0u8 }) | (if (d >> 6u8) & 1u8 == 1u8 { 64u8 } else { 0u8 })
        | (if (d >> 5u8) & 1u8 == 1u8 { 32u8 } else { 0u8 }) | (if (d >> 4u8) & 1u8 == 1u8 { 16u8 } else { 0u8 })
        | (if (d >> 3u8) & 1u8 == 1u8 { 8u8 } else { 0u8 }) | (if (d >> 2u8) & 1u8 == 1u8 { 4u8 } else { 0u8 })
        | (if (d >> 1u8) & 1u8 == 1u8 { 2u8 } else { 0u8 }) | (if (d >> 0u8) & 1u8 == 1u8 { 1u8 } else { 0u8 })))
        by (bit_vector);
}

/// A byte is rebuilt from its own eight bits.
pub proof fn lemma_byte_of_bits_of_byte(d: u8, b: Seq<bool>)
    requires
        b.len() == 8,
        forall|k: int| 0 <= k < 8 ==> b[k] == bit_of(d, (7 - k) as u8),
    ensures
        byte_of_bits(b) == d,
{
    lemma_byte_of_own_bits(d);
    assert(b[0] == bit_of(d, 7));
    assert(b[1] == bit_of(d, 6));
    assert(b[2] == bit_of(d, 5));
    assert(b[3] == bit_of(d, 4));
    assert(b[4] == bit_of(d, 3));
    assert(b[5] == bit_of(d, 2));
    assert(b[6] == bit_of(d, 1));
    assert(b[7] == bit_of(d, 0));
    lemma_or_is_sum(b[0], b[1], b[2], b[3], b[4], b[5], b[6], b[7]);
}

/// Glyph: a packed bitmap of one character.
#[derive(Debug, Clone, PartialEq, Eq, Hash)]
pub struct Glyph {
    size: FontSize,
    code: u16,
    data: Vec<u8>,
}

impl Glyph {
    /// The font size.
    pub closed spec fn spec_size(&self) -> FontSize {
        self.size
    }

    /// The character code.
    pub closed spec fn spec_code(&self) -> u16 {
        self.code
    }

    /// The packed pixel data.
    pub closed spec fn spec_data(&self) -> Seq<u8> {
        self.data@
    }

    /// Whether the data holds exactly one packed bitmap of the glyph's size.
    pub open spec fn wf(&self) -> bool {
        self.spec_data().len() == bytes_per_glyph_of(self.spec_size())
    }

    /// Creates a glyph from its size, character code and packed data.
    pub fn new(size: FontSize, code: u16, data: Vec<u8>) -> (r: Self)
        ensures
            r.spec_size() == size,
            r.spec_code() == code,
            r.spec_data() == data@,
    {
        Glyph { size, code, data }
    }

    /// Creates a glyph with all pixels off.
    pub fn blank(code: u16, size: FontSize) -> (r: Self)
        ensures
            r.spec_size() == size,
            r.spec_code() == code,
            r.spec_data() == Seq::new(bytes_per_glyph_of(size) as nat, |i: int| 0u8),
            r.wf(),
    {
        let n = size.bytes_per_glyph();
        Glyph { size, code, data: super::super::le::filled(0, n) }
    }

    /// A one-line description: the code in hexadecimal and the font size.
    pub fn to_string(&self) -> (r: String)
        ensures
            r@ == "Glyph: code=0x"@ + hex4(self.spec_code()) + ", size="@ + font_size_name(
                self.spec_size(),
            ),
    {
        let mut s = String::from_str("Glyph: code=0x");
        s.append(hex4_string(self.code).as_str());
        s.append(", size=");
        s.append(self.size.as_str());
        s
    }

    /// The font size.
    pub fn font_size(&self) -> (r: FontSize)
        ensures
            r == self.spec_size(),
    {
        self.size
    }

    /// The character code.
    pub fn code(&self) -> (r: u16)
        ensures
            r == self.spec_code(),
    {
        self.code
    }

    /// The packed pixel data.
    pub fn data(&self) -> (r: &[u8])
        ensures
            r@ == self.spec_data(),
    {
        self.data.as_slice()
    }

    /// The packed pixel data, for changing in place.
    pub fn data_mut(&mut self) -> (r: &mut [u8])
        ensures
            r@ == old(self).spec_data(),
            final(self).spec_data() == final(r)@,
            final(self).spec_size() == old(self).spec_size(),
            final(self).spec_code() == old(self).spec_code(),
    {
        self.data.as_mut_slice()
    }

    /// Number of bytes per pixel row.
    pub fn bytes_per_row(&self) -> (r: usize)
        ensures
            r == side_of(self.spec_size()) / 8,
    {
        self.size.bytes_per_row()
    }

    /// The pixel at (x, y); coordinates wrap around at the glyph side.
    pub fn get_pixel(&self, x: usize, y: usize) -> (r: bool)
        requires
            self.wf(),
        ensures
            r == packed_pixel(
                self.spec_data(),
                wrapped_index(side_of(self.spec_size()), x as int, y as int),
            ),
    {
        let n = self.size.side();
        let bit_index = (y % n) * n + (x % n);
        proof {
            super::lemma_bit_index_bound(self.spec_size(), x as int, y as int);
        }
        let byte_index = bit_index / 8;
        let bit = (7 - bit_index % 8) as u8;
        (self.data[byte_index] >> bit) & 1u8 == 1u8
    }

    /// Sets the pixel at (x, y); coordinates wrap around at the glyph side.
    pub fn put_pixel(&mut self, x: usize, y: usize, value: bool)
        requires
            old(self).wf(),
        ensures
            final(self).wf(),
            final(self).spec_size() == old(self).spec_size(),
            final(self).spec_code() == old(self).spec_code(),
            packed_pixel(
                final(self).spec_data(),
                wrapped_index(side_of(old(self).spec_size()), x as int, y as int),
            ) == value,
            forall|i: int|
                0 <= i < 8 * old(self).spec_data().len() && i != wrapped_index(
                    side_of(old(self).spec_size()),
                    x as int,
                    y as int,
                ) ==> packed_pixel(final(self).spec_data(), i) == packed_pixel(
                    old(self).spec_data(),
                    i,
                ),
    {
        let n = self.size.side();
        let bit_index = (y % n) * n + (x % n);
        proof {
            super::lemma_bit_index_bound(self.spec_size(), x as int, y as int);
        }
        let byte_index = bit_index / 8;
        let bit = (7 - bit_index % 8) as u8;
        let old_byte = self.data[byte_index];
        let new_byte = if value {
            old_byte | (1u8 << bit)
        } else {
            old_byte & !(1u8 << bit)
        };
        proof {
            lemma_set_bit(old_byte, bit, value);
        }
        self.data.set(byte_index, new_byte);
        proof {
            let old_data = old(self).spec_data();
            let new_data = self.data@;
            assert forall|i: int|
                0 <= i < 8 * old_data.len() && i != bit_index as int implies packed_pixel(
                new_data,
                i,
            ) == packed_pixel(old_data, i) by {
                if i / 8 == byte_index as int {
                    assert((7 - i % 8) as u8 != bit);
                    lemma_set_bit_other(old_byte, bit, (7 - i % 8) as u8, value);
                }
            }
        }
    }
}

proof fn lemma_set_bit(d: u8, k: u8, v: bool)
    requires
        k < 8,
    ensures
        bit_of(if v { d | (1u8 << k) } else { d & !(1u8 << k) }, k) == v,
{
    if v {
        assert(((d | (1u8 << k)) >> k) & 1u8 == 1u8) by (bit_vector)
            requires
                k < 8,
        ;
    } else {
        assert(((d & !(1u8 << k)) >> k) & 1u8 == 0u8) by (bit_vector)
            requires
                k < 8,
        ;
    }
}

proof fn lemma_set_bit_other(d: u8, k: u8, j: u8, v: bool)
    requires
        k < 8,
        j < 8,
        j != k,
    ensures
        bit_of(if v { d | (1u8 << k) } else { d & !(1u8 << k) }, j) == bit_of(d, j),
{
    if v {
        assert(((d | (1u8 << k)) >> j) & 1u8 == (d >> j) & 1u8) by (bit_vector)
            requires
                k < 8,
                j < 8,
                j != k,
        ;
    } else {
        assert(((d & !(1u8 << k)) >> j) & 1u8 == (d >> j) & 1u8) by (bit_vector)
            requires
                k < 8,
                j < 8,
                j != k,
        ;
    }
}

/// Unpacked glyph: one boolean per pixel, row by row.
#[derive(Debug, Clone, PartialEq, Eq, Hash)]
pub struct GlyphBitmap {
    size: FontSize,
    code: u16,
    pixels: Vec<bool>,
}

/// The characters of a bitmap drawn with `one` and `zero`, a newline after
/// each row of `n` pixels.
pub open spec fn ascii_art(px: Seq<bool>, n: int, rows: int, one: char, zero: char) -> Seq<char>
    decreases rows,
{
    if rows <= 0 {
        Seq::empty()
    } else {
        ascii_art(px, n, rows - 1, one, zero) + art_row(px, n, rows - 1, n, one, zero).push('\n')
    }
}

/// The first `len` pixels of row `y` drawn with `one` and `zero`.
pub open spec fn art_row(px: Seq<bool>, n: int, y: int, len: int, one: char, zero: char) -> Seq<char> {
    Seq::new(
        len as nat,
        |x: int|
            if px[y * n + x] {
                one
            } else {
                zero
            },
    )
}

impl GlyphBitmap {
    /// The font size.
    pub closed spec fn spec_size(&self) -> FontSize {
        self.size
    }

    /// The character code.
    pub closed spec fn spec_code(&self) -> u16 {
        self.code
    }

    /// The pixels, row by row.
    pub closed spec fn spec_pixels(&self) -> Seq<bool> {
        self.pixels@
    }

    /// Whether there is exactly one pixel per position.
    pub open spec fn wf(&self) -> bool {
        self.spec_pixels().len() == side_of(self.spec_size()) * side_of(self.spec_size())
    }

    /// Creates a bitmap.
    pub fn new(size: FontSize, code: u16, pixels: Vec<bool>) -> (r: Self)
        ensures
            r.spec_size() == size,
            r.spec_code() == code,
            r.spec_pixels() == pixels@,
    {
        GlyphBitmap { size, code, pixels }
    }

    /// The font size.
    pub fn font_size(&self) -> (r: FontSize)
        ensures
            r == self.spec_size(),
    {
        self.size
    }

    /// The character code.
    pub fn code(&self) -> (r: u16)
        ensures
            r == self.spec_code(),
    {
        self.code
    }

    /// The pixels, row by row.
    pub fn pixels(&self) -> (r: &[bool])
        ensures
            r@ == self.spec_pixels(),
    {
        self.pixels.as_slice()
    }

    /// The bitmap drawn with '█' for set pixels and '·' for the others.
    pub fn to_ascii_art(&self) -> (r: String)
        requires
            self.wf(),
        ensures
            r@ == ascii_art(
                self.spec_pixels(),
                side_of(self.spec_size()),
                side_of(self.spec_size()),
                '█',
                '·',
            ),
    {
        self.to_ascii_art_other('█', '·')
    }

    /// The bitmap drawn with `one` for set pixels and `zero` for the others.
    pub fn to_ascii_art_other(&self, one: char, zero: char) -> (r: String)
        requires
            self.wf(),
        ensures
            r@ == ascii_art(
                self.spec_pixels(),
                side_of(self.spec_size()),
                side_of(self.spec_size()),
                one,
                zero,
            ),
    {
        let n = self.size.side();
        let ghost ni = n as int;
        let mut art: Vec<char> = Vec::new();
        let mut y: usize = 0;
        while y < n
            invariant
                y <= n,
                ni == n as int,
                n == side_of(self.size),
                self.pixels@.len() == n * n,
                art@ == ascii_art(self.pixels@, ni, y as int, one, zero),
            decreases n - y,
        {
            let ghost before = art@;
            let mut x: usize = 0;
            while x < n
                invariant
                    x <= n,
                    y < n,
                    ni == n as int,
                    n == side_of(self.size),
                    self.pixels@.len() == n * n,
                    art@ == before + art_row(self.pixels@, ni, y as int, x as int, one, zero),
                decreases n - x,
            {
                proof {
                    super::lemma_row_index(n as int, y as int, x as int);
                }
                let p = self.pixels[y * n + x];
                let c = if p {
                    one
                } else {
                    zero
                };
                art.push(c);
                proof {
                    assert(art_row(self.pixels@, ni, y as int, x + 1, one, zero) =~= art_row(
                        self.pixels@,
                        ni,
                        y as int,
                        x as int,
                        one,
                        zero,
                    ).push(c));
                    assert(art@ =~= before + art_row(self.pixels@, ni, y as int, x + 1, one, zero));
                }
                x = x + 1;
            }
            art.push('\n');
            y = y + 1;
            assert(art@ =~= ascii_art(self.pixels@, ni, y as int, one, zero));
        }
        string_from_chars(&art)
    }

    /// An iterator over the rows of the bitmap.
    pub fn line_iterator(&self) -> (r: GlyphBitmapLineIterator<'_>)
        ensures
            r.spec_bitmap() == *self,
            r.spec_current_line() == 0,
    {
        GlyphBitmapLineIterator { bitmap: self, current_line: 0 }
    }

    /// Unpacks a glyph.
    pub fn from_glyph(glyph: &Glyph) -> (r: Self)
        requires
            glyph.wf(),
        ensures
            r.spec_size() == glyph.spec_size(),
            r.spec_code() == glyph.spec_code(),
            r.spec_pixels() == unpack_pixels(
                glyph.spec_data(),
                side_of(glyph.spec_size()) * side_of(glyph.spec_size()),
            ),
            r.wf(),
    {
        let n = glyph.size.side();
        let total = n * n;
        proof {
            super::lemma_side_bytes(glyph.spec_size());
        }
        let mut pixels: Vec<bool> = Vec::new();
        let mut i: usize = 0;
        while i < total
            invariant
                i <= total,
                total == side_of(glyph.size) * side_of(glyph.size),
                glyph.data@.len() * 8 == total,
                pixels@ == unpack_pixels(glyph.data@, i as int),
            decreases total - i,
        {
            let b = glyph.data[i / 8];
            let bit = (7 - i % 8) as u8;
            pixels.push((b >> bit) & 1u8 == 1u8);
            i = i + 1;
            assert(pixels@ =~= unpack_pixels(glyph.data@, i as int));
        }
        GlyphBitmap { size: glyph.size, code: glyph.code, pixels }
    }
}

impl Glyph {
    /// Packs a bitmap.
    pub fn from_bitmap(bitmap: &GlyphBitmap) -> (r: Self)
        requires
            bitmap.wf(),
        ensures
            r.spec_size() == bitmap.spec_size(),
            r.spec_code() == bitmap.spec_code(),
            r.spec_data() == pack_pixels(
                bitmap.spec_pixels(),
                bytes_per_glyph_of(bitmap.spec_size()),
            ),
            r.wf(),
    {
        let nbytes = bitmap.size.bytes_per_glyph();
        proof {
            super::lemma_side_bytes(bitmap.spec_size());
        }
        let mut data: Vec<u8> = Vec::new();
        let mut j: usize = 0;
        while j < nbytes
            invariant
                j <= nbytes,
                nbytes == bytes_per_glyph_of(bitmap.size),
                bitmap.pixels@.len() == 8 * nbytes,
                data@ == pack_pixels(bitmap.pixels@, j as int),
            decreases nbytes - j,
        {
            let ghost bits = bitmap.pixels@.subrange(8 * j, 8 * j + 8);
            let mut v: u8 = 0;
            let mut k: usize = 0;
            while k < 8
                invariant
                    k <= 8,
                    j < nbytes,
                    nbytes == bytes_per_glyph_of(bitmap.size),
                    bitmap.pixels@.len() == 8 * nbytes,
                    bits == bitmap.pixels@.subrange(8 * j, 8 * j + 8),
                    v as int == bits_prefix_value(bits, k as int),
                    k < 8 ==> bits_prefix_value(bits, k as int) + 2 * pow2_7_minus(k as int) <= 256,
                    k == 8 ==> bits_prefix_value(bits, k as int) <= 255,
                decreases 8 - k,
            {
                if bitmap.pixels[8 * j + k] {
                    let w: u8 = if k == 0 {
                        128
                    } else if k == 1 {
                        64
                    } else if k == 2 {
                        32
                    } else if k == 3 {
                        16
                    } else if k == 4 {
                        8
                    } else if k == 5 {
                        4
                    } else if k == 6 {
                        2
                    } else {
                        1
                    };
                    v = v + w;
                }
                k = k + 1;
            }
            proof {
                reveal_with_fuel(bits_prefix_value, 9);
            }
            data.push(v);
            j = j + 1;
            assert(data@ =~= pack_pixels(bitmap.pixels@, j as int));
        }
        Glyph { size: bitmap.size, code: bitmap.code, data }
    }
}

/// Iterator over the rows of a glyph bitmap.
#[derive(Debug, Clone)]
pub struct GlyphBitmapLineIterator<'a> {
    bitmap: &'a GlyphBitmap,
    current_line: usize,
}

impl<'a> GlyphBitmapLineIterator<'a> {
    /// The bitmap being walked.
    pub closed spec fn spec_bitmap(&self) -> GlyphBitmap {
        *self.bitmap
    }

    /// The index of the next row.
    pub closed spec fn spec_current_line(&self) -> usize {
        self.current_line
    }

    /// The next row of pixels, if any.
    pub fn next(&mut self) -> (r: Option<Vec<bool>>)
        requires
            old(self).spec_bitmap().wf(),
        ensures
            final(self).spec_bitmap() == old(self).spec_bitmap(),
            ({
                let n = side_of(old(self).spec_bitmap().spec_size());
                let l = old(self).spec_current_line() as int;
                &&& l >= n ==> r is None && final(self).spec_current_line() == old(self).spec_current_line()
                &&& l < n ==> (r matches Some(row) && row@ == old(self).spec_bitmap().spec_pixels().subrange(l * n, l * n + n))
                    && final(self).spec_current_line() == l + 1
            }),
    {
        let n = self.bitmap.size.side();
        if self.current_line >= n {
            return None;
        }
        proof {
            super::lemma_row_index(n as int, self.current_line as int, 0);
        }
        let start = self.current_line * n;
        let mut row: Vec<bool> = Vec::new();
        let mut x: usize = 0;
        while x < n
            invariant
                x <= n,
                n == side_of(self.bitmap.size),
                self.current_line < n,
                start == self.current_line * n,
                self.bitmap.pixels@.len() == n * n,
                row@ == self.bitmap.pixels@.subrange(start as int, start + x),
            decreases n - x,
        {
            proof {
                super::lemma_row_index(n as int, self.current_line as int, x as int);
            }
            row.push(self.bitmap.pixels[start + x]);
            x = x + 1;
            assert(row@ =~= self.bitmap.pixels@.subrange(start as int, start + x));
        }
        self.current_line = self.current_line + 1;
        Some(row)
    }
}

/// Unpacking a packed bitmap and packing it again gives the same bytes.
pub proof fn lemma_pack_unpack(data: Seq<u8>)
    ensures
        pack_pixels(unpack_pixels(data, 8 * (data.len() as int)), data.len() as int) == data,
{
    let px = unpack_pixels(data, 8 * (data.len() as int));
    assert forall|j: int| 0 <= j < data.len() implies #[trigger] pack_pixels(px, data.len() as int)[j]
        == data[j] by {
        let bits = px.subrange(8 * j, 8 * j + 8);
        assert forall|k: int| 0 <= k < 8 implies bits[k] == bit_of(data[j], (7 - k) as u8) by {
            assert((8 * j + k) / 8 == j);
            assert((8 * j + k) % 8 == k);
        }
        lemma_byte_of_bits_of_byte(data[j], bits);
    }
    assert(pack_pixels(px, data.len() as int) =~= data);
}

/// Packing pixels and unpacking them again gives the same pixels.
pub proof fn lemma_unpack_pack(px: Seq<bool>, nbytes: int)
    requires
        0 <= nbytes,
        px.len() == 8 * nbytes,
    ensures
        unpack_pixels(pack_pixels(px, nbytes), 8 * nbytes) == px,
{
    let data = pack_pixels(px, nbytes);
    assert forall|i: int| 0 <= i < 8 * nbytes implies #[trigger] unpack_pixels(data, 8 * nbytes)[i]
        == px[i] by {
        let j = i / 8;
        let k = i % 8;
        let bits = px.subrange(8 * j, 8 * j + 8);
        lemma_bits_of_byte(bits);
        assert(bit_of(byte_of_bits(bits), (7 - k) as u8) == bits[k]);
    }
    assert(unpack_pixels(data, 8 * nbytes) =~= px);
}

} // verus!

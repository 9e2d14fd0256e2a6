//! Font files: a font size header, a table of glyph slots indexed by
//! character code, and the packed glyph bitmaps.

pub mod constants;
pub mod glyph;

use vstd::prelude::*;
use vstd::string::StringExecFns;

use self::constants::{BITMAP_DATA_OFFSET, HEADER_SIZE, OFFSET_TABLE_ENTRIES};
use self::glyph::Glyph;
use super::error::FntError;
use super::show::append_decimal;
use super::text::decimal;
use super::le::{
    copy_range, lemma_u16_bytes_of_read, lemma_u16_roundtrip, lemma_u32_roundtrip, push_slice,
    push_u16, push_u32, read_u16, read_u32, u16_at, u16_bytes, u32_at, u32_bytes, write_at,
};

verus! {

/// Font size: glyphs are N x N pixels.
#[derive(Debug, Clone, Copy, PartialEq, Eq, Structural, Hash)]
pub enum FontSize {
    /// 8x8 pixels
    FS8x8,
    /// 16x16 pixels
    FS16x16,
    /// 24x24 pixels
    FS24x24,
}

/// The side of a glyph in pixels.
pub open spec fn side_of(s: FontSize) -> int {
    match s {
        FontSize::FS8x8 => 8,
        FontSize::FS16x16 => 16,
        FontSize::FS24x24 => 24,
    }
}

/// The number of bytes of one packed glyph (one bit per pixel).
pub open spec fn bytes_per_glyph_of(s: FontSize) -> int {
    match s {
        FontSize::FS8x8 => 8,
        FontSize::FS16x16 => 32,
        FontSize::FS24x24 => 72,
    }
}

/// The font size whose side is `v` pixels, if any.
pub open spec fn font_size_of(v: u32) -> Option<FontSize> {
    if v == 8 {
        Some(FontSize::FS8x8)
    } else if v == 16 {
        Some(FontSize::FS16x16)
    } else if v == 24 {
        Some(FontSize::FS24x24)
    } else {
        None
    }
}

/// The display name of a font size.
pub open spec fn font_size_name(s: FontSize) -> Seq<char> {
    match s {
        FontSize::FS8x8 => "8x8"@,
        FontSize::FS16x16 => "16x16"@,
        FontSize::FS24x24 => "24x24"@,
    }
}

/// A pixel index inside a glyph, and its byte, are in range.
pub proof fn lemma_bit_index_bound(size: FontSize, x: int, y: int)
    requires
        0 <= x,
        0 <= y,
    ensures
        0 <= glyph::wrapped_index(side_of(size), x, y) < side_of(size) * side_of(size),
        glyph::wrapped_index(side_of(size), x, y) / 8 < bytes_per_glyph_of(size),
{
    let n = side_of(size);
    let xx = x % n;
    let yy = y % n;
    assert(0 <= xx < n && 0 <= yy < n);
    assert(0 <= yy * n + xx < n * n) by (nonlinear_arith)
        requires
            0 <= xx < n,
            0 <= yy < n,
    ;
}

/// A packed glyph holds one bit per pixel.
pub proof fn lemma_side_bytes(size: FontSize)
    ensures
        8 * bytes_per_glyph_of(size) == side_of(size) * side_of(size),
        8 <= side_of(size) <= 24,
        side_of(size) * side_of(size) <= 576,
{
}

/// Row-major indexing of an `n x n` square stays inside it.
pub proof fn lemma_row_index(n: int, y: int, x: int)
    requires
        0 <= y < n,
        0 <= x <= n,
    ensures
        0 <= y * n + x <= n * n,
        x < n ==> y * n + x < n * n,
        y * n + n <= n * n,
{
    assert(y * n + n <= n * n) by (nonlinear_arith)
        requires
            0 <= y < n,
    ;
    assert(0 <= y * n) by (nonlinear_arith)
        requires
            0 <= y < n,
    ;
}

impl FontSize {
    /// The side of a glyph in pixels.
    pub fn side(&self) -> (r: usize)
        ensures
            r == side_of(*self),
    {
        match self {
            FontSize::FS8x8 => 8,
            FontSize::FS16x16 => 16,
            FontSize::FS24x24 => 24,
        }
    }

    /// The number of bytes per glyph.
    pub fn bytes_per_glyph(&self) -> (r: usize)
        ensures
            r == bytes_per_glyph_of(*self),
    {
        match self {
            FontSize::FS8x8 => 8,
            FontSize::FS16x16 => 32,
            FontSize::FS24x24 => 72,
        }
    }

    /// The number of bytes per pixel row.
    pub fn bytes_per_row(&self) -> (r: usize)
        ensures
            r == side_of(*self) / 8,
    {
        match self {
            FontSize::FS8x8 => 1,
            FontSize::FS16x16 => 2,
            FontSize::FS24x24 => 3,
        }
    }

    /// The font size whose side is `v` pixels, if any.
    pub fn from_side(v: u32) -> (r: Option<FontSize>)
        ensures
            r == font_size_of(v),
    {
        if v == 8 {
            Some(FontSize::FS8x8)
        } else if v == 16 {
            Some(FontSize::FS16x16)
        } else if v == 24 {
            Some(FontSize::FS24x24)
        } else {
            None
        }
    }

    /// The display name, such as "16x16".
    pub fn as_str(&self) -> (r: &'static str)
        ensures
            r@ == font_size_name(*self),
    {
        match self {
            FontSize::FS8x8 => "8x8",
            FontSize::FS16x16 => "16x16",
            FontSize::FS24x24 => "24x24",
        }
    }

    /// The display name as a string, such as "16x16".
    pub fn to_string(&self) -> (r: String)
        ensures
            r@ == font_size_name(*self),
    {
        String::from_str(self.as_str())
    }
}

/// The offset table index of a character code: `0x4000` is added to codes
/// from `0xE000` and `0x8000` to codes from `0x8100`, modulo `0x10000`.
pub open spec fn code_index(code: u16) -> int {
    (code as int + (if code >= 0xE000 {
        0x4000int
    } else {
        0
    }) + (if code >= 0x8100 {
        0x8000int
    } else {
        0
    })) % 0x10000
}

/// Whether a code has a slot in the offset table.
pub open spec fn has_slot(code: u16) -> bool {
    code_index(code) < OFFSET_TABLE_ENTRIES
}

/// Where the glyph of slot value `m` starts in the bitmap data.
pub open spec fn glyph_start(m: u16, bpg: int) -> int {
    (m - 1) * bpg
}

/// The packed data of the glyph for `code`, if its slot is set and lies
/// inside the bitmap data.
pub open spec fn glyph_data(size: FontSize, offsets: Seq<u16>, raw: Seq<u8>, code: u16) -> Option<
    Seq<u8>,
> {
    let idx = code_index(code);
    let bpg = bytes_per_glyph_of(size);
    if has_slot(code) && offsets[idx] != 0 && glyph_start(offsets[idx], bpg) + bpg <= raw.len() {
        Some(raw.subrange(glyph_start(offsets[idx], bpg), glyph_start(offsets[idx], bpg) + bpg))
    } else {
        None
    }
}

/// Why inserting a glyph of size `gsize` with `len` data bytes for `code`
/// fails, if it does.
pub open spec fn insert_error(
    size: FontSize,
    offsets: Seq<u16>,
    code: u16,
    gsize: FontSize,
    len: int,
    overwrite: bool,
) -> Option<FntError> {
    if !has_slot(code) {
        Some(FntError::CodeOutOfRange { code, max_code: 0xFFFF })
    } else if gsize != size {
        Some(FntError::InvalidFontSize(side_of(gsize) as u32))
    } else if len != bytes_per_glyph_of(size) {
        Some(FntError::InsufficientData { expected: bytes_per_glyph_of(size) as usize, actual: len as usize })
    } else if offsets[code_index(code)] != 0 && !overwrite {
        Some(FntError::GlyphAlreadyExists { code })
    } else {
        None
    }
}

/// The offset table and bitmap data after a successful insert of `data` for
/// `code`: a set slot has its bytes overwritten in place; an empty slot gets
/// the next glyph number (one-based, modulo 2^16) and the data is appended.
pub open spec fn inserted(
    size: FontSize,
    offsets: Seq<u16>,
    raw: Seq<u8>,
    code: u16,
    data: Seq<u8>,
) -> (Seq<u16>, Seq<u8>) {
    let idx = code_index(code);
    let bpg = bytes_per_glyph_of(size);
    if offsets[idx] != 0 {
        let start = glyph_start(offsets[idx], bpg);
        (offsets, raw.subrange(0, start) + data + raw.subrange(start + bpg, raw.len() as int))
    } else {
        (offsets.update(idx, ((raw.len() as int / bpg + 1) % 0x10000) as u16), raw + data)
    }
}

/// The number of set slots.
pub open spec fn count_set(s: Seq<u16>) -> nat
    decreases s.len(),
{
    if s.len() == 0 {
        0
    } else {
        count_set(s.drop_last()) + if s.last() != 0 {
            1nat
        } else {
            0nat
        }
    }
}

/// The bytes of the offset table, each entry little-endian.
pub open spec fn table_bytes(offsets: Seq<u16>) -> Seq<u8> {
    Seq::new((2 * offsets.len()) as nat, |k: int| u16_bytes(offsets[k / 2])[k % 2])
}

/// The file bytes of a font: size header, offset table, bitmap data.
pub open spec fn font_bytes(size: FontSize, offsets: Seq<u16>, raw: Seq<u8>) -> Seq<u8> {
    u32_bytes(side_of(size) as u32) + table_bytes(offsets) + raw
}

/// The offset table stored in file bytes.
pub open spec fn table_of(data: Seq<u8>) -> Seq<u16> {
    Seq::new(OFFSET_TABLE_ENTRIES as nat, |i: int| u16_at(data, HEADER_SIZE + 2 * i))
}

/// What the bytes of a font file hold: its size, offset table and bitmap
/// data, or the error that stops reading them.
pub open spec fn parse_font(data: Seq<u8>) -> Result<(FontSize, Seq<u16>, Seq<u8>), FntError> {
    if data.len() < HEADER_SIZE {
        Err(FntError::InsufficientData { expected: HEADER_SIZE, actual: data.len() as usize })
    } else if font_size_of(u32_at(data, 0)) is None {
        Err(FntError::InvalidFontSize(u32_at(data, 0)))
    } else if data.len() < BITMAP_DATA_OFFSET {
        Err(
            FntError::InsufficientData { expected: BITMAP_DATA_OFFSET, actual: data.len() as usize },
        )
    } else {
        Ok(
            (
                font_size_of(u32_at(data, 0))->0,
                table_of(data),
                data.subrange(BITMAP_DATA_OFFSET as int, data.len() as int),
            ),
        )
    }
}

/// Font file: size, offset table and glyph bitmap data.
#[derive(Debug, Clone, PartialEq, Eq, Hash)]
pub struct File {
    font_size: FontSize,
    offsets: [u16; OFFSET_TABLE_ENTRIES],
    raw: Vec<u8>,
}

impl File {
    /// The font size.
    pub closed spec fn spec_font_size(&self) -> FontSize {
        self.font_size
    }

    /// The offset table: for each index, zero or the one-based glyph number.
    pub closed spec fn spec_offsets(&self) -> Seq<u16> {
        self.offsets@
    }

    /// The glyph bitmap data.
    pub closed spec fn spec_raw(&self) -> Seq<u8> {
        self.raw@
    }

    /// The table always has one entry per index.
    pub proof fn lemma_table_len(&self)
        ensures
            self.spec_offsets().len() == OFFSET_TABLE_ENTRIES,
    {
    }

    /// The packed data of the glyph for `code`, if present.
    pub open spec fn spec_glyph(&self, code: u16) -> Option<Seq<u8>> {
        glyph_data(self.spec_font_size(), self.spec_offsets(), self.spec_raw(), code)
    }

    /// The file bytes of this font.
    pub open spec fn spec_bytes(&self) -> Seq<u8> {
        font_bytes(self.spec_font_size(), self.spec_offsets(), self.spec_raw())
    }

    /// The offset table index of a Shift-JIS character code, if it has one.
    pub fn code_to_index(code: u16) -> (r: Option<usize>)
        ensures
            r == (if has_slot(code) {
                Some(code_index(code) as usize)
            } else {
                None
            }),
    {
        let mut index: u32 = code as u32;
        if code >= 0xE000 {
            index = index + 0x4000;
        }
        if code >= 0x8100 {
            index = index + 0x8000;
        }
        index = index % 0x10000;
        if (index as usize) < OFFSET_TABLE_ENTRIES {
            Some(index as usize)
        } else {
            None
        }
    }

    /// An empty font of the given size.
    pub fn new(font_size: FontSize) -> (r: Self)
        ensures
            r.spec_font_size() == font_size,
            r.spec_offsets() == Seq::new(OFFSET_TABLE_ENTRIES as nat, |i: int| 0u16),
            r.spec_raw() == Seq::<u8>::empty(),
    {
        let r = File { font_size, offsets: [0u16; OFFSET_TABLE_ENTRIES], raw: Vec::new() };
        assert(r.offsets@ =~= Seq::new(OFFSET_TABLE_ENTRIES as nat, |i: int| 0u16));
        r
    }

    /// The font size.
    pub fn font_size(&self) -> (r: FontSize)
        ensures
            r == self.spec_font_size(),
    {
        self.font_size
    }

    /// The number of bytes per glyph.
    pub fn bytes_per_glyph(&self) -> (r: usize)
        ensures
            r == bytes_per_glyph_of(self.spec_font_size()),
    {
        self.font_size.bytes_per_glyph()
    }

    /// A one-line description: the font size and the number of glyphs.
    pub fn to_string(&self) -> (r: String)
        ensures
            r@ == "Font File: size="@ + font_size_name(self.spec_font_size()) + ", glyphs="@ + decimal(
                count_set(self.spec_offsets()) as nat,
            ),
    {
        let mut s = String::from_str("Font File: size=");
        s.append(self.font_size.as_str());
        s.append(", glyphs=");
        append_decimal(&mut s, self.num_of_glyphs() as u64);
        s
    }

    /// The number of set slots in the offset table.
    pub fn num_of_glyphs(&self) -> (r: usize)
        ensures
            r == count_set(self.spec_offsets()),
    {
        let mut count: usize = 0;
        let mut i: usize = 0;
        while i < OFFSET_TABLE_ENTRIES
            invariant
                i <= OFFSET_TABLE_ENTRIES,
                self.offsets@.len() == OFFSET_TABLE_ENTRIES,
                count == count_set(self.offsets@.subrange(0, i as int)),
                count <= i,
            decreases OFFSET_TABLE_ENTRIES - i,
        {
            assert(self.offsets@.subrange(0, i + 1).drop_last() =~= self.offsets@.subrange(
                0,
                i as int,
            ));
            if self.offsets[i] != 0 {
                count = count + 1;
            }
            i = i + 1;
        }
        assert(self.offsets@.subrange(0, OFFSET_TABLE_ENTRIES as int) =~= self.offsets@);
        count
    }

    /// The offset table entry at `index`, if the index is in range.
    pub fn get_offset(&self, index: usize) -> (r: Option<u16>)
        ensures
            r == (if index < OFFSET_TABLE_ENTRIES {
                Some(self.spec_offsets()[index as int])
            } else {
                None
            }),
    {
        if index < OFFSET_TABLE_ENTRIES {
            Some(self.offsets[index])
        } else {
            None
        }
    }

    /// The glyph for a Shift-JIS character code, if its slot is set and its
    /// data lies inside the bitmap data.
    pub fn lookup(&self, code: u16) -> (r: Option<Glyph>)
        ensures
            match self.spec_glyph(code) {
                Some(d) => r matches Some(g) && g.spec_size() == self.spec_font_size()
                    && g.spec_code() == code && g.spec_data() == d,
                None => r is None,
            },
    {
        let index = match File::code_to_index(code) {
            Some(i) => i,
            None => {
                return None;
            },
        };
        let m = self.offsets[index];
        if m == 0 {
            return None;
        }
        let bpg = self.bytes_per_glyph();
        proof {
            assert((m - 1) * bpg <= 65535 * 72) by (nonlinear_arith)
                requires
                    1 <= m <= 65535,
                    bpg <= 72,
            ;
        }
        let start = (m as usize - 1) * bpg;
        let end = start + bpg;
        if end > self.raw.len() {
            return None;
        }
        let data = copy_range(self.raw.as_slice(), start, end);
        Some(Glyph::new(self.font_size, code, data))
    }

    /// Inserts a glyph; an existing glyph for the same code is replaced only
    /// if `overwrite` is set.
    pub fn insert(&mut self, glyph: &Glyph, overwrite: bool) -> (r: Result<(), FntError>)
        requires
            insert_error(
                old(self).spec_font_size(),
                old(self).spec_offsets(),
                glyph.spec_code(),
                glyph.spec_size(),
                glyph.spec_data().len() as int,
                overwrite,
            ) is None && old(self).spec_offsets()[code_index(glyph.spec_code())] != 0 ==> glyph_start(
                old(self).spec_offsets()[code_index(glyph.spec_code())],
                bytes_per_glyph_of(old(self).spec_font_size()),
            ) + bytes_per_glyph_of(old(self).spec_font_size()) <= old(self).spec_raw().len(),
        ensures
            final(self).spec_font_size() == old(self).spec_font_size(),
            match insert_error(
                old(self).spec_font_size(),
                old(self).spec_offsets(),
                glyph.spec_code(),
                glyph.spec_size(),
                glyph.spec_data().len() as int,
                overwrite,
            ) {
                Some(e) => r == Err::<(), FntError>(e) && final(self).spec_offsets() == old(self).spec_offsets() && final(self).spec_raw() == old(self).spec_raw(),
                None => r is Ok && (final(self).spec_offsets(), final(self).spec_raw()) == inserted(
                    old(self).spec_font_size(),
                    old(self).spec_offsets(),
                    old(self).spec_raw(),
                    glyph.spec_code(),
                    glyph.spec_data(),
                ),
            },
    {
        let code = glyph.code();
        let index = match File::code_to_index(code) {
            Some(i) => i,
            None => {
                return Err(FntError::CodeOutOfRange { code, max_code: 0xFFFF });
            },
        };
        let gsize = glyph.font_size();
        if gsize != self.font_size {
            return Err(FntError::InvalidFontSize(gsize.side() as u32));
        }
        let bpg = self.bytes_per_glyph();
        let data = glyph.data();
        if data.len() != bpg {
            return Err(FntError::InsufficientData { expected: bpg, actual: data.len() });
        }
        let m = self.offsets[index];
        if m != 0 && !overwrite {
            return Err(FntError::GlyphAlreadyExists { code });
        }
        if m != 0 {
            proof {
                assert((m - 1) * bpg <= 65535 * 72) by (nonlinear_arith)
                    requires
                        1 <= m <= 65535,
                        bpg <= 72,
                ;
            }
            let start = (m as usize - 1) * bpg;
            write_at(&mut self.raw, start, data);
        } else {
            proof {
                assert(self.raw.len() / bpg < usize::MAX) by (nonlinear_arith)
                    requires
                        bpg >= 8,
                        self.raw.len() <= usize::MAX,
                ;
            }
            let next = self.raw.len() / bpg + 1;
            let value = (next % 0x10000) as u16;
            push_slice(&mut self.raw, data);
            self.offsets[index] = value;
        }
        Ok(())
    }

    /// An iterator over the glyphs of the codes below the table size.
    pub fn iter(&self) -> (r: GlyphIter<'_>)
        ensures
            r.spec_file() == *self,
            r.spec_current_code() == 0,
    {
        GlyphIter { file: self, current_code: 0 }
    }

    /// The file bytes: size header, offset table and bitmap data.
    pub fn to_bytes(&self) -> (r: Vec<u8>)
        ensures
            r@ == self.spec_bytes(),
    {
        let mut out: Vec<u8> = Vec::new();
        push_u32(&mut out, self.font_size.side() as u32);
        let ghost header = out@;
        let mut i: usize = 0;
        while i < OFFSET_TABLE_ENTRIES
            invariant
                i <= OFFSET_TABLE_ENTRIES,
                self.offsets@.len() == OFFSET_TABLE_ENTRIES,
                header == u32_bytes(side_of(self.font_size) as u32),
                out@ == header + table_bytes(self.offsets@.subrange(0, i as int)),
            decreases OFFSET_TABLE_ENTRIES - i,
        {
            push_u16(&mut out, self.offsets[i]);
            proof {
                let before = self.offsets@.subrange(0, i as int);
                let after = self.offsets@.subrange(0, i + 1);
                assert(table_bytes(after) =~= table_bytes(before) + u16_bytes(self.offsets@[i as int]));
            }
            i = i + 1;
        }
        assert(self.offsets@.subrange(0, OFFSET_TABLE_ENTRIES as int) =~= self.offsets@);
        push_slice(&mut out, self.raw.as_slice());
        out
    }

    /// Reads a font from its file bytes.
    pub fn from_bytes(data: &[u8]) -> (r: Result<Self, FntError>)
        ensures
            match parse_font(data@) {
                Ok((size, offsets, raw)) => r matches Ok(f) && f.spec_font_size() == size
                    && f.spec_offsets() == offsets && f.spec_raw() == raw,
                Err(e) => r == Err::<File, FntError>(e),
            },
    {
        if data.len() < HEADER_SIZE {
            return Err(FntError::InsufficientData { expected: HEADER_SIZE, actual: data.len() });
        }
        let v = read_u32(data, 0);
        let font_size = match FontSize::from_side(v) {
            Some(s) => s,
            None => {
                return Err(FntError::InvalidFontSize(v));
            },
        };
        if data.len() < BITMAP_DATA_OFFSET {
            return Err(
                FntError::InsufficientData { expected: BITMAP_DATA_OFFSET, actual: data.len() },
            );
        }
        let mut offsets = [0u16; OFFSET_TABLE_ENTRIES];
        let mut i: usize = 0;
        while i < OFFSET_TABLE_ENTRIES
            invariant
                i <= OFFSET_TABLE_ENTRIES,
                data@.len() >= BITMAP_DATA_OFFSET,
                offsets@.len() == OFFSET_TABLE_ENTRIES,
                forall|k: int| 0 <= k < i ==> offsets@[k] == #[trigger] table_of(data@)[k],
            decreases OFFSET_TABLE_ENTRIES - i,
        {
            offsets[i] = read_u16(data, HEADER_SIZE + 2 * i);
            i = i + 1;
        }
        assert(offsets@ =~= table_of(data@));
        let raw = copy_range(data, BITMAP_DATA_OFFSET, data.len());
        Ok(File { font_size, offsets, raw })
    }
}

/// Iterator over the glyphs of a font, by ascending code.
#[derive(Debug)]
pub struct GlyphIter<'a> {
    file: &'a File,
    current_code: u16,
}

impl<'a> GlyphIter<'a> {
    /// The font being walked.
    pub closed spec fn spec_file(&self) -> File {
        *self.file
    }

    /// The next code to look at.
    pub closed spec fn spec_current_code(&self) -> u16 {
        self.current_code
    }

    /// The glyph of the next code, from the current one up to the table
    /// size, that has one.
    pub fn next(&mut self) -> (r: Option<Glyph>)
        ensures
            final(self).spec_file() == old(self).spec_file(),
            match r {
                Some(g) => {
                    &&& old(self).spec_current_code() <= g.spec_code() < OFFSET_TABLE_ENTRIES
                    &&& final(self).spec_current_code() == g.spec_code() + 1
                    &&& g.spec_size() == old(self).spec_file().spec_font_size()
                    &&& old(self).spec_file().spec_glyph(g.spec_code()) == Some(g.spec_data())
                    &&& forall|c: u16|
                        old(self).spec_current_code() <= c < g.spec_code() ==> old(self).spec_file().spec_glyph(c) is None
                },
                None => {
                    &&& forall|c: u16|
                        old(self).spec_current_code() <= c < OFFSET_TABLE_ENTRIES ==> old(self).spec_file().spec_glyph(c) is None
                    &&& final(self).spec_current_code() == if old(self).spec_current_code()
                        < OFFSET_TABLE_ENTRIES {
                        OFFSET_TABLE_ENTRIES as u16
                    } else {
                        old(self).spec_current_code()
                    }
                },
            },
    {
        let ghost start = self.current_code;
        while (self.current_code as usize) < OFFSET_TABLE_ENTRIES
            invariant
                start <= self.current_code,
                self.current_code <= OFFSET_TABLE_ENTRIES || self.current_code == start,
                *self.file == *old(self).file,
                start == old(self).current_code,
                forall|c: u16| start <= c < self.current_code ==> self.file.spec_glyph(c) is None,
            decreases OFFSET_TABLE_ENTRIES - self.current_code,
        {
            let code = self.current_code;
            self.current_code = self.current_code + 1;
            match self.file.lookup(code) {
                Some(g) => {
                    return Some(g);
                },
                None => {},
            }
        }
        None
    }
}

/// Serialising a font and reading the bytes back gives the same font.
pub proof fn lemma_font_bytes_roundtrip(size: FontSize, offsets: Seq<u16>, raw: Seq<u8>)
    requires
        offsets.len() == OFFSET_TABLE_ENTRIES,
    ensures
        parse_font(font_bytes(size, offsets, raw)) == Ok::<(FontSize, Seq<u16>, Seq<u8>), FntError>(
            (size, offsets, raw),
        ),
{
    let b = font_bytes(size, offsets, raw);
    let t = table_bytes(offsets);
    assert(b.subrange(0, 4) =~= u32_bytes(side_of(size) as u32));
    lemma_u32_roundtrip(side_of(size) as u32, b, 0);
    assert forall|i: int| 0 <= i < OFFSET_TABLE_ENTRIES implies #[trigger] table_of(b)[i]
        == offsets[i] by {
        assert(b.subrange(4 + 2 * i, 4 + 2 * i + 2) =~= u16_bytes(offsets[i])) by {
            assert(b[4 + 2 * i] == t[2 * i]);
            assert(b[4 + 2 * i + 1] == t[2 * i + 1]);
            assert((2 * i) / 2 == i && (2 * i) % 2 == 0);
            assert((2 * i + 1) / 2 == i && (2 * i + 1) % 2 == 1);
        }
        lemma_u16_roundtrip(offsets[i], b, 4 + 2 * i);
    }
    assert(table_of(b) =~= offsets);
    assert(b.subrange(BITMAP_DATA_OFFSET as int, b.len() as int) =~= raw);
}

/// Reading font bytes and serialising the result gives the same bytes.
pub proof fn lemma_parse_font_bytes(data: Seq<u8>)
    requires
        parse_font(data) is Ok,
    ensures
        ({
            let (size, offsets, raw) = parse_font(data)->Ok_0;
            font_bytes(size, offsets, raw) == data
        }),
{
    let (size, offsets, raw) = parse_font(data)->Ok_0;
    let b = font_bytes(size, offsets, raw);
    assert(b.len() == data.len());
    assert forall|k: int| 0 <= k < data.len() implies #[trigger] b[k] == data[k] by {
        if k < 4 {
        } else if k < BITMAP_DATA_OFFSET {
            let j = k - 4;
            let i = j / 2;
            lemma_u16_bytes_of_read(data, 4 + 2 * i);
            assert(data.subrange(4 + 2 * i, 4 + 2 * i + 2)[j % 2] == data[k]);
        }
    }
    assert(b =~= data);
}

/// After inserting a glyph for `code` into a font whose bitmap data holds a
/// whole number of glyphs, looking `code` up gives the inserted data.
pub proof fn lemma_insert_then_lookup(
    size: FontSize,
    offsets: Seq<u16>,
    raw: Seq<u8>,
    code: u16,
    data: Seq<u8>,
    overwrite: bool,
)
    requires
        offsets.len() == OFFSET_TABLE_ENTRIES,
        insert_error(size, offsets, code, size, data.len() as int, overwrite) is None,
        raw.len() as int % bytes_per_glyph_of(size) == 0,
        raw.len() as int / bytes_per_glyph_of(size) < 0xFFFF,
        offsets[code_index(code)] != 0 ==> glyph_start(
            offsets[code_index(code)],
            bytes_per_glyph_of(size),
        ) + bytes_per_glyph_of(size) <= raw.len(),
    ensures
        ({
            let (o2, r2) = inserted(size, offsets, raw, code, data);
            glyph_data(size, o2, r2, code) == Some(data)
        }),
{
    let idx = code_index(code);
    let bpg = bytes_per_glyph_of(size);
    let (o2, r2) = inserted(size, offsets, raw, code, data);
    if offsets[idx] != 0 {
        let start = glyph_start(offsets[idx], bpg);
        assert(r2.subrange(start, start + bpg) =~= data);
    } else {
        let m = raw.len() as int / bpg;
        assert(o2[idx] == m + 1);
        assert(glyph_start(o2[idx], bpg) == raw.len()) by (nonlinear_arith)
            requires
                glyph_start(o2[idx], bpg) == (o2[idx] - 1) * bpg,
                o2[idx] == m + 1,
                m == raw.len() as int / bpg,
                raw.len() as int % bpg == 0,
                bpg > 0,
        ;
        assert(r2.subrange(raw.len() as int, raw.len() + bpg) =~= data);
    }
}

} // verus!

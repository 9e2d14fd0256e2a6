//! Sprite frames: a descriptor, indexed colour pixels and mask pixels.

use vstd::prelude::*;
use vstd::string::StringExecFns;

use super::super::le::{filled, push_slice};
use super::super::show::append_decimal;
use super::super::text::{decimal, decimal_bytes, push_decimal_bytes, string_from_chars};
use super::palette::{color_at, Palette, SPR_PAL_COLOR_COUNT};

verus! {

/// Frame descriptor (24 bytes in the file).
#[derive(Debug, Clone, Copy, PartialEq, Eq)]
pub struct FrameEntry {
    /// Offset of the colour pixels, from the start of the data area
    pub color_offset: u32,
    /// Offset of the mask pixels, from the start of the data area
    pub mask_offset: u32,
    /// Width in pixels
    pub width: u32,
    /// Height in pixels
    pub height: u32,
    /// Hotspot X coordinate
    pub hotspot_x: u32,
    /// Hotspot Y coordinate
    pub hotspot_y: u32,
}

/// The description of a descriptor: the size and the hotspot.
pub open spec fn entry_text(e: FrameEntry) -> Seq<char> {
    decimal(e.width as nat) + "×"@ + decimal(e.height as nat) + " (hotspot: "@ + decimal(e.hotspot_x as nat)
        + ", "@ + decimal(e.hotspot_y as nat) + ")"@
}

impl FrameEntry {
    /// Creates a descriptor.
    pub fn new(
        color_offset: u32,
        mask_offset: u32,
        width: u32,
        height: u32,
        hotspot_x: u32,
        hotspot_y: u32,
    ) -> (r: Self)
        ensures
            r == (FrameEntry { color_offset, mask_offset, width, height, hotspot_x, hotspot_y }),
    {
        FrameEntry { color_offset, mask_offset, width, height, hotspot_x, hotspot_y }
    }

    /// A one-line description: the size and the hotspot.
    pub fn to_string(&self) -> (r: String)
        ensures
            r@ == entry_text(*self),
    {
        let mut s = String::new();
        append_decimal(&mut s, self.width as u64);
        s.append("×");
        append_decimal(&mut s, self.height as u64);
        s.append(" (hotspot: ");
        append_decimal(&mut s, self.hotspot_x as u64);
        s.append(", ");
        append_decimal(&mut s, self.hotspot_y as u64);
        s.append(")");
        s
    }

    /// The number of pixels, `width * height`.
    pub fn pixel_count(&self) -> (r: usize)
        requires
            self.width * self.height <= usize::MAX,
        ensures
            r == self.width * self.height,
    {
        (self.width as usize) * (self.height as usize)
    }

    /// The width.
    pub fn width(&self) -> (r: u32)
        ensures
            r == self.width,
    {
        self.width
    }

    /// The height.
    pub fn height(&self) -> (r: u32)
        ensures
            r == self.height,
    {
        self.height
    }

    /// The hotspot X coordinate.
    pub fn hotspot_x(&self) -> (r: u32)
        ensures
            r == self.hotspot_x,
    {
        self.hotspot_x
    }

    /// The hotspot Y coordinate.
    pub fn hotspot_y(&self) -> (r: u32)
        ensures
            r == self.hotspot_y,
    {
        self.hotspot_y
    }

    /// The colour data offset.
    pub fn color_offset(&self) -> (r: u32)
        ensures
            r == self.color_offset,
    {
        self.color_offset
    }

    /// The mask data offset.
    pub fn mask_offset(&self) -> (r: u32)
        ensures
            r == self.mask_offset,
    {
        self.mask_offset
    }
}

/// The palette index of a raw colour pixel: 176..255 map to 0..79, lower
/// values to 0.
pub open spec fn palette_index(raw: u8) -> u8 {
    if raw >= 176 {
        (raw - 176) as u8
    } else {
        0
    }
}

/// Raw colour pixels 176 to 255 stand for palette indices 0 to 79, one for
/// one and in order: the index of a raw value is its distance from 176, and
/// writing that index back (176 plus the index) gives the raw value again.
pub proof fn lemma_palette_index_range()
    ensures
        forall|raw: u8| 176 <= raw ==> #[trigger] palette_index(raw) + 176 == raw && palette_index(raw) < 80,
        forall|i: u8| i < 80 ==> #[trigger] palette_index((176 + i) as u8) == i,
        forall|a: u8, b: u8|
            176 <= a && 176 <= b && #[trigger] palette_index(a) == #[trigger] palette_index(b) ==> a == b,
{
}

/// The pixel index of (x, y) in a frame `w` pixels wide.
pub open spec fn pixel_index(w: int, x: int, y: int) -> int {
    y * w + x
}

/// The number of whole rows of `w` pixels in `len` pixels.
pub open spec fn row_count(len: int, w: int) -> int {
    if w > 0 {
        len / w
    } else {
        0
    }
}

/// Whether `chars` draws `rows` rows of `w` pixels, a newline after each,
/// with `ok(p, c)` holding of each pixel `p` and its character `c`.
pub open spec fn art_with(
    px: Seq<u8>,
    w: int,
    rows: int,
    chars: Seq<char>,
    ok: spec_fn(u8, char) -> bool,
) -> bool
    decreases rows,
{
    if rows <= 0 {
        chars.len() == 0
    } else {
        let n = chars.len() - (w + 1);
        &&& n >= 0
        &&& art_with(px, w, rows - 1, chars.subrange(0, n), ok)
        &&& chars[n + w] == '\n'
        &&& forall|j: int| 0 <= j < w ==> #[trigger] ok(px[(rows - 1) * w + j], chars[n + j])
    }
}

/// The character of the default rendering: ' ' below 128, '#' from 128 on.
pub open spec fn default_char(p: u8) -> char {
    if p < 128 {
        ' '
    } else {
        '#'
    }
}

/// A property of pixels and characters that holds wherever another does
/// holds of drawings made with the other.
pub proof fn lemma_art_with_weaken(
    px: Seq<u8>,
    w: int,
    rows: int,
    chars: Seq<char>,
    p: spec_fn(u8, char) -> bool,
    q: spec_fn(u8, char) -> bool,
)
    requires
        art_with(px, w, rows, chars, p),
        forall|a: u8, c: char| #[trigger] p(a, c) ==> q(a, c),
    ensures
        art_with(px, w, rows, chars, q),
    decreases rows,
{
    if rows > 0 {
        let n = chars.len() - (w + 1);
        lemma_art_with_weaken(px, w, rows - 1, chars.subrange(0, n), p, q);
        assert forall|j: int| 0 <= j < w implies #[trigger] q(px[(rows - 1) * w + j], chars[n + j]) by {
            assert(p(px[(rows - 1) * w + j], chars[n + j]));
        }
    }
}

/// The header of a binary grey map of `w` by `h` pixels with maximum 255.
pub open spec fn pgm_header(w: u32, h: u32) -> Seq<u8> {
    seq![80u8, 53u8, 10u8] + decimal_bytes(w as nat) + seq![32u8] + decimal_bytes(h as nat) + seq![
        10u8,
    ] + seq![50u8, 53u8, 53u8, 10u8]
}

/// The red, green and blue bytes of the colour of each raw pixel.
pub open spec fn rgb_of(px: Seq<u8>, colors: Seq<u8>) -> Seq<u8> {
    Seq::new(
        (3 * px.len()) as nat,
        |k: int|
            {
                let c = color_at(colors, palette_index(px[k / 3]) as int);
                if k % 3 == 0 {
                    c.0
                } else if k % 3 == 1 {
                    c.1
                } else {
                    c.2
                }
            },
    )
}

/// The red, green, blue and alpha bytes of each raw pixel; the alpha is
/// `alpha(i)` for pixel `i`.
pub open spec fn rgba_of(px: Seq<u8>, n: int, colors: Seq<u8>, alpha: spec_fn(int) -> u8) -> Seq<u8> {
    Seq::new(
        (4 * n) as nat,
        |k: int|
            {
                let c = color_at(colors, palette_index(px[k / 4]) as int);
                if k % 4 == 0 {
                    c.0
                } else if k % 4 == 1 {
                    c.1
                } else if k % 4 == 2 {
                    c.2
                } else {
                    alpha(k / 4)
                }
            },
    )
}

/// A complete frame: descriptor, colour pixels and mask pixels.
#[derive(Debug, Clone, PartialEq, Eq)]
pub struct Frame {
    entry: FrameEntry,
    sprite_pixels: Vec<u8>,
    mask_pixels: Vec<u8>,
}

impl Frame {
    /// The descriptor.
    pub closed spec fn spec_entry(&self) -> FrameEntry {
        self.entry
    }

    /// The colour pixels, row by row.
    pub closed spec fn spec_sprite(&self) -> Seq<u8> {
        self.sprite_pixels@
    }

    /// The mask pixels, row by row.
    pub closed spec fn spec_mask(&self) -> Seq<u8> {
        self.mask_pixels@
    }

    /// Whether both pixel arrays hold exactly `width * height` pixels.
    pub open spec fn wf(&self) -> bool {
        &&& self.spec_sprite().len() == self.spec_entry().width * self.spec_entry().height
        &&& self.spec_mask().len() == self.spec_entry().width * self.spec_entry().height
    }

    /// Creates a frame; both pixel arrays must hold `width * height` pixels.
    pub fn new(entry: FrameEntry, sprite_pixels: Vec<u8>, mask_pixels: Vec<u8>) -> (r: Self)
        requires
            sprite_pixels@.len() == entry.width * entry.height,
            mask_pixels@.len() == entry.width * entry.height,
        ensures
            r.spec_entry() == entry,
            r.spec_sprite() == sprite_pixels@,
            r.spec_mask() == mask_pixels@,
            r.wf(),
    {
        Frame { entry, sprite_pixels, mask_pixels }
    }

    /// Creates a frame with all pixels zero.
    pub fn new_empty(entry: FrameEntry) -> (r: Self)
        requires
            entry.width * entry.height <= usize::MAX,
        ensures
            r.spec_entry() == entry,
            r.spec_sprite() == Seq::new((entry.width * entry.height) as nat, |i: int| 0u8),
            r.spec_mask() == Seq::new((entry.width * entry.height) as nat, |i: int| 0u8),
            r.wf(),
    {
        let n = entry.pixel_count();
        Frame { entry, sprite_pixels: filled(0, n), mask_pixels: filled(0, n) }
    }

    /// A one-line description: the size, the hotspot and the pixel count.
    pub fn to_string(&self) -> (r: String)
        ensures
            r@ == entry_text(self.spec_entry()) + " - "@ + decimal(
                (self.spec_entry().width * self.spec_entry().height) as nat,
            ) + " pixels"@,
    {
        let w = self.entry.width as u64;
        let h = self.entry.height as u64;
        assert(w * h <= 0xFFFF_FFFFu64 * 0xFFFF_FFFFu64) by (nonlinear_arith)
            requires
                w <= 0xFFFF_FFFFu64,
                h <= 0xFFFF_FFFFu64,
        ;
        let mut s = self.entry.to_string();
        s.append(" - ");
        append_decimal(&mut s, w * h);
        s.append(" pixels");
        s
    }

    /// The descriptor.
    pub fn entry(&self) -> (r: &FrameEntry)
        ensures
            *r == self.spec_entry(),
    {
        &self.entry
    }

    /// The descriptor, for changing in place.
    pub fn entry_mut(&mut self) -> (r: &mut FrameEntry)
        ensures
            *r == old(self).spec_entry(),
            final(self).spec_entry() == *final(r),
            final(self).spec_sprite() == old(self).spec_sprite(),
            final(self).spec_mask() == old(self).spec_mask(),
    {
        &mut self.entry
    }

    /// The colour pixels.
    pub fn sprite_pixels(&self) -> (r: &[u8])
        ensures
            r@ == self.spec_sprite(),
    {
        self.sprite_pixels.as_slice()
    }

    /// The colour pixels, for changing in place.
    pub fn sprite_pixels_mut(&mut self) -> (r: &mut [u8])
        ensures
            r@ == old(self).spec_sprite(),
            final(self).spec_sprite() == final(r)@,
            final(self).spec_entry() == old(self).spec_entry(),
            final(self).spec_mask() == old(self).spec_mask(),
    {
        self.sprite_pixels.as_mut_slice()
    }

    /// The mask pixels.
    pub fn mask_pixels(&self) -> (r: &[u8])
        ensures
            r@ == self.spec_mask(),
    {
        self.mask_pixels.as_slice()
    }

    /// The mask pixels, for changing in place.
    pub fn mask_pixels_mut(&mut self) -> (r: &mut [u8])
        ensures
            r@ == old(self).spec_mask(),
            final(self).spec_mask() == final(r)@,
            final(self).spec_entry() == old(self).spec_entry(),
            final(self).spec_sprite() == old(self).spec_sprite(),
    {
        self.mask_pixels.as_mut_slice()
    }

    /// The width.
    pub fn width(&self) -> (r: u32)
        ensures
            r == self.spec_entry().width,
    {
        self.entry.width
    }

    /// The height.
    pub fn height(&self) -> (r: u32)
        ensures
            r == self.spec_entry().height,
    {
        self.entry.height
    }

    /// The hotspot X coordinate.
    pub fn hotspot_x(&self) -> (r: u32)
        ensures
            r == self.spec_entry().hotspot_x,
    {
        self.entry.hotspot_x
    }

    /// The hotspot Y coordinate.
    pub fn hotspot_y(&self) -> (r: u32)
        ensures
            r == self.spec_entry().hotspot_y,
    {
        self.entry.hotspot_y
    }

    /// Whether (x, y) lies inside the frame.
    pub open spec fn inside(&self, x: u32, y: u32) -> bool {
        x < self.spec_entry().width && y < self.spec_entry().height
    }

    /// The value at (x, y) of `px`, if (x, y) lies inside the frame and
    /// the pixel exists.
    pub open spec fn pixel_of(&self, px: Seq<u8>, x: u32, y: u32) -> Option<u8> {
        let i = pixel_index(self.spec_entry().width as int, x as int, y as int);
        if self.inside(x, y) && i < px.len() {
            Some(px[i])
        } else {
            None
        }
    }

    /// Whether indexing at (x, y) stays within 32 bits when (x, y) is inside.
    pub open spec fn index_fits(&self, x: u32, y: u32) -> bool {
        self.inside(x, y) ==> pixel_index(self.spec_entry().width as int, x as int, y as int)
            <= u32::MAX
    }

    fn index_of(&self, x: u32, y: u32) -> (r: Option<usize>)
        requires
            self.index_fits(x, y),
        ensures
            r == if self.inside(x, y) {
                Some(pixel_index(self.spec_entry().width as int, x as int, y as int) as usize)
            } else {
                None
            },
    {
        if x >= self.entry.width || y >= self.entry.height {
            return None;
        }
        proof {
            assert(0 <= y * self.entry.width) by (nonlinear_arith)
                requires
                    0 <= y,
                    0 <= self.entry.width,
            ;
        }
        Some((y * self.entry.width + x) as usize)
    }

    /// The colour pixel at (x, y), if inside the frame.
    pub fn get_sprite_pixel(&self, x: u32, y: u32) -> (r: Option<u8>)
        requires
            self.index_fits(x, y),
        ensures
            r == self.pixel_of(self.spec_sprite(), x, y),
    {
        match self.index_of(x, y) {
            Some(i) => if i < self.sprite_pixels.len() {
                Some(self.sprite_pixels[i])
            } else {
                None
            },
            None => None,
        }
    }

    /// The mask pixel at (x, y), if inside the frame.
    pub fn get_mask_pixel(&self, x: u32, y: u32) -> (r: Option<u8>)
        requires
            self.index_fits(x, y),
        ensures
            r == self.pixel_of(self.spec_mask(), x, y),
    {
        match self.index_of(x, y) {
            Some(i) => if i < self.mask_pixels.len() {
                Some(self.mask_pixels[i])
            } else {
                None
            },
            None => None,
        }
    }

    /// Sets the colour pixel at (x, y); false if outside the frame.
    pub fn set_sprite_pixel(&mut self, x: u32, y: u32, value: u8) -> (r: bool)
        requires
            old(self).index_fits(x, y),
        ensures
            r == old(self).pixel_of(old(self).spec_sprite(), x, y) is Some,
            final(self).spec_entry() == old(self).spec_entry(),
            final(self).spec_mask() == old(self).spec_mask(),
            final(self).spec_sprite() == if r {
                old(self).spec_sprite().update(
                    pixel_index(old(self).spec_entry().width as int, x as int, y as int),
                    value,
                )
            } else {
                old(self).spec_sprite()
            },
    {
        match self.index_of(x, y) {
            Some(i) => if i < self.sprite_pixels.len() {
                self.sprite_pixels.set(i, value);
                true
            } else {
                false
            },
            None => false,
        }
    }

    /// Sets the mask pixel at (x, y); false if outside the frame.
    pub fn set_mask_pixel(&mut self, x: u32, y: u32, value: u8) -> (r: bool)
        requires
            old(self).index_fits(x, y),
        ensures
            r == old(self).pixel_of(old(self).spec_mask(), x, y) is Some,
            final(self).spec_entry() == old(self).spec_entry(),
            final(self).spec_sprite() == old(self).spec_sprite(),
            final(self).spec_mask() == if r {
                old(self).spec_mask().update(
                    pixel_index(old(self).spec_entry().width as int, x as int, y as int),
                    value,
                )
            } else {
                old(self).spec_mask()
            },
    {
        match self.index_of(x, y) {
            Some(i) => if i < self.mask_pixels.len() {
                self.mask_pixels.set(i, value);
                true
            } else {
                false
            },
            None => false,
        }
    }

    /// An iterator over the rows of colour pixels.
    pub fn sprite_rows(&self) -> (r: FrameRowIterator<'_>)
        ensures
            r.spec_pixels() == self.spec_sprite(),
            r.spec_width() == self.spec_entry().width,
            r.spec_current_row() == 0,
            r.spec_total_rows() == row_count(self.spec_sprite().len() as int, self.spec_entry().width as int),
    {
        FrameRowIterator::new(self.sprite_pixels.as_slice(), self.entry.width as usize)
    }

    /// An iterator over the rows of mask pixels.
    pub fn mask_rows(&self) -> (r: FrameRowIterator<'_>)
        ensures
            r.spec_pixels() == self.spec_mask(),
            r.spec_width() == self.spec_entry().width,
            r.spec_current_row() == 0,
            r.spec_total_rows() == row_count(self.spec_mask().len() as int, self.spec_entry().width as int),
    {
        FrameRowIterator::new(self.mask_pixels.as_slice(), self.entry.width as usize)
    }

    /// The palette index of a raw colour pixel (176..255 to 0..79, lower
    /// values to 0).
    pub fn decode_sprite_pixel(raw_value: u8) -> (r: u8)
        ensures
            r == palette_index(raw_value),
    {
        if raw_value >= 176 {
            raw_value - 176
        } else {
            0
        }
    }

    /// The raw colour pixel of a palette index (indices above 79 count as 79).
    pub fn encode_sprite_pixel(palette_index: u8) -> (r: u8)
        ensures
            r == 176 + if palette_index < 79 {
                palette_index
            } else {
                79
            },
    {
        let i = if palette_index < 79 {
            palette_index
        } else {
            79
        };
        176 + i
    }

    /// The colour pixels as a binary grey map image.
    pub fn sprite_to_pgm(&self) -> (r: Vec<u8>)
        ensures
            r@ == pgm_header(self.spec_entry().width, self.spec_entry().height) + self.spec_sprite(),
    {
        pgm(self.entry.width, self.entry.height, self.sprite_pixels.as_slice())
    }

    /// The mask pixels as a binary grey map image.
    pub fn mask_to_pgm(&self) -> (r: Vec<u8>)
        ensures
            r@ == pgm_header(self.spec_entry().width, self.spec_entry().height) + self.spec_mask(),
    {
        pgm(self.entry.width, self.entry.height, self.mask_pixels.as_slice())
    }

    /// The colour pixels drawn with one character per pixel, a newline
    /// after each row.
    pub fn sprite_to_ascii_art<F: Fn(u8) -> char>(&self, char_map: F) -> (r: String)
        requires
            forall|p: u8| call_requires(char_map, (p,)),
        ensures
            art_with(
                self.spec_sprite(),
                self.spec_entry().width as int,
                row_count(self.spec_sprite().len() as int, self.spec_entry().width as int),
                r@,
                |p: u8, c: char| call_ensures(char_map, (p,), c),
            ),
    {
        ascii_art(self.sprite_pixels.as_slice(), self.entry.width as usize, char_map)
    }

    /// The mask pixels drawn with one character per pixel, a newline after
    /// each row.
    pub fn mask_to_ascii_art<F: Fn(u8) -> char>(&self, char_map: F) -> (r: String)
        requires
            forall|p: u8| call_requires(char_map, (p,)),
        ensures
            art_with(
                self.spec_mask(),
                self.spec_entry().width as int,
                row_count(self.spec_mask().len() as int, self.spec_entry().width as int),
                r@,
                |p: u8, c: char| call_ensures(char_map, (p,), c),
            ),
    {
        ascii_art(self.mask_pixels.as_slice(), self.entry.width as usize, char_map)
    }

    /// The colour pixels drawn with ' ' below 128 and '#' from 128 on.
    pub fn sprite_to_ascii_art_default(&self) -> (r: String)
        ensures
            art_with(
                self.spec_sprite(),
                self.spec_entry().width as int,
                row_count(self.spec_sprite().len() as int, self.spec_entry().width as int),
                r@,
                |p: u8, c: char| c == default_char(p),
            ),
    {
        let f = |pixel: u8| -> (c: char)
            ensures
                c == default_char(pixel),
            {
                if pixel < 128 {
                    ' '
                } else {
                    '#'
                }
            };
        let r = self.sprite_to_ascii_art(f);
        proof {
            lemma_art_with_weaken(
                self.spec_sprite(),
                self.spec_entry().width as int,
                row_count(self.spec_sprite().len() as int, self.spec_entry().width as int),
                r@,
                |p: u8, c: char| call_ensures(f, (p,), c),
                |p: u8, c: char| c == default_char(p),
            );
        }
        r
    }

    /// The mask pixels drawn with ' ' below 128 and '#' from 128 on.
    pub fn mask_to_ascii_art_default(&self) -> (r: String)
        ensures
            art_with(
                self.spec_mask(),
                self.spec_entry().width as int,
                row_count(self.spec_mask().len() as int, self.spec_entry().width as int),
                r@,
                |p: u8, c: char| c == default_char(p),
            ),
    {
        let f = |pixel: u8| -> (c: char)
            ensures
                c == default_char(pixel),
            {
                if pixel < 128 {
                    ' '
                } else {
                    '#'
                }
            };
        let r = self.mask_to_ascii_art(f);
        proof {
            lemma_art_with_weaken(
                self.spec_mask(),
                self.spec_entry().width as int,
                row_count(self.spec_mask().len() as int, self.spec_entry().width as int),
                r@,
                |p: u8, c: char| call_ensures(f, (p,), c),
                |p: u8, c: char| c == default_char(p),
            );
        }
        r
    }

    /// The palette colour of each colour pixel, as red, green, blue bytes.
    pub fn apply_palette_rgb(&self, palette: &Palette) -> (r: Vec<u8>)
        ensures
            r@ == rgb_of(self.spec_sprite(), palette.spec_colors()),
    {
        let ghost px = self.sprite_pixels@;
        let ghost colors = palette.spec_colors();
        let mut out: Vec<u8> = Vec::new();
        let mut i: usize = 0;
        while i < self.sprite_pixels.len()
            invariant
                i <= px.len(),
                px == self.sprite_pixels@,
                colors == palette.spec_colors(),
                out@ == rgb_of(px.subrange(0, i as int), colors),
            decreases px.len() - i,
        {
            let idx = Frame::decode_sprite_pixel(self.sprite_pixels[i]);
            let c = palette.color(idx);
            out.push(c.0);
            out.push(c.1);
            out.push(c.2);
            assert(out@ =~= rgb_of(px.subrange(0, i + 1), colors)) by {
                assert forall|k: int| 0 <= k < 3 * (i + 1) implies out@[k] == rgb_of(
                    px.subrange(0, i + 1),
                    colors,
                )[k] by {
                    if k < 3 * i {
                        assert(out@[k] == rgb_of(px.subrange(0, i as int), colors)[k]);
                        assert(px.subrange(0, i as int)[k / 3] == px.subrange(0, i + 1)[k / 3]);
                    } else {
                        assert(k / 3 == i);
                    }
                }
            }
            i = i + 1;
        }
        assert(px.subrange(0, px.len() as int) =~= px);
        out
    }

    /// The palette colour of each colour pixel, as red, green, blue bytes
    /// and an opaque alpha of 255.
    pub fn apply_palette_rgba(&self, palette: &Palette) -> (r: Vec<u8>)
        ensures
            r@ == rgba_of(
                self.spec_sprite(),
                self.spec_sprite().len() as int,
                palette.spec_colors(),
                |i: int| 255u8,
            ),
    {
        let ghost px = self.sprite_pixels@;
        let ghost colors = palette.spec_colors();
        let ghost alpha = |i: int| 255u8;
        let mut out: Vec<u8> = Vec::new();
        let mut i: usize = 0;
        while i < self.sprite_pixels.len()
            invariant
                i <= px.len(),
                px == self.sprite_pixels@,
                colors == palette.spec_colors(),
                alpha == (|i: int| 255u8),
                out@ == rgba_of(px, i as int, colors, alpha),
            decreases px.len() - i,
        {
            let idx = Frame::decode_sprite_pixel(self.sprite_pixels[i]);
            let c = palette.color(idx);
            out.push(c.0);
            out.push(c.1);
            out.push(c.2);
            out.push(255u8);
            assert(out@ =~= rgba_of(px, i + 1, colors, alpha)) by {
                assert forall|k: int| 0 <= k < 4 * (i + 1) implies out@[k] == rgba_of(
                    px,
                    i + 1,
                    colors,
                    alpha,
                )[k] by {
                    if k < 4 * i {
                        assert(out@[k] == rgba_of(px, i as int, colors, alpha)[k]);
                    } else {
                        assert(k / 4 == i);
                    }
                }
            }
            i = i + 1;
        }
        out
    }

    /// The palette colour of each pixel with the inverted mask as alpha
    /// (`255 - mask`), for the first `width * height` pixels.
    pub fn apply_palette_with_mask(&self, palette: &Palette) -> (r: Vec<u8>)
        requires
            self.spec_entry().width * self.spec_entry().height <= self.spec_sprite().len(),
            self.spec_entry().width * self.spec_entry().height <= self.spec_mask().len(),
        ensures
            r@ == rgba_of(
                self.spec_sprite(),
                self.spec_entry().width * self.spec_entry().height,
                palette.spec_colors(),
                |i: int| (255 - self.spec_mask()[i]) as u8,
            ),
    {
        let _len = self.sprite_pixels.len();
        let n = self.entry.pixel_count();
        let ghost px = self.sprite_pixels@;
        let ghost colors = palette.spec_colors();
        let ghost alpha = |i: int| (255 - self.mask_pixels@[i]) as u8;
        let mut out: Vec<u8> = Vec::new();
        let mut i: usize = 0;
        while i < n
            invariant
                i <= n,
                n <= px.len(),
                n <= self.mask_pixels@.len(),
                px == self.sprite_pixels@,
                colors == palette.spec_colors(),
                alpha == (|i: int| (255 - self.mask_pixels@[i]) as u8),
                out@ == rgba_of(px, i as int, colors, alpha),
            decreases n - i,
        {
            let idx = Frame::decode_sprite_pixel(self.sprite_pixels[i]);
            let c = palette.color(idx);
            let a = 255 - self.mask_pixels[i];
            out.push(c.0);
            out.push(c.1);
            out.push(c.2);
            out.push(a);
            assert(out@ =~= rgba_of(px, i + 1, colors, alpha)) by {
                assert forall|k: int| 0 <= k < 4 * (i + 1) implies out@[k] == rgba_of(
                    px,
                    i + 1,
                    colors,
                    alpha,
                )[k] by {
                    if k < 4 * i {
                        assert(out@[k] == rgba_of(px, i as int, colors, alpha)[k]);
                    } else {
                        assert(k / 4 == i);
                    }
                }
            }
            i = i + 1;
        }
        out
    }

    /// The palette colour at (x, y), if inside the frame.
    pub fn get_color_at(&self, x: u32, y: u32, palette: &Palette) -> (r: Option<(u8, u8, u8, u8)>)
        requires
            self.index_fits(x, y),
        ensures
            r == match self.pixel_of(self.spec_sprite(), x, y) {
                Some(p) => Some(color_at(palette.spec_colors(), palette_index(p) as int)),
                None => None,
            },
    {
        match self.get_sprite_pixel(x, y) {
            Some(raw) => {
                let idx = Frame::decode_sprite_pixel(raw);
                Some(palette.color(idx))
            },
            None => None,
        }
    }

    /// An iterator over the rows of palette colours.
    pub fn color_rows<'a>(&'a self, palette: &'a Palette) -> (r: ColorRowIterator<'a>)
        ensures
            r.spec_frame() == *self,
            r.spec_palette() == *palette,
            r.spec_current_row() == 0,
    {
        ColorRowIterator { frame: self, palette, current_row: 0 }
    }

    /// Whether both dimensions are non-zero.
    pub fn has_valid_dimensions(&self) -> (r: bool)
        ensures
            r == (self.spec_entry().width > 0 && self.spec_entry().height > 0),
    {
        self.entry.width > 0 && self.entry.height > 0
    }

    /// Whether both pixel arrays are non-empty.
    pub fn has_pixel_data(&self) -> (r: bool)
        ensures
            r == (self.spec_sprite().len() > 0 && self.spec_mask().len() > 0),
    {
        self.sprite_pixels.len() > 0 && self.mask_pixels.len() > 0
    }

    /// Whether the frame has non-zero dimensions and pixel data.
    pub fn is_valid(&self) -> (r: bool)
        ensures
            r == (self.spec_entry().width > 0 && self.spec_entry().height > 0
                && self.spec_sprite().len() > 0 && self.spec_mask().len() > 0),
    {
        self.has_valid_dimensions() && self.has_pixel_data()
    }

    /// Whether the frame is not valid.
    pub fn is_empty(&self) -> (r: bool)
        ensures
            r == !(self.spec_entry().width > 0 && self.spec_entry().height > 0
                && self.spec_sprite().len() > 0 && self.spec_mask().len() > 0),
    {
        !self.is_valid()
    }
}

/// A binary grey map image of `w` by `h` with the given pixels.
fn pgm(w: u32, h: u32, px: &[u8]) -> (r: Vec<u8>)
    ensures
        r@ == pgm_header(w, h) + px@,
{
    let mut out: Vec<u8> = Vec::new();
    out.push(80u8);
    out.push(53u8);
    out.push(10u8);
    push_decimal_bytes(&mut out, w as u64);
    out.push(32u8);
    push_decimal_bytes(&mut out, h as u64);
    out.push(10u8);
    out.push(50u8);
    out.push(53u8);
    out.push(53u8);
    out.push(10u8);
    push_slice(&mut out, px);
    assert(out@ =~= pgm_header(w, h) + px@);
    out
}

/// Draws whole rows of `w` pixels with `char_map`, a newline after each.
fn ascii_art<F: Fn(u8) -> char>(px: &[u8], w: usize, char_map: F) -> (r: String)
    requires
        forall|p: u8| call_requires(char_map, (p,)),
    ensures
        art_with(
            px@,
            w as int,
            row_count(px@.len() as int, w as int),
            r@,
            |p: u8, c: char| call_ensures(char_map, (p,), c),
        ),
{
    let ghost ok = |p: u8, c: char| call_ensures(char_map, (p,), c);
    let _len = px.len();
    let rows: usize = if w > 0 {
        px.len() / w
    } else {
        0
    };
    proof {
        if w > 0 {
            assert((px@.len() as int / (w as int)) * w <= px@.len()) by (nonlinear_arith)
                requires
                    w > 0,
            ;
        }
    }
    let mut out: Vec<char> = Vec::new();
    let mut row: usize = 0;
    while row < rows
        invariant
            row <= rows,
            rows == row_count(px@.len() as int, w as int),
            w > 0 ==> rows * w <= px@.len(),
            px@.len() <= usize::MAX,
            forall|p: u8| call_requires(char_map, (p,)),
            ok == (|p: u8, c: char| call_ensures(char_map, (p,), c)),
            art_with(px@, w as int, row as int, out@, ok),
        decreases rows - row,
    {
        let ghost before = out@;
        proof {
            assert(row * w + w <= rows * w) by (nonlinear_arith)
                requires
                    row < rows,
            ;
        }
        let start = row * w;
        let mut x: usize = 0;
        while x < w
            invariant
                x <= w,
                row < rows,
                start == row * w,
                start + w <= px@.len(),
                px@.len() <= usize::MAX,
                forall|p: u8| call_requires(char_map, (p,)),
                ok == (|p: u8, c: char| call_ensures(char_map, (p,), c)),
                out@.len() == before.len() + x,
                out@.subrange(0, before.len() as int) == before,
                forall|j: int| 0 <= j < x ==> #[trigger] ok(px@[start + j], out@[before.len() + j]),
            decreases w - x,
        {
            let c = char_map(px[start + x]);
            out.push(c);
            assert(out@.subrange(0, before.len() as int) =~= before);
            x = x + 1;
        }
        out.push('\n');
        proof {
            let n = out@.len() - (w + 1);
            assert(out@.subrange(0, n) =~= before);
            assert forall|j: int| 0 <= j < w implies #[trigger] ok(
                px@[(row + 1 - 1) * w + j],
                out@[n + j],
            ) by {
                assert(ok(px@[start + j], out@[before.len() + j]));
            }
        }
        row = row + 1;
    }
    string_from_chars(&out)
}

/// Iterator over the rows of a pixel array.
#[derive(Debug, Clone)]
pub struct FrameRowIterator<'a> {
    pixels: &'a [u8],
    width: usize,
    current_row: usize,
    total_rows: usize,
}

impl<'a> FrameRowIterator<'a> {
    /// The pixels.
    pub closed spec fn spec_pixels(&self) -> Seq<u8> {
        self.pixels@
    }

    /// The row width.
    pub closed spec fn spec_width(&self) -> usize {
        self.width
    }

    /// The next row.
    pub closed spec fn spec_current_row(&self) -> usize {
        self.current_row
    }

    /// The number of whole rows.
    pub closed spec fn spec_total_rows(&self) -> usize {
        self.total_rows
    }

    /// An iterator over the whole rows of `width` pixels.
    pub fn new(pixels: &'a [u8], width: usize) -> (r: Self)
        ensures
            r.spec_pixels() == pixels@,
            r.spec_width() == width,
            r.spec_current_row() == 0,
            r.spec_total_rows() == row_count(pixels@.len() as int, width as int),
    {
        let total_rows = if width > 0 {
            pixels.len() / width
        } else {
            0
        };
        FrameRowIterator { pixels, width, current_row: 0, total_rows }
    }

    /// The next row, if any.
    pub fn next(&mut self) -> (r: Option<&'a [u8]>)
        requires
            old(self).spec_total_rows() == row_count(
                old(self).spec_pixels().len() as int,
                old(self).spec_width() as int,
            ),
        ensures
            final(self).spec_pixels() == old(self).spec_pixels(),
            final(self).spec_width() == old(self).spec_width(),
            final(self).spec_total_rows() == old(self).spec_total_rows(),
            old(self).spec_current_row() >= old(self).spec_total_rows() ==> r is None
                && final(self).spec_current_row() == old(self).spec_current_row(),
            old(self).spec_current_row() < old(self).spec_total_rows() ==> (r matches Some(row)
                && row@ == old(self).spec_pixels().subrange(
                old(self).spec_current_row() * old(self).spec_width(),
                old(self).spec_current_row() * old(self).spec_width() + old(self).spec_width(),
            )) && final(self).spec_current_row() == old(self).spec_current_row() + 1,
    {
        if self.current_row >= self.total_rows {
            return None;
        }
        let _len = self.pixels.len();
        proof {
            let w = self.width as int;
            let n = self.pixels@.len() as int;
            assert(self.current_row * w + w <= n) by (nonlinear_arith)
                requires
                    w > 0,
                    self.current_row < n / w,
            ;
        }
        let start = self.current_row * self.width;
        let end = start + self.width;
        self.current_row = self.current_row + 1;
        Some(&self.pixels[start..end])
    }

    /// The number of rows left.
    pub fn len(&self) -> (r: usize)
        requires
            self.spec_current_row() <= self.spec_total_rows(),
        ensures
            r == self.spec_total_rows() - self.spec_current_row(),
    {
        self.total_rows - self.current_row
    }
}

/// Iterator over the rows of palette colours of a frame.
#[derive(Debug, Clone)]
pub struct ColorRowIterator<'a> {
    frame: &'a Frame,
    palette: &'a Palette,
    current_row: usize,
}

impl<'a> ColorRowIterator<'a> {
    /// The frame.
    pub closed spec fn spec_frame(&self) -> Frame {
        *self.frame
    }

    /// The palette.
    pub closed spec fn spec_palette(&self) -> Palette {
        *self.palette
    }

    /// The next row.
    pub closed spec fn spec_current_row(&self) -> usize {
        self.current_row
    }

    /// The colours of the next row, if any.
    pub fn next(&mut self) -> (r: Option<Vec<(u8, u8, u8, u8)>>)
        requires
            old(self).spec_frame().spec_entry().width * old(self).spec_frame().spec_entry().height
                <= old(self).spec_frame().spec_sprite().len(),
        ensures
            final(self).spec_frame() == old(self).spec_frame(),
            final(self).spec_palette() == old(self).spec_palette(),
            ({
                let f = old(self).spec_frame();
                let w = f.spec_entry().width as int;
                let y = old(self).spec_current_row() as int;
                &&& y >= f.spec_entry().height ==> r is None && final(self).spec_current_row() == y
                &&& y < f.spec_entry().height ==> (r matches Some(row) && row@ == Seq::new(
                    w as nat,
                    |x: int|
                        color_at(
                            old(self).spec_palette().spec_colors(),
                            palette_index(f.spec_sprite()[y * w + x]) as int,
                        ),
                )) && final(self).spec_current_row() == y + 1
            }),
    {
        let h = self.frame.entry.height as usize;
        if self.current_row >= h {
            return None;
        }
        let w = self.frame.entry.width as usize;
        let _len = self.frame.sprite_pixels.len();
        proof {
            let hh = self.frame.entry.height as int;
            assert(self.current_row * w + w <= w * hh) by (nonlinear_arith)
                requires
                    self.current_row < hh,
                    w >= 0,
            ;
        }
        let start = self.current_row * w;
        let ghost colors = self.palette.spec_colors();
        let ghost px = self.frame.sprite_pixels@;
        let mut row: Vec<(u8, u8, u8, u8)> = Vec::new();
        let mut x: usize = 0;
        while x < w
            invariant
                x <= w,
                start + w <= px.len(),
                px.len() <= usize::MAX,
                px == self.frame.sprite_pixels@,
                colors == self.palette.spec_colors(),
                row@ == Seq::new(
                    x as nat,
                    |k: int| color_at(colors, palette_index(px[start + k]) as int),
                ),
            decreases w - x,
        {
            let idx = Frame::decode_sprite_pixel(self.frame.sprite_pixels[start + x]);
            row.push(self.palette.color(idx));
            x = x + 1;
            assert(row@ =~= Seq::new(
                x as nat,
                |k: int| color_at(colors, palette_index(px[start + k]) as int),
            ));
        }
        self.current_row = self.current_row + 1;
        Some(row)
    }
}

} // verus!

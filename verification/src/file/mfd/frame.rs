//! Mouse cursor frames: indexed pixels (0 transparent, 1 outline, other
//! values fill) and a signed hotspot.

use vstd::prelude::*;
use vstd::string::StringExecFns;

use super::super::le::{filled, push_slice};
use super::super::spr::frame::pgm_header;
use super::super::show::{append_decimal, signed_decimal, signed_string};
use super::super::text::{decimal, push_decimal_bytes, string_from_chars};

verus! {

/// The default colours: transparent, black outline, white fill.
pub const DEFAULT_RGBA_PALETTE: [[u8; 4]; 3] = [[0, 0, 0, 0], [0, 0, 0, 255], [255, 255, 255, 255]];

/// Which of three values a pixel takes: the first for 0, the second for 1,
/// the third for any other value.
pub open spec fn by_class<T>(p: u8, zero: T, one: T, other: T) -> T {
    if p == 0 {
        zero
    } else if p == 1 {
        one
    } else {
        other
    }
}

/// The grey level of a pixel in the grey map export.
pub open spec fn grey_of(p: u8) -> u8 {
    by_class(p, 255u8, 128u8, 0u8)
}

/// Four colour bytes for each pixel, taken from the palette by class.
pub open spec fn rgba_pixels(px: Seq<u8>, palette: Seq<Seq<u8>>) -> Seq<u8> {
    Seq::new(
        (4 * px.len()) as nat,
        |k: int| by_class(px[k / 4], palette[0], palette[1], palette[2])[k % 4],
    )
}

/// The drawing of `h` rows of `w` pixels, one character per pixel chosen
/// by class, a newline after each row.
pub open spec fn class_art(px: Seq<u8>, w: int, h: int, t: char, o: char, f: char) -> Seq<char>
    decreases h,
{
    if h <= 0 {
        Seq::empty()
    } else {
        class_art(px, w, h - 1, t, o, f) + Seq::new(
            w as nat,
            |x: int| by_class(px[(h - 1) * w + x], t, o, f),
        ).push('\n')
    }
}

/// A cursor frame.
#[derive(Debug, Clone, PartialEq, Eq, Hash)]
pub struct Frame {
    width: u16,
    height: u16,
    x_offset: i16,
    y_offset: i16,
    pixels: Vec<u8>,
}

impl Frame {
    /// The width.
    pub closed spec fn spec_width(&self) -> u16 {
        self.width
    }

    /// The height.
    pub closed spec fn spec_height(&self) -> u16 {
        self.height
    }

    /// The hotspot X offset.
    pub closed spec fn spec_x_offset(&self) -> i16 {
        self.x_offset
    }

    /// The hotspot Y offset.
    pub closed spec fn spec_y_offset(&self) -> i16 {
        self.y_offset
    }

    /// The pixels, row by row.
    pub closed spec fn spec_pixels(&self) -> Seq<u8> {
        self.pixels@
    }

    /// Whether there is one pixel per position.
    pub open spec fn wf(&self) -> bool {
        self.spec_pixels().len() == self.spec_width() * self.spec_height()
    }

    /// Creates a frame; the pixels must number `width * height`.
    pub fn new(width: u16, height: u16, x_offset: i16, y_offset: i16, pixels: Vec<u8>) -> (r: Self)
        requires
            pixels@.len() == width * height,
        ensures
            r.spec_width() == width,
            r.spec_height() == height,
            r.spec_x_offset() == x_offset,
            r.spec_y_offset() == y_offset,
            r.spec_pixels() == pixels@,
            r.wf(),
    {
        Frame { width, height, x_offset, y_offset, pixels }
    }

    /// A frame of transparent pixels.
    pub fn blank(width: u16, height: u16, x_offset: i16, y_offset: i16) -> (r: Self)
        ensures
            r.spec_width() == width,
            r.spec_height() == height,
            r.spec_x_offset() == x_offset,
            r.spec_y_offset() == y_offset,
            r.spec_pixels() == Seq::new((width * height) as nat, |i: int| 0u8),
            r.wf(),
    {
        proof {
            assert(width * height <= 0xFFFFu64 * 0xFFFFu64) by (nonlinear_arith)
                requires
                    width <= 0xFFFFu64,
                    height <= 0xFFFFu64,
            ;
        }
        let n = width as usize * height as usize;
        Frame { width, height, x_offset, y_offset, pixels: filled(0, n) }
    }

    /// A one-line description: the size and the offsets.
    pub fn to_string(&self) -> (r: String)
        ensures
            r@ == "Frame: "@ + decimal(self.spec_width() as nat) + "x"@ + decimal(self.spec_height() as nat)
                + " hotspot=("@ + signed_decimal(self.spec_x_offset() as int) + ","@ + signed_decimal(
                self.spec_y_offset() as int,
            ) + ")"@,
    {
        let mut s = String::from_str("Frame: ");
        append_decimal(&mut s, self.width as u64);
        s.append("x");
        append_decimal(&mut s, self.height as u64);
        s.append(" hotspot=(");
        s.append(signed_string(self.x_offset as i64).as_str());
        s.append(",");
        s.append(signed_string(self.y_offset as i64).as_str());
        s.append(")");
        s
    }

    /// The width.
    pub fn width(&self) -> (r: u16)
        ensures
            r == self.spec_width(),
    {
        self.width
    }

    /// The height.
    pub fn height(&self) -> (r: u16)
        ensures
            r == self.spec_height(),
    {
        self.height
    }

    /// The hotspot X offset.
    pub fn x_offset(&self) -> (r: i16)
        ensures
            r == self.spec_x_offset(),
    {
        self.x_offset
    }

    /// The hotspot Y offset.
    pub fn y_offset(&self) -> (r: i16)
        ensures
            r == self.spec_y_offset(),
    {
        self.y_offset
    }

    /// Sets the hotspot X offset.
    pub fn set_x_offset(&mut self, offset: i16)
        ensures
            final(self).spec_x_offset() == offset,
            final(self).spec_y_offset() == old(self).spec_y_offset(),
            final(self).spec_width() == old(self).spec_width(),
            final(self).spec_height() == old(self).spec_height(),
            final(self).spec_pixels() == old(self).spec_pixels(),
    {
        self.x_offset = offset;
    }

    /// Sets the hotspot Y offset.
    pub fn set_y_offset(&mut self, offset: i16)
        ensures
            final(self).spec_y_offset() == offset,
            final(self).spec_x_offset() == old(self).spec_x_offset(),
            final(self).spec_width() == old(self).spec_width(),
            final(self).spec_height() == old(self).spec_height(),
            final(self).spec_pixels() == old(self).spec_pixels(),
    {
        self.y_offset = offset;
    }

    /// The number of pixels, `width * height`.
    pub fn pixel_count(&self) -> (r: usize)
        ensures
            r == self.spec_width() * self.spec_height(),
    {
        proof {
            assert(self.width * self.height <= 0xFFFFu64 * 0xFFFFu64) by (nonlinear_arith)
                requires
                    self.width <= 0xFFFFu64,
                    self.height <= 0xFFFFu64,
            ;
        }
        self.width as usize * self.height as usize
    }

    /// The pixels.
    pub fn pixels(&self) -> (r: &[u8])
        ensures
            r@ == self.spec_pixels(),
    {
        self.pixels.as_slice()
    }

    /// The pixels, for changing in place.
    pub fn pixels_mut(&mut self) -> (r: &mut [u8])
        ensures
            r@ == old(self).spec_pixels(),
            final(self).spec_pixels() == final(r)@,
            final(self).spec_width() == old(self).spec_width(),
            final(self).spec_height() == old(self).spec_height(),
            final(self).spec_x_offset() == old(self).spec_x_offset(),
            final(self).spec_y_offset() == old(self).spec_y_offset(),
    {
        self.pixels.as_mut_slice()
    }

    /// The pixels, giving up the frame.
    pub fn into_pixels(self) -> (r: Vec<u8>)
        ensures
            r@ == self.spec_pixels(),
    {
        self.pixels
    }

    /// The index of (x, y), if inside the frame.
    pub open spec fn index_at(&self, x: u16, y: u16) -> Option<int> {
        if x < self.spec_width() && y < self.spec_height() {
            Some(y * self.spec_width() + x)
        } else {
            None
        }
    }

    fn index_of(&self, x: u16, y: u16) -> (r: Option<usize>)
        ensures
            match self.index_at(x, y) {
                Some(i) => r matches Some(j) && j == i,
                None => r is None,
            },
    {
        if x >= self.width || y >= self.height {
            return None;
        }
        proof {
            assert(y * self.width + x <= 0xFFFFu64 * 0xFFFFu64 + 0xFFFFu64) by (nonlinear_arith)
                requires
                    y <= 0xFFFFu64,
                    self.width <= 0xFFFFu64,
                    x <= 0xFFFFu64,
            ;
        }
        Some(y as usize * self.width as usize + x as usize)
    }

    /// The pixel at (x, y), if inside the frame.
    pub fn get_pixel(&self, x: u16, y: u16) -> (r: Option<u8>)
        ensures
            r == match self.index_at(x, y) {
                Some(i) => if i < self.spec_pixels().len() {
                    Some(self.spec_pixels()[i])
                } else {
                    None
                },
                None => None,
            },
    {
        match self.index_of(x, y) {
            Some(i) => if i < self.pixels.len() {
                Some(self.pixels[i])
            } else {
                None
            },
            None => None,
        }
    }

    /// Sets the pixel at (x, y); false if outside the frame.
    pub fn set_pixel(&mut self, x: u16, y: u16, value: u8) -> (r: bool)
        ensures
            final(self).spec_width() == old(self).spec_width(),
            final(self).spec_height() == old(self).spec_height(),
            final(self).spec_x_offset() == old(self).spec_x_offset(),
            final(self).spec_y_offset() == old(self).spec_y_offset(),
            match old(self).index_at(x, y) {
                Some(i) => if i < old(self).spec_pixels().len() {
                    r && final(self).spec_pixels() == old(self).spec_pixels().update(i, value)
                } else {
                    !r && final(self).spec_pixels() == old(self).spec_pixels()
                },
                None => !r && final(self).spec_pixels() == old(self).spec_pixels(),
            },
    {
        match self.index_of(x, y) {
            Some(i) => if i < self.pixels.len() {
                self.pixels.set(i, value);
                true
            } else {
                false
            },
            None => false,
        }
    }

    /// The pixels as RGBA with the default palette.
    pub fn to_rgba(&self) -> (r: Vec<u8>)
        ensures
            r@ == rgba_pixels(
                self.spec_pixels(),
                seq![seq![0u8, 0u8, 0u8, 0u8], seq![0u8, 0u8, 0u8, 255u8], seq![255u8, 255u8, 255u8, 255u8]],
            ),
    {
        let r = self.to_rgba_with_palette(&DEFAULT_RGBA_PALETTE);
        assert(DEFAULT_RGBA_PALETTE@.map_values(|c: [u8; 4]| c@) =~= seq![
            seq![0u8, 0u8, 0u8, 0u8],
            seq![0u8, 0u8, 0u8, 255u8],
            seq![255u8, 255u8, 255u8, 255u8],
        ]);
        r
    }

    /// The pixels as RGBA, four bytes per pixel taken from the palette by
    /// class (transparent, outline, fill).
    pub fn to_rgba_with_palette(&self, palette: &[[u8; 4]; 3]) -> (r: Vec<u8>)
        ensures
            r@ == rgba_pixels(self.spec_pixels(), palette@.map_values(|c: [u8; 4]| c@)),
    {
        let ghost pal = palette@.map_values(|c: [u8; 4]| c@);
        let ghost px = self.pixels@;
        let mut out: Vec<u8> = Vec::new();
        let mut i: usize = 0;
        while i < self.pixels.len()
            invariant
                i <= px.len(),
                px == self.pixels@,
                pal == palette@.map_values(|c: [u8; 4]| c@),
                out@ == rgba_pixels(px.subrange(0, i as int), pal),
            decreases px.len() - i,
        {
            let p = self.pixels[i];
            let c: &[u8; 4] = if p == 0 {
                &palette[0]
            } else if p == 1 {
                &palette[1]
            } else {
                &palette[2]
            };
            out.push(c[0]);
            out.push(c[1]);
            out.push(c[2]);
            out.push(c[3]);
            assert(out@ =~= rgba_pixels(px.subrange(0, i + 1), pal)) by {
                assert forall|k: int| 0 <= k < 4 * (i + 1) implies out@[k] == rgba_pixels(
                    px.subrange(0, i + 1),
                    pal,
                )[k] by {
                    if k < 4 * i {
                        assert(out@[k] == rgba_pixels(px.subrange(0, i as int), pal)[k]);
                        assert(px.subrange(0, i as int)[k / 4] == px.subrange(0, i + 1)[k / 4]);
                    } else {
                        assert(k / 4 == i);
                    }
                }
            }
            i = i + 1;
        }
        assert(px.subrange(0, px.len() as int) =~= px);
        out
    }

    /// The pixels as RGBA with the given colours.
    pub fn to_rgba_custom(&self, transparent: [u8; 4], outline: [u8; 4], fill: [u8; 4]) -> (r: Vec<
        u8,
    >)
        ensures
            r@ == rgba_pixels(self.spec_pixels(), seq![transparent@, outline@, fill@]),
    {
        let palette = [transparent, outline, fill];
        let r = self.to_rgba_with_palette(&palette);
        assert(palette@.map_values(|c: [u8; 4]| c@) =~= seq![transparent@, outline@, fill@]);
        r
    }

    /// The frame drawn with one character per pixel by class, a newline
    /// after each row.
    pub fn to_ascii_art(&self, transparent: char, outline: char, fill: char) -> (r: String)
        requires
            self.spec_width() * self.spec_height() <= self.spec_pixels().len(),
        ensures
            r@ == class_art(
                self.spec_pixels(),
                self.spec_width() as int,
                self.spec_height() as int,
                transparent,
                outline,
                fill,
            ),
    {
        let w = self.width as usize;
        let h = self.height as usize;
        let ghost px = self.pixels@;
        let _len = self.pixels.len();
        let mut art: Vec<char> = Vec::new();
        let mut y: usize = 0;
        while y < h
            invariant
                y <= h,
                px.len() <= usize::MAX,
                w == self.width,
                h == self.height,
                px == self.pixels@,
                w * h <= px.len(),
                art@ == class_art(px, w as int, y as int, transparent, outline, fill),
            decreases h - y,
        {
            let ghost before = art@;
            proof {
                assert(y * w + w <= w * h) by (nonlinear_arith)
                    requires
                        y < h,
                ;
            }
            let mut x: usize = 0;
            while x < w
                invariant
                    x <= w,
                    y < h,
                    y * w + w <= px.len(),
                    px.len() <= usize::MAX,
                    px == self.pixels@,
                    art@ == before + Seq::new(
                        x as nat,
                        |k: int| by_class(px[y * w + k], transparent, outline, fill),
                    ),
                decreases w - x,
            {
                let p = self.pixels[y * w + x];
                let c = if p == 0 {
                    transparent
                } else if p == 1 {
                    outline
                } else {
                    fill
                };
                art.push(c);
                x = x + 1;
                assert(art@ =~= before + Seq::new(
                    x as nat,
                    |k: int| by_class(px[y * w + k], transparent, outline, fill),
                ));
            }
            art.push('\n');
            y = y + 1;
            assert(art@ =~= class_art(px, w as int, y as int, transparent, outline, fill));
        }
        string_from_chars(&art)
    }

    /// The frame drawn with ' ' (transparent), '█' (outline) and '▓' (fill).
    pub fn to_ascii_art_default(&self) -> (r: String)
        requires
            self.spec_width() * self.spec_height() <= self.spec_pixels().len(),
        ensures
            r@ == class_art(
                self.spec_pixels(),
                self.spec_width() as int,
                self.spec_height() as int,
                ' ',
                '█',
                '▓',
            ),
    {
        self.to_ascii_art(' ', '█', '▓')
    }

    /// The frame as a binary grey map: transparent white, outline grey,
    /// fill black.
    pub fn to_pgm(&self) -> (r: Vec<u8>)
        ensures
            r@ == pgm_header(self.spec_width() as u32, self.spec_height() as u32) + Seq::new(
                self.spec_pixels().len(),
                |i: int| grey_of(self.spec_pixels()[i]),
            ),
    {
        let mut out: Vec<u8> = Vec::new();
        out.push(80u8);
        out.push(53u8);
        out.push(10u8);
        push_decimal_bytes(&mut out, self.width as u64);
        out.push(32u8);
        push_decimal_bytes(&mut out, self.height as u64);
        out.push(10u8);
        out.push(50u8);
        out.push(53u8);
        out.push(53u8);
        out.push(10u8);
        let ghost head = out@;
        assert(head =~= pgm_header(self.width as u32, self.height as u32));
        let mut i: usize = 0;
        while i < self.pixels.len()
            invariant
                i <= self.pixels@.len(),
                out@ == head + Seq::new(i as nat, |k: int| grey_of(self.pixels@[k])),
            decreases self.pixels@.len() - i,
        {
            let p = self.pixels[i];
            let g: u8 = if p == 0 {
                255
            } else if p == 1 {
                128
            } else {
                0
            };
            out.push(g);
            i = i + 1;
            assert(out@ =~= head + Seq::new(i as nat, |k: int| grey_of(self.pixels@[k])));
        }
        out
    }

    /// An iterator over the rows of pixels.
    pub fn rows(&self) -> (r: FrameRowIterator<'_>)
        ensures
            r.spec_frame() == *self,
            r.spec_current_row() == 0,
    {
        FrameRowIterator { frame: self, current_row: 0 }
    }

    /// Sets every pixel to `value`.
    pub fn fill(&mut self, value: u8)
        ensures
            final(self).spec_pixels() == Seq::new(old(self).spec_pixels().len(), |i: int| value),
            final(self).spec_width() == old(self).spec_width(),
            final(self).spec_height() == old(self).spec_height(),
            final(self).spec_x_offset() == old(self).spec_x_offset(),
            final(self).spec_y_offset() == old(self).spec_y_offset(),
    {
        let n = self.pixels.len();
        let mut i: usize = 0;
        while i < n
            invariant
                i <= n,
                n == self.pixels@.len(),
                self.width == old(self).width,
                self.height == old(self).height,
                self.x_offset == old(self).x_offset,
                self.y_offset == old(self).y_offset,
                n == old(self).pixels@.len(),
                forall|k: int| 0 <= k < i ==> self.pixels@[k] == value,
            decreases n - i,
        {
            self.pixels.set(i, value);
            i = i + 1;
        }
        assert(self.pixels@ =~= Seq::new(n as nat, |i: int| value));
    }

    /// Whether pixel `i` lies in the rectangle of `width` by `height` pixels
    /// at (x, y) of a frame `w` pixels wide.
    pub open spec fn in_rect(w: int, i: int, x: int, y: int, width: int, height: int) -> bool {
        w > 0 && x <= i % w < x + width && y <= i / w < y + height
    }

    /// Sets the pixels of the rectangle of `width` by `height` at (x, y);
    /// false, changing nothing, if it does not fit in the frame.
    pub fn fill_rect(&mut self, x: u16, y: u16, width: u16, height: u16, value: u8) -> (r: bool)
        requires
            old(self).wf(),
        ensures
            final(self).spec_width() == old(self).spec_width(),
            final(self).spec_height() == old(self).spec_height(),
            final(self).spec_x_offset() == old(self).spec_x_offset(),
            final(self).spec_y_offset() == old(self).spec_y_offset(),
            r == (x + width <= old(self).spec_width() && y + height <= old(self).spec_height()),
            final(self).spec_pixels() == if r {
                Seq::new(
                    old(self).spec_pixels().len(),
                    |i: int|
                        if Frame::in_rect(
                            old(self).spec_width() as int,
                            i,
                            x as int,
                            y as int,
                            width as int,
                            height as int,
                        ) {
                            value
                        } else {
                            old(self).spec_pixels()[i]
                        },
                )
            } else {
                old(self).spec_pixels()
            },
    {
        if x as u32 + width as u32 > self.width as u32 || y as u32 + height as u32 > self.height as u32 {
            return false;
        }
        let ghost w = self.width as int;
        let ghost old_px = self.pixels@;
        let ghost target = Seq::new(
            old_px.len(),
            |i: int|
                if Frame::in_rect(w, i, x as int, y as int, width as int, height as int) {
                    value
                } else {
                    old_px[i]
                },
        );
        let mut dy: u16 = 0;
        while dy < height
            invariant
                dy <= height,
                y + height <= self.height,
                x + width <= self.width,
                w == self.width,
                self.height == old(self).height,
                self.width == old(self).width,
                self.x_offset == old(self).x_offset,
                self.y_offset == old(self).y_offset,
                self.pixels@.len() == old_px.len(),
                old_px.len() == self.width * self.height,
                forall|i: int|
                    0 <= i < old_px.len() ==> #[trigger] self.pixels@[i] == if Frame::in_rect(
                        w,
                        i,
                        x as int,
                        y as int,
                        width as int,
                        dy as int,
                    ) {
                        value
                    } else {
                        old_px[i]
                    },
            decreases height - dy,
        {
            let mut dx: u16 = 0;
            while dx < width
                invariant
                    dx <= width,
                    dy < height,
                    y + height <= self.height,
                    x + width <= self.width,
                    w == self.width,
                    self.height == old(self).height,
                    self.width == old(self).width,
                    self.x_offset == old(self).x_offset,
                    self.y_offset == old(self).y_offset,
                    self.pixels@.len() == old_px.len(),
                    old_px.len() == self.width * self.height,
                    forall|i: int|
                        0 <= i < old_px.len() ==> #[trigger] self.pixels@[i] == if Frame::in_rect(
                            w,
                            i,
                            x as int,
                            y as int,
                            width as int,
                            dy as int,
                        ) || (i / w == y + dy && x <= i % w < x + dx) {
                            value
                        } else {
                            old_px[i]
                        },
                decreases width - dx,
            {
                let ghost before = self.pixels@;
                let ghost j = (y + dy) * w + (x + dx);
                proof {
                    lemma_row_col(w, (y + dy) as int, (x + dx) as int, self.height as int);
                }
                self.set_pixel(x + dx, y + dy, value);
                assert forall|i: int| 0 <= i < old_px.len() implies #[trigger] self.pixels@[i] == if Frame::in_rect(
                    w,
                    i,
                    x as int,
                    y as int,
                    width as int,
                    dy as int,
                ) || (i / w == y + dy && x <= i % w < x + dx + 1) {
                    value
                } else {
                    old_px[i]
                } by {
                    if i != j {
                        assert(self.pixels@[i] == before[i]);
                        if i / w == y + dy && i % w == x + dx {
                            vstd::arithmetic::div_mod::lemma_fundamental_div_mod(i, w);
                            vstd::arithmetic::mul::lemma_mul_is_commutative(w, (y + dy) as int);
                            assert(false);
                        }
                    }
                }
                dx = dx + 1;
            }
            assert forall|i: int| 0 <= i < old_px.len() implies #[trigger] self.pixels@[i] == if Frame::in_rect(
                w,
                i,
                x as int,
                y as int,
                width as int,
                dy + 1,
            ) {
                value
            } else {
                old_px[i]
            } by {}
            dy = dy + 1;
        }
        assert(self.pixels@ =~= target);
        true
    }

    /// Replaces each pixel `p` by `f(p)`.
    pub fn map_pixels<F: Fn(u8) -> u8>(&mut self, f: F)
        requires
            forall|p: u8| call_requires(f, (p,)),
        ensures
            final(self).spec_pixels().len() == old(self).spec_pixels().len(),
            forall|i: int|
                0 <= i < old(self).spec_pixels().len() ==> call_ensures(
                    f,
                    (old(self).spec_pixels()[i],),
                    #[trigger] final(self).spec_pixels()[i],
                ),
            final(self).spec_width() == old(self).spec_width(),
            final(self).spec_height() == old(self).spec_height(),
            final(self).spec_x_offset() == old(self).spec_x_offset(),
            final(self).spec_y_offset() == old(self).spec_y_offset(),
    {
        let n = self.pixels.len();
        let ghost old_px = self.pixels@;
        let mut i: usize = 0;
        while i < n
            invariant
                i <= n,
                n == old_px.len(),
                self.pixels@.len() == n,
                old_px == old(self).pixels@,
                self.width == old(self).width,
                self.height == old(self).height,
                self.x_offset == old(self).x_offset,
                self.y_offset == old(self).y_offset,
                forall|p: u8| call_requires(f, (p,)),
                forall|k: int| 0 <= k < i ==> call_ensures(f, (old_px[k],), #[trigger] self.pixels@[k]),
                forall|k: int| i <= k < n ==> self.pixels@[k] == old_px[k],
            decreases n - i,
        {
            let v = f(self.pixels[i]);
            self.pixels.set(i, v);
            i = i + 1;
        }
    }

    /// Replaces the pixel at each (x, y) inside the frame by `f(x, y, p)`.
    pub fn map_pixels_with_coords<F: Fn(u16, u16, u8) -> u8>(&mut self, f: F)
        requires
            forall|x: u16, y: u16, p: u8| call_requires(f, (x, y, p)),
            old(self).wf(),
        ensures
            final(self).wf(),
            forall|x: u16, y: u16|
                x < old(self).spec_width() && y < old(self).spec_height() ==> call_ensures(
                    f,
                    (x, y, old(self).spec_pixels()[y * old(self).spec_width() + x]),
                    #[trigger] final(self).spec_pixels()[y * old(self).spec_width() + x],
                ),
            final(self).spec_width() == old(self).spec_width(),
            final(self).spec_height() == old(self).spec_height(),
            final(self).spec_x_offset() == old(self).spec_x_offset(),
            final(self).spec_y_offset() == old(self).spec_y_offset(),
    {
        let ghost old_px = self.pixels@;
        let ghost w = self.width as int;
        let _len = self.pixels.len();
        let mut y: u16 = 0;
        while y < self.height
            invariant
                y <= self.height,
                old_px.len() <= usize::MAX,
                w == self.width,
                old_px == old(self).pixels@,
                self.width == old(self).width,
                self.height == old(self).height,
                self.x_offset == old(self).x_offset,
                self.y_offset == old(self).y_offset,
                self.pixels@.len() == old_px.len(),
                old_px.len() == self.width * self.height,
                forall|x: u16, y: u16, p: u8| call_requires(f, (x, y, p)),
                forall|i: int| 0 <= i < old_px.len() && i >= y * w ==> self.pixels@[i] == old_px[i],
                forall|xx: u16, yy: u16|
                    xx < w && yy < y ==> call_ensures(
                        f,
                        (xx, yy, old_px[yy * w + xx]),
                        #[trigger] self.pixels@[yy * w + xx],
                    ),
            decreases self.height - y,
        {
            let mut x: u16 = 0;
            while x < self.width
                invariant
                    x <= self.width,
                    y < self.height,
                    old_px.len() <= usize::MAX,
                    w == self.width,
                    old_px == old(self).pixels@,
                    self.width == old(self).width,
                    self.height == old(self).height,
                    self.x_offset == old(self).x_offset,
                    self.y_offset == old(self).y_offset,
                    self.pixels@.len() == old_px.len(),
                    old_px.len() == self.width * self.height,
                    forall|x: u16, y: u16, p: u8| call_requires(f, (x, y, p)),
                    forall|i: int| 0 <= i < old_px.len() && i >= y * w + x ==> self.pixels@[i] == old_px[i],
                    forall|xx: u16, yy: u16|
                        (xx < w && yy < y) || (yy == y && xx < x) ==> call_ensures(
                            f,
                            (xx, yy, old_px[yy * w + xx]),
                            #[trigger] self.pixels@[yy * w + xx],
                        ),
                decreases self.width - x,
            {
                proof {
                    lemma_row_col(w, y as int, x as int, self.height as int);
                }
                let idx = y as usize * self.width as usize + x as usize;
                let v = f(x, y, self.pixels[idx]);
                self.pixels.set(idx, v);
                proof {
                    assert forall|xx: u16, yy: u16|
                        (xx < w && yy < y) || (yy == y && xx < x + 1) implies call_ensures(
                        f,
                        (xx, yy, old_px[yy * w + xx]),
                        #[trigger] self.pixels@[yy * w + xx],
                    ) by {
                        lemma_row_col(w, yy as int, xx as int, self.height as int);
                        if yy < y {
                            assert(yy * w + xx < y * w) by (nonlinear_arith)
                                requires
                                    yy < y,
                                    xx < w,
                            ;
                        }
                    }
                }
                x = x + 1;
            }
            proof {
                assert((y + 1) * w == y * w + w) by (nonlinear_arith);
            }
            y = y + 1;
        }
    }

    /// A frame with each pixel `p` replaced by `f(p)`.
    pub fn map<F: Fn(u8) -> u8>(&self, f: F) -> (r: Self)
        requires
            forall|p: u8| call_requires(f, (p,)),
        ensures
            r.spec_pixels().len() == self.spec_pixels().len(),
            forall|i: int|
                0 <= i < self.spec_pixels().len() ==> call_ensures(
                    f,
                    (self.spec_pixels()[i],),
                    #[trigger] r.spec_pixels()[i],
                ),
            r.spec_width() == self.spec_width(),
            r.spec_height() == self.spec_height(),
            r.spec_x_offset() == self.spec_x_offset(),
            r.spec_y_offset() == self.spec_y_offset(),
    {
        let mut pixels: Vec<u8> = Vec::new();
        let mut i: usize = 0;
        while i < self.pixels.len()
            invariant
                i <= self.pixels@.len(),
                pixels@.len() == i,
                forall|p: u8| call_requires(f, (p,)),
                forall|k: int| 0 <= k < i ==> call_ensures(f, (self.pixels@[k],), #[trigger] pixels@[k]),
            decreases self.pixels@.len() - i,
        {
            let v = f(self.pixels[i]);
            pixels.push(v);
            i = i + 1;
        }
        Frame {
            width: self.width,
            height: self.height,
            x_offset: self.x_offset,
            y_offset: self.y_offset,
            pixels,
        }
    }
}

/// Row-major position (x, y) in a frame `w` wide and `h` high is below
/// `w * h`, after all earlier rows, and gives back x and y.
pub proof fn lemma_row_col(w: int, y: int, x: int, h: int)
    requires
        0 <= x < w,
        0 <= y < h,
    ensures
        y * w <= y * w + x < y * w + w <= w * h,
        (y * w + x) / w == y,
        (y * w + x) % w == x,
{
    assert(y * w + w <= w * h) by (nonlinear_arith)
        requires
            0 <= y < h,
            0 <= x < w,
    ;
    assert(0 <= y * w) by (nonlinear_arith)
        requires
            0 <= y,
            0 <= w,
    ;
    lemma_div_mod_eq(w, y * w + x, y, x);
}

/// A number written as `y * w + x` with `0 <= x < w` has quotient `y` and
/// remainder `x`.
pub proof fn lemma_div_mod_eq(w: int, i: int, y: int, x: int)
    requires
        0 <= x < w,
        i == y * w + x,
    ensures
        i / w == y,
        i % w == x,
{
    vstd::arithmetic::div_mod::lemma_fundamental_div_mod_converse(i, w, y, x);
}

/// Iterator over the rows of a cursor frame.
#[derive(Debug, Clone)]
pub struct FrameRowIterator<'a> {
    frame: &'a Frame,
    current_row: u16,
}

impl<'a> FrameRowIterator<'a> {
    /// The frame.
    pub closed spec fn spec_frame(&self) -> Frame {
        *self.frame
    }

    /// The next row.
    pub closed spec fn spec_current_row(&self) -> u16 {
        self.current_row
    }

    /// The next row of pixels, if any.
    pub fn next(&mut self) -> (r: Option<&'a [u8]>)
        requires
            old(self).spec_frame().spec_width() * old(self).spec_frame().spec_height() <= old(self).spec_frame().spec_pixels().len(),
        ensures
            final(self).spec_frame() == old(self).spec_frame(),
            ({
                let f = old(self).spec_frame();
                let w = f.spec_width() as int;
                let y = old(self).spec_current_row() as int;
                &&& y >= f.spec_height() ==> r is None && final(self).spec_current_row() == y
                &&& y < f.spec_height() ==> (r matches Some(row) && row@ == f.spec_pixels().subrange(
                    y * w,
                    y * w + w,
                )) && final(self).spec_current_row() == y + 1
            }),
    {
        if self.current_row >= self.frame.height {
            return None;
        }
        let w = self.frame.width as usize;
        let _len = self.frame.pixels.len();
        proof {
            let hh = self.frame.height as int;
            assert(self.current_row * w + w <= w * hh) by (nonlinear_arith)
                requires
                    self.current_row < hh,
                    w >= 0,
            ;
        }
        let start = self.current_row as usize * w;
        let end = start + w;
        self.current_row = self.current_row + 1;
        Some(&self.frame.pixels.as_slice()[start..end])
    }
}

} // verus!

//! Sprite animations: a frame count, frame descriptors, and a data area
//! with the colour and mask pixels of each frame.

pub mod constants;
pub mod frame;
pub mod palette;

pub use self::frame::{ColorRowIterator, Frame, FrameEntry, FrameRowIterator};
pub use self::palette::Palette;

use vstd::prelude::*;
use vstd::string::StringExecFns;

use self::constants::{FRAME_DESCRIPTOR_SIZE, HEADER_SIZE, RESERVED_SIZE};
use super::error::{DvFileError, FileType};
use super::le::{
    copy_range, filled, lemma_u32_roundtrip, push_slice, push_u32, read_u32, u32_at, u32_bytes,
    write_at,
};
use super::reader::ByteReader;
use super::show::append_decimal;
use super::text::decimal;

verus! {

/// The 24 bytes of a frame descriptor.
pub open spec fn entry_bytes(e: FrameEntry) -> Seq<u8> {
    u32_bytes(e.color_offset) + u32_bytes(e.mask_offset) + u32_bytes(e.width) + u32_bytes(e.height)
        + u32_bytes(e.hotspot_x) + u32_bytes(e.hotspot_y)
}

/// The frame descriptor stored at `off`.
pub open spec fn entry_at(data: Seq<u8>, off: int) -> FrameEntry {
    FrameEntry {
        color_offset: u32_at(data, off),
        mask_offset: u32_at(data, off + 4),
        width: u32_at(data, off + 8),
        height: u32_at(data, off + 12),
        hotspot_x: u32_at(data, off + 16),
        hotspot_y: u32_at(data, off + 20),
    }
}

/// The `count` frame descriptors stored after the header.
pub open spec fn entries_of(data: Seq<u8>, count: int) -> Seq<FrameEntry> {
    Seq::new(count as nat, |i: int| entry_at(data, HEADER_SIZE + FRAME_DESCRIPTOR_SIZE * i))
}

/// The bytes of a list of frame descriptors.
pub open spec fn descriptors(es: Seq<FrameEntry>) -> Seq<u8>
    decreases es.len(),
{
    if es.len() == 0 {
        Seq::empty()
    } else {
        descriptors(es.drop_last()) + entry_bytes(es.last())
    }
}

/// Where the data area starts for `count` frames.
pub open spec fn data_start(count: int) -> int {
    HEADER_SIZE + FRAME_DESCRIPTOR_SIZE * count
}

/// What the bytes of a sprite file hold: the frame count and descriptors,
/// or the error that stops reading them.
pub open spec fn parse_spr(data: Seq<u8>) -> Result<(u32, Seq<FrameEntry>), DvFileError> {
    if data.len() < HEADER_SIZE {
        Err(
            DvFileError::InsufficientData {
                file_type: FileType::Spr,
                expected: HEADER_SIZE,
                actual: data.len() as usize,
            },
        )
    } else if data.len() < data_start(u32_at(data, 0) as int) {
        Err(
            DvFileError::InsufficientData {
                file_type: FileType::Spr,
                expected: data_start(u32_at(data, 0) as int) as usize,
                actual: data.len() as usize,
            },
        )
    } else {
        Ok((u32_at(data, 0), entries_of(data, u32_at(data, 0) as int)))
    }
}

/// Frame `index`: its descriptor and its colour and mask pixels, if both
/// lie inside the data.
pub open spec fn frame_at(raw: Seq<u8>, count: u32, es: Seq<FrameEntry>, index: int) -> Option<
    (FrameEntry, Seq<u8>, Seq<u8>),
> {
    if 0 <= index < es.len() {
        let e = es[index];
        let ds = data_start(count as int);
        let s = ds + e.color_offset;
        let m = ds + e.mask_offset;
        let n = e.width * e.height;
        if s + n <= raw.len() && m + n <= raw.len() {
            Some((e, raw.subrange(s, s + n), raw.subrange(m, m + n)))
        } else {
            None
        }
    } else {
        None
    }
}

/// Reading a descriptor back from its bytes gives the descriptor.
pub proof fn lemma_entry_roundtrip(e: FrameEntry, data: Seq<u8>, off: int)
    requires
        0 <= off,
        off + FRAME_DESCRIPTOR_SIZE <= data.len(),
        data.subrange(off, off + FRAME_DESCRIPTOR_SIZE) == entry_bytes(e),
    ensures
        entry_at(data, off) == e,
{
    let b = entry_bytes(e);
    assert(data.subrange(off, off + 4) =~= u32_bytes(e.color_offset)) by {
        assert(data.subrange(off, off + 4) =~= b.subrange(0, 4));
    }
    assert(data.subrange(off + 4, off + 8) =~= u32_bytes(e.mask_offset)) by {
        assert(data.subrange(off + 4, off + 8) =~= b.subrange(4, 8));
    }
    assert(data.subrange(off + 8, off + 12) =~= u32_bytes(e.width)) by {
        assert(data.subrange(off + 8, off + 12) =~= b.subrange(8, 12));
    }
    assert(data.subrange(off + 12, off + 16) =~= u32_bytes(e.height)) by {
        assert(data.subrange(off + 12, off + 16) =~= b.subrange(12, 16));
    }
    assert(data.subrange(off + 16, off + 20) =~= u32_bytes(e.hotspot_x)) by {
        assert(data.subrange(off + 16, off + 20) =~= b.subrange(16, 20));
    }
    assert(data.subrange(off + 20, off + 24) =~= u32_bytes(e.hotspot_y)) by {
        assert(data.subrange(off + 20, off + 24) =~= b.subrange(20, 24));
    }
    lemma_u32_roundtrip(e.color_offset, data, off);
    lemma_u32_roundtrip(e.mask_offset, data, off + 4);
    lemma_u32_roundtrip(e.width, data, off + 8);
    lemma_u32_roundtrip(e.height, data, off + 12);
    lemma_u32_roundtrip(e.hotspot_x, data, off + 16);
    lemma_u32_roundtrip(e.hotspot_y, data, off + 20);
}

/// Descriptor `i` sits at bytes `24 i .. 24 i + 24` of the descriptor list.
pub proof fn lemma_descriptors_at(es: Seq<FrameEntry>, i: int)
    requires
        0 <= i < es.len(),
    ensures
        descriptors(es).len() == FRAME_DESCRIPTOR_SIZE * es.len(),
        descriptors(es).subrange(FRAME_DESCRIPTOR_SIZE * i, FRAME_DESCRIPTOR_SIZE * i + 24)
            == entry_bytes(es[i]),
    decreases es.len(),
{
    lemma_descriptors_len(es);
    let d = descriptors(es);
    if i == es.len() - 1 {
        lemma_descriptors_len(es.drop_last());
        assert(d.subrange(FRAME_DESCRIPTOR_SIZE * i, FRAME_DESCRIPTOR_SIZE * i + 24) =~= entry_bytes(
            es.last(),
        ));
    } else {
        lemma_descriptors_at(es.drop_last(), i);
        lemma_descriptors_len(es.drop_last());
        assert(d.subrange(FRAME_DESCRIPTOR_SIZE * i, FRAME_DESCRIPTOR_SIZE * i + 24) =~= descriptors(
            es.drop_last(),
        ).subrange(FRAME_DESCRIPTOR_SIZE * i, FRAME_DESCRIPTOR_SIZE * i + 24));
    }
}

/// The descriptor list holds 24 bytes per descriptor.
pub proof fn lemma_descriptors_len(es: Seq<FrameEntry>)
    ensures
        descriptors(es).len() == FRAME_DESCRIPTOR_SIZE * es.len(),
    decreases es.len(),
{
    if es.len() > 0 {
        lemma_descriptors_len(es.drop_last());
    }
}

/// Data made of a frame count, twelve zero bytes, the descriptors and then
/// anything stores that count and those descriptors.
pub proof fn lemma_rebuilt_header(
    count: u32,
    es: Seq<FrameEntry>,
    a: Seq<u8>,
    b: Seq<u8>,
    c: Seq<u8>,
)
    requires
        es.len() == count,
    ensures
        ({
            let d = u32_bytes(count) + Seq::new(RESERVED_SIZE as nat, |i: int| 0u8) + descriptors(es)
                + a + b + c;
            &&& d.len() == data_start(count as int) + a.len() + b.len() + c.len()
            &&& u32_at(d, 0) == count
            &&& entries_of(d, count as int) == es
        }),
{
    let d = u32_bytes(count) + Seq::new(RESERVED_SIZE as nat, |i: int| 0u8) + descriptors(es) + a + b
        + c;
    lemma_descriptors_len(es);
    assert(d.subrange(0, 4) =~= u32_bytes(count));
    lemma_u32_roundtrip(count, d, 0);
    assert forall|k: int| 0 <= k < es.len() implies #[trigger] entries_of(d, count as int)[k]
        == es[k] by {
        lemma_descriptors_at(es, k);
        assert(d.subrange(16 + 24 * k, 16 + 24 * k + 24) =~= descriptors(es).subrange(
            24 * k,
            24 * k + 24,
        ));
        lemma_entry_roundtrip(es[k], d, 16 + 24 * k);
    }
    assert(entries_of(d, count as int) =~= es);
}

/// Appends the 24 bytes of a descriptor.
fn push_entry(out: &mut Vec<u8>, e: FrameEntry)
    ensures
        final(out)@ == old(out)@ + entry_bytes(e),
{
    push_u32(out, e.color_offset);
    push_u32(out, e.mask_offset);
    push_u32(out, e.width);
    push_u32(out, e.height);
    push_u32(out, e.hotspot_x);
    push_u32(out, e.hotspot_y);
    assert(final(out)@ =~= old(out)@ + entry_bytes(e));
}

/// File data made of a frame count, twelve zero bytes, the descriptors, the
/// data area of `raw` (from `ds`) and the new pixels.
fn build_raw(
    count: u32,
    entries: &Vec<FrameEntry>,
    raw: &[u8],
    ds: usize,
    sprite: &[u8],
    mask: &[u8],
) -> (r: Vec<u8>)
    requires
        ds <= raw@.len(),
    ensures
        r@ == u32_bytes(count) + Seq::new(RESERVED_SIZE as nat, |i: int| 0u8) + descriptors(entries@)
            + raw@.subrange(ds as int, raw@.len() as int) + sprite@ + mask@,
{
    let mut out: Vec<u8> = Vec::new();
    push_u32(&mut out, count);
    let zeros = filled(0, RESERVED_SIZE);
    push_slice(&mut out, zeros.as_slice());
    let ghost head = out@;
    let ghost es = entries@;
    let mut i: usize = 0;
    while i < entries.len()
        invariant
            i <= es.len(),
            es == entries@,
            out@ == head + descriptors(es.subrange(0, i as int)),
        decreases es.len() - i,
    {
        push_entry(&mut out, entries[i]);
        assert(es.subrange(0, i + 1).drop_last() =~= es.subrange(0, i as int));
        assert(out@ =~= head + descriptors(es.subrange(0, i + 1)));
        i = i + 1;
    }
    assert(es.subrange(0, es.len() as int) =~= es);
    let rest = copy_range(raw, ds, raw.len());
    push_slice(&mut out, rest.as_slice());
    push_slice(&mut out, sprite);
    push_slice(&mut out, mask);
    assert(Seq::new(RESERVED_SIZE as nat, |i: int| 0u8) =~= zeros@);
    assert(out@ =~= u32_bytes(count) + Seq::new(RESERVED_SIZE as nat, |i: int| 0u8) + descriptors(
        entries@,
    ) + raw@.subrange(ds as int, raw@.len() as int) + sprite@ + mask@);
    out
}

/// Sprite file: the whole file data, the frame count and the descriptors.
#[derive(Debug, Clone, PartialEq, Eq)]
pub struct File {
    raw: Vec<u8>,
    frame_count: u32,
    entries: Vec<FrameEntry>,
}

impl File {
    /// The file data.
    pub closed spec fn spec_raw(&self) -> Seq<u8> {
        self.raw@
    }

    /// The frame count.
    pub closed spec fn spec_frame_count(&self) -> u32 {
        self.frame_count
    }

    /// The frame descriptors.
    pub closed spec fn spec_entries(&self) -> Seq<FrameEntry> {
        self.entries@
    }

    /// One descriptor per frame, and the data holds the header and all
    /// descriptors.
    pub open spec fn wf(&self) -> bool {
        &&& self.spec_entries().len() == self.spec_frame_count()
        &&& data_start(self.spec_frame_count() as int) <= self.spec_raw().len()
    }

    /// The data stores the frame count and exactly these descriptors.
    pub open spec fn consistent(&self) -> bool {
        &&& self.wf()
        &&& u32_at(self.spec_raw(), 0) == self.spec_frame_count()
        &&& self.spec_entries() == entries_of(self.spec_raw(), self.spec_frame_count() as int)
    }

    /// Frame `index`, as [`File::get_frame`] gives it.
    pub open spec fn spec_frame(&self, index: int) -> Option<(FrameEntry, Seq<u8>, Seq<u8>)> {
        frame_at(self.spec_raw(), self.spec_frame_count(), self.spec_entries(), index)
    }

    /// The frame count, descriptors and data after appending `frame`: its
    /// descriptor points at the end of the data area, the colour pixels
    /// first; the data is rebuilt from the header, the descriptors, the
    /// data area and the new pixels.
    pub open spec fn added(&self, frame: Frame) -> (u32, Seq<FrameEntry>, Seq<u8>) {
        let raw = self.spec_raw();
        let ds = data_start(self.spec_frame_count() as int);
        let cds = (raw.len() - ds) % 0x1_0000_0000;
        let e = FrameEntry {
            color_offset: cds as u32,
            mask_offset: (cds + frame.spec_sprite().len() % 0x1_0000_0000) as u32,
            width: frame.spec_entry().width,
            height: frame.spec_entry().height,
            hotspot_x: frame.spec_entry().hotspot_x,
            hotspot_y: frame.spec_entry().hotspot_y,
        };
        let count = (self.spec_frame_count() + 1) as u32;
        let es = self.spec_entries().push(e);
        (
            count,
            es,
            u32_bytes(count) + Seq::new(RESERVED_SIZE as nat, |i: int| 0u8) + descriptors(es)
                + raw.subrange(ds, raw.len() as int) + frame.spec_sprite() + frame.spec_mask(),
        )
    }

    /// An empty sprite file: a zero header.
    pub fn new() -> (r: Self)
        ensures
            r.spec_raw() == Seq::new(HEADER_SIZE as nat, |i: int| 0u8),
            r.spec_frame_count() == 0,
            r.spec_entries() == Seq::<FrameEntry>::empty(),
            r.consistent(),
    {
        let r = File { raw: filled(0, HEADER_SIZE), frame_count: 0, entries: Vec::new() };
        assert(r.spec_entries() =~= entries_of(r.spec_raw(), 0));
        r
    }

    /// The frame count.
    pub fn frame_count(&self) -> (r: u32)
        ensures
            r == self.spec_frame_count(),
    {
        self.frame_count
    }

    /// A one-line description: the number of frames and of bytes.
    pub fn to_string(&self) -> (r: String)
        ensures
            r@ == "SPR File: "@ + decimal(self.spec_frame_count() as nat) + " frames, "@ + decimal(
                self.spec_raw().len(),
            ) + " bytes"@,
    {
        let mut s = String::from_str("SPR File: ");
        append_decimal(&mut s, self.frame_count as u64);
        s.append(" frames, ");
        append_decimal(&mut s, self.raw.len() as u64);
        s.append(" bytes");
        s
    }

    /// The frame descriptors.
    pub fn entries(&self) -> (r: &[FrameEntry])
        ensures
            r@ == self.spec_entries(),
    {
        self.entries.as_slice()
    }

    /// The frame descriptors, for changing in place (the file data is not
    /// changed with them).
    pub fn entries_mut(&mut self) -> (r: &mut [FrameEntry])
        ensures
            r@ == old(self).spec_entries(),
            final(self).spec_entries() == final(r)@,
            final(self).spec_raw() == old(self).spec_raw(),
            final(self).spec_frame_count() == old(self).spec_frame_count(),
    {
        self.entries.as_mut_slice()
    }

    /// The descriptor of frame `index`, if any.
    pub fn get_entry(&self, index: usize) -> (r: Option<&FrameEntry>)
        ensures
            r == if index < self.spec_entries().len() {
                Some(&self.spec_entries()[index as int])
            } else {
                None
            },
    {
        if index < self.entries.len() {
            Some(&self.entries[index])
        } else {
            None
        }
    }

    /// Where frame `index`'s colour and mask pixels start, and how many
    /// there are.
    fn frame_range(&self, index: usize) -> (r: Option<(usize, usize, usize)>)
        requires
            self.wf(),
        ensures
            match self.spec_frame(index as int) {
                Some((e, s, m)) => r matches Some((a, b, n)) && a == data_start(
                    self.spec_frame_count() as int,
                ) + e.color_offset && b == data_start(self.spec_frame_count() as int)
                    + e.mask_offset && n == e.width * e.height && a + n <= self.spec_raw().len() && b
                    + n <= self.spec_raw().len(),
                None => r is None,
            },
    {
        if index >= self.entries.len() {
            return None;
        }
        let e = self.entries[index];
        let len = self.raw.len();
        let ds: usize = HEADER_SIZE + FRAME_DESCRIPTOR_SIZE * self.frame_count as usize;
        proof {
            assert(e.width * e.height <= 0xFFFF_FFFFu64 * 0xFFFF_FFFFu64) by (nonlinear_arith)
                requires
                    e.width <= 0xFFFF_FFFFu64,
                    e.height <= 0xFFFF_FFFFu64,
            ;
        }
        let n: u128 = e.width as u128 * e.height as u128;
        let s: u128 = ds as u128 + e.color_offset as u128;
        let m: u128 = ds as u128 + e.mask_offset as u128;
        if s + n > len as u128 || m + n > len as u128 {
            return None;
        }
        Some((s as usize, m as usize, n as usize))
    }

    /// Frame `index` with its pixels, if its pixels lie inside the data.
    pub fn get_frame(&self, index: usize) -> (r: Option<Frame>)
        requires
            self.wf(),
        ensures
            match self.spec_frame(index as int) {
                Some((e, s, m)) => r matches Some(f) && f.spec_entry() == e && f.spec_sprite() == s
                    && f.spec_mask() == m,
                None => r is None,
            },
    {
        let _len = self.raw.len();
        match self.frame_range(index) {
            Some((s, m, n)) => {
                let sprite = copy_range(self.raw.as_slice(), s, s + n);
                let mask = copy_range(self.raw.as_slice(), m, m + n);
                Some(Frame::new(self.entries[index], sprite, mask))
            },
            None => None,
        }
    }

    /// An iterator over the frames.
    pub fn iter(&self) -> (r: FrameIterator<'_>)
        ensures
            r.spec_file() == *self,
            r.spec_current_index() == 0,
    {
        FrameIterator { file: self, current_index: 0 }
    }

    /// Overwrites the colour pixels, then the mask pixels, of frame
    /// `index`; false (with nothing written) if the index is out of range,
    /// a pixel array has the wrong length or the colour pixels lie outside
    /// the data, and false after writing the colour pixels if the mask
    /// pixels lie outside the data.
    pub fn update_frame(&mut self, index: usize, sprite_pixels: &[u8], mask_pixels: &[u8]) -> (r:
        bool)
        requires
            old(self).wf(),
        ensures
            final(self).spec_frame_count() == old(self).spec_frame_count(),
            final(self).spec_entries() == old(self).spec_entries(),
            ({
                let es = old(self).spec_entries();
                let raw = old(self).spec_raw();
                let e = es[index as int];
                let ds = data_start(old(self).spec_frame_count() as int);
                let s = ds + e.color_offset;
                let m = ds + e.mask_offset;
                let n = e.width * e.height;
                let fits = index < es.len() && sprite_pixels@.len() == n && mask_pixels@.len() == n;
                let with_sprite = raw.subrange(0, s) + sprite_pixels@ + raw.subrange(
                    s + n,
                    raw.len() as int,
                );
                &&& !(fits && s + n <= raw.len()) ==> !r && final(self).spec_raw() == raw
                &&& fits && s + n <= raw.len() && m + n > raw.len() ==> !r && final(self).spec_raw()
                    == with_sprite
                &&& fits && s + n <= raw.len() && m + n <= raw.len() ==> r && final(self).spec_raw()
                    == with_sprite.subrange(0, m) + mask_pixels@ + with_sprite.subrange(
                    m + n,
                    raw.len() as int,
                )
            }),
            final(self).wf(),
    {
        if index >= self.entries.len() {
            return false;
        }
        let e = self.entries[index];
        let len = self.raw.len();
        proof {
            assert(e.width * e.height <= 0xFFFF_FFFFu64 * 0xFFFF_FFFFu64) by (nonlinear_arith)
                requires
                    e.width <= 0xFFFF_FFFFu64,
                    e.height <= 0xFFFF_FFFFu64,
            ;
        }
        let n: u128 = e.width as u128 * e.height as u128;
        if sprite_pixels.len() as u128 != n || mask_pixels.len() as u128 != n {
            return false;
        }
        let ds: usize = HEADER_SIZE + FRAME_DESCRIPTOR_SIZE * self.frame_count as usize;
        let s: u128 = ds as u128 + e.color_offset as u128;
        if s + n > len as u128 {
            return false;
        }
        write_at(&mut self.raw, s as usize, sprite_pixels);
        let m: u128 = ds as u128 + e.mask_offset as u128;
        if m + n > len as u128 {
            return false;
        }
        write_at(&mut self.raw, m as usize, mask_pixels);
        true
    }

    /// Updates the pixels of frame `index` as [`File::update_frame`] does,
    /// then its descriptor, in the list and in the data.
    pub fn update_complete_frame(&mut self, index: usize, frame: &Frame) -> (r: bool)
        requires
            old(self).wf(),
        ensures
            final(self).wf(),
            final(self).spec_frame_count() == old(self).spec_frame_count(),
            ({
                let es = old(self).spec_entries();
                let raw = old(self).spec_raw();
                let e = es[index as int];
                let ds = data_start(old(self).spec_frame_count() as int);
                let s = ds + e.color_offset;
                let m = ds + e.mask_offset;
                let n = e.width * e.height;
                let fits = index < es.len() && frame.spec_sprite().len() == n
                    && frame.spec_mask().len() == n;
                let with_sprite = raw.subrange(0, s) + frame.spec_sprite() + raw.subrange(
                    s + n,
                    raw.len() as int,
                );
                let with_both = with_sprite.subrange(0, m) + frame.spec_mask() + with_sprite.subrange(
                    m + n,
                    raw.len() as int,
                );
                let off = HEADER_SIZE + FRAME_DESCRIPTOR_SIZE * index;
                &&& !(fits && s + n <= raw.len()) ==> !r && final(self).spec_raw() == raw
                    && final(self).spec_entries() == es
                &&& fits && s + n <= raw.len() && m + n > raw.len() ==> !r && final(self).spec_raw()
                    == with_sprite && final(self).spec_entries() == es
                &&& fits && s + n <= raw.len() && m + n <= raw.len() ==> r && final(self).spec_entries() == es.update(index as int, frame.spec_entry()) && final(self).spec_raw() == with_both.subrange(0, off) + entry_bytes(frame.spec_entry())
                    + with_both.subrange(off + FRAME_DESCRIPTOR_SIZE, raw.len() as int)
            }),
    {
        if !self.update_frame(index, frame.sprite_pixels(), frame.mask_pixels()) {
            return false;
        }
        let e = *frame.entry();
        let _len = self.raw.len();
        assert(index < self.frame_count);
        self.entries.set(index, e);
        let off = HEADER_SIZE + index * FRAME_DESCRIPTOR_SIZE;
        let mut bytes: Vec<u8> = Vec::new();
        push_entry(&mut bytes, e);
        assert(bytes@ =~= entry_bytes(e));
        write_at(&mut self.raw, off, bytes.as_slice());
        true
    }

    /// Appends a frame: its pixels go at the end of the data area, colour
    /// then mask, and its descriptor after the others; the file data is
    /// rebuilt from the header, the descriptors and the data area.
    pub fn add_frame(&mut self, frame: Frame) -> (r: Result<(), DvFileError>)
        requires
            old(self).wf(),
            old(self).spec_frame_count() < u32::MAX,
            (old(self).spec_raw().len() - data_start(old(self).spec_frame_count() as int))
                % 0x1_0000_0000 + frame.spec_sprite().len() % 0x1_0000_0000 <= u32::MAX,
        ensures
            r is Ok,
            final(self).wf(),
            (final(self).spec_frame_count(), final(self).spec_entries(), final(self).spec_raw())
                == old(self).added(frame),
            old(self).consistent() ==> final(self).consistent(),
    {
        let ghost raw0 = self.raw@;
        let len = self.raw.len();
        let ds: usize = HEADER_SIZE + FRAME_DESCRIPTOR_SIZE * self.frame_count as usize;
        let cds = len - ds;
        let sprite_offset = (cds as u64 % 0x1_0000_0000) as u32;
        let slen = (frame.sprite_pixels().len() as u64 % 0x1_0000_0000) as u32;
        let mask_offset = sprite_offset + slen;
        let new_entry = FrameEntry::new(
            sprite_offset,
            mask_offset,
            frame.width(),
            frame.height(),
            frame.hotspot_x(),
            frame.hotspot_y(),
        );
        let new_count = self.frame_count + 1;
        self.entries.push(new_entry);
        let ghost es = self.entries@;
        let new_raw = build_raw(
            new_count,
            &self.entries,
            self.raw.as_slice(),
            ds,
            frame.sprite_pixels(),
            frame.mask_pixels(),
        );
        self.raw = new_raw;
        self.frame_count = new_count;
        proof {
            lemma_descriptors_len(es);
            lemma_rebuilt_header(
                new_count,
                es,
                raw0.subrange(data_start(old(self).frame_count as int), raw0.len() as int),
                frame.spec_sprite(),
                frame.spec_mask(),
            );
        }
        Ok(())
    }

    /// The file data.
    pub fn to_bytes(&self) -> (r: Vec<u8>)
        ensures
            r@ == self.spec_raw(),
    {
        copy_range(self.raw.as_slice(), 0, self.raw.len())
    }

    /// Reads a sprite file from the rest of the reader's data.
    pub fn from_reader(reader: &mut ByteReader) -> (r: Result<Self, DvFileError>)
        ensures
            final(reader).spec_data() == old(reader).spec_data(),
            ({
                let raw = if old(reader).spec_pos() <= old(reader).spec_data().len() {
                    old(reader).spec_data().subrange(
                        old(reader).spec_pos() as int,
                        old(reader).spec_data().len() as int,
                    )
                } else {
                    Seq::<u8>::empty()
                };
                match parse_spr(raw) {
                    Ok((count, es)) => r matches Ok(f) && f.spec_raw() == raw && f.spec_frame_count()
                        == count && f.spec_entries() == es && f.consistent(),
                    Err(e) => r == Err::<File, DvFileError>(e),
                }
            }),
    {
        let raw = reader.read_to_end();
        File::from_bytes(raw.as_slice())
    }

    /// Reads a sprite file from its bytes.
    pub fn from_bytes(data: &[u8]) -> (r: Result<Self, DvFileError>)
        ensures
            match parse_spr(data@) {
                Ok((count, es)) => r matches Ok(f) && f.spec_raw() == data@ && f.spec_frame_count()
                    == count && f.spec_entries() == es && f.consistent(),
                Err(e) => r == Err::<File, DvFileError>(e),
            },
    {
        let raw = copy_range(data, 0, data.len());
        assert(raw@ =~= data@);
        let len = raw.len();
        if len < HEADER_SIZE {
            return Err(DvFileError::insufficient_data(FileType::Spr, HEADER_SIZE, len));
        }
        let frame_count = read_u32(raw.as_slice(), 0);
        let need: u64 = HEADER_SIZE as u64 + FRAME_DESCRIPTOR_SIZE as u64 * frame_count as u64;
        if (len as u64) < need {
            return Err(
                DvFileError::insufficient_data(
                    FileType::Spr,
                    need as usize,
                    len,
                ),
            );
        }
        let ghost data = raw@;
        let mut entries: Vec<FrameEntry> = Vec::new();
        let mut i: usize = 0;
        while i < frame_count as usize
            invariant
                i <= frame_count,
                data == raw@,
                len == data.len(),
                data_start(frame_count as int) <= data.len(),
                entries@ == entries_of(data, i as int),
            decreases frame_count - i,
        {
            let off = HEADER_SIZE + FRAME_DESCRIPTOR_SIZE * i;
            let e = FrameEntry::new(
                read_u32(raw.as_slice(), off),
                read_u32(raw.as_slice(), off + 4),
                read_u32(raw.as_slice(), off + 8),
                read_u32(raw.as_slice(), off + 12),
                read_u32(raw.as_slice(), off + 16),
                read_u32(raw.as_slice(), off + 20),
            );
            entries.push(e);
            i = i + 1;
            assert(entries@ =~= entries_of(data, i as int));
        }
        Ok(File { raw, frame_count, entries })
    }
}

impl Default for File {
    fn default() -> (r: Self)
        ensures
            r.spec_raw() == Seq::new(HEADER_SIZE as nat, |i: int| 0u8),
            r.spec_frame_count() == 0,
            r.spec_entries() == Seq::<FrameEntry>::empty(),
    {
        File::new()
    }
}

/// Iterator over the frames of a sprite file, stopping at the first frame
/// whose pixels lie outside the data.
#[derive(Debug, Clone)]
pub struct FrameIterator<'a> {
    file: &'a File,
    current_index: usize,
}

impl<'a> FrameIterator<'a> {
    /// The file.
    pub closed spec fn spec_file(&self) -> File {
        *self.file
    }

    /// The next frame index.
    pub closed spec fn spec_current_index(&self) -> usize {
        self.current_index
    }

    /// The next frame, if any.
    pub fn next(&mut self) -> (r: Option<Frame>)
        requires
            old(self).spec_file().wf(),
            old(self).spec_current_index() < usize::MAX,
        ensures
            final(self).spec_file() == old(self).spec_file(),
            match old(self).spec_file().spec_frame(old(self).spec_current_index() as int) {
                Some((e, s, m)) => r matches Some(f) && f.spec_entry() == e && f.spec_sprite() == s
                    && f.spec_mask() == m && final(self).spec_current_index() == old(self).spec_current_index() + 1,
                None => r is None && final(self).spec_current_index() == old(self).spec_current_index(),
            },
    {
        match self.file.get_frame(self.current_index) {
            Some(f) => {
                self.current_index = self.current_index + 1;
                Some(f)
            },
            None => None,
        }
    }
}

/// The frame count and descriptors read back from a sprite file's data are
/// those it holds, whenever its data stores them (as it does after
/// [`File::new`], [`File::from_bytes`] and [`File::add_frame`]).
pub proof fn lemma_spr_roundtrip(f: File)
    requires
        f.consistent(),
    ensures
        parse_spr(f.spec_raw()) == Ok::<(u32, Seq<FrameEntry>), DvFileError>(
            (f.spec_frame_count(), f.spec_entries()),
        ),
{
}

/// After adding a frame whose pixel arrays have `width * height` pixels,
/// the new last frame has the frame's descriptor fields and pixels.
#[verifier::rlimit(40)]
pub proof fn lemma_add_then_get(f: File, frame: Frame)
    requires
        f.wf(),
        f.spec_frame_count() < u32::MAX,
        frame.wf(),
        (f.spec_raw().len() - data_start(f.spec_frame_count() as int)) + frame.spec_sprite().len()
            <= u32::MAX,
    ensures
        ({
            let (count, es, raw) = f.added(frame);
            match frame_at(raw, count, es, f.spec_frame_count() as int) {
                Some((e, s, m)) => e == es.last() && s == frame.spec_sprite() && m
                    == frame.spec_mask(),
                None => false,
            }
        }),
{
    let (count, es, raw) = f.added(frame);
    lemma_descriptors_len(es);
    assert(count == f.spec_frame_count() + 1);
    let ds = data_start(count as int);
    let old_raw = f.spec_raw();
    let ds0 = data_start(f.spec_frame_count() as int);
    let cds = old_raw.len() - ds0;
    let n = frame.spec_entry().width * frame.spec_entry().height;
    let pre = u32_bytes(count) + Seq::new(RESERVED_SIZE as nat, |i: int| 0u8) + descriptors(es);
    let mid = old_raw.subrange(ds0, old_raw.len() as int);
    assert(pre.len() == ds);
    assert(mid.len() == cds);
    assert(cds % 0x1_0000_0000 == cds);
    assert(frame.spec_sprite().len() % 0x1_0000_0000 == frame.spec_sprite().len());
    assert(raw == pre + mid + frame.spec_sprite() + frame.spec_mask());
    let e = es[f.spec_frame_count() as int];
    assert(e.color_offset == cds);
    assert(e.mask_offset == cds + frame.spec_sprite().len());
    assert forall|k: int| 0 <= k < n implies raw[ds + cds + k] == frame.spec_sprite()[k] by {}
    assert forall|k: int| 0 <= k < n implies raw[ds + cds + n + k] == frame.spec_mask()[k] by {}
    assert(raw.subrange(ds + cds, ds + cds + n) =~= frame.spec_sprite());
    assert(raw.subrange(ds + cds + n, ds + cds + n + n) =~= frame.spec_mask());
}

/// A window of the middle part of `pre + mid + tail` is the same window of
/// `mid`.
proof fn lemma_middle_window(pre: Seq<u8>, mid: Seq<u8>, tail: Seq<u8>, a: int, n: int)
    requires
        0 <= a,
        0 <= n,
        a + n <= mid.len(),
    ensures
        (pre + mid + tail).subrange(pre.len() + a, pre.len() + a + n) == mid.subrange(a, a + n),
{
    assert((pre + mid + tail).subrange(pre.len() + a, pre.len() + a + n) =~= mid.subrange(a, a + n));
}

/// Adding a frame keeps every earlier frame: its descriptor and pixels
/// read back as before.
pub proof fn lemma_add_keeps_frames(f: File, frame: Frame, i: int)
    requires
        f.wf(),
        0 <= i < f.spec_frame_count(),
        f.spec_frame_count() < u32::MAX,
        f.spec_frame(i) is Some,
    ensures
        ({
            let (count, es, raw) = f.added(frame);
            frame_at(raw, count, es, i) == f.spec_frame(i)
        }),
{
    let (count, es, raw) = f.added(frame);
    lemma_descriptors_len(es);
    let old_raw = f.spec_raw();
    let ds0 = data_start(f.spec_frame_count() as int);
    let pre = u32_bytes(count) + Seq::new(RESERVED_SIZE as nat, |i: int| 0u8) + descriptors(es);
    let mid = old_raw.subrange(ds0, old_raw.len() as int);
    let tail = frame.spec_sprite() + frame.spec_mask();
    assert(raw =~= pre + mid + tail);
    assert(count == f.spec_frame_count() + 1);
    assert(pre.len() == data_start(count as int));
    let e = f.spec_entries()[i];
    assert(es[i] == e);
    let n = e.width * e.height;
    assert(0 <= n) by (nonlinear_arith)
        requires
            n == e.width * e.height,
    ;
    let co = e.color_offset as int;
    let ko = e.mask_offset as int;
    lemma_middle_window(pre, mid, tail, co, n);
    lemma_middle_window(pre, mid, tail, ko, n);
    assert(mid.subrange(co, co + n) =~= old_raw.subrange(ds0 + co, ds0 + co + n));
    assert(mid.subrange(ko, ko + n) =~= old_raw.subrange(ds0 + ko, ds0 + ko + n));
}

/// Adding a frame to a file whose bytes agree with its frame count and
/// descriptors gives bytes that read back as the new frame count and
/// descriptors, with every earlier frame unchanged.
pub proof fn lemma_add_roundtrip(f: File, frame: Frame)
    requires
        f.consistent(),
        f.spec_frame_count() < u32::MAX,
    ensures
        ({
            let (count, es, raw) = f.added(frame);
            &&& parse_spr(raw) == Ok::<(u32, Seq<FrameEntry>), DvFileError>((count, es))
            &&& forall|i: int|
                0 <= i < f.spec_frame_count() && (#[trigger] f.spec_frame(i)) is Some ==> frame_at(
                    raw,
                    count,
                    es,
                    i,
                ) == f.spec_frame(i)
        }),
{
    let (count, es, raw) = f.added(frame);
    let old_raw = f.spec_raw();
    let ds = data_start(f.spec_frame_count() as int);
    lemma_rebuilt_header(
        count,
        es,
        old_raw.subrange(ds, old_raw.len() as int),
        frame.spec_sprite(),
        frame.spec_mask(),
    );
    assert forall|i: int|
        0 <= i < f.spec_frame_count() && (#[trigger] f.spec_frame(i)) is Some implies frame_at(
            raw,
            count,
            es,
            i,
        ) == f.spec_frame(i) by {
        lemma_add_keeps_frames(f, frame, i);
    }
}

} // verus!

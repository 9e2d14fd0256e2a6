//! Mouse cursor animations: bitmaps, a glyph table describing each frame,
//! animation sequence starts and an animation index table.
//!
//! The 16-byte header holds the metadata offset, the animation count, the
//! frame count and the animation table entry count. The metadata region
//! starts at `0x10 + metadata_offset`: the animation sequence starts, then
//! the glyph table (12 bytes per frame), then the animation index table
//! (8 bytes per entry) up to the end of the file.

pub mod builder;
pub mod constants;
pub mod frame;
pub mod layout;

pub use self::builder::FileBuilder;
pub use self::frame::{Frame, FrameRowIterator, DEFAULT_RGBA_PALETTE};

use vstd::prelude::*;
use vstd::string::StringExecFns;
use vstd::std_specs::iter::IteratorSpec;

use self::constants::{
    ANIM_ENTRY_SIZE, ANIM_SEQ_ENTRY_SIZE, BITMAP_DATA_START, FRAME_COUNT_OFFSET, GLYPH_ENTRY_SIZE,
    HEADER_SIZE, LOOP_MARKER,
};
use super::error::{DvFileError, FileType};
use super::le::{
    copy_range, filled, i16_at, i16_bytes, push_i16, push_u16, push_u32, read_i16, read_u16,
    read_u32, u16_at, u16_bytes, u32_at, u32_bytes, write_at,
};
use super::reader::ByteReader;
use super::show::append_decimal;
use super::text::decimal;

verus! {

/// An entry of the animation index table: a frame index (none for a loop
/// marker) and a duration.
#[derive(Debug, Clone, Copy, PartialEq, Eq)]
pub struct AnimationEntry {
    /// The frame to show, or none for a loop marker
    pub frame_index: Option<u32>,
    /// How long to show it
    pub duration: u32,
}

impl AnimationEntry {
    /// An entry showing frame `frame_index`.
    pub fn new(frame_index: u32, duration: u32) -> (r: Self)
        ensures
            r == (AnimationEntry { frame_index: Some(frame_index), duration }),
    {
        AnimationEntry { frame_index: Some(frame_index), duration }
    }

    /// A loop marker.
    pub fn loop_marker(duration: u32) -> (r: Self)
        ensures
            r == (AnimationEntry { frame_index: None, duration }),
    {
        AnimationEntry { frame_index: None, duration }
    }

    /// Whether this is a loop marker.
    pub fn is_loop_marker(&self) -> (r: bool)
        ensures
            r == (self.frame_index is None),
    {
        self.frame_index.is_none()
    }
}

/// The number of pixels of all frames.
pub open spec fn total_pixels(fs: Seq<Frame>) -> int
    decreases fs.len(),
{
    if fs.len() == 0 {
        0
    } else {
        total_pixels(fs.drop_last()) + fs.last().spec_width() * fs.last().spec_height()
    }
}

/// The total of a prefix is no more than the total, and grows by the next
/// frame's pixels.
pub proof fn lemma_total_prefix(fs: Seq<Frame>, k: int)
    requires
        0 <= k <= fs.len(),
    ensures
        0 <= total_pixels(fs.subrange(0, k)) <= total_pixels(fs),
        k < fs.len() ==> total_pixels(fs.subrange(0, k + 1)) == total_pixels(fs.subrange(0, k))
            + fs[k].spec_width() * fs[k].spec_height(),
    decreases fs.len(),
{
    if fs.len() > 0 {
        if k == fs.len() {
            assert(fs.subrange(0, k) =~= fs);
            lemma_total_prefix(fs.drop_last(), k - 1);
        } else {
            lemma_total_prefix(fs.drop_last(), k);
            assert(fs.drop_last().subrange(0, k) =~= fs.subrange(0, k));
            if k + 1 < fs.len() {
                assert(fs.drop_last().subrange(0, k + 1) =~= fs.subrange(0, k + 1));
            } else {
                assert(fs.subrange(0, k + 1) =~= fs);
                assert(fs.drop_last() =~= fs.subrange(0, k));
            }
        }
        assert(0 <= fs.last().spec_width() * fs.last().spec_height()) by (nonlinear_arith);
    }
}

/// The pixel total of the frames other than frame `index`.
pub open spec fn total_without(fs: Seq<Frame>, index: int) -> int {
    total_pixels(fs) - fs[index].spec_width() * fs[index].spec_height()
}

/// Replaces `b.len()` bytes of `data` at `off` by `b`.
pub open spec fn overwrite(data: Seq<u8>, off: int, b: Seq<u8>) -> Seq<u8> {
    data.subrange(0, off) + b + data.subrange(off + b.len(), data.len() as int)
}

/// The 12 bytes of a glyph table entry.
pub open spec fn glyph_bytes(f: Frame, bitmap_offset: u32) -> Seq<u8> {
    u16_bytes(f.spec_width()) + u16_bytes(f.spec_height()) + i16_bytes(f.spec_x_offset())
        + i16_bytes(f.spec_y_offset()) + u32_bytes(bitmap_offset)
}

/// The data after writing the bitmaps and glyph entries of the first `k`
/// frames: each bitmap at `0x10` plus the pixels before it, each entry at
/// `glyphs + 12 i`.
pub open spec fn write_frames(data: Seq<u8>, fs: Seq<Frame>, glyphs: int, k: int) -> Seq<u8>
    decreases k,
{
    if k <= 0 {
        data
    } else {
        let d = write_frames(data, fs, glyphs, k - 1);
        let bo = total_pixels(fs.subrange(0, k - 1));
        overwrite(
            overwrite(d, BITMAP_DATA_START + bo, fs[k - 1].spec_pixels()),
            glyphs + GLYPH_ENTRY_SIZE * (k - 1),
            glyph_bytes(fs[k - 1], bo as u32),
        )
    }
}

/// The data after writing the first `k` animation sequence starts at `off`.
pub open spec fn write_seqs(data: Seq<u8>, seqs: Seq<u32>, off: int, k: int) -> Seq<u8>
    decreases k,
{
    if k <= 0 {
        data
    } else {
        overwrite(
            write_seqs(data, seqs, off, k - 1),
            off + ANIM_SEQ_ENTRY_SIZE * (k - 1),
            u32_bytes(seqs[k - 1]),
        )
    }
}

/// The 8 bytes of an animation index table entry; a loop marker is stored
/// as frame index 0xFFFFFFFF.
pub open spec fn anim_entry_bytes(e: AnimationEntry) -> Seq<u8> {
    u32_bytes(
        match e.frame_index {
            Some(i) => i,
            None => LOOP_MARKER,
        },
    ) + u32_bytes(e.duration)
}

/// The data after writing the first `k` animation index entries at `off`.
pub open spec fn write_anims(data: Seq<u8>, t: Seq<AnimationEntry>, off: int, k: int) -> Seq<u8>
    decreases k,
{
    if k <= 0 {
        data
    } else {
        overwrite(
            write_anims(data, t, off, k - 1),
            off + ANIM_ENTRY_SIZE * (k - 1),
            anim_entry_bytes(t[k - 1]),
        )
    }
}

/// A frame as the file describes it: width, height, hotspot and pixels.
pub open spec fn frame_is(f: Frame, w: u16, h: u16, x: i16, y: i16, px: Seq<u8>) -> bool {
    &&& f.spec_width() == w
    &&& f.spec_height() == h
    &&& f.spec_x_offset() == x
    &&& f.spec_y_offset() == y
    &&& f.spec_pixels() == px
}

/// Where the bitmap of glyph entry `i` ends.
pub open spec fn bitmap_end(data: Seq<u8>, glyphs: int, i: int) -> int {
    let off = glyphs + GLYPH_ENTRY_SIZE * i;
    BITMAP_DATA_START + u32_at(data, off + 8) + u16_at(data, off) * u16_at(data, off + 2)
}

/// The first glyph entry from `i` on, below `count`, whose bitmap runs past
/// the data, if any.
pub open spec fn first_bad_frame(data: Seq<u8>, glyphs: int, count: int, i: int) -> Option<int>
    decreases count - i,
{
    if i >= count {
        None
    } else if bitmap_end(data, glyphs, i) > data.len() {
        Some(i)
    } else {
        first_bad_frame(data, glyphs, count, i + 1)
    }
}

/// Whether `f` is the frame of glyph entry `i`.
pub open spec fn is_frame_at(f: Frame, data: Seq<u8>, glyphs: int, i: int) -> bool {
    let off = glyphs + GLYPH_ENTRY_SIZE * i;
    let start = BITMAP_DATA_START + u32_at(data, off + 8);
    frame_is(
        f,
        u16_at(data, off),
        u16_at(data, off + 2),
        i16_at(data, off + 4),
        i16_at(data, off + 6),
        data.subrange(start, bitmap_end(data, glyphs, i)),
    )
}

/// The animation sequence starts stored in the data: `count` entries at
/// `off`, or none when the count is zero.
pub open spec fn seqs_of(data: Seq<u8>, off: int, count: int) -> Option<Seq<u32>> {
    if count > 0 {
        Some(Seq::new(count as nat, |i: int| u32_at(data, off + ANIM_SEQ_ENTRY_SIZE * i)))
    } else {
        None
    }
}

/// The animation index entry stored at `off`.
pub open spec fn anim_entry_at(data: Seq<u8>, off: int) -> AnimationEntry {
    AnimationEntry {
        frame_index: if u32_at(data, off) == LOOP_MARKER {
            None
        } else {
            Some(u32_at(data, off))
        },
        duration: u32_at(data, off + 4),
    }
}

/// The animation index table stored from `off` to the end of the data:
/// every whole 8-byte entry, or none when there is not one.
pub open spec fn anims_of(data: Seq<u8>, off: int) -> Option<Seq<AnimationEntry>> {
    if data.len() > off && data.len() - off >= ANIM_ENTRY_SIZE {
        Some(
            Seq::new(
                ((data.len() - off) / ANIM_ENTRY_SIZE as int) as nat,
                |i: int| anim_entry_at(data, off + ANIM_ENTRY_SIZE * i),
            ),
        )
    } else {
        None
    }
}

/// Where the metadata region starts.
pub open spec fn metadata_start(h: Seq<u8>) -> int {
    BITMAP_DATA_START + u32_at(h, 0)
}

/// Where the glyph table starts.
pub open spec fn glyph_start(h: Seq<u8>) -> int {
    metadata_start(h) + ANIM_SEQ_ENTRY_SIZE * u32_at(h, 4)
}

/// Cursor animation file.
#[derive(Debug, Clone, PartialEq, Eq)]
pub struct File {
    frames: Vec<Frame>,
    animation_sequences: Option<Vec<u32>>,
    animation_index_table: Option<Vec<AnimationEntry>>,
    header: [u8; 16],
}

impl File {
    /// The frames.
    pub closed spec fn spec_frames(&self) -> Seq<Frame> {
        self.frames@
    }

    /// The animation sequence starts, if any.
    pub closed spec fn spec_sequences(&self) -> Option<Seq<u32>> {
        match self.animation_sequences {
            Some(v) => Some(v@),
            None => None,
        }
    }

    /// The animation index table, if any.
    pub closed spec fn spec_table(&self) -> Option<Seq<AnimationEntry>> {
        match self.animation_index_table {
            Some(v) => Some(v@),
            None => None,
        }
    }

    /// The 16 header bytes.
    pub closed spec fn spec_header(&self) -> Seq<u8> {
        self.header@
    }

    /// The header has 16 bytes.
    pub proof fn lemma_header_len(&self)
        ensures
            self.spec_header().len() == HEADER_SIZE,
    {
    }

    /// The room for bitmaps: the metadata offset of the header.
    pub open spec fn spec_max_bitmap(&self) -> int {
        u32_at(self.spec_header(), 0) as int
    }

    /// The size of the serialised file: up to the glyph table, the glyph
    /// table and the animation index table.
    pub open spec fn spec_file_size(&self) -> int {
        glyph_start(self.spec_header()) + GLYPH_ENTRY_SIZE * self.spec_frames().len() + match self.spec_table() {
            Some(t) => ANIM_ENTRY_SIZE * t.len(),
            None => 0,
        }
    }

    /// The bytes of the serialised file, when the bitmaps fit.
    pub open spec fn spec_bytes(&self) -> Seq<u8> {
        let h = self.spec_header();
        let fs = self.spec_frames();
        let g = glyph_start(h);
        let init = overwrite(
            overwrite(Seq::new(self.spec_file_size() as nat, |i: int| 0u8), 0, h),
            FRAME_COUNT_OFFSET as int,
            u32_bytes(fs.len() as u32),
        );
        let d1 = write_frames(init, fs, g, fs.len() as int);
        let d2 = match self.spec_sequences() {
            Some(s) => write_seqs(d1, s, metadata_start(h), s.len() as int),
            None => d1,
        };
        match self.spec_table() {
            Some(t) => write_anims(d2, t, g + GLYPH_ENTRY_SIZE * fs.len(), t.len() as int),
            None => d2,
        }
    }

    /// Whether serialising can run: every frame has its pixels, the sums
    /// fit in memory and the sequence starts fit in the file.
    pub open spec fn can_serialise(&self) -> bool {
        &&& forall|i: int| 0 <= i < self.spec_frames().len() ==> #[trigger] self.spec_frames()[i].wf()
        &&& total_pixels(self.spec_frames()) <= usize::MAX
        &&& self.spec_file_size() <= usize::MAX
        &&& match self.spec_sequences() {
            Some(s) => metadata_start(self.spec_header()) + ANIM_SEQ_ENTRY_SIZE * s.len()
                <= self.spec_file_size(),
            None => true,
        }
    }

    /// An empty file with a zero header.
    pub fn new() -> (r: Self)
        ensures
            r.spec_frames() == Seq::<Frame>::empty(),
            r.spec_sequences() is None,
            r.spec_table() is None,
            r.spec_header() == Seq::new(HEADER_SIZE as nat, |i: int| 0u8),
    {
        let r = File {
            frames: Vec::new(),
            animation_sequences: None,
            animation_index_table: None,
            header: [0u8; 16],
        };
        assert(r.header@ =~= Seq::new(HEADER_SIZE as nat, |i: int| 0u8));
        r
    }

    /// A one-line description: the number of frames.
    pub fn to_string(&self) -> (r: String)
        ensures
            r@ == "MFD File: "@ + decimal(self.spec_frames().len()) + " frames"@,
    {
        let mut s = String::from_str("MFD File: ");
        append_decimal(&mut s, self.frames.len() as u64);
        s.append(" frames");
        s
    }

    /// The number of frames.
    pub fn frame_count(&self) -> (r: usize)
        ensures
            r == self.spec_frames().len(),
    {
        self.frames.len()
    }

    /// Frame `index`, if any.
    pub fn frame(&self, index: usize) -> (r: Option<&Frame>)
        ensures
            r == if index < self.spec_frames().len() {
                Some(&self.spec_frames()[index as int])
            } else {
                None
            },
    {
        if index < self.frames.len() {
            Some(&self.frames[index])
        } else {
            None
        }
    }

    /// The frames.
    pub fn frames(&self) -> (r: &[Frame])
        ensures
            r@ == self.spec_frames(),
    {
        self.frames.as_slice()
    }

    /// Frame `index` for changing in place, if any.
    pub fn frame_mut(&mut self, index: usize) -> (r: Option<&mut Frame>)
        ensures
            final(self).spec_sequences() == old(self).spec_sequences(),
            final(self).spec_table() == old(self).spec_table(),
            final(self).spec_header() == old(self).spec_header(),
            index < old(self).spec_frames().len() ==> r is Some && *r->0 == old(self).spec_frames()[index as int]
                && final(self).spec_frames() == old(self).spec_frames().update(index as int, *final(r->0)),
            index >= old(self).spec_frames().len() ==> r is None && final(self).spec_frames() == old(self).spec_frames(),
    {
        if index < self.frames.len() {
            Some(&mut self.frames[index])
        } else {
            None
        }
    }

    /// An iterator over the frames in order.
    pub fn iter(&self) -> (r: std::slice::Iter<'_, Frame>)
        ensures
            r.remaining() == self.spec_frames().as_ref(),
    {
        proof {
            broadcast use vstd::std_specs::slice::axiom_spec_slice_iter;
        }
        self.frames.as_slice().iter()
    }

    /// The frames, for changing in place.
    pub fn frames_mut(&mut self) -> (r: &mut [Frame])
        ensures
            r@ == old(self).spec_frames(),
            final(self).spec_frames() == final(r)@,
            final(self).spec_sequences() == old(self).spec_sequences(),
            final(self).spec_table() == old(self).spec_table(),
            final(self).spec_header() == old(self).spec_header(),
    {
        self.frames.as_mut_slice()
    }

    /// The animation sequence starts, if any.
    pub fn animation_sequences(&self) -> (r: Option<&[u32]>)
        ensures
            match self.spec_sequences() {
                Some(s) => r matches Some(v) && v@ == s,
                None => r is None,
            },
    {
        match &self.animation_sequences {
            Some(v) => Some(v.as_slice()),
            None => None,
        }
    }

    /// Replaces the animation sequence starts.
    pub fn set_animation_sequences(&mut self, sequences: Option<Vec<u32>>)
        ensures
            final(self).spec_sequences() == match sequences {
                Some(v) => Some(v@),
                None => None::<Seq<u32>>,
            },
            final(self).spec_frames() == old(self).spec_frames(),
            final(self).spec_table() == old(self).spec_table(),
            final(self).spec_header() == old(self).spec_header(),
    {
        self.animation_sequences = sequences;
    }

    /// The animation index table, if any.
    pub fn animation_index_table(&self) -> (r: Option<&[AnimationEntry]>)
        ensures
            match self.spec_table() {
                Some(t) => r matches Some(v) && v@ == t,
                None => r is None,
            },
    {
        match &self.animation_index_table {
            Some(v) => Some(v.as_slice()),
            None => None,
        }
    }

    /// Replaces the animation index table.
    pub fn set_animation_index_table(&mut self, table: Option<Vec<AnimationEntry>>)
        ensures
            final(self).spec_table() == match table {
                Some(v) => Some(v@),
                None => None::<Seq<AnimationEntry>>,
            },
            final(self).spec_frames() == old(self).spec_frames(),
            final(self).spec_sequences() == old(self).spec_sequences(),
            final(self).spec_header() == old(self).spec_header(),
    {
        self.animation_index_table = table;
    }

    /// The animation count field of the header.
    pub fn animation_count(&self) -> (r: u32)
        ensures
            r == u32_at(self.spec_header(), 4),
    {
        read_u32(self.header.as_slice(), 4)
    }

    /// The animation table entry count field of the header.
    pub fn anim_table_entry_count(&self) -> (r: u32)
        ensures
            r == u32_at(self.spec_header(), 12),
    {
        read_u32(self.header.as_slice(), 12)
    }

    /// Same as [`File::animation_index_table`].
    pub fn animation_metadata(&self) -> (r: Option<&[AnimationEntry]>)
        ensures
            match self.spec_table() {
                Some(t) => r matches Some(v) && v@ == t,
                None => r is None,
            },
    {
        self.animation_index_table()
    }

    /// Same as [`File::set_animation_index_table`].
    pub fn set_animation_metadata(&mut self, metadata: Option<Vec<AnimationEntry>>)
        ensures
            final(self).spec_table() == match metadata {
                Some(v) => Some(v@),
                None => None::<Seq<AnimationEntry>>,
            },
            final(self).spec_frames() == old(self).spec_frames(),
            final(self).spec_sequences() == old(self).spec_sequences(),
            final(self).spec_header() == old(self).spec_header(),
    {
        self.set_animation_index_table(metadata);
    }

    /// The header bytes.
    pub fn header(&self) -> (r: &[u8; 16])
        ensures
            r@ == self.spec_header(),
    {
        &self.header
    }

    /// Replaces the header bytes.
    pub fn set_header(&mut self, header: [u8; 16])
        ensures
            final(self).spec_header() == header@,
            final(self).spec_frames() == old(self).spec_frames(),
            final(self).spec_sequences() == old(self).spec_sequences(),
            final(self).spec_table() == old(self).spec_table(),
    {
        self.header = header;
    }

    /// The room for bitmaps.
    fn max_bitmap_size(&self) -> (r: usize)
        ensures
            r == self.spec_max_bitmap(),
    {
        read_u32(self.header.as_slice(), 0) as usize
    }

    /// Appends a frame, if all bitmaps still fit before the metadata region.
    pub fn add_frame(&mut self, frame: Frame) -> (r: Result<(), DvFileError>)
        requires
            total_pixels(old(self).spec_frames()) + frame.spec_width() * frame.spec_height()
                <= usize::MAX,
        ensures
            final(self).spec_sequences() == old(self).spec_sequences(),
            final(self).spec_table() == old(self).spec_table(),
            final(self).spec_header() == old(self).spec_header(),
            ({
                let n = total_pixels(old(self).spec_frames()) + frame.spec_width()
                    * frame.spec_height();
                &&& n <= old(self).spec_max_bitmap() ==> r is Ok && final(self).spec_frames() == old(self).spec_frames().push(frame)
                &&& n > old(self).spec_max_bitmap() ==> r == Err::<(), DvFileError>(
                    DvFileError::FileTooLarge {
                        file_type: FileType::Mfd,
                        size: n as usize,
                        blocks_needed: n as usize,
                        blocks_available: old(self).spec_max_bitmap() as usize,
                    },
                ) && final(self).spec_frames() == old(self).spec_frames()
            }),
    {
        let current = bitmap_total(&self.frames, self.frames.len());
        proof {
            assert(self.frames@.subrange(0, self.frames@.len() as int) =~= self.frames@);
        }
        let new_size = current + frame.pixel_count();
        let max_size = self.max_bitmap_size();
        if new_size > max_size {
            return Err(
                DvFileError::FileTooLarge {
                    file_type: FileType::Mfd,
                    size: new_size,
                    blocks_needed: new_size,
                    blocks_available: max_size,
                },
            );
        }
        self.frames.push(frame);
        Ok(())
    }

    /// Removes and returns frame `index`, if any.
    pub fn remove_frame(&mut self, index: usize) -> (r: Option<Frame>)
        ensures
            final(self).spec_sequences() == old(self).spec_sequences(),
            final(self).spec_table() == old(self).spec_table(),
            final(self).spec_header() == old(self).spec_header(),
            index < old(self).spec_frames().len() ==> r == Some(old(self).spec_frames()[index as int])
                && final(self).spec_frames() == old(self).spec_frames().remove(index as int),
            index >= old(self).spec_frames().len() ==> r is None && final(self).spec_frames() == old(self).spec_frames(),
    {
        if index < self.frames.len() {
            Some(self.frames.remove(index))
        } else {
            None
        }
    }

    /// Replaces frame `index`, returning the old one, if all bitmaps still
    /// fit before the metadata region.
    pub fn replace_frame(&mut self, index: usize, frame: Frame) -> (r: Result<Frame, DvFileError>)
        requires
            total_pixels(old(self).spec_frames()) <= usize::MAX,
            index < old(self).spec_frames().len() ==> total_without(
                old(self).spec_frames(),
                index as int,
            ) + frame.spec_width() * frame.spec_height() <= usize::MAX,
        ensures
            final(self).spec_sequences() == old(self).spec_sequences(),
            final(self).spec_table() == old(self).spec_table(),
            final(self).spec_header() == old(self).spec_header(),
            ({
                let fs = old(self).spec_frames();
                let n = total_without(fs, index as int) + frame.spec_width() * frame.spec_height();
                &&& index >= fs.len() ==> r == Err::<Frame, DvFileError>(
                    DvFileError::BlockOutOfRange {
                        file_type: FileType::Mfd,
                        index: index as u32,
                        total: fs.len() as usize,
                    },
                ) && final(self).spec_frames() == fs
                &&& index < fs.len() && n > old(self).spec_max_bitmap() ==> r == Err::<
                    Frame,
                    DvFileError,
                >(
                    DvFileError::FileTooLarge {
                        file_type: FileType::Mfd,
                        size: n as usize,
                        blocks_needed: n as usize,
                        blocks_available: old(self).spec_max_bitmap() as usize,
                    },
                ) && final(self).spec_frames() == fs
                &&& index < fs.len() && n <= old(self).spec_max_bitmap() ==> r == Ok::<
                    Frame,
                    DvFileError,
                >(fs[index as int]) && final(self).spec_frames() == fs.update(index as int, frame)
            }),
    {
        let len = self.frames.len();
        if index >= len {
            return Err(
                DvFileError::BlockOutOfRange {
                    file_type: FileType::Mfd,
                    index: index as u32,
                    total: len,
                },
            );
        }
        let all = bitmap_total(&self.frames, len);
        proof {
            assert(self.frames@.subrange(0, len as int) =~= self.frames@);
            lemma_total_prefix(self.frames@, index as int);
            lemma_total_prefix(self.frames@, index + 1);
            lemma_total_suffix_bound(self.frames@, index as int);
        }
        let current = all - self.frames[index].pixel_count();
        let new_size = current + frame.pixel_count();
        let max_size = self.max_bitmap_size();
        if new_size > max_size {
            return Err(
                DvFileError::FileTooLarge {
                    file_type: FileType::Mfd,
                    size: new_size,
                    blocks_needed: new_size,
                    blocks_available: max_size,
                },
            );
        }
        let old_frame = self.frames.remove(index);
        self.frames.insert(index, frame);
        assert(self.frames@ =~= old(self).frames@.update(index as int, frame));
        Ok(old_frame)
    }

    /// The bytes of the file: the header (with the frame count field set),
    /// the bitmaps packed one after the other from `0x10`, the animation
    /// sequence starts, the glyph table and the animation index table. An
    /// error if the bitmaps do not fit before the metadata region.
    pub fn to_bytes(&self) -> (r: Result<Vec<u8>, DvFileError>)
        requires
            self.can_serialise(),
        ensures
            total_pixels(self.spec_frames()) > self.spec_max_bitmap() ==> r == Err::<
                Vec<u8>,
                DvFileError,
            >(
                DvFileError::FileTooLarge {
                    file_type: FileType::Mfd,
                    size: total_pixels(self.spec_frames()) as usize,
                    blocks_needed: total_pixels(self.spec_frames()) as usize,
                    blocks_available: self.spec_max_bitmap() as usize,
                },
            ),
            total_pixels(self.spec_frames()) <= self.spec_max_bitmap() ==> (r matches Ok(b) && b@
                == self.spec_bytes()),
    {
        let total = bitmap_total(&self.frames, self.frames.len());
        proof {
            assert(self.frames@.subrange(0, self.frames@.len() as int) =~= self.frames@);
        }
        let max_size = self.max_bitmap_size();
        if total > max_size {
            return Err(
                DvFileError::FileTooLarge {
                    file_type: FileType::Mfd,
                    size: total,
                    blocks_needed: total,
                    blocks_available: max_size,
                },
            );
        }
        let ghost h = self.header@;
        let ghost fs = self.frames@;
        let mro: usize = BITMAP_DATA_START + max_size;
        let gto: usize = mro + ANIM_SEQ_ENTRY_SIZE * read_u32(self.header.as_slice(), 4) as usize;
        let nframes = self.frames.len();
        let anim_len: usize = match &self.animation_index_table {
            Some(t) => ANIM_ENTRY_SIZE * t.len(),
            None => 0,
        };
        let file_size = gto + GLYPH_ENTRY_SIZE * nframes + anim_len;
        let mut data = filled(0, file_size);
        write_at(&mut data, 0, self.header.as_slice());
        let mut fc: Vec<u8> = Vec::new();
        push_u32(&mut fc, nframes as u32);
        write_at(&mut data, FRAME_COUNT_OFFSET, fc.as_slice());
        let ghost init = data@;
        let mut bitmap_offset: u32 = 0;
        let mut i: usize = 0;
        while i < nframes
            invariant
                i <= nframes,
                nframes == fs.len(),
                fs == self.frames@,
                h == self.header@,
                gto == glyph_start(h),
                mro == metadata_start(h),
                file_size == self.spec_file_size(),
                data@.len() == file_size,
                total_pixels(fs) <= u32_at(h, 0),
                forall|j: int| 0 <= j < fs.len() ==> #[trigger] fs[j].wf(),
                bitmap_offset == total_pixels(fs.subrange(0, i as int)),
                data@ == write_frames(init, fs, gto as int, i as int),
            decreases nframes - i,
        {
            proof {
                lemma_total_prefix(fs, i as int);
                lemma_total_prefix(fs, i + 1);
                assert(fs[i as int].wf());
            }
            let frame = &self.frames[i];
            let start = BITMAP_DATA_START + bitmap_offset as usize;
            write_at(&mut data, start, frame.pixels());
            let mut entry: Vec<u8> = Vec::new();
            push_u16(&mut entry, frame.width());
            push_u16(&mut entry, frame.height());
            push_i16(&mut entry, frame.x_offset());
            push_i16(&mut entry, frame.y_offset());
            push_u32(&mut entry, bitmap_offset);
            assert(entry@ =~= glyph_bytes(fs[i as int], bitmap_offset));
            write_at(&mut data, gto + GLYPH_ENTRY_SIZE * i, entry.as_slice());
            bitmap_offset = bitmap_offset + frame.pixel_count() as u32;
            i = i + 1;
        }
        let ghost d1 = data@;
        match &self.animation_sequences {
            Some(seqs) => {
                let mut k: usize = 0;
                while k < seqs.len()
                    invariant
                        k <= seqs@.len(),
                        data@.len() == file_size,
                        mro == metadata_start(h),
                        mro + ANIM_SEQ_ENTRY_SIZE * seqs@.len() <= data@.len(),
                        data@ == write_seqs(d1, seqs@, mro as int, k as int),
                    decreases seqs@.len() - k,
                {
                    let mut b: Vec<u8> = Vec::new();
                    push_u32(&mut b, seqs[k]);
                    write_at(&mut data, mro + ANIM_SEQ_ENTRY_SIZE * k, b.as_slice());
                    k = k + 1;
                }
            },
            None => {},
        }
        let ghost d2 = data@;
        match &self.animation_index_table {
            Some(t) => {
                let ato = gto + GLYPH_ENTRY_SIZE * nframes;
                assert(anim_len == ANIM_ENTRY_SIZE * t@.len());
                let mut k: usize = 0;
                while k < t.len()
                    invariant
                        k <= t@.len(),
                        ato + ANIM_ENTRY_SIZE * t@.len() == data@.len(),
                        data@.len() <= usize::MAX,
                        data@ == write_anims(d2, t@, ato as int, k as int),
                    decreases t@.len() - k,
                {
                    let e = t[k];
                    let fi = match e.frame_index {
                        Some(v) => v,
                        None => LOOP_MARKER,
                    };
                    let mut b: Vec<u8> = Vec::new();
                    push_u32(&mut b, fi);
                    push_u32(&mut b, e.duration);
                    assert(b@ =~= anim_entry_bytes(e));
                    write_at(&mut data, ato + ANIM_ENTRY_SIZE * k, b.as_slice());
                    k = k + 1;
                }
            },
            None => {},
        }
        Ok(data)
    }

    /// Whether `r` is what reading `data` gives: the header, the frames of
    /// the glyph table with their bitmaps, the animation sequence starts and
    /// the animation index table; or the error for data too short for the
    /// glyph table, or for the first bitmap running past the data.
    pub open spec fn parsed_from(data: Seq<u8>, r: Result<File, DvFileError>) -> bool {
        &&& data.len() < HEADER_SIZE ==> r == Err::<File, DvFileError>(
            DvFileError::InsufficientData {
                file_type: FileType::Mfd,
                expected: HEADER_SIZE,
                actual: data.len() as usize,
            },
        )
        &&& data.len() >= HEADER_SIZE ==> ({
            let h = data.subrange(0, HEADER_SIZE as int);
            let g = glyph_start(h);
            let count = u32_at(h, 8) as int;
            let a = g + GLYPH_ENTRY_SIZE * count;
            &&& data.len() < a ==> r == Err::<File, DvFileError>(
                DvFileError::InsufficientData {
                    file_type: FileType::Mfd,
                    expected: a as usize,
                    actual: data.len() as usize,
                },
            )
            &&& data.len() >= a && first_bad_frame(data, g, count, 0) is Some ==> r == Err::<
                File,
                DvFileError,
            >(
                DvFileError::InvalidExtraction {
                    file_type: FileType::Mfd,
                    required: bitmap_end(data, g, first_bad_frame(data, g, count, 0)->0) as usize,
                    available: data.len() as usize,
                },
            )
            &&& data.len() >= a && first_bad_frame(data, g, count, 0) is None ==> (r matches Ok(f)
                && f.spec_header() == h && f.spec_frames().len() == count && (forall|i: int|
                0 <= i < count ==> #[trigger] is_frame_at(f.spec_frames()[i], data, g, i))
                && f.spec_sequences() == seqs_of(data, metadata_start(h), u32_at(h, 4) as int)
                && f.spec_table() == anims_of(data, a))
        })
    }

    /// Reads a file from its bytes.
    pub fn from_bytes(data: &[u8]) -> (r: Result<Self, DvFileError>)
        ensures
            File::parsed_from(data@, r),
    {
        let len = data.len();
        if len < HEADER_SIZE {
            return Err(DvFileError::insufficient_data(FileType::Mfd, HEADER_SIZE, len));
        }
        let ghost h = data@.subrange(0, HEADER_SIZE as int);
        let mut header = [0u8; 16];
        let mut k: usize = 0;
        while k < HEADER_SIZE
            invariant
                k <= HEADER_SIZE,
                len == data@.len(),
                len >= HEADER_SIZE,
                header@.len() == HEADER_SIZE,
                forall|j: int| 0 <= j < k ==> header@[j] == data@[j],
            decreases HEADER_SIZE - k,
        {
            header[k] = data[k];
            k = k + 1;
        }
        assert(header@ =~= h);
        let metadata_offset = read_u32(data, 0);
        let animation_count = read_u32(data, 4);
        let frame_count = read_u32(data, 8);
        assert(u32_at(h, 0) == metadata_offset && u32_at(h, 4) == animation_count && u32_at(h, 8)
            == frame_count);
        let mro: u64 = BITMAP_DATA_START as u64 + metadata_offset as u64;
        let gto: u64 = mro + ANIM_SEQ_ENTRY_SIZE as u64 * animation_count as u64;
        let ato: u64 = gto + GLYPH_ENTRY_SIZE as u64 * frame_count as u64;
        if (len as u64) < ato {
            return Err(DvFileError::insufficient_data(FileType::Mfd, ato as usize, len));
        }
        let ghost g = gto as int;
        let mut frames: Vec<Frame> = Vec::new();
        let mut i: usize = 0;
        while i < frame_count as usize
            invariant
                i <= frame_count,
                len == data@.len(),
                len >= HEADER_SIZE,
                h == data@.subrange(0, HEADER_SIZE as int),
                g == glyph_start(h),
                frame_count == u32_at(h, 8),
                g == gto,
                ato == gto + GLYPH_ENTRY_SIZE * frame_count,
                ato <= len,
                first_bad_frame(data@, g, frame_count as int, 0) == first_bad_frame(
                    data@,
                    g,
                    frame_count as int,
                    i as int,
                ),
                frames@.len() == i,
                forall|j: int| 0 <= j < i ==> #[trigger] is_frame_at(frames@[j], data@, g, j),
            decreases frame_count - i,
        {
            let off = gto as usize + GLYPH_ENTRY_SIZE * i;
            let width = read_u16(data, off);
            let height = read_u16(data, off + 2);
            let x_offset = read_i16(data, off + 4);
            let y_offset = read_i16(data, off + 6);
            let bitmap_offset = read_u32(data, off + 8);
            proof {
                assert(width * height <= 0xFFFFu64 * 0xFFFFu64) by (nonlinear_arith)
                    requires
                        width <= 0xFFFFu64,
                        height <= 0xFFFFu64,
                ;
            }
            let end: u64 = BITMAP_DATA_START as u64 + bitmap_offset as u64 + width as u64
                * height as u64;
            assert(end == bitmap_end(data@, g, i as int));
            if end > len as u64 {
                return Err(
                    DvFileError::InvalidExtraction {
                        file_type: FileType::Mfd,
                        required: end as usize,
                        available: len,
                    },
                );
            }
            let start = BITMAP_DATA_START + bitmap_offset as usize;
            let pixels = copy_range(data, start, end as usize);
            let f = Frame::new(width, height, x_offset, y_offset, pixels);
            frames.push(f);
            i = i + 1;
        }
        let animation_sequences = if animation_count > 0 {
            let mut seqs: Vec<u32> = Vec::new();
            let mut k: usize = 0;
            while k < animation_count as usize
                invariant
                    k <= animation_count,
                    len == data@.len(),
                    mro + ANIM_SEQ_ENTRY_SIZE * animation_count <= len,
                    seqs@ == Seq::new(
                        k as nat,
                        |j: int| u32_at(data@, mro + ANIM_SEQ_ENTRY_SIZE * j),
                    ),
                decreases animation_count - k,
            {
                seqs.push(read_u32(data, mro as usize + ANIM_SEQ_ENTRY_SIZE * k));
                k = k + 1;
                assert(seqs@ =~= Seq::new(
                    k as nat,
                    |j: int| u32_at(data@, mro + ANIM_SEQ_ENTRY_SIZE * j),
                ));
            }
            Some(seqs)
        } else {
            None
        };
        let start = ato as usize;
        let animation_index_table = if len > start && len - start >= ANIM_ENTRY_SIZE {
            let n = (len - start) / ANIM_ENTRY_SIZE;
            let mut t: Vec<AnimationEntry> = Vec::new();
            let mut k: usize = 0;
            while k < n
                invariant
                    k <= n,
                    n == (len - start) / ANIM_ENTRY_SIZE as int,
                    len == data@.len(),
                    start < len,
                    t@ == Seq::new(
                        k as nat,
                        |j: int| anim_entry_at(data@, start + ANIM_ENTRY_SIZE * j),
                    ),
                decreases n - k,
            {
                let off = start + ANIM_ENTRY_SIZE * k;
                let fi = read_u32(data, off);
                let duration = read_u32(data, off + 4);
                let e = if fi == LOOP_MARKER {
                    AnimationEntry::loop_marker(duration)
                } else {
                    AnimationEntry::new(fi, duration)
                };
                t.push(e);
                k = k + 1;
                assert(t@ =~= Seq::new(
                    k as nat,
                    |j: int| anim_entry_at(data@, start + ANIM_ENTRY_SIZE * j),
                ));
            }
            Some(t)
        } else {
            None
        };
        Ok(File { frames, animation_sequences, animation_index_table, header })
    }

    /// Reads a file from the rest of the reader's data.
    pub fn from_reader(reader: &mut ByteReader) -> (r: Result<Self, DvFileError>)
        ensures
            final(reader).spec_data() == old(reader).spec_data(),
            File::parsed_from(
                if old(reader).spec_pos() <= old(reader).spec_data().len() {
                    old(reader).spec_data().subrange(
                        old(reader).spec_pos() as int,
                        old(reader).spec_data().len() as int,
                    )
                } else {
                    Seq::<u8>::empty()
                },
                r,
            ),
    {
        let data = reader.read_to_end();
        File::from_bytes(data.as_slice())
    }
}

impl Default for File {
    fn default() -> (r: Self)
        ensures
            r.spec_frames() == Seq::<Frame>::empty(),
            r.spec_sequences() is None,
            r.spec_table() is None,
            r.spec_header() == Seq::new(HEADER_SIZE as nat, |i: int| 0u8),
    {
        File::new()
    }
}

/// The number of pixels of the first `n` frames.
fn bitmap_total(frames: &Vec<Frame>, n: usize) -> (r: usize)
    requires
        n <= frames@.len(),
        total_pixels(frames@) <= usize::MAX,
    ensures
        r == total_pixels(frames@.subrange(0, n as int)),
{
    let mut total: usize = 0;
    let mut i: usize = 0;
    while i < n
        invariant
            i <= n,
            n <= frames@.len(),
            total_pixels(frames@) <= usize::MAX,
            total == total_pixels(frames@.subrange(0, i as int)),
        decreases n - i,
    {
        proof {
            lemma_total_prefix(frames@, i as int);
            lemma_total_prefix(frames@, i + 1);
        }
        total = total + frames[i].pixel_count();
        i = i + 1;
    }
    total
}

/// The number of pixels of all frames.
pub(crate) fn bitmap_total_of(frames: &Vec<Frame>) -> (r: usize)
    requires
        total_pixels(frames@) <= usize::MAX,
    ensures
        r == total_pixels(frames@),
{
    let r = bitmap_total(frames, frames.len());
    assert(frames@.subrange(0, frames@.len() as int) =~= frames@);
    r
}

/// A file from its parts.
pub(crate) fn mfd_file_parts(
    frames: Vec<Frame>,
    animation_sequences: Option<Vec<u32>>,
    animation_index_table: Option<Vec<AnimationEntry>>,
    header: [u8; 16],
) -> (r: File)
    ensures
        r.spec_frames() == frames@,
        r.spec_sequences() == match animation_sequences {
            Some(v) => Some(v@),
            None => None::<Seq<u32>>,
        },
        r.spec_table() == match animation_index_table {
            Some(v) => Some(v@),
            None => None::<Seq<AnimationEntry>>,
        },
        r.spec_header() == header@,
{
    File { frames, animation_sequences, animation_index_table, header }
}

/// The pixels of one frame are at most the pixels of all frames.
pub proof fn lemma_total_suffix_bound(fs: Seq<Frame>, index: int)
    requires
        0 <= index < fs.len(),
    ensures
        fs[index].spec_width() * fs[index].spec_height() <= total_pixels(fs),
        0 <= fs[index].spec_width() * fs[index].spec_height(),
    decreases fs.len(),
{
    assert(0 <= fs[index].spec_width() * fs[index].spec_height()) by (nonlinear_arith);
    if index < fs.len() - 1 {
        lemma_total_suffix_bound(fs.drop_last(), index);
        assert(0 <= fs.last().spec_width() * fs.last().spec_height()) by (nonlinear_arith);
    } else {
        lemma_total_prefix(fs.drop_last(), fs.len() - 1);
        assert(fs.drop_last().subrange(0, fs.len() - 1) =~= fs.drop_last());
    }
}

} // verus!

//! Building cursor animation files: collecting frames and animation data,
//! then filling in the header.

use vstd::prelude::*;

use super::super::error::{DvFileError, FileType};
use super::super::le::{push_u32, u32_at, u32_bytes, write_at};
use super::frame::Frame;
use super::mfd_file_parts;
use super::{bitmap_total_of, lemma_total_prefix, overwrite, total_pixels, AnimationEntry, File};

verus! {

/// The most pixels a builder accepts for all its frames.
pub const BUILDER_MAX_BITMAP: usize = 1048576;

/// The header of a built file: the given header with the metadata offset
/// set to the bitmap total, and the animation count, frame count and
/// animation table entry count set from the builder's data.
pub open spec fn built_header(
    h: Seq<u8>,
    total: int,
    anim_count: int,
    frame_count: int,
    table_count: int,
) -> Seq<u8> {
    overwrite(
        overwrite(
            overwrite(overwrite(h, 0, u32_bytes(total as u32)), 4, u32_bytes(anim_count as u32)),
            8,
            u32_bytes(frame_count as u32),
        ),
        12,
        u32_bytes(table_count as u32),
    )
}

/// Builder of cursor animation files.
#[derive(Debug, Clone)]
pub struct FileBuilder {
    frames: Vec<Frame>,
    animation_sequences: Option<Vec<u32>>,
    animation_index_table: Option<Vec<AnimationEntry>>,
    header: [u8; 16],
}

impl FileBuilder {
    /// The frames.
    pub closed spec fn spec_frames(&self) -> Seq<Frame> {
        self.frames@
    }

    /// The animation sequence starts, if any.
    pub closed spec fn spec_sequences(&self) -> Option<Seq<u32>> {
        match self.animation_sequences {
            Some(v) => Some(v@),
            None => None,
        }
    }

    /// The animation index table, if any.
    pub closed spec fn spec_table(&self) -> Option<Seq<AnimationEntry>> {
        match self.animation_index_table {
            Some(v) => Some(v@),
            None => None,
        }
    }

    /// The header bytes to start from.
    pub closed spec fn spec_header(&self) -> Seq<u8> {
        self.header@
    }

    /// The header to start from has 16 bytes.
    pub proof fn lemma_header_len(&self)
        ensures
            self.spec_header().len() == 16,
    {
    }

    /// The frames hold at most the accepted number of pixels.
    pub open spec fn wf(&self) -> bool {
        total_pixels(self.spec_frames()) <= BUILDER_MAX_BITMAP
    }

    /// An empty builder with a zero header.
    pub fn new() -> (r: Self)
        ensures
            r.wf(),
            r.spec_frames() == Seq::<Frame>::empty(),
            r.spec_sequences() is None,
            r.spec_table() is None,
            r.spec_header() == Seq::new(16, |i: int| 0u8),
    {
        let r = FileBuilder {
            frames: Vec::new(),
            animation_sequences: None,
            animation_index_table: None,
            header: [0u8; 16],
        };
        assert(r.header@ =~= Seq::new(16, |i: int| 0u8));
        r
    }

    /// Appends a frame, if all frames then hold at most 1 MiB of pixels.
    pub fn add_frame(&mut self, frame: Frame) -> (r: Result<(), DvFileError>)
        requires
            old(self).wf(),
        ensures
            final(self).wf(),
            final(self).spec_sequences() == old(self).spec_sequences(),
            final(self).spec_table() == old(self).spec_table(),
            final(self).spec_header() == old(self).spec_header(),
            ({
                let n = total_pixels(old(self).spec_frames()) + frame.spec_width()
                    * frame.spec_height();
                &&& n <= BUILDER_MAX_BITMAP ==> r is Ok && final(self).spec_frames() == old(self).spec_frames().push(frame)
                &&& n > BUILDER_MAX_BITMAP ==> r == Err::<(), DvFileError>(
                    DvFileError::FileTooLarge {
                        file_type: FileType::Mfd,
                        size: n as usize,
                        blocks_needed: n as usize,
                        blocks_available: BUILDER_MAX_BITMAP,
                    },
                ) && final(self).spec_frames() == old(self).spec_frames()
            }),
    {
        let current = bitmap_total_of(&self.frames);
        proof {
            assert(frame.spec_width() * frame.spec_height() <= 0xFFFFu64 * 0xFFFFu64)
                by (nonlinear_arith)
                requires
                    frame.spec_width() <= 0xFFFFu64,
                    frame.spec_height() <= 0xFFFFu64,
            ;
        }
        let new_size: u64 = current as u64 + frame.pixel_count() as u64;
        if new_size > BUILDER_MAX_BITMAP as u64 {
            return Err(
                DvFileError::FileTooLarge {
                    file_type: FileType::Mfd,
                    size: new_size as usize,
                    blocks_needed: new_size as usize,
                    blocks_available: BUILDER_MAX_BITMAP,
                },
            );
        }
        let ghost before = self.frames@;
        self.frames.push(frame);
        proof {
            assert(self.frames@.drop_last() =~= before);
        }
        Ok(())
    }

    /// Appends frames in order, stopping at the first one that does not fit.
    pub fn add_frames(&mut self, frames: Vec<Frame>) -> (r: Result<(), DvFileError>)
        requires
            old(self).wf(),
        ensures
            final(self).wf(),
            final(self).spec_sequences() == old(self).spec_sequences(),
            final(self).spec_table() == old(self).spec_table(),
            final(self).spec_header() == old(self).spec_header(),
            exists|k: int|
                0 <= k <= frames@.len() && final(self).spec_frames() == old(self).spec_frames()
                    + frames@.subrange(0, k) && (k == frames@.len() <==> r is Ok),
    {
        let ghost start = self.frames@;
        let ghost all = frames@;
        let _n = frames.len();
        let mut rest = frames;
        let mut i: usize = 0;
        while rest.len() > 0
            invariant
                i + rest@.len() == all.len(),
                all.len() <= usize::MAX,
                all == frames@,
                rest@ == all.subrange(i as int, all.len() as int),
                self.wf(),
                self.spec_sequences() == old(self).spec_sequences(),
                self.spec_table() == old(self).spec_table(),
                self.spec_header() == old(self).spec_header(),
                start == old(self).spec_frames(),
                self.spec_frames() == start + all.subrange(0, i as int),
            decreases rest@.len(),
        {
            let f = rest.remove(0);
            match self.add_frame(f) {
                Ok(()) => {},
                Err(e) => {
                    assert(self.spec_frames() == old(self).spec_frames() + frames@.subrange(
                        0,
                        i as int,
                    ));
                    return Err(e);
                },
            }
            assert(all.subrange(0, i + 1) =~= all.subrange(0, i as int).push(f));
            i = i + 1;
            assert(rest@ =~= all.subrange(i as int, all.len() as int));
        }
        assert(all.subrange(0, all.len() as int) =~= all);
        Ok(())
    }

    /// The number of frames.
    pub fn frame_count(&self) -> (r: usize)
        ensures
            r == self.spec_frames().len(),
    {
        self.frames.len()
    }

    /// The number of pixels of all frames.
    pub fn bitmap_size(&self) -> (r: usize)
        requires
            self.wf(),
        ensures
            r == total_pixels(self.spec_frames()),
    {
        bitmap_total_of(&self.frames)
    }

    /// Removes all frames and animation data; the header stays.
    pub fn clear(&mut self)
        ensures
            final(self).wf(),
            final(self).spec_frames() == Seq::<Frame>::empty(),
            final(self).spec_sequences() is None,
            final(self).spec_table() is None,
            final(self).spec_header() == old(self).spec_header(),
    {
        self.frames.clear();
        self.animation_sequences = None;
        self.animation_index_table = None;
    }

    /// Sets the animation sequence starts.
    pub fn animation_sequences(&mut self, sequences: Vec<u32>)
        ensures
            final(self).spec_sequences() == Some(sequences@),
            final(self).spec_frames() == old(self).spec_frames(),
            final(self).spec_table() == old(self).spec_table(),
            final(self).spec_header() == old(self).spec_header(),
    {
        self.animation_sequences = Some(sequences);
    }

    /// Sets the animation index table.
    pub fn animation_index_table(&mut self, table: Vec<AnimationEntry>)
        ensures
            final(self).spec_table() == Some(table@),
            final(self).spec_frames() == old(self).spec_frames(),
            final(self).spec_sequences() == old(self).spec_sequences(),
            final(self).spec_header() == old(self).spec_header(),
    {
        self.animation_index_table = Some(table);
    }

    /// Same as [`FileBuilder::animation_index_table`].
    pub fn animation_metadata(&mut self, metadata: Vec<AnimationEntry>)
        ensures
            final(self).spec_table() == Some(metadata@),
            final(self).spec_frames() == old(self).spec_frames(),
            final(self).spec_sequences() == old(self).spec_sequences(),
            final(self).spec_header() == old(self).spec_header(),
    {
        self.animation_index_table(metadata);
    }

    /// Removes the animation data.
    pub fn clear_animation_data(&mut self)
        ensures
            final(self).spec_sequences() is None,
            final(self).spec_table() is None,
            final(self).spec_frames() == old(self).spec_frames(),
            final(self).spec_header() == old(self).spec_header(),
    {
        self.animation_sequences = None;
        self.animation_index_table = None;
    }

    /// Sets the header to start from.
    pub fn header(&mut self, header: [u8; 16])
        ensures
            final(self).spec_header() == header@,
            final(self).spec_frames() == old(self).spec_frames(),
            final(self).spec_sequences() == old(self).spec_sequences(),
            final(self).spec_table() == old(self).spec_table(),
    {
        self.header = header;
    }

    /// The header to start from.
    pub fn get_header(&self) -> (r: &[u8; 16])
        ensures
            r@ == self.spec_header(),
    {
        &self.header
    }

    /// The file: the frames and animation data, and the header with the
    /// metadata offset set to the bitmap total and the three counts set.
    pub fn build(self) -> (r: Result<File, DvFileError>)
        requires
            self.wf(),
        ensures
            ({
                let total = total_pixels(self.spec_frames());
                let ac = match self.spec_sequences() {
                    Some(s) => s.len() as int,
                    None => 0,
                };
                let tc = match self.spec_table() {
                    Some(t) => t.len() as int,
                    None => 0,
                };
                r matches Ok(f) && f.spec_frames() == self.spec_frames() && f.spec_sequences()
                    == self.spec_sequences() && f.spec_table() == self.spec_table()
                    && f.spec_header() == built_header(
                    self.spec_header(),
                    total,
                    ac,
                    self.spec_frames().len() as int,
                    tc,
                )
            }),
    {
        let total = bitmap_total_of(&self.frames);
        let mut header = self.header;
        let ac: usize = match &self.animation_sequences {
            Some(s) => s.len(),
            None => 0,
        };
        let tc: usize = match &self.animation_index_table {
            Some(t) => t.len(),
            None => 0,
        };
        let fc = self.frames.len();
        let mut h: Vec<u8> = header_vec(&header);
        let mut b: Vec<u8> = Vec::new();
        push_u32(&mut b, total as u32);
        write_at(&mut h, 0, b.as_slice());
        let mut b: Vec<u8> = Vec::new();
        push_u32(&mut b, ac as u32);
        write_at(&mut h, 4, b.as_slice());
        let mut b: Vec<u8> = Vec::new();
        push_u32(&mut b, fc as u32);
        write_at(&mut h, 8, b.as_slice());
        let mut b: Vec<u8> = Vec::new();
        push_u32(&mut b, tc as u32);
        write_at(&mut h, 12, b.as_slice());
        let mut k: usize = 0;
        while k < 16
            invariant
                k <= 16,
                h@.len() == 16,
                header@.len() == 16,
                forall|j: int| 0 <= j < k ==> header@[j] == h@[j],
            decreases 16 - k,
        {
            header[k] = h[k];
            k = k + 1;
        }
        assert(header@ =~= h@);
        Ok(mfd_file_parts(self.frames, self.animation_sequences, self.animation_index_table, header))
    }
}

impl Default for FileBuilder {
    fn default() -> (r: Self)
        ensures
            r.wf(),
            r.spec_frames() == Seq::<Frame>::empty(),
            r.spec_sequences() is None,
            r.spec_table() is None,
            r.spec_header() == Seq::new(16, |i: int| 0u8),
    {
        FileBuilder::new()
    }
}

/// The 16 header bytes as a vector.
fn header_vec(header: &[u8; 16]) -> (r: Vec<u8>)
    ensures
        r@ == header@,
{
    let mut v: Vec<u8> = Vec::new();
    let mut k: usize = 0;
    while k < 16
        invariant
            k <= 16,
            header@.len() == 16,
            v@ == header@.subrange(0, k as int),
        decreases 16 - k,
    {
        v.push(header[k]);
        k = k + 1;
        assert(v@ =~= header@.subrange(0, k as int));
    }
    assert(header@.subrange(0, 16) =~= header@);
    v
}

} // verus!

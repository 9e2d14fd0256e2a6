//! Where the serialised file puts each part, and what reading it back gives.

use vstd::prelude::*;

use super::super::error::DvFileError;
use super::super::le::{
    i16_at, i16_bytes, lemma_i16_roundtrip, lemma_u16_roundtrip, lemma_u32_roundtrip, u16_at, u16_bytes, u32_at,
    u32_bytes,
};
use super::builder::{built_header, FileBuilder, BUILDER_MAX_BITMAP};
use super::constants::{
    ANIM_ENTRY_SIZE, ANIM_SEQ_ENTRY_SIZE, BITMAP_DATA_START, FRAME_COUNT_OFFSET, GLYPH_ENTRY_SIZE,
    HEADER_SIZE, LOOP_MARKER,
};
use super::{
    anim_entry_at, anims_of, bitmap_end, first_bad_frame, frame_is, is_frame_at, seqs_of,
    anim_entry_bytes, glyph_bytes, glyph_start, lemma_total_prefix, metadata_start, overwrite,
    total_pixels, write_anims, write_frames, write_seqs, AnimationEntry, File, Frame,
};

verus! {

/// Writing `b` at `off` keeps the length and changes only the bytes from
/// `off` to `off + b.len()`.
pub proof fn lemma_overwrite(d: Seq<u8>, off: int, b: Seq<u8>)
    requires
        0 <= off,
        off + b.len() <= d.len(),
    ensures
        overwrite(d, off, b).len() == d.len(),
        forall|j: int|
            0 <= j < d.len() ==> #[trigger] overwrite(d, off, b)[j] == if off <= j < off + b.len() {
                b[j - off]
            } else {
                d[j]
            },
{
}

/// Where the bitmap of frame `i` starts, counted from the bitmap area.
pub open spec fn bitmap_offset(fs: Seq<Frame>, i: int) -> int {
    total_pixels(fs.subrange(0, i))
}

/// The glyph table entry of frame `i`.
pub open spec fn glyph_entry(fs: Seq<Frame>, i: int) -> Seq<u8> {
    glyph_bytes(fs[i], bitmap_offset(fs, i) as u32)
}

/// Bitmap offsets grow with the frame index, each by its frame's pixels.
proof fn lemma_offsets_grow(fs: Seq<Frame>, i: int, k: int)
    requires
        0 <= i <= k <= fs.len(),
    ensures
        0 <= bitmap_offset(fs, i) <= bitmap_offset(fs, k) <= total_pixels(fs),
        i < k ==> bitmap_offset(fs, i) + fs[i].spec_width() * fs[i].spec_height() <= bitmap_offset(
            fs,
            k,
        ),
{
    let p = fs.subrange(0, k);
    lemma_total_prefix(fs, k);
    lemma_total_prefix(p, i);
    assert(p.subrange(0, i) =~= fs.subrange(0, i));
    if i < k {
        lemma_total_prefix(p, i + 1);
        lemma_total_prefix(fs, i);
        assert(p.subrange(0, i + 1) =~= fs.subrange(0, i + 1));
    }
}

/// What writing the bitmaps and glyph entries of the first `k` frames does:
/// each bitmap lands at its offset, each entry in its table slot, and every
/// other byte stays.
proof fn lemma_write_frames(d: Seq<u8>, fs: Seq<Frame>, g: int, k: int)
    requires
        0 <= k <= fs.len(),
        forall|i: int| 0 <= i < fs.len() ==> #[trigger] fs[i].wf(),
        BITMAP_DATA_START + total_pixels(fs) <= g,
        g + GLYPH_ENTRY_SIZE * fs.len() <= d.len(),
    ensures
        write_frames(d, fs, g, k).len() == d.len(),
        forall|j: int|
            0 <= j < d.len() && !(BITMAP_DATA_START <= j < BITMAP_DATA_START + bitmap_offset(fs, k))
                && !(g <= j < g + GLYPH_ENTRY_SIZE * k) ==> #[trigger] write_frames(d, fs, g, k)[j]
                == d[j],
        forall|i: int, m: int|
            #![trigger fs[i].spec_pixels()[m]]
            0 <= i < k && 0 <= m < fs[i].spec_pixels().len() ==> write_frames(d, fs, g, k)[BITMAP_DATA_START
                + bitmap_offset(fs, i) + m] == fs[i].spec_pixels()[m],
        forall|i: int, m: int|
            #![trigger glyph_entry(fs, i)[m]]
            0 <= i < k && 0 <= m < GLYPH_ENTRY_SIZE ==> write_frames(d, fs, g, k)[g + GLYPH_ENTRY_SIZE * i
                + m] == glyph_entry(fs, i)[m],
    decreases k,
{
    if k > 0 {
        lemma_write_frames(d, fs, g, k - 1);
        let w = write_frames(d, fs, g, k - 1);
        let bo = bitmap_offset(fs, k - 1);
        let px = fs[k - 1].spec_pixels();
        assert(fs[k - 1].wf());
        lemma_offsets_grow(fs, k - 1, k);
        lemma_offsets_grow(fs, k, fs.len() as int);
        let w1 = overwrite(w, BITMAP_DATA_START + bo, px);
        lemma_overwrite(w, BITMAP_DATA_START + bo, px);
        let gb = glyph_entry(fs, k - 1);
        assert(gb.len() == GLYPH_ENTRY_SIZE);
        lemma_overwrite(w1, g + GLYPH_ENTRY_SIZE * (k - 1), gb);
        assert(write_frames(d, fs, g, k) == overwrite(w1, g + GLYPH_ENTRY_SIZE * (k - 1), gb));
        assert forall|i: int, m: int|
            #![trigger fs[i].spec_pixels()[m]]
            0 <= i < k && 0 <= m < fs[i].spec_pixels().len() implies write_frames(d, fs, g, k)[BITMAP_DATA_START
                + bitmap_offset(fs, i) + m] == fs[i].spec_pixels()[m] by {
            assert(fs[i].wf());
            lemma_offsets_grow(fs, i, k);
            lemma_offsets_grow(fs, i, k - 1);
        }
    }
}

/// What writing the first `k` sequence starts at `off` does: each start
/// lands in its slot and every other byte stays.
proof fn lemma_write_seqs(d: Seq<u8>, seqs: Seq<u32>, off: int, k: int)
    requires
        0 <= k <= seqs.len(),
        0 <= off,
        off + ANIM_SEQ_ENTRY_SIZE * seqs.len() <= d.len(),
    ensures
        write_seqs(d, seqs, off, k).len() == d.len(),
        forall|j: int|
            0 <= j < d.len() && !(off <= j < off + ANIM_SEQ_ENTRY_SIZE * k) ==> #[trigger] write_seqs(
                d,
                seqs,
                off,
                k,
            )[j] == d[j],
        forall|i: int, m: int|
            #![trigger u32_bytes(seqs[i])[m]]
            0 <= i < k && 0 <= m < ANIM_SEQ_ENTRY_SIZE ==> write_seqs(d, seqs, off, k)[off
                + ANIM_SEQ_ENTRY_SIZE * i + m] == u32_bytes(seqs[i])[m],
    decreases k,
{
    if k > 0 {
        lemma_write_seqs(d, seqs, off, k - 1);
        lemma_overwrite(write_seqs(d, seqs, off, k - 1), off + ANIM_SEQ_ENTRY_SIZE * (k - 1), u32_bytes(seqs[k - 1]));
    }
}

/// What writing the first `k` animation index entries at `off` does: each
/// entry lands in its slot and every other byte stays.
proof fn lemma_write_anims(d: Seq<u8>, t: Seq<AnimationEntry>, off: int, k: int)
    requires
        0 <= k <= t.len(),
        0 <= off,
        off + ANIM_ENTRY_SIZE * t.len() <= d.len(),
    ensures
        write_anims(d, t, off, k).len() == d.len(),
        forall|j: int|
            0 <= j < d.len() && !(off <= j < off + ANIM_ENTRY_SIZE * k) ==> #[trigger] write_anims(
                d,
                t,
                off,
                k,
            )[j] == d[j],
        forall|i: int, m: int|
            #![trigger anim_entry_bytes(t[i])[m]]
            0 <= i < k && 0 <= m < ANIM_ENTRY_SIZE ==> write_anims(d, t, off, k)[off + ANIM_ENTRY_SIZE * i
                + m] == anim_entry_bytes(t[i])[m],
    decreases k,
{
    if k > 0 {
        lemma_write_anims(d, t, off, k - 1);
        lemma_overwrite(write_anims(d, t, off, k - 1), off + ANIM_ENTRY_SIZE * (k - 1), anim_entry_bytes(t[k - 1]));
    }
}

/// The header that serialising writes: the stored header with the frame
/// count field set to the number of frames.
pub open spec fn written_header(f: File) -> Seq<u8> {
    overwrite(f.spec_header(), FRAME_COUNT_OFFSET as int, u32_bytes(f.spec_frames().len() as u32))
}

/// The bytes after writing the header, the frame count, the bitmaps and
/// the glyph table.
pub open spec fn frames_written(f: File) -> Seq<u8> {
    let h = f.spec_header();
    let fs = f.spec_frames();
    let init = overwrite(
        overwrite(Seq::new(f.spec_file_size() as nat, |i: int| 0u8), 0, h),
        FRAME_COUNT_OFFSET as int,
        u32_bytes(fs.len() as u32),
    );
    write_frames(init, fs, glyph_start(h), fs.len() as int)
}

/// The bytes after also writing the animation sequence starts.
pub open spec fn seqs_written(f: File) -> Seq<u8> {
    match f.spec_sequences() {
        Some(sq) => write_seqs(frames_written(f), sq, metadata_start(f.spec_header()), sq.len() as int),
        None => frames_written(f),
    }
}

/// Where the sequence starts end.
pub open spec fn seqs_end(f: File) -> int {
    metadata_start(f.spec_header()) + ANIM_SEQ_ENTRY_SIZE * match f.spec_sequences() {
        Some(sq) => sq.len() as int,
        None => 0,
    }
}

/// Where the glyph table ends and the animation index table starts.
pub open spec fn table_start(f: File) -> int {
    glyph_start(f.spec_header()) + GLYPH_ENTRY_SIZE * f.spec_frames().len()
}

/// The conditions under which the parts do not overlap: serialising can
/// run, the bitmaps fit before the metadata and the header leaves room for
/// every sequence start.
pub open spec fn parts_fit(f: File) -> bool {
    &&& f.can_serialise()
    &&& total_pixels(f.spec_frames()) <= f.spec_max_bitmap()
    &&& f.spec_sequences() matches Some(s) ==> s.len() <= u32_at(f.spec_header(), 4)
}

/// After the frames are written: the header with its frame count, each
/// glyph entry and each bitmap are in place.
proof fn lemma_frames_written(f: File)
    requires
        parts_fit(f),
    ensures
        frames_written(f).len() == f.spec_file_size(),
        forall|j: int| 0 <= j < HEADER_SIZE ==> #[trigger] frames_written(f)[j] == written_header(f)[j],
        forall|i: int, m: int|
            #![trigger glyph_entry(f.spec_frames(), i)[m]]
            0 <= i < f.spec_frames().len() && 0 <= m < GLYPH_ENTRY_SIZE ==> frames_written(f)[glyph_start(
                f.spec_header(),
            ) + GLYPH_ENTRY_SIZE * i + m] == glyph_entry(f.spec_frames(), i)[m],
        forall|i: int, m: int|
            #![trigger f.spec_frames()[i].spec_pixels()[m]]
            0 <= i < f.spec_frames().len() && 0 <= m < f.spec_frames()[i].spec_pixels().len()
                ==> frames_written(f)[BITMAP_DATA_START + bitmap_offset(f.spec_frames(), i) + m]
                == f.spec_frames()[i].spec_pixels()[m],
{
    let h = f.spec_header();
    let fs = f.spec_frames();
    let n = fs.len() as int;
    let size = f.spec_file_size();
    f.lemma_header_len();
    let d0 = Seq::new(size as nat, |i: int| 0u8);
    let d1 = overwrite(d0, 0, h);
    lemma_overwrite(d0, 0, h);
    let d2 = overwrite(d1, FRAME_COUNT_OFFSET as int, u32_bytes(n as u32));
    lemma_overwrite(d1, FRAME_COUNT_OFFSET as int, u32_bytes(n as u32));
    lemma_overwrite(h, FRAME_COUNT_OFFSET as int, u32_bytes(n as u32));
    lemma_write_frames(d2, fs, glyph_start(h), n);
}

/// Writing the sequence starts puts each in its slot and keeps every byte
/// outside them.
proof fn lemma_seqs_written(f: File)
    requires
        parts_fit(f),
    ensures
        seqs_written(f).len() == f.spec_file_size(),
        forall|j: int|
            0 <= j < f.spec_file_size() && !(metadata_start(f.spec_header()) <= j < seqs_end(f))
                ==> #[trigger] seqs_written(f)[j] == frames_written(f)[j],
        f.spec_sequences() matches Some(sq) ==> forall|i: int, m: int|
            #![trigger u32_bytes(sq[i])[m]]
            0 <= i < sq.len() && 0 <= m < ANIM_SEQ_ENTRY_SIZE ==> seqs_written(f)[metadata_start(
                f.spec_header(),
            ) + ANIM_SEQ_ENTRY_SIZE * i + m] == u32_bytes(sq[i])[m],
        seqs_end(f) <= glyph_start(f.spec_header()),
{
    lemma_frames_written(f);
    match f.spec_sequences() {
        Some(sq) => {
            lemma_write_seqs(frames_written(f), sq, metadata_start(f.spec_header()), sq.len() as int);
        },
        None => {},
    }
}

/// Writing the animation index table puts each entry in its slot and keeps
/// every byte before the table.
proof fn lemma_table_written(f: File)
    requires
        parts_fit(f),
    ensures
        f.spec_bytes().len() == f.spec_file_size(),
        forall|j: int| 0 <= j < table_start(f) ==> #[trigger] f.spec_bytes()[j] == seqs_written(f)[j],
        f.spec_table() matches Some(t) ==> forall|i: int, m: int|
            #![trigger anim_entry_bytes(t[i])[m]]
            0 <= i < t.len() && 0 <= m < ANIM_ENTRY_SIZE ==> f.spec_bytes()[table_start(f) + ANIM_ENTRY_SIZE
                * i + m] == anim_entry_bytes(t[i])[m],
{
    lemma_seqs_written(f);
    assert(f.spec_bytes() == match f.spec_table() {
        Some(t) => write_anims(seqs_written(f), t, table_start(f), t.len() as int),
        None => seqs_written(f),
    });
    match f.spec_table() {
        Some(t) => {
            lemma_write_anims(seqs_written(f), t, table_start(f), t.len() as int);
        },
        None => {},
    }
}

/// Reading a glyph table entry gives the frame's size, hotspot and bitmap
/// offset.
proof fn lemma_glyph_read(d: Seq<u8>, p: int, fr: Frame, bo: u32)
    requires
        0 <= p,
        p + GLYPH_ENTRY_SIZE <= d.len(),
        d.subrange(p, p + GLYPH_ENTRY_SIZE) == glyph_bytes(fr, bo),
    ensures
        u16_at(d, p) == fr.spec_width(),
        u16_at(d, p + 2) == fr.spec_height(),
        i16_at(d, p + 4) == fr.spec_x_offset(),
        i16_at(d, p + 6) == fr.spec_y_offset(),
        u32_at(d, p + 8) == bo,
{
    let gb = glyph_bytes(fr, bo);
    assert(d.subrange(p, p + 2) =~= gb.subrange(0, 2));
    assert(gb.subrange(0, 2) =~= u16_bytes(fr.spec_width()));
    assert(d.subrange(p + 2, p + 4) =~= gb.subrange(2, 4));
    assert(gb.subrange(2, 4) =~= u16_bytes(fr.spec_height()));
    assert(d.subrange(p + 4, p + 6) =~= gb.subrange(4, 6));
    assert(gb.subrange(4, 6) =~= i16_bytes(fr.spec_x_offset()));
    assert(d.subrange(p + 6, p + 8) =~= gb.subrange(6, 8));
    assert(gb.subrange(6, 8) =~= i16_bytes(fr.spec_y_offset()));
    assert(d.subrange(p + 8, p + 12) =~= gb.subrange(8, 12));
    assert(gb.subrange(8, 12) =~= u32_bytes(bo));
    lemma_u16_roundtrip(fr.spec_width(), d, p);
    lemma_u16_roundtrip(fr.spec_height(), d, p + 2);
    lemma_i16_roundtrip(fr.spec_x_offset(), d, p + 4);
    lemma_i16_roundtrip(fr.spec_y_offset(), d, p + 6);
    lemma_u32_roundtrip(bo, d, p + 8);
}

/// The header read back is the written header: the same metadata offset
/// and animation count, and the number of frames as the frame count.
proof fn lemma_header_read(f: File)
    requires
        parts_fit(f),
        f.spec_frames().len() <= u32::MAX,
    ensures
        f.spec_bytes().subrange(0, HEADER_SIZE as int) == written_header(f),
        u32_at(written_header(f), 0) == u32_at(f.spec_header(), 0),
        u32_at(written_header(f), 4) == u32_at(f.spec_header(), 4),
        u32_at(written_header(f), 8) == f.spec_frames().len(),
        glyph_start(written_header(f)) == glyph_start(f.spec_header()),
        metadata_start(written_header(f)) == metadata_start(f.spec_header()),
{
    let d = f.spec_bytes();
    let h = f.spec_header();
    let wh = written_header(f);
    f.lemma_header_len();
    lemma_frames_written(f);
    lemma_seqs_written(f);
    lemma_table_written(f);
    lemma_overwrite(h, FRAME_COUNT_OFFSET as int, u32_bytes(f.spec_frames().len() as u32));
    assert forall|j: int| 0 <= j < HEADER_SIZE implies d[j] == wh[j] by {
        assert(d[j] == seqs_written(f)[j]);
        assert(seqs_written(f)[j] == frames_written(f)[j]);
    }
    assert(d.subrange(0, HEADER_SIZE as int) =~= wh);
    assert(wh.subrange(8, 12) =~= u32_bytes(f.spec_frames().len() as u32));
    lemma_u32_roundtrip(f.spec_frames().len() as u32, wh, 8);
}

/// Reading glyph entry `i` back gives frame `i`: its size, hotspot and
/// bitmap, which lies within the data.
proof fn lemma_frame_read(f: File, i: int)
    requires
        parts_fit(f),
        0 <= i < f.spec_frames().len(),
    ensures
        bitmap_end(f.spec_bytes(), glyph_start(f.spec_header()), i) <= f.spec_bytes().len(),
        forall|x: Frame|
            is_frame_at(x, f.spec_bytes(), glyph_start(f.spec_header()), i) ==> frame_is(
                x,
                f.spec_frames()[i].spec_width(),
                f.spec_frames()[i].spec_height(),
                f.spec_frames()[i].spec_x_offset(),
                f.spec_frames()[i].spec_y_offset(),
                f.spec_frames()[i].spec_pixels(),
            ),
{
    let d = f.spec_bytes();
    let h = f.spec_header();
    let fs = f.spec_frames();
    let fr = fs[i];
    let g = glyph_start(h);
    let off = g + GLYPH_ENTRY_SIZE * i;
    let n = fs.len() as int;
    lemma_frames_written(f);
    lemma_seqs_written(f);
    lemma_table_written(f);
    lemma_offsets_grow(fs, i, n);
    assert(fr.wf());
    let bo = bitmap_offset(fs, i);
    assert forall|m: int| 0 <= m < GLYPH_ENTRY_SIZE implies d[off + m] == glyph_entry(fs, i)[m] by {
        assert(d[off + m] == seqs_written(f)[off + m]);
        assert(seqs_written(f)[off + m] == frames_written(f)[off + m]);
    }
    assert(d.subrange(off, off + GLYPH_ENTRY_SIZE) =~= glyph_entry(fs, i));
    lemma_glyph_read(d, off, fr, bo as u32);
    assert(bo as u32 as int == bo);
    assert forall|m: int| 0 <= m < fr.spec_pixels().len() implies d[BITMAP_DATA_START + bo + m]
        == fr.spec_pixels()[m] by {
        let j = BITMAP_DATA_START + bo + m;
        assert(d[j] == seqs_written(f)[j]);
        assert(seqs_written(f)[j] == frames_written(f)[j]);
    }
    assert(bitmap_end(d, g, i) == BITMAP_DATA_START + bo + fr.spec_pixels().len());
    assert(d.subrange(BITMAP_DATA_START + u32_at(d, off + 8), bitmap_end(d, g, i)) =~= fr.spec_pixels());
}

/// No frame runs past the data when none from `i` on does.
proof fn lemma_no_bad_frame(d: Seq<u8>, g: int, count: int, i: int)
    requires
        forall|k: int| i <= k < count ==> #[trigger] bitmap_end(d, g, k) <= d.len(),
    ensures
        first_bad_frame(d, g, count, i) is None,
    decreases count - i,
{
    if i < count {
        assert(bitmap_end(d, g, i) <= d.len());
        lemma_no_bad_frame(d, g, count, i + 1);
    }
}

/// Reading the sequence starts back gives the stored ones, when the header
/// counts exactly as many (and some).
proof fn lemma_seqs_read(f: File)
    requires
        parts_fit(f),
        match f.spec_sequences() {
            Some(sq) => sq.len() == u32_at(f.spec_header(), 4) && sq.len() > 0,
            None => u32_at(f.spec_header(), 4) == 0,
        },
    ensures
        seqs_of(f.spec_bytes(), metadata_start(f.spec_header()), u32_at(f.spec_header(), 4) as int)
            == f.spec_sequences(),
{
    let d = f.spec_bytes();
    let ms = metadata_start(f.spec_header());
    lemma_frames_written(f);
    lemma_seqs_written(f);
    lemma_table_written(f);
    match f.spec_sequences() {
        Some(sq) => {
            assert forall|i: int| 0 <= i < sq.len() implies u32_at(d, ms + ANIM_SEQ_ENTRY_SIZE * i)
                == #[trigger] sq[i] by {
                let p = ms + ANIM_SEQ_ENTRY_SIZE * i;
                assert forall|m: int| 0 <= m < ANIM_SEQ_ENTRY_SIZE implies d[p + m] == u32_bytes(sq[i])[m] by {
                    assert(d[p + m] == seqs_written(f)[p + m]);
                }
                assert(d.subrange(p, p + 4) =~= u32_bytes(sq[i]));
                lemma_u32_roundtrip(sq[i], d, p);
            }
            assert(Seq::new(sq.len(), |i: int| u32_at(d, ms + ANIM_SEQ_ENTRY_SIZE * i)) =~= sq);
        },
        None => {},
    }
}

/// Reading the animation index table back gives the stored one, when it
/// has entries and none shows the frame whose index marks a loop.
proof fn lemma_table_read(f: File)
    requires
        parts_fit(f),
        f.spec_table() matches Some(t) ==> t.len() > 0 && forall|i: int|
            0 <= i < t.len() ==> (#[trigger] t[i]).frame_index != Some(LOOP_MARKER),
    ensures
        anims_of(f.spec_bytes(), table_start(f)) == f.spec_table(),
{
    let d = f.spec_bytes();
    let a = table_start(f);
    lemma_table_written(f);
    match f.spec_table() {
        Some(t) => {
            assert forall|i: int| 0 <= i < t.len() implies anim_entry_at(d, a + ANIM_ENTRY_SIZE * i)
                == #[trigger] t[i] by {
                let p = a + ANIM_ENTRY_SIZE * i;
                let raw = match t[i].frame_index {
                    Some(v) => v,
                    None => LOOP_MARKER,
                };
                assert forall|m: int| 0 <= m < ANIM_ENTRY_SIZE implies d[p + m] == anim_entry_bytes(t[i])[m] by {}
                let eb = anim_entry_bytes(t[i]);
                assert(eb == u32_bytes(raw) + u32_bytes(t[i].duration));
                assert(d.subrange(p, p + 8) =~= eb);
                assert(d.subrange(p, p + 4) =~= eb.subrange(0, 4));
                assert(eb.subrange(0, 4) =~= u32_bytes(raw));
                assert(d.subrange(p + 4, p + 8) =~= eb.subrange(4, 8));
                assert(eb.subrange(4, 8) =~= u32_bytes(t[i].duration));
                lemma_u32_roundtrip(raw, d, p);
                lemma_u32_roundtrip(t[i].duration, d, p + 4);
            }
            assert(((d.len() - a) / ANIM_ENTRY_SIZE as int) as nat == t.len());
            assert(Seq::new(
                ((d.len() - a) / ANIM_ENTRY_SIZE as int) as nat,
                |i: int| anim_entry_at(d, a + ANIM_ENTRY_SIZE * i),
            ) =~= t);
        },
        None => {},
    }
}

/// Writing a file and reading the bytes back gives the same frames (size,
/// hotspot and pixels), the same sequence starts and animation index table,
/// and the header with its frame count set to the number of frames. This
/// holds when the bitmaps fit before the metadata, the header counts exactly
/// the sequence starts (none when there are none), there are fewer than
/// 2^32 frames, and the index table, if any, has entries of which none
/// shows frame 0xFFFFFFFF (the value that marks a loop).
pub proof fn lemma_mfd_roundtrip(f: File, r: Result<File, DvFileError>)
    requires
        f.can_serialise(),
        total_pixels(f.spec_frames()) <= f.spec_max_bitmap(),
        f.spec_frames().len() <= u32::MAX,
        match f.spec_sequences() {
            Some(sq) => sq.len() == u32_at(f.spec_header(), 4) && sq.len() > 0,
            None => u32_at(f.spec_header(), 4) == 0,
        },
        f.spec_table() matches Some(t) ==> t.len() > 0 && forall|i: int|
            0 <= i < t.len() ==> (#[trigger] t[i]).frame_index != Some(LOOP_MARKER),
        File::parsed_from(f.spec_bytes(), r),
    ensures
        r matches Ok(g) && g.spec_header() == written_header(f) && g.spec_frames().len()
            == f.spec_frames().len() && (forall|i: int|
            0 <= i < f.spec_frames().len() ==> frame_is(
                #[trigger] g.spec_frames()[i],
                f.spec_frames()[i].spec_width(),
                f.spec_frames()[i].spec_height(),
                f.spec_frames()[i].spec_x_offset(),
                f.spec_frames()[i].spec_y_offset(),
                f.spec_frames()[i].spec_pixels(),
            )) && g.spec_sequences() == f.spec_sequences() && g.spec_table() == f.spec_table(),
{
    let d = f.spec_bytes();
    let n = f.spec_frames().len() as int;
    let gs = glyph_start(f.spec_header());
    lemma_header_read(f);
    lemma_table_written(f);
    lemma_seqs_read(f);
    lemma_table_read(f);
    assert forall|k: int| 0 <= k < n implies #[trigger] bitmap_end(d, gs, k) <= d.len() by {
        lemma_frame_read(f, k);
    }
    lemma_no_bad_frame(d, gs, n, 0);
    if let Ok(g) = r {
        assert forall|i: int| 0 <= i < n implies frame_is(
            #[trigger] g.spec_frames()[i],
            f.spec_frames()[i].spec_width(),
            f.spec_frames()[i].spec_height(),
            f.spec_frames()[i].spec_x_offset(),
            f.spec_frames()[i].spec_y_offset(),
            f.spec_frames()[i].spec_pixels(),
        ) by {
            assert(is_frame_at(g.spec_frames()[i], d, gs, i));
            lemma_frame_read(f, i);
        }
    }
}

/// The four count fields of a built header read back as the values set.
proof fn lemma_built_header(h: Seq<u8>, total: int, ac: int, fc: int, tc: int)
    requires
        h.len() == HEADER_SIZE,
        0 <= total <= u32::MAX,
        0 <= ac <= u32::MAX,
        0 <= fc <= u32::MAX,
        0 <= tc <= u32::MAX,
    ensures
        ({
            let b = built_header(h, total, ac, fc, tc);
            &&& b.len() == HEADER_SIZE
            &&& u32_at(b, 0) == total
            &&& u32_at(b, 4) == ac
            &&& u32_at(b, 8) == fc
            &&& overwrite(b, FRAME_COUNT_OFFSET as int, u32_bytes(fc as u32)) == b
        }),
{
    let h1 = overwrite(h, 0, u32_bytes(total as u32));
    lemma_overwrite(h, 0, u32_bytes(total as u32));
    let h2 = overwrite(h1, 4, u32_bytes(ac as u32));
    lemma_overwrite(h1, 4, u32_bytes(ac as u32));
    let h3 = overwrite(h2, 8, u32_bytes(fc as u32));
    lemma_overwrite(h2, 8, u32_bytes(fc as u32));
    let b = overwrite(h3, 12, u32_bytes(tc as u32));
    lemma_overwrite(h3, 12, u32_bytes(tc as u32));
    assert(b == built_header(h, total, ac, fc, tc));
    assert(b.subrange(0, 4) =~= u32_bytes(total as u32));
    assert(b.subrange(4, 8) =~= u32_bytes(ac as u32));
    assert(b.subrange(8, 12) =~= u32_bytes(fc as u32));
    lemma_u32_roundtrip(total as u32, b, 0);
    lemma_u32_roundtrip(ac as u32, b, 4);
    lemma_u32_roundtrip(fc as u32, b, 8);
    lemma_overwrite(b, FRAME_COUNT_OFFSET as int, u32_bytes(fc as u32));
    assert(overwrite(b, FRAME_COUNT_OFFSET as int, u32_bytes(fc as u32)) =~= b);
}

/// A file built by a builder, written and read back, gives the same file:
/// its header, frames (size, hotspot and pixels), sequence starts and
/// animation index table. This holds when each frame holds its pixels,
/// the counts fit the 32-bit header fields, the sequence starts and the
/// index table are each absent or not empty, no table entry shows frame
/// 0xFFFFFFFF (the value that marks a loop) and the file fits in memory.
pub proof fn lemma_built_roundtrip(b: FileBuilder, f: File, r: Result<File, DvFileError>)
    requires
        b.wf(),
        forall|i: int| 0 <= i < b.spec_frames().len() ==> #[trigger] b.spec_frames()[i].wf(),
        b.spec_frames().len() <= u32::MAX,
        b.spec_sequences() matches Some(s) ==> 0 < s.len() <= u32::MAX,
        b.spec_table() matches Some(t) ==> 0 < t.len() <= u32::MAX && forall|i: int|
            0 <= i < t.len() ==> (#[trigger] t[i]).frame_index != Some(LOOP_MARKER),
        f.spec_frames() == b.spec_frames(),
        f.spec_sequences() == b.spec_sequences(),
        f.spec_table() == b.spec_table(),
        f.spec_header() == built_header(
            b.spec_header(),
            total_pixels(b.spec_frames()),
            match b.spec_sequences() {
                Some(s) => s.len() as int,
                None => 0,
            },
            b.spec_frames().len() as int,
            match b.spec_table() {
                Some(t) => t.len() as int,
                None => 0,
            },
        ),
        f.spec_file_size() <= usize::MAX,
        File::parsed_from(f.spec_bytes(), r),
    ensures
        r matches Ok(g) && g.spec_header() == f.spec_header() && g.spec_frames().len()
            == f.spec_frames().len() && (forall|i: int|
            0 <= i < f.spec_frames().len() ==> frame_is(
                #[trigger] g.spec_frames()[i],
                f.spec_frames()[i].spec_width(),
                f.spec_frames()[i].spec_height(),
                f.spec_frames()[i].spec_x_offset(),
                f.spec_frames()[i].spec_y_offset(),
                f.spec_frames()[i].spec_pixels(),
            )) && g.spec_sequences() == f.spec_sequences() && g.spec_table() == f.spec_table(),
{
    b.lemma_header_len();
    let total = total_pixels(b.spec_frames());
    let ac = match b.spec_sequences() {
        Some(s) => s.len() as int,
        None => 0,
    };
    let tc = match b.spec_table() {
        Some(t) => t.len() as int,
        None => 0,
    };
    lemma_total_prefix(b.spec_frames(), 0);
    lemma_built_header(b.spec_header(), total, ac, b.spec_frames().len() as int, tc);
    assert(f.can_serialise());
    lemma_mfd_roundtrip(f, r);
}

} // verus!

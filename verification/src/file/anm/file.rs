//! Whole animation scripts: the header, the index table of the 256 slots
//! and the sequences stored for the slots.

use vstd::prelude::*;

use super::super::error::{DvFileError, FileType};
use super::super::le::{lemma_u16_roundtrip, push_slice, push_u16, read_u16, u16_at, u16_bytes};
use super::super::reader::ByteReader;
use super::super::show::append_decimal;
use super::super::text::{decimal, number_message};
use super::super::text::str_from_utf8;
use super::constants::{
    ANIMATION_DATA_OFFSET, ANIMATION_SLOT_COUNT, HEADER_PADDING_OFFSET, HEADER_PADDING_SIZE,
    HEADER_SIZE, INDEX_TABLE_OFFSET, INDEX_TABLE_SIZE, NO_ANIMATION, SPR_FILENAME_FIELD_LEN,
    SPR_FILENAME_MAX_LEN,
};
use super::frame::FrameDescriptor;
use super::constants::FRAME_DESCRIPTOR_SIZE;
use super::parse_config::ParseConfig;
use super::sequence::{
    descriptors_bytes, is_stored_form, lemma_descriptors_bytes_len, lemma_raw_descriptors_of,
    lemma_simulate_straight, raw_descriptors, simulate,
};
use super::sequence::AnimationSequence;
use vstd::string::StringExecFns;
use vstd::string::StringSliceAdditionalSpecFns;

verus! {

/// The bytes of the file that a slot's data may occupy.
#[derive(Debug, Clone, Copy, PartialEq, Eq, Structural)]
pub struct SlotDataWindow {
    /// Offset in the file where the slot's data starts
    pub start: usize,
    /// Offset in the file (exclusive) where the slot's data ends
    pub end: usize,
}

impl SlotDataWindow {
    /// The number of bytes of the window (0 when it ends before it starts).
    pub fn len(&self) -> (r: usize)
        ensures
            r == if self.end > self.start {
                self.end - self.start
            } else {
                0
            },
    {
        if self.end > self.start {
            self.end - self.start
        } else {
            0
        }
    }

    /// Whether the window holds no bytes.
    pub fn is_empty(&self) -> (r: bool)
        ensures
            r == (self.end <= self.start),
    {
        self.len() == 0
    }
}

/// The file offset at which the data of slot `s` starts.
pub open spec fn slot_start(table: Seq<u16>, s: int) -> int {
    ANIMATION_DATA_OFFSET + 2 * table[s]
}

/// Whether slot `s` holds an animation whose data starts inside a file of
/// `len` bytes.
pub open spec fn slot_is_valid(table: Seq<u16>, len: int, s: int) -> bool {
    table[s] != NO_ANIMATION && slot_start(table, s) < len
}

/// The least start, above `start`, of the valid slots from `k` on; `len`
/// when there is none.
pub open spec fn next_start(table: Seq<u16>, len: int, start: int, k: int) -> int
    decreases ANIMATION_SLOT_COUNT - k,
{
    if k >= ANIMATION_SLOT_COUNT {
        len
    } else {
        let rest = next_start(table, len, start, k + 1);
        if slot_is_valid(table, len, k) && start < slot_start(table, k) && slot_start(table, k)
            < rest {
            slot_start(table, k)
        } else {
            rest
        }
    }
}

/// The window of slot `s`: from its start up to the next start of another
/// valid slot, or up to the end of the file.
pub open spec fn slot_window(table: Seq<u16>, len: int, s: int) -> Option<SlotDataWindow> {
    if slot_is_valid(table, len, s) {
        Some(
            SlotDataWindow {
                start: slot_start(table, s) as usize,
                end: next_start(table, len, slot_start(table, s), 0) as usize,
            },
        )
    } else {
        None
    }
}

/// The least start above `start` among the valid slots of the table.
fn next_slot_start(index_table: &[u16; ANIMATION_SLOT_COUNT], file_len: usize, start: usize) -> (r:
    usize)
    ensures
        r == next_start(index_table@, file_len as int, start as int, 0),
{
    let ghost t = index_table@;
    let mut acc: usize = file_len;
    let mut k: usize = ANIMATION_SLOT_COUNT;
    while k > 0
        invariant
            t == index_table@,
            k <= ANIMATION_SLOT_COUNT,
            acc == next_start(t, file_len as int, start as int, k as int),
        decreases k,
    {
        k = k - 1;
        let w = index_table[k];
        if w != NO_ANIMATION {
            let s = ANIMATION_DATA_OFFSET + 2 * (w as usize);
            if s < file_len && start < s && s < acc {
                acc = s;
            }
        }
    }
    acc
}

/// The window of each slot of the table in a file of `file_len` bytes
/// (`None` for an empty slot or one that starts past the end).
pub fn compute_slot_windows(index_table: &[u16; ANIMATION_SLOT_COUNT], file_len: usize) -> (r: [Option<
    SlotDataWindow,
>; ANIMATION_SLOT_COUNT])
    ensures
        forall|s: int|
            0 <= s < ANIMATION_SLOT_COUNT ==> r@[s] == slot_window(
                index_table@,
                file_len as int,
                s,
            ),
{
    let mut windows: [Option<SlotDataWindow>; ANIMATION_SLOT_COUNT] = [None; ANIMATION_SLOT_COUNT];
    let mut s: usize = 0;
    while s < ANIMATION_SLOT_COUNT
        invariant
            s <= ANIMATION_SLOT_COUNT,
            windows@.len() == ANIMATION_SLOT_COUNT,
            forall|j: int|
                0 <= j < s ==> windows@[j] == #[trigger] slot_window(
                    index_table@,
                    file_len as int,
                    j,
                ),
        decreases ANIMATION_SLOT_COUNT - s,
    {
        let w = index_table[s];
        if w != NO_ANIMATION {
            let start = ANIMATION_DATA_OFFSET + 2 * (w as usize);
            if start < file_len {
                let end = next_slot_start(index_table, file_len, start);
                windows[s] = Some(SlotDataWindow { start, end });
            } else {
                windows[s] = None;
            }
        } else {
            windows[s] = None;
        }
        s = s + 1;
    }
    windows
}

/// The slots and descriptors of a list of stored sequences.
pub open spec fn slot_frames(v: Seq<(usize, AnimationSequence)>) -> Seq<(usize, Seq<FrameDescriptor>)> {
    v.map_values(|p: (usize, AnimationSequence)| (p.0, p.1.spec_frames()))
}

/// Replacing the sequence of one entry replaces its frames and keeps the
/// slots.
proof fn lemma_slot_frames_update(v: Seq<(usize, AnimationSequence)>, i: int, x: AnimationSequence)
    requires
        0 <= i < v.len(),
    ensures
        slot_frames(v.update(i, (v[i].0, x))) == slot_frames(v).update(i, (v[i].0, x.spec_frames())),
        slots_ascending(slot_frames(v)) ==> slots_ascending(slot_frames(v.update(i, (v[i].0, x)))),
{
    let a = slot_frames(v);
    let b = slot_frames(v.update(i, (v[i].0, x)));
    assert(b =~= a.update(i, (v[i].0, x.spec_frames())));
    assert forall|k: int| 0 <= k < b.len() implies (#[trigger] b[k]).0 == a[k].0 by {}
}

/// Replacing the sequence of one entry, whatever the new sequence.
proof fn lemma_slot_frames_update_all(v: Seq<(usize, AnimationSequence)>, i: int)
    requires
        0 <= i < v.len(),
    ensures
        forall|x: AnimationSequence|
            #![trigger v.update(i, (v[i].0, x))]
            slot_frames(v.update(i, (v[i].0, x))) == slot_frames(v).update(i, (v[i].0, x.spec_frames()))
                && (slots_ascending(slot_frames(v)) ==> slots_ascending(slot_frames(v.update(i, (v[i].0, x))))),
{
    assert forall|x: AnimationSequence|
        #![trigger v.update(i, (v[i].0, x))]
        slot_frames(v.update(i, (v[i].0, x))) == slot_frames(v).update(i, (v[i].0, x.spec_frames()))
            && (slots_ascending(slot_frames(v)) ==> slots_ascending(slot_frames(v.update(i, (v[i].0, x))))) by {
        lemma_slot_frames_update(v, i, x);
    }
}

/// Whether every slot is below 256 and the slots strictly ascend.
pub open spec fn slots_ascending(seqs: Seq<(usize, Seq<FrameDescriptor>)>) -> bool {
    &&& forall|i: int| 0 <= i < seqs.len() ==> (#[trigger] seqs[i]).0 < ANIMATION_SLOT_COUNT
    &&& forall|i: int, j: int|
        0 <= i < j < seqs.len() ==> (#[trigger] seqs[i]).0 < (#[trigger] seqs[j]).0
}

/// The index of the first entry for `slot`, from entry `i` on.
pub open spec fn find_slot_from(seqs: Seq<(usize, Seq<FrameDescriptor>)>, slot: usize, i: int) -> Option<
    int,
>
    decreases seqs.len() - i,
{
    if i < 0 || i >= seqs.len() {
        None
    } else if seqs[i].0 == slot {
        Some(i)
    } else {
        find_slot_from(seqs, slot, i + 1)
    }
}

/// The index of the first entry for `slot`.
pub open spec fn find_slot(seqs: Seq<(usize, Seq<FrameDescriptor>)>, slot: usize) -> Option<int> {
    find_slot_from(seqs, slot, 0)
}

/// The number of entries, from the back, that the slot list keeps before
/// `slot` (in an ascending list: how many entries have a lower slot).
pub open spec fn slot_position(seqs: Seq<(usize, Seq<FrameDescriptor>)>, slot: usize) -> int
    decreases seqs.len(),
{
    if seqs.len() == 0 {
        0
    } else if seqs.last().0 < slot {
        seqs.len() as int
    } else {
        slot_position(seqs.drop_last(), slot)
    }
}

/// The list with the entry for `slot` replaced by, or else extended with,
/// `(slot, fs)` in slot order.
pub open spec fn put_slot(
    seqs: Seq<(usize, Seq<FrameDescriptor>)>,
    slot: usize,
    fs: Seq<FrameDescriptor>,
) -> Seq<(usize, Seq<FrameDescriptor>)> {
    let k = slot_position(seqs, slot);
    if k < seqs.len() && seqs[k].0 == slot {
        seqs.update(k, (slot, fs))
    } else {
        seqs.insert(k, (slot, fs))
    }
}

/// The data bytes of the first `k` entries (entries whose slot is out of
/// range store nothing).
pub open spec fn data_len(seqs: Seq<(usize, Seq<FrameDescriptor>)>, k: int) -> int
    decreases k,
{
    if k <= 0 {
        0
    } else {
        data_len(seqs, k - 1) + if seqs[k - 1].0 < ANIMATION_SLOT_COUNT {
            FRAME_DESCRIPTOR_SIZE * seqs[k - 1].1.len()
        } else {
            0
        }
    }
}

/// The index table value for data that starts `bytes` bytes into the
/// animation data: the offset in 16-bit words, kept to 16 bits.
pub open spec fn word_offset(bytes: int) -> u16 {
    ((bytes / 2) % 0x10000) as u16
}

/// The index table after storing the first `k` entries one after another.
pub open spec fn table_upto(seqs: Seq<(usize, Seq<FrameDescriptor>)>, k: int) -> Seq<u16>
    decreases k,
{
    if k <= 0 {
        Seq::new(ANIMATION_SLOT_COUNT as nat, |i: int| NO_ANIMATION)
    } else {
        let t = table_upto(seqs, k - 1);
        if seqs[k - 1].0 < ANIMATION_SLOT_COUNT {
            t.update(seqs[k - 1].0 as int, word_offset(data_len(seqs, k - 1)))
        } else {
            t
        }
    }
}

/// The index table for the entries stored one after another.
pub open spec fn index_table_of(seqs: Seq<(usize, Seq<FrameDescriptor>)>) -> Seq<u16> {
    table_upto(seqs, seqs.len() as int)
}

/// The animation data of the first `k` entries.
pub open spec fn data_upto(seqs: Seq<(usize, Seq<FrameDescriptor>)>, k: int) -> Seq<u8>
    decreases k,
{
    if k <= 0 {
        Seq::empty()
    } else {
        data_upto(seqs, k - 1) + if seqs[k - 1].0 < ANIMATION_SLOT_COUNT {
            descriptors_bytes(seqs[k - 1].1)
        } else {
            Seq::empty()
        }
    }
}

/// The little-endian bytes of a list of 16-bit words.
pub open spec fn le_words(t: Seq<u16>) -> Seq<u8>
    decreases t.len(),
{
    if t.len() == 0 {
        Seq::empty()
    } else {
        le_words(t.drop_last()) + u16_bytes(t.last())
    }
}

/// The bytes of a file with this header and these entries.
pub open spec fn file_bytes(header: Seq<u8>, seqs: Seq<(usize, Seq<FrameDescriptor>)>) -> Seq<u8> {
    header + le_words(index_table_of(seqs)) + data_upto(seqs, seqs.len() as int)
}

/// The index of the first zero byte among the first `12` header bytes,
/// from `i` on; 12 when there is none.
pub open spec fn name_end_from(header: Seq<u8>, i: int) -> int
    decreases SPR_FILENAME_FIELD_LEN - i,
{
    if i >= SPR_FILENAME_FIELD_LEN {
        SPR_FILENAME_FIELD_LEN as int
    } else if header[i] == 0 {
        i
    } else {
        name_end_from(header, i + 1)
    }
}

/// The bytes of the SPR file name in the header.
pub open spec fn name_bytes(header: Seq<u8>) -> Seq<u8> {
    header.subrange(0, name_end_from(header, 0))
}

/// The complaint about a header, if any: a name byte above 127, a name
/// without a terminating zero, or a padding byte that is not zero.
pub open spec fn header_error(header: Seq<u8>) -> Option<Seq<char>> {
    if exists|i: int| 0 <= i < SPR_FILENAME_FIELD_LEN && header[i] >= 0x80 {
        Some("SPR filename must contain ASCII bytes only"@)
    } else if (exists|i: int| 0 <= i < SPR_FILENAME_FIELD_LEN && header[i] != 0) && !(exists|i: int|
        0 <= i < SPR_FILENAME_FIELD_LEN && header[i] == 0) {
        Some("SPR filename must include a null terminator within first 12 bytes"@)
    } else if exists|i: int|
        HEADER_PADDING_OFFSET <= i < HEADER_PADDING_OFFSET + HEADER_PADDING_SIZE && header[i] != 0 {
        Some("Header padding bytes (0x0C-0x1F) must be zero"@)
    } else {
        None
    }
}

/// Whether `e` is the encoding error of an animation script with message `m`.
pub open spec fn is_bad_encoding(e: DvFileError, m: Seq<char>) -> bool {
    e matches DvFileError::BadEncoding { file_type, message } && file_type == FileType::Anm
        && message@ == m
}

/// The index table stored in the file bytes.
pub open spec fn table_in(data: Seq<u8>) -> Seq<u16> {
    Seq::new(
        ANIMATION_SLOT_COUNT as nat,
        |i: int| u16_at(data, INDEX_TABLE_OFFSET + 2 * i),
    )
}

/// The descriptors read from the data of a slot: as stored (`raw`) or by
/// following the jumps with the default limits; `None` when reading fails.
pub open spec fn frames_in(tail: Seq<u8>, raw: bool) -> Option<Seq<FrameDescriptor>> {
    if raw {
        match raw_descriptors(tail, 0) {
            Ok(fs) => Some(fs),
            Err(_) => None,
        }
    } else {
        match simulate(tail, ParseConfig::default_spec()) {
            Ok((fs, _)) => Some(fs),
            Err(_) => None,
        }
    }
}

/// The entries read for the first `k` slots of the table: each valid slot
/// is read from its start to the end of the file, and kept when reading
/// succeeds with at least one descriptor.
pub open spec fn parsed_slots(data: Seq<u8>, table: Seq<u16>, raw: bool, k: int) -> Seq<
    (usize, Seq<FrameDescriptor>),
>
    decreases k,
{
    if k <= 0 {
        Seq::empty()
    } else {
        let prev = parsed_slots(data, table, raw, k - 1);
        let s = k - 1;
        if slot_is_valid(table, data.len() as int, s) {
            match frames_in(data.subrange(slot_start(table, s), data.len() as int), raw) {
                Some(fs) => if fs.len() > 0 {
                    prev.push((s as usize, fs))
                } else {
                    prev
                },
                None => prev,
            }
        } else {
            prev
        }
    }
}

/// The slot at which `slot` goes into an ascending list is the one index
/// with lower slots before it and none after.
proof fn lemma_slot_position(seqs: Seq<(usize, Seq<FrameDescriptor>)>, slot: usize, k: int)
    requires
        slots_ascending(seqs),
        0 <= k <= seqs.len(),
        forall|i: int| 0 <= i < k ==> (#[trigger] seqs[i]).0 < slot,
        k < seqs.len() ==> seqs[k].0 >= slot,
    ensures
        slot_position(seqs, slot) == k,
    decreases seqs.len(),
{
    if seqs.len() > 0 {
        let n = seqs.len() - 1;
        if seqs.last().0 < slot {
            if k < seqs.len() {
                if k < n {
                    assert(seqs[k].0 < seqs[n].0);
                }
            }
        } else {
            let d = seqs.drop_last();
            assert forall|i: int, j: int| 0 <= i < j < d.len() implies (#[trigger] d[i]).0 < (
            #[trigger] d[j]).0 by {
                assert(seqs[i].0 < seqs[j].0);
            }
            assert forall|i: int| 0 <= i < k implies (#[trigger] d[i]).0 < slot by {
                assert(seqs[i].0 < slot);
            }
            lemma_slot_position(d, slot, k);
        }
    }
}

/// The animation data of the first `k` entries has `data_len` bytes.
proof fn lemma_data_upto_len(seqs: Seq<(usize, Seq<FrameDescriptor>)>, k: int)
    requires
        0 <= k <= seqs.len(),
    ensures
        data_upto(seqs, k).len() == data_len(seqs, k),
        data_len(seqs, k) >= 0,
        data_len(seqs, k) % 4 == 0,
    decreases k,
{
    if k > 0 {
        lemma_data_upto_len(seqs, k - 1);
        lemma_descriptors_bytes_len(seqs[k - 1].1);
    }
}

/// The word offset only depends on the byte offset modulo `0x20000`.
proof fn lemma_word_offset_mod(d: int)
    requires
        d >= 0,
    ensures
        word_offset(d) == ((d % 0x20000) / 2) as u16,
{
    assert((d % 0x20000) / 2 == (d / 2) % 0x10000) by {
        vstd::arithmetic::div_mod::lemma_fundamental_div_mod(d, 0x20000);
        let q = d / 0x20000;
        let r = d % 0x20000;
        assert(d == 0x20000 * q + r);
        assert(d / 2 == 0x10000 * q + r / 2);
        vstd::arithmetic::div_mod::lemma_fundamental_div_mod_converse(
            d / 2,
            0x10000,
            q,
            r / 2,
        );
    }
}

/// Adding `4 * n` bytes to an offset kept modulo `0x20000`.
proof fn lemma_add_bytes_mod(d: int, n: int)
    requires
        d >= 0,
        n >= 0,
    ensures
        (d + 4 * n) % 0x20000 == ((d % 0x20000) + 4 * (n % 0x8000)) % 0x20000,
{
    vstd::arithmetic::div_mod::lemma_fundamental_div_mod(n, 0x8000);
    let q = n / 0x8000;
    assert(4 * n == 0x20000 * q + 4 * (n % 0x8000));
    vstd::arithmetic::div_mod::lemma_mod_multiples_vanish(q, d + 4 * (n % 0x8000), 0x20000);
    vstd::arithmetic::div_mod::lemma_add_mod_noop(d, 4 * (n % 0x8000), 0x20000);
    vstd::arithmetic::div_mod::lemma_small_mod((4 * (n % 0x8000)) as nat, 0x20000);
}

/// The encoding of `n` words has `2 * n` bytes.
proof fn lemma_le_words_len(t: Seq<u16>)
    ensures
        le_words(t).len() == 2 * t.len(),
    decreases t.len(),
{
    if t.len() > 0 {
        lemma_le_words_len(t.drop_last());
    }
}

/// Word `i` sits at bytes `2 * i` and `2 * i + 1` of the encoding.
proof fn lemma_le_words_at(t: Seq<u16>, i: int)
    requires
        0 <= i < t.len(),
    ensures
        le_words(t).subrange(2 * i, 2 * i + 2) == u16_bytes(t[i]),
    decreases t.len(),
{
    let d = t.drop_last();
    lemma_le_words_len(d);
    if i == t.len() - 1 {
        assert(le_words(t).subrange(2 * i, 2 * i + 2) =~= u16_bytes(t[i]));
    } else {
        lemma_le_words_at(d, i);
        assert(le_words(t).subrange(2 * i, 2 * i + 2) =~= le_words(d).subrange(2 * i, 2 * i + 2));
    }
}

/// The index of the last of the first `k` entries for slot `s`.
pub open spec fn last_slot_index(seqs: Seq<(usize, Seq<FrameDescriptor>)>, s: int, k: int) -> Option<
    int,
>
    decreases k,
{
    if k <= 0 {
        None
    } else if seqs[k - 1].0 == s {
        Some(k - 1)
    } else {
        last_slot_index(seqs, s, k - 1)
    }
}

/// The last entry for `s` among the first `k`, or none of them is for `s`.
proof fn lemma_last_slot_index(seqs: Seq<(usize, Seq<FrameDescriptor>)>, s: int, k: int)
    requires
        0 <= k <= seqs.len(),
    ensures
        match last_slot_index(seqs, s, k) {
            Some(i) => 0 <= i < k && seqs[i].0 == s,
            None => forall|j: int| 0 <= j < k ==> (#[trigger] seqs[j]).0 != s,
        },
    decreases k,
{
    if k > 0 {
        lemma_last_slot_index(seqs, s, k - 1);
    }
}

/// Slot `s` of the table after the first `k` entries: the word offset of
/// the last entry for `s`, or empty.
proof fn lemma_table_at(seqs: Seq<(usize, Seq<FrameDescriptor>)>, k: int, s: int)
    requires
        0 <= k <= seqs.len(),
        0 <= s < ANIMATION_SLOT_COUNT,
    ensures
        table_upto(seqs, k).len() == ANIMATION_SLOT_COUNT,
        table_upto(seqs, k)[s] == match last_slot_index(seqs, s, k) {
            Some(i) => word_offset(data_len(seqs, i)),
            None => NO_ANIMATION,
        },
    decreases k,
{
    if k > 0 {
        lemma_table_at(seqs, k - 1, s);
    }
}

/// The data of the first `k` entries begins the data of the first `m`.
proof fn lemma_data_upto_prefix(seqs: Seq<(usize, Seq<FrameDescriptor>)>, k: int, m: int)
    requires
        0 <= k <= m <= seqs.len(),
    ensures
        data_len(seqs, k) <= data_len(seqs, m),
        data_upto(seqs, m).subrange(0, data_len(seqs, k)) == data_upto(seqs, k),
    decreases m,
{
    lemma_data_upto_len(seqs, k);
    lemma_data_upto_len(seqs, m);
    if m == k {
        assert(data_upto(seqs, m).subrange(0, data_len(seqs, k)) =~= data_upto(seqs, k));
    } else {
        lemma_data_upto_prefix(seqs, k, m - 1);
        lemma_data_upto_len(seqs, m - 1);
        lemma_descriptors_bytes_len(seqs[m - 1].1);
        assert(data_upto(seqs, m).subrange(0, data_len(seqs, k)) =~= data_upto(seqs, m - 1).subrange(
            0,
            data_len(seqs, k),
        ));
    }
}

/// Where a slot goes into an ascending list: after the lower slots, before
/// the others.
proof fn lemma_slot_position_props(seqs: Seq<(usize, Seq<FrameDescriptor>)>, slot: usize)
    requires
        slots_ascending(seqs),
    ensures
        0 <= slot_position(seqs, slot) <= seqs.len(),
        forall|i: int| 0 <= i < slot_position(seqs, slot) ==> (#[trigger] seqs[i]).0 < slot,
        slot_position(seqs, slot) < seqs.len() ==> seqs[slot_position(seqs, slot)].0 >= slot,
    decreases seqs.len(),
{
    if seqs.len() > 0 {
        let n = seqs.len() - 1;
        if seqs.last().0 < slot {
            assert forall|i: int| 0 <= i < seqs.len() implies (#[trigger] seqs[i]).0 < slot by {
                if i < n {
                    assert(seqs[i].0 < seqs[n].0);
                }
            }
        } else {
            let d = seqs.drop_last();
            assert forall|i: int, j: int| 0 <= i < j < d.len() implies (#[trigger] d[i]).0 < (
            #[trigger] d[j]).0 by {
                assert(seqs[i].0 < seqs[j].0);
            }
            lemma_slot_position_props(d, slot);
            let p = slot_position(d, slot);
            assert forall|i: int| 0 <= i < p implies (#[trigger] seqs[i]).0 < slot by {
                assert(d[i].0 < slot);
            }
            if p < d.len() {
                assert(seqs[p].0 == d[p].0);
            }
        }
    }
}

/// Putting a slot into an ascending list of slots below 256 keeps it
/// ascending.
proof fn lemma_put_slot_ascending(
    seqs: Seq<(usize, Seq<FrameDescriptor>)>,
    slot: usize,
    fs: Seq<FrameDescriptor>,
)
    requires
        slots_ascending(seqs),
        slot < ANIMATION_SLOT_COUNT,
    ensures
        slots_ascending(put_slot(seqs, slot, fs)),
{
    lemma_slot_position_props(seqs, slot);
    let k = slot_position(seqs, slot);
    let after = put_slot(seqs, slot, fs);
    assert forall|i: int, j: int| 0 <= i < j < after.len() implies (#[trigger] after[i]).0 < (
    #[trigger] after[j]).0 by {
        if k < seqs.len() && seqs[k].0 == slot {
        } else {
            if j < k {
                assert(seqs[i].0 < seqs[j].0);
            } else if j == k {
            } else if i < k {
                assert(seqs[i].0 < slot);
            } else if i == k {
                assert(seqs[j - 1].0 >= slot);
                assert(seqs[j - 1].0 != slot) by {
                    if j - 1 > k {
                        assert(seqs[k].0 < seqs[j - 1].0);
                    }
                }
            } else {
                assert(seqs[i - 1].0 < seqs[j - 1].0);
            }
        }
    }
}

/// The frames stored for a slot, if any: those of the first entry for it.
pub open spec fn slot_lookup(seqs: Seq<(usize, Seq<FrameDescriptor>)>, slot: usize) -> Option<
    Seq<FrameDescriptor>,
> {
    match find_slot(seqs, slot) {
        Some(i) => Some(seqs[i].1),
        None => None,
    }
}

/// The first entry for a slot from `i` on is entry `j` when `j` has it and
/// none between does.
proof fn lemma_find_slot_at(seqs: Seq<(usize, Seq<FrameDescriptor>)>, slot: usize, i: int, j: int)
    requires
        0 <= i <= j < seqs.len(),
        seqs[j].0 == slot,
        forall|k: int| i <= k < j ==> (#[trigger] seqs[k]).0 != slot,
    ensures
        find_slot_from(seqs, slot, i) == Some(j),
    decreases j - i,
{
    if i < j {
        lemma_find_slot_at(seqs, slot, i + 1, j);
    }
}

/// No entry for a slot from `i` on is found when none has it.
proof fn lemma_find_slot_none(seqs: Seq<(usize, Seq<FrameDescriptor>)>, slot: usize, i: int)
    requires
        0 <= i,
        forall|k: int| i <= k < seqs.len() ==> (#[trigger] seqs[k]).0 != slot,
    ensures
        find_slot_from(seqs, slot, i) is None,
    decreases seqs.len() - i,
{
    if i < seqs.len() {
        lemma_find_slot_none(seqs, slot, i + 1);
    }
}

/// In an ascending list, looking up a slot gives the frames of the one
/// entry with that slot, or nothing when there is none.
proof fn lemma_lookup_ascending(seqs: Seq<(usize, Seq<FrameDescriptor>)>, slot: usize)
    requires
        slots_ascending(seqs),
    ensures
        forall|j: int| 0 <= j < seqs.len() && (#[trigger] seqs[j]).0 == slot ==> find_slot(seqs, slot) == Some(j),
        (forall|j: int| 0 <= j < seqs.len() ==> (#[trigger] seqs[j]).0 != slot) ==> find_slot(seqs, slot) is None,
{
    assert forall|j: int| 0 <= j < seqs.len() && (#[trigger] seqs[j]).0 == slot implies find_slot(
        seqs,
        slot,
    ) == Some(j) by {
        assert forall|k: int| 0 <= k < j implies (#[trigger] seqs[k]).0 != slot by {
            assert(seqs[k].0 < seqs[j].0);
        }
        lemma_find_slot_at(seqs, slot, 0, j);
    }
    if forall|j: int| 0 <= j < seqs.len() ==> (#[trigger] seqs[j]).0 != slot {
        lemma_find_slot_none(seqs, slot, 0);
    }
}

/// Setting a slot's sequence and then looking the slot up gives that
/// sequence; looking up any other slot gives what it gave before.
pub proof fn lemma_set_then_get(
    seqs: Seq<(usize, Seq<FrameDescriptor>)>,
    slot: usize,
    fs: Seq<FrameDescriptor>,
    other: usize,
)
    requires
        slots_ascending(seqs),
        slot < ANIMATION_SLOT_COUNT,
    ensures
        slot_lookup(put_slot(seqs, slot, fs), slot) == Some(fs),
        other != slot ==> slot_lookup(put_slot(seqs, slot, fs), other) == slot_lookup(seqs, other),
{
    let after = put_slot(seqs, slot, fs);
    let k = slot_position(seqs, slot);
    lemma_slot_position_props(seqs, slot);
    lemma_put_slot_ascending(seqs, slot, fs);
    lemma_lookup_ascending(after, slot);
    assert(after[k].0 == slot);
    lemma_lookup_ascending(after, other);
    lemma_lookup_ascending(seqs, other);
    if other != slot {
        if k < seqs.len() && seqs[k].0 == slot {
            assert forall|j: int| 0 <= j < seqs.len() implies #[trigger] after[j].0 == seqs[j].0 && (j != k
                ==> after[j] == seqs[j]) by {}
            if exists|j: int| 0 <= j < seqs.len() && (#[trigger] seqs[j]).0 == other {
                let j = choose|j: int| 0 <= j < seqs.len() && (#[trigger] seqs[j]).0 == other;
                assert(after[j] == seqs[j]);
            } else {
                assert forall|j: int| 0 <= j < after.len() implies (#[trigger] after[j]).0 != other by {
                    assert(after[j].0 == seqs[j].0);
                }
            }
        } else {
            if exists|j: int| 0 <= j < seqs.len() && (#[trigger] seqs[j]).0 == other {
                let j = choose|j: int| 0 <= j < seqs.len() && (#[trigger] seqs[j]).0 == other;
                if j < k {
                    assert(after[j] == seqs[j]);
                } else {
                    assert(after[j + 1] == seqs[j]);
                }
            } else {
                assert forall|j: int| 0 <= j < after.len() implies (#[trigger] after[j]).0 != other by {
                    if j < k {
                        assert(after[j] == seqs[j]);
                    } else if j > k {
                        assert(after[j] == seqs[j - 1]);
                    }
                }
            }
        }
    }
}

/// Removing the entry found for a slot leaves nothing for that slot, and
/// every other slot gives what it gave before.
pub proof fn lemma_remove_then_get(seqs: Seq<(usize, Seq<FrameDescriptor>)>, slot: usize, other: usize)
    requires
        slots_ascending(seqs),
        find_slot(seqs, slot) is Some,
    ensures
        slot_lookup(seqs.remove(find_slot(seqs, slot)->0), slot) is None,
        other != slot ==> slot_lookup(seqs.remove(find_slot(seqs, slot)->0), other) == slot_lookup(
            seqs,
            other,
        ),
{
    lemma_find_slot_found(seqs, slot, 0);
    let i = find_slot(seqs, slot)->0;
    let after = seqs.remove(i);
    assert forall|a: int, b: int| 0 <= a < b < after.len() implies (#[trigger] after[a]).0 < (
    #[trigger] after[b]).0 by {
        let a0 = if a < i { a } else { a + 1 };
        let b0 = if b < i { b } else { b + 1 };
        assert(after[a] == seqs[a0] && after[b] == seqs[b0]);
        assert(seqs[a0].0 < seqs[b0].0);
    }
    assert forall|a: int| 0 <= a < after.len() implies (#[trigger] after[a]).0 < ANIMATION_SLOT_COUNT by {
        if a < i {
            assert(after[a] == seqs[a]);
        } else {
            assert(after[a] == seqs[a + 1]);
        }
    }
    lemma_lookup_ascending(after, slot);
    lemma_lookup_ascending(after, other);
    lemma_lookup_ascending(seqs, other);
    assert forall|j: int| 0 <= j < after.len() implies (#[trigger] after[j]).0 != slot by {
        if j < i {
            assert(after[j] == seqs[j]);
            assert(seqs[j].0 < seqs[i].0);
        } else {
            assert(after[j] == seqs[j + 1]);
            assert(seqs[i].0 < seqs[j + 1].0);
        }
    }
    if other != slot {
        if exists|j: int| 0 <= j < seqs.len() && (#[trigger] seqs[j]).0 == other {
            let j = choose|j: int| 0 <= j < seqs.len() && (#[trigger] seqs[j]).0 == other;
            if j < i {
                assert(after[j] == seqs[j]);
            } else {
                assert(j != i);
                assert(after[j - 1] == seqs[j]);
            }
        } else {
            assert forall|j: int| 0 <= j < after.len() implies (#[trigger] after[j]).0 != other by {
                if j < i {
                    assert(after[j] == seqs[j]);
                } else {
                    assert(after[j] == seqs[j + 1]);
                }
            }
        }
    }
}

/// The bytes of the sequences of the first `k` entries whose slots lie
/// below `t`.
pub open spec fn bytes_before(seqs: Seq<(usize, Seq<FrameDescriptor>)>, t: int, k: int) -> int
    decreases k,
{
    if k <= 0 {
        0
    } else {
        bytes_before(seqs, t, k - 1) + if seqs[k - 1].0 < t {
            FRAME_DESCRIPTOR_SIZE * seqs[k - 1].1.len()
        } else {
            0
        }
    }
}

/// In an ascending list, the bytes before slot `t` are the data of the
/// entries before the first one at or past `t`.
proof fn lemma_bytes_before(seqs: Seq<(usize, Seq<FrameDescriptor>)>, t: int, i: int, k: int)
    requires
        slots_ascending(seqs),
        0 <= i < seqs.len(),
        seqs[i].0 == t,
        0 <= k <= seqs.len(),
    ensures
        bytes_before(seqs, t, k) == data_len(seqs, if k <= i { k } else { i }),
    decreases k,
{
    if k > 0 {
        lemma_bytes_before(seqs, t, i, k - 1);
        if k - 1 < i {
            assert(seqs[k - 1].0 < seqs[i].0);
        } else if k - 1 > i {
            assert(seqs[i].0 < seqs[k - 1].0);
        }
    }
}

/// Slot `t` of the index table of an ascending list: empty when no entry
/// has that slot, otherwise the word offset of the bytes of the sequences
/// in lower slots.
pub proof fn lemma_index_table_formula(seqs: Seq<(usize, Seq<FrameDescriptor>)>, t: usize)
    requires
        slots_ascending(seqs),
        t < ANIMATION_SLOT_COUNT,
    ensures
        index_table_of(seqs).len() == ANIMATION_SLOT_COUNT,
        index_table_of(seqs)[t as int] == if find_slot(seqs, t) is Some {
            word_offset(bytes_before(seqs, t as int, seqs.len() as int))
        } else {
            NO_ANIMATION
        },
{
    let n = seqs.len() as int;
    lemma_table_at(seqs, n, t as int);
    lemma_last_slot_index(seqs, t as int, n);
    lemma_lookup_ascending(seqs, t);
    match last_slot_index(seqs, t as int, n) {
        Some(i) => {
            assert(find_slot(seqs, t) == Some(i));
            lemma_bytes_before(seqs, t as int, i, n);
        },
        None => {},
    }
}

/// An entry found for a slot lies in the list and has that slot.
proof fn lemma_find_slot_found(seqs: Seq<(usize, Seq<FrameDescriptor>)>, slot: usize, i: int)
    requires
        0 <= i,
        find_slot_from(seqs, slot, i) is Some,
    ensures
        i <= find_slot_from(seqs, slot, i)->0 < seqs.len(),
        seqs[find_slot_from(seqs, slot, i)->0].0 == slot,
    decreases seqs.len() - i,
{
    if i < seqs.len() && seqs[i].0 != slot {
        lemma_find_slot_found(seqs, slot, i + 1);
    }
}

/// Whether the entries can be stored and read back: ascending slots,
/// stored-form descriptors, and every entry starting below word offset
/// `0xFFFF`.
pub open spec fn storable(seqs: Seq<(usize, Seq<FrameDescriptor>)>) -> bool {
    &&& slots_ascending(seqs)
    &&& forall|i: int| 0 <= i < seqs.len() ==> is_stored_form((#[trigger] seqs[i]).1)
    &&& forall|i: int| 0 <= i < seqs.len() ==> #[trigger] data_len(seqs, i) < 2 * NO_ANIMATION
}

/// Whether following the jumps of every sequence plays it as stored: no
/// sequence has a jump, and none has more than the 5000 descriptors that
/// the default limits let the player read.
pub open spec fn plays_straight(seqs: Seq<(usize, Seq<FrameDescriptor>)>) -> bool {
    forall|i: int|
        0 <= i < seqs.len() ==> (#[trigger] seqs[i]).1.len() <= 5000 && forall|j: int|
            0 <= j < seqs[i].1.len() ==> !(#[trigger] seqs[i].1[j] is Jump)
}

/// The slot of entry `p` is valid in the bytes of storable entries, and
/// reading it as stored gives the entry's descriptors.
#[verifier::rlimit(40)]
proof fn lemma_slot_read_back(header: Seq<u8>, seqs: Seq<(usize, Seq<FrameDescriptor>)>, p: int)
    requires
        header.len() == HEADER_SIZE,
        storable(seqs),
        0 <= p < seqs.len(),
    ensures
        ({
            let data = file_bytes(header, seqs);
            let t = index_table_of(seqs);
            let s = seqs[p].0 as int;
            &&& slot_is_valid(t, data.len() as int, s)
            &&& frames_in(data.subrange(slot_start(t, s), data.len() as int), true) == Some(
                seqs[p].1,
            )
        }),
{
    let data = file_bytes(header, seqs);
    let t = index_table_of(seqs);
    let n = seqs.len() as int;
    let s = seqs[p].0 as int;
    let fs = seqs[p].1;
    let d = data_len(seqs, p);
    lemma_le_words_len(t);
    lemma_data_upto_len(seqs, n);
    lemma_table_at(seqs, n, s);
    lemma_last_slot_index(seqs, s, n);
    assert(last_slot_index(seqs, s, n) == Some(p)) by {
        let i = last_slot_index(seqs, s, n)->0;
        if i < p {
            assert(seqs[i].0 < seqs[p].0);
        } else if i > p {
            assert(seqs[p].0 < seqs[i].0);
        }
    }
    lemma_data_upto_len(seqs, p);
    lemma_data_upto_len(seqs, p + 1);
    lemma_descriptors_bytes_len(fs);
    lemma_data_upto_prefix(seqs, p + 1, n);
    assert(t[s] == word_offset(d));
    assert(word_offset(d) == d / 2);
    assert(slot_start(t, s) == ANIMATION_DATA_OFFSET + d);
    let tail = data.subrange(ANIMATION_DATA_OFFSET + d, data.len() as int);
    let all = data_upto(seqs, n);
    assert(data =~= (header + le_words(t)) + all);
    assert(all.subrange(0, d + 4 * fs.len()) == data_upto(seqs, p) + descriptors_bytes(fs));
    assert(tail.subrange(0, 4 * fs.len() as int) =~= (data_upto(seqs, p) + descriptors_bytes(
        fs,
    )).subrange(d, d + 4 * fs.len()));
    assert(tail.subrange(0, 4 * fs.len() as int) =~= descriptors_bytes(fs));
    lemma_raw_descriptors_of(tail, 0, fs);
}

/// Reading the first `k` slots of the bytes of storable entries gives the
/// entries whose slots are below `k`.
proof fn lemma_parsed_slots_of_bytes(
    header: Seq<u8>,
    seqs: Seq<(usize, Seq<FrameDescriptor>)>,
    raw: bool,
    k: int,
)
    requires
        header.len() == HEADER_SIZE,
        storable(seqs),
        !raw ==> plays_straight(seqs),
        0 <= k <= ANIMATION_SLOT_COUNT,
    ensures
        parsed_slots(file_bytes(header, seqs), index_table_of(seqs), raw, k) == seqs.subrange(
            0,
            slot_position(seqs, k as usize),
        ),
    decreases k,
{
    let data = file_bytes(header, seqs);
    let t = index_table_of(seqs);
    let n = seqs.len() as int;
    lemma_le_words_len(t);
    lemma_data_upto_len(seqs, n);
    if k == 0 {
        lemma_slot_position(seqs, 0, 0);
        assert(seqs.subrange(0, 0) =~= Seq::<(usize, Seq<FrameDescriptor>)>::empty());
    } else {
        lemma_parsed_slots_of_bytes(header, seqs, raw, k - 1);
        let s = k - 1;
        lemma_slot_position_props(seqs, s as usize);
        let p = slot_position(seqs, s as usize);
        lemma_table_at(seqs, n, s);
        lemma_last_slot_index(seqs, s, n);
        if p < n && seqs[p].0 == s {
            lemma_slot_read_back(header, seqs, p);
            if !raw {
                let tail = data.subrange(slot_start(t, s), data.len() as int);
                assert(seqs[p].1.len() <= 5000 && forall|j: int|
                    0 <= j < seqs[p].1.len() ==> !(#[trigger] seqs[p].1[j] is Jump));
                lemma_simulate_straight(tail, seqs[p].1);
            }
            assert forall|i: int| 0 <= i < p + 1 implies (#[trigger] seqs[i]).0 < k by {
                if i < p {
                    assert(seqs[i].0 < s);
                }
            }
            if p + 1 < n {
                assert(seqs[p].0 < seqs[p + 1].0);
            }
            lemma_slot_position(seqs, k as usize, p + 1);
            assert(seqs.subrange(0, p).push(seqs[p]) =~= seqs.subrange(0, p + 1));
        } else {
            assert forall|i: int| 0 <= i < n implies (#[trigger] seqs[i]).0 != s by {
                if i > p {
                    assert(seqs[p].0 < seqs[i].0);
                }
            }
            assert(t[s] == NO_ANIMATION);
            if p < n {
                assert(seqs[p].0 >= k);
            }
            lemma_slot_position(seqs, k as usize, p);
        }
    }
}

/// Reading back the bytes of a script gives the same header and sequences,
/// and the index table of the stored layout; this holds whenever the header
/// is valid and each sequence ends with its only end marker, starts below
/// word offset `0xFFFF` and has no frame whose id is a marker value. Read
/// with the descriptors as stored (`raw`) this always holds; read by
/// following jumps it holds when no sequence has a jump or more than 5000
/// descriptors.
pub proof fn lemma_file_roundtrip(f: File, raw: bool, r: Result<File, DvFileError>)
    requires
        f.wf(),
        header_error(f.spec_header()) is None,
        storable(f.spec_sequences()),
        !raw ==> plays_straight(f.spec_sequences()),
        File::parsed(file_bytes(f.spec_header(), f.spec_sequences()), raw, r),
    ensures
        r matches Ok(g) && g.spec_header() == f.spec_header() && g.spec_sequences()
            == f.spec_sequences() && g.spec_index_table() == index_table_of(f.spec_sequences()),
{
    let header = f.spec_header();
    let seqs = f.spec_sequences();
    let data = file_bytes(header, seqs);
    let t = index_table_of(seqs);
    let n = seqs.len() as int;
    lemma_le_words_len(t);
    lemma_data_upto_len(seqs, n);
    assert(data.subrange(0, HEADER_SIZE as int) =~= header);
    lemma_table_at(seqs, n, 0);
    assert forall|i: int| 0 <= i < ANIMATION_SLOT_COUNT implies #[trigger] table_in(data)[i] == t[i] by {
        lemma_le_words_at(t, i);
        assert(data.subrange(INDEX_TABLE_OFFSET + 2 * i, INDEX_TABLE_OFFSET + 2 * i + 2)
            =~= le_words(t).subrange(2 * i, 2 * i + 2));
        lemma_u16_roundtrip(t[i], data, INDEX_TABLE_OFFSET + 2 * i);
    }
    assert(table_in(data) =~= t);
    lemma_parsed_slots_of_bytes(header, seqs, raw, ANIMATION_SLOT_COUNT as int);
    lemma_slot_position(seqs, ANIMATION_SLOT_COUNT, n);
    assert(seqs.subrange(0, n) =~= seqs);
}

/// A name stored by `set_spr_filename` passes the header check and reads
/// back as the same bytes, which are valid UTF-8: this holds for every
/// ASCII name of at most 11 characters without a NUL character.
pub proof fn lemma_spr_filename_roundtrip(name: &str)
    requires
        vstd::string::is_ascii(name),
        name@.len() <= SPR_FILENAME_MAX_LEN,
        forall|i: int| 0 <= i < name@.len() ==> name@[i] != '\0',
    ensures
        ({
            let h = name.spec_bytes() + Seq::new(
                (HEADER_SIZE - name@.len()) as nat,
                |i: int| 0u8,
            );
            &&& header_error(h) is None
            &&& name_bytes(h) == name.spec_bytes()
            &&& vstd::utf8::valid_utf8(name_bytes(h))
        }),
{
    let b = name.spec_bytes();
    let n = name@.len() as int;
    let h = b + Seq::new((HEADER_SIZE - n) as nat, |i: int| 0u8);
    vstd::utf8::is_ascii_chars_encode_utf8(name@);
    vstd::utf8::is_ascii_chars_nat_bound(name@);
    assert(b.len() == n);
    assert forall|i: int| 0 <= i < n implies 0 < #[trigger] b[i] < 0x80 by {
        assert(name@[i] as u8 == b[i]);
        assert((name@[i] as nat) < 128);
        assert(name@[i] != '\0');
    }
    assert(h[n] == 0);
    assert forall|i: int| 0 <= i <= n implies name_end_from(h, i) == n by {
        lemma_name_end_from(h, i, n);
    }
    assert(name_bytes(h) =~= b);
    vstd::utf8::encode_utf8_valid_utf8(name@);
}

/// The first zero of the name field lies at `n` when the bytes from `i`
/// up to `n` are not zero.
proof fn lemma_name_end_from(h: Seq<u8>, i: int, n: int)
    requires
        0 <= i <= n < SPR_FILENAME_FIELD_LEN,
        n < h.len(),
        h[n] == 0,
        forall|j: int| i <= j < n ==> h[j] != 0,
    ensures
        name_end_from(h, i) == n,
    decreases n - i,
{
    if i < n {
        lemma_name_end_from(h, i + 1, n);
    }
}

/// The index table for the stored sequences, one after another.
fn compute_index_table(sequences: &Vec<(usize, AnimationSequence)>) -> (r: [u16;
    ANIMATION_SLOT_COUNT])
    ensures
        r@ == index_table_of(slot_frames(sequences@)),
{
    let ghost seqs = slot_frames(sequences@);
    let mut table: [u16; ANIMATION_SLOT_COUNT] = [NO_ANIMATION; ANIMATION_SLOT_COUNT];
    assert(table@ =~= table_upto(seqs, 0));
    let mut acc: u64 = 0;
    let mut i: usize = 0;
    while i < sequences.len()
        invariant
            seqs == slot_frames(sequences@),
            seqs.len() == sequences@.len(),
            i <= seqs.len(),
            table@ == table_upto(seqs, i as int),
            data_len(seqs, i as int) >= 0,
            acc == data_len(seqs, i as int) % 0x20000,
        decreases seqs.len() - i,
    {
        let slot = sequences[i].0;
        let n = sequences[i].1.len();
        proof {
            lemma_data_upto_len(seqs, i as int);
            lemma_word_offset_mod(data_len(seqs, i as int));
            lemma_add_bytes_mod(data_len(seqs, i as int), n as int);
        }
        if slot < ANIMATION_SLOT_COUNT {
            table[slot] = (acc / 2) as u16;
            acc = (acc + 4 * ((n % 0x8000) as u64)) % 0x20000;
        }
        i = i + 1;
    }
    table
}

/// A whole animation script: header, index table and the stored sequences
/// by slot.
#[derive(Debug, Clone, PartialEq, Eq)]
pub struct File {
    header: [u8; HEADER_SIZE],
    index_table: [u16; ANIMATION_SLOT_COUNT],
    sequences: Vec<(usize, AnimationSequence)>,
}

impl File {
    /// The header bytes.
    pub closed spec fn spec_header(&self) -> Seq<u8> {
        self.header@
    }

    /// The index table.
    pub closed spec fn spec_index_table(&self) -> Seq<u16> {
        self.index_table@
    }

    /// The stored sequences: slot and descriptors, in storage order.
    pub closed spec fn spec_sequences(&self) -> Seq<(usize, Seq<FrameDescriptor>)> {
        slot_frames(self.sequences@)
    }

    /// The sequences are kept by ascending slot.
    pub open spec fn wf(&self) -> bool {
        slots_ascending(self.spec_sequences())
    }

    /// What reading `data` gives: too short, a bad header, or the file
    /// with the header, the stored index table and the slots read.
    pub open spec fn parsed(data: Seq<u8>, raw: bool, r: Result<File, DvFileError>) -> bool {
        if data.len() < HEADER_SIZE + INDEX_TABLE_SIZE {
            r == Err::<File, DvFileError>(
                DvFileError::InsufficientData {
                    file_type: FileType::Anm,
                    expected: (HEADER_SIZE + INDEX_TABLE_SIZE) as usize,
                    actual: data.len() as usize,
                },
            )
        } else {
            match header_error(data.subrange(0, HEADER_SIZE as int)) {
                Some(m) => r matches Err(e) && is_bad_encoding(e, m),
                None => r matches Ok(f) && f.wf() && f.spec_header() == data.subrange(
                    0,
                    HEADER_SIZE as int,
                ) && f.spec_index_table() == table_in(data) && f.spec_sequences()
                    == parsed_slots(data, table_in(data), raw, ANIMATION_SLOT_COUNT as int),
            }
        }
    }

    /// An empty script: a zero header and no animation in any slot.
    pub fn new() -> (r: Self)
        ensures
            r.spec_header() == Seq::new(HEADER_SIZE as nat, |i: int| 0u8),
            r.spec_index_table() == Seq::new(ANIMATION_SLOT_COUNT as nat, |i: int| NO_ANIMATION),
            r.spec_sequences() == Seq::<(usize, Seq<FrameDescriptor>)>::empty(),
            r.wf(),
    {
        let r = File {
            header: [0u8; HEADER_SIZE],
            index_table: [NO_ANIMATION; ANIMATION_SLOT_COUNT],
            sequences: Vec::new(),
        };
        assert(r.spec_header() =~= Seq::new(HEADER_SIZE as nat, |i: int| 0u8));
        assert(r.spec_index_table() =~= Seq::new(
            ANIMATION_SLOT_COUNT as nat,
            |i: int| NO_ANIMATION,
        ));
        assert(r.spec_sequences() =~= Seq::<(usize, Seq<FrameDescriptor>)>::empty());
        r
    }

    /// A one-line description: the number of stored sequences.
    pub fn to_string(&self) -> (r: String)
        ensures
            r@ == "ANM File ("@ + decimal(self.spec_sequences().len()) + " sequences)"@,
    {
        let mut s = String::from_str("ANM File (");
        append_decimal(&mut s, self.sequences.len() as u64);
        s.append(" sequences)");
        s
    }

    /// The number of slots: 256.
    pub fn slot_count(&self) -> (r: usize)
        ensures
            r == ANIMATION_SLOT_COUNT,
    {
        ANIMATION_SLOT_COUNT
    }

    /// The header bytes.
    pub fn header(&self) -> (r: &[u8; HEADER_SIZE])
        ensures
            r@ == self.spec_header(),
    {
        &self.header
    }

    /// The header bytes, for changing in place.
    pub fn header_mut(&mut self) -> (r: &mut [u8; HEADER_SIZE])
        ensures
            r@ == old(self).spec_header(),
            final(self).spec_header() == final(r)@,
            final(self).spec_index_table() == old(self).spec_index_table(),
            final(self).spec_sequences() == old(self).spec_sequences(),
    {
        &mut self.header
    }

    /// The index table (word offsets into the animation data; `0xFFFF` for
    /// an empty slot).
    pub fn index_table(&self) -> (r: &[u16; ANIMATION_SLOT_COUNT])
        ensures
            r@ == self.spec_index_table(),
    {
        &self.index_table
    }

    /// The word offset of a slot, if the slot exists and is not empty.
    pub fn get_slot_offset(&self, slot: usize) -> (r: Option<u16>)
        ensures
            r == if slot < ANIMATION_SLOT_COUNT && self.spec_index_table()[slot as int]
                != NO_ANIMATION {
                Some(self.spec_index_table()[slot as int])
            } else {
                None::<u16>
            },
    {
        if slot < ANIMATION_SLOT_COUNT && self.index_table[slot] != NO_ANIMATION {
            Some(self.index_table[slot])
        } else {
            None
        }
    }

    /// The stored sequences with their slots.
    pub fn sequences(&self) -> (r: &[(usize, AnimationSequence)])
        ensures
            slot_frames(r@) == self.spec_sequences(),
    {
        self.sequences.as_slice()
    }

    /// The sequence stored for a slot (the first, should there be several).
    pub fn get_sequence(&self, slot: usize) -> (r: Option<&AnimationSequence>)
        ensures
            match find_slot(self.spec_sequences(), slot) {
                Some(i) => r matches Some(s) && s.spec_frames() == self.spec_sequences()[i].1,
                None => r is None,
            },
    {
        let ghost seqs = self.spec_sequences();
        let mut i: usize = 0;
        while i < self.sequences.len()
            invariant
                seqs == self.spec_sequences(),
                seqs.len() == self.sequences@.len(),
                i <= seqs.len(),
                find_slot(seqs, slot) == find_slot_from(seqs, slot, i as int),
            decreases seqs.len() - i,
        {
            if self.sequences[i].0 == slot {
                return Some(&self.sequences[i].1);
            }
            i = i + 1;
        }
        None
    }

    /// The position of the entry for a slot (the first, should there be
    /// several).
    fn slot_index(&self, slot: usize) -> (r: Option<usize>)
        ensures
            match find_slot(self.spec_sequences(), slot) {
                Some(i) => r == Some(i as usize),
                None => r is None,
            },
            r matches Some(i) ==> (i < self.spec_sequences().len() && self.spec_sequences()[i as int].0
                == slot && find_slot(self.spec_sequences(), slot) == Some(i as int)),
    {
        let ghost seqs = self.spec_sequences();
        let mut i: usize = 0;
        while i < self.sequences.len()
            invariant
                seqs == self.spec_sequences(),
                seqs.len() == self.sequences@.len(),
                i <= seqs.len(),
                find_slot(seqs, slot) == find_slot_from(seqs, slot, i as int),
            decreases seqs.len() - i,
        {
            if self.sequences[i].0 == slot {
                return Some(i);
            }
            i = i + 1;
        }
        None
    }

    /// The sequence stored for a slot (the first, should there be several),
    /// for changing in place; the slot list keeps its slots.
    pub fn get_sequence_mut(&mut self, slot: usize) -> (r: Option<&mut AnimationSequence>)
        ensures
            final(self).spec_header() == old(self).spec_header(),
            final(self).spec_index_table() == old(self).spec_index_table(),
            find_slot(old(self).spec_sequences(), slot) is None ==> r is None
                && final(self).spec_sequences() == old(self).spec_sequences(),
            find_slot(old(self).spec_sequences(), slot) matches Some(i) ==> (r is Some
                && (*r->0).spec_frames() == old(self).spec_sequences()[i].1
                && final(self).spec_sequences() == old(self).spec_sequences().update(
                i,
                (slot, final(r->0).spec_frames()),
            )),
            old(self).wf() ==> final(self).wf(),
    {
        match self.slot_index(slot) {
            Some(i) => {
                proof {
                    lemma_slot_frames_update_all(self.sequences@, i as int);
                }
                Some(&mut self.sequences[i].1)
            },
            None => None,
        }
    }

    /// The SPR file name in the header: the bytes before the first zero of
    /// the 12-byte name field; empty when they are not UTF-8.
    pub fn spr_filename(&self) -> (r: &str)
        ensures
            vstd::utf8::valid_utf8(name_bytes(self.spec_header())) ==> r.spec_bytes() == name_bytes(
                self.spec_header(),
            ),
            !vstd::utf8::valid_utf8(name_bytes(self.spec_header())) ==> r@.len() == 0,
    {
        let ghost h = self.header@;
        let mut end: usize = 0;
        while end < SPR_FILENAME_FIELD_LEN && self.header[end] != 0
            invariant
                h == self.header@,
                end <= SPR_FILENAME_FIELD_LEN,
                name_end_from(h, 0) == name_end_from(h, end as int),
            decreases SPR_FILENAME_FIELD_LEN - end,
        {
            end = end + 1;
        }
        let all = self.header.as_slice();
        let name = &all[0..end];
        match str_from_utf8(name) {
            Some(s) => s,
            None => {
                proof {
                    reveal_strlit("");
                }
                ""
            },
        }
    }

    /// Stores an SPR file name in the header: its bytes, then zeros. Refused
    /// when it is not ASCII or longer than 11 characters.
    pub fn set_spr_filename(&mut self, filename: &str) -> (r: Result<(), DvFileError>)
        ensures
            final(self).spec_index_table() == old(self).spec_index_table(),
            final(self).spec_sequences() == old(self).spec_sequences(),
            !vstd::string::is_ascii(filename) ==> (r matches Err(e) && is_bad_encoding(
                e,
                "SPR filename must be ASCII"@,
            ) && final(self).spec_header() == old(self).spec_header()),
            vstd::string::is_ascii(filename) && filename@.len() > SPR_FILENAME_MAX_LEN ==> (r matches Err(
                e,
            ) && is_bad_encoding(e, "SPR filename must be at most 11 characters"@)
                && final(self).spec_header() == old(self).spec_header()),
            vstd::string::is_ascii(filename) && filename@.len() <= SPR_FILENAME_MAX_LEN ==> r is Ok
                && final(self).spec_header() == filename.spec_bytes() + Seq::new(
                (HEADER_SIZE - filename@.len()) as nat,
                |i: int| 0u8,
            ),
    {
        if !filename.is_ascii() {
            return Err(
                DvFileError::BadEncoding {
                    file_type: FileType::Anm,
                    message: String::from_str("SPR filename must be ASCII"),
                },
            );
        }
        let bytes = filename.as_bytes();
        proof {
            vstd::string::is_ascii_spec_bytes(filename);
        }
        assert(bytes@.len() == filename@.len());
        if bytes.len() > SPR_FILENAME_MAX_LEN {
            return Err(
                DvFileError::BadEncoding {
                    file_type: FileType::Anm,
                    message: String::from_str("SPR filename must be at most 11 characters"),
                },
            );
        }
        let n = bytes.len();
        let ghost want = filename.spec_bytes() + Seq::new((HEADER_SIZE - n) as nat, |i: int| 0u8);
        let mut i: usize = 0;
        while i < HEADER_SIZE
            invariant
                i <= HEADER_SIZE,
                n == bytes@.len(),
                n <= SPR_FILENAME_MAX_LEN,
                bytes@ == filename.spec_bytes(),
                want == filename.spec_bytes() + Seq::new((HEADER_SIZE - n) as nat, |i: int| 0u8),
                self.index_table@ == old(self).index_table@,
                self.sequences@ == old(self).sequences@,
                forall|j: int| 0 <= j < i ==> self.header@[j] == #[trigger] want[j],
            decreases HEADER_SIZE - i,
        {
            if i < n {
                self.header[i] = bytes[i];
            } else {
                self.header[i] = 0;
            }
            i = i + 1;
        }
        assert(self.header@ =~= want);
        Ok(())
    }

    /// Checks the header: the name field holds ASCII bytes and, unless it is
    /// all zero, a terminating zero; the padding is zero.
    fn validate_header(header: &[u8; HEADER_SIZE]) -> (r: Result<(), DvFileError>)
        ensures
            match header_error(header@) {
                Some(m) => r matches Err(e) && is_bad_encoding(e, m),
                None => r is Ok,
            },
    {
        let ghost h = header@;
        let mut high = false;
        let mut nonzero = false;
        let mut nul = false;
        let mut i: usize = 0;
        while i < SPR_FILENAME_FIELD_LEN
            invariant
                h == header@,
                i <= SPR_FILENAME_FIELD_LEN,
                high == exists|j: int| 0 <= j < i && h[j] >= 0x80,
                nonzero == exists|j: int| 0 <= j < i && h[j] != 0,
                nul == exists|j: int| 0 <= j < i && h[j] == 0,
            decreases SPR_FILENAME_FIELD_LEN - i,
        {
            let b = header[i];
            if b >= 0x80 {
                high = true;
            }
            if b != 0 {
                nonzero = true;
            } else {
                nul = true;
            }
            assert(h[i as int] == b);
            i = i + 1;
        }
        if high {
            return Err(
                DvFileError::BadEncoding {
                    file_type: FileType::Anm,
                    message: String::from_str("SPR filename must contain ASCII bytes only"),
                },
            );
        }
        if nonzero && !nul {
            return Err(
                DvFileError::BadEncoding {
                    file_type: FileType::Anm,
                    message: String::from_str(
                        "SPR filename must include a null terminator within first 12 bytes",
                    ),
                },
            );
        }
        let mut p: usize = HEADER_PADDING_OFFSET;
        while p < HEADER_PADDING_OFFSET + HEADER_PADDING_SIZE
            invariant
                h == header@,
                HEADER_PADDING_OFFSET <= p <= HEADER_PADDING_OFFSET + HEADER_PADDING_SIZE,
                forall|j: int| HEADER_PADDING_OFFSET <= j < p ==> h[j] == 0,
                !(exists|j: int| 0 <= j < SPR_FILENAME_FIELD_LEN && h[j] >= 0x80),
                !((exists|j: int| 0 <= j < SPR_FILENAME_FIELD_LEN && h[j] != 0) && !(exists|j: int|
                    0 <= j < SPR_FILENAME_FIELD_LEN && h[j] == 0)),
            decreases HEADER_PADDING_OFFSET + HEADER_PADDING_SIZE - p,
        {
            if header[p] != 0 {
                assert(h[p as int] != 0);
                return Err(
                    DvFileError::BadEncoding {
                        file_type: FileType::Anm,
                        message: String::from_str("Header padding bytes (0x0C-0x1F) must be zero"),
                    },
                );
            }
            p = p + 1;
        }
        Ok(())
    }

    /// Stores a sequence for a slot, replacing the one stored there; the
    /// sequences stay in slot order and the index table is rebuilt. Refused
    /// for a slot above 255.
    pub fn set_sequence(&mut self, slot: usize, sequence: AnimationSequence) -> (r: Result<
        (),
        DvFileError,
    >)
        requires
            old(self).wf(),
        ensures
            final(self).wf(),
            final(self).spec_header() == old(self).spec_header(),
            slot >= ANIMATION_SLOT_COUNT ==> (r matches Err(e) && e matches DvFileError::EntryNotFound {
                file_type,
                message,
            } && file_type == FileType::Anm && message@ == "Slot index "@ + decimal(slot as nat)
                + " out of range (max 255)"@ && *final(self) == *old(self)),
            slot < ANIMATION_SLOT_COUNT ==> (r is Ok && final(self).spec_sequences() == put_slot(
                old(self).spec_sequences(),
                slot,
                sequence.spec_frames(),
            ) && final(self).spec_index_table() == index_table_of(final(self).spec_sequences())),
    {
        if slot >= ANIMATION_SLOT_COUNT {
            return Err(
                DvFileError::EntryNotFound {
                    file_type: FileType::Anm,
                    message: number_message("Slot index ", slot as u64, " out of range (max 255)"),
                },
            );
        }
        let ghost seqs = self.spec_sequences();
        let ghost fs = sequence.spec_frames();
        let mut k: usize = 0;
        while k < self.sequences.len() && self.sequences[k].0 < slot
            invariant
                seqs == slot_frames(self.sequences@),
                seqs.len() == self.sequences@.len(),
                k <= seqs.len(),
                forall|i: int| 0 <= i < k ==> (#[trigger] seqs[i]).0 < slot,
            decreases seqs.len() - k,
        {
            k = k + 1;
        }
        proof {
            lemma_slot_position(seqs, slot, k as int);
        }
        if k < self.sequences.len() && self.sequences[k].0 == slot {
            self.sequences[k] = (slot, sequence);
            assert(self.spec_sequences() =~= seqs.update(k as int, (slot, fs)));
        } else {
            self.sequences.insert(k, (slot, sequence));
            assert(self.spec_sequences() =~= seqs.insert(k as int, (slot, fs)));
        }
        proof {
            lemma_put_slot_ascending(seqs, slot, fs);
        }
        self.index_table = compute_index_table(&self.sequences);
        Ok(())
    }

    /// Removes and returns the sequence stored for a slot (the first, should
    /// there be several), rebuilding the index table; `None`, with nothing
    /// changed, when the slot has none.
    pub fn remove_sequence(&mut self, slot: usize) -> (r: Option<AnimationSequence>)
        ensures
            final(self).spec_header() == old(self).spec_header(),
            old(self).wf() ==> final(self).wf(),
            match find_slot(old(self).spec_sequences(), slot) {
                Some(i) => r matches Some(s) && s.spec_frames() == old(self).spec_sequences()[i].1
                    && final(self).spec_sequences() == old(self).spec_sequences().remove(i)
                    && final(self).spec_index_table() == index_table_of(
                    final(self).spec_sequences(),
                ),
                None => r is None && *final(self) == *old(self),
            },
    {
        let ghost seqs = self.spec_sequences();
        let mut i: usize = 0;
        while i < self.sequences.len()
            invariant
                seqs == slot_frames(self.sequences@),
                seqs.len() == self.sequences@.len(),
                i <= seqs.len(),
                find_slot(seqs, slot) == find_slot_from(seqs, slot, i as int),
                self.header@ == old(self).header@,
                self.sequences@ == old(self).sequences@,
                self.index_table@ == old(self).index_table@,
                *self == *old(self),
            decreases seqs.len() - i,
        {
            if self.sequences[i].0 == slot {
                let (_, removed) = self.sequences.remove(i);
                assert(self.spec_sequences() =~= seqs.remove(i as int));
                self.index_table = compute_index_table(&self.sequences);
                return Some(removed);
            }
            i = i + 1;
        }
        None
    }

    /// The bytes of the script: the header, the index table rebuilt for the
    /// sequences stored one after another, then their descriptors.
    pub fn to_bytes(&self) -> (r: Vec<u8>)
        ensures
            r@ == file_bytes(self.spec_header(), self.spec_sequences()),
    {
        let ghost seqs = self.spec_sequences();
        let mut table: [u16; ANIMATION_SLOT_COUNT] = [NO_ANIMATION; ANIMATION_SLOT_COUNT];
        assert(table@ =~= table_upto(seqs, 0));
        let mut data: Vec<u8> = Vec::new();
        let mut i: usize = 0;
        while i < self.sequences.len()
            invariant
                seqs == slot_frames(self.sequences@),
                seqs.len() == self.sequences@.len(),
                i <= seqs.len(),
                table@ == table_upto(seqs, i as int),
                data@ == data_upto(seqs, i as int),
            decreases seqs.len() - i,
        {
            let slot = self.sequences[i].0;
            proof {
                lemma_data_upto_len(seqs, i as int);
            }
            if slot < ANIMATION_SLOT_COUNT {
                let off = data.len();
                table[slot] = ((off / 2) % 0x10000) as u16;
                let b = self.sequences[i].1.to_bytes();
                push_slice(&mut data, b.as_slice());
            }
            i = i + 1;
        }
        let mut out: Vec<u8> = Vec::new();
        push_slice(&mut out, self.header.as_slice());
        let mut w: usize = 0;
        while w < ANIMATION_SLOT_COUNT
            invariant
                w <= ANIMATION_SLOT_COUNT,
                table@.len() == ANIMATION_SLOT_COUNT,
                out@ == self.header@ + le_words(table@.subrange(0, w as int)),
            decreases ANIMATION_SLOT_COUNT - w,
        {
            let ghost before = out@;
            push_u16(&mut out, table[w]);
            assert(table@.subrange(0, w + 1).drop_last() =~= table@.subrange(0, w as int));
            assert(out@ =~= self.header@ + le_words(table@.subrange(0, w + 1)));
            w = w + 1;
        }
        assert(table@.subrange(0, ANIMATION_SLOT_COUNT as int) =~= table@);
        push_slice(&mut out, data.as_slice());
        out
    }

    /// Reads a script: at least the header and the index table, a valid
    /// header, then each valid slot from its start to the end of the data,
    /// as stored (`raw`) or by following the jumps.
    fn parse(data: &[u8], raw: bool) -> (r: Result<File, DvFileError>)
        ensures
            File::parsed(data@, raw, r),
    {
        let ghost d = data@;
        let min_size = HEADER_SIZE + INDEX_TABLE_SIZE;
        if data.len() < min_size {
            return Err(DvFileError::insufficient_data(FileType::Anm, min_size, data.len()));
        }
        let mut header = [0u8; HEADER_SIZE];
        let mut i: usize = 0;
        while i < HEADER_SIZE
            invariant
                d == data@,
                d.len() >= HEADER_SIZE + INDEX_TABLE_SIZE,
                i <= HEADER_SIZE,
                header@.len() == HEADER_SIZE,
                forall|j: int| 0 <= j < i ==> header@[j] == d[j],
            decreases HEADER_SIZE - i,
        {
            header[i] = data[i];
            i = i + 1;
        }
        assert(header@ =~= d.subrange(0, HEADER_SIZE as int));
        match File::validate_header(&header) {
            Ok(()) => {},
            Err(e) => {
                return Err(e);
            },
        }
        let mut index_table = [0u16; ANIMATION_SLOT_COUNT];
        let mut k: usize = 0;
        while k < ANIMATION_SLOT_COUNT
            invariant
                d == data@,
                d.len() >= HEADER_SIZE + INDEX_TABLE_SIZE,
                k <= ANIMATION_SLOT_COUNT,
                index_table@.len() == ANIMATION_SLOT_COUNT,
                forall|j: int| 0 <= j < k ==> index_table@[j] == #[trigger] table_in(d)[j],
            decreases ANIMATION_SLOT_COUNT - k,
        {
            index_table[k] = read_u16(data, INDEX_TABLE_OFFSET + 2 * k);
            k = k + 1;
        }
        assert(index_table@ =~= table_in(d));
        let windows = compute_slot_windows(&index_table, data.len());
        let mut sequences: Vec<(usize, AnimationSequence)> = Vec::new();
        let mut s: usize = 0;
        while s < ANIMATION_SLOT_COUNT
            invariant
                d == data@,
                index_table@ == table_in(d),
                s <= ANIMATION_SLOT_COUNT,
                forall|j: int|
                    0 <= j < ANIMATION_SLOT_COUNT ==> windows@[j] == #[trigger] slot_window(
                        index_table@,
                        d.len() as int,
                        j,
                    ),
                slot_frames(sequences@) == parsed_slots(d, index_table@, raw, s as int),
                slots_ascending(slot_frames(sequences@)),
                forall|j: int| 0 <= j < sequences@.len() ==> (#[trigger] sequences@[j]).0 < s,
            decreases ANIMATION_SLOT_COUNT - s,
        {
            let ghost before = sequences@;
            assert(windows@[s as int] == slot_window(index_table@, d.len() as int, s as int));
            match windows[s] {
                Some(w) => {
                    let tail = &data[w.start..data.len()];
                    assert(tail@ == d.subrange(slot_start(index_table@, s as int), d.len() as int));
                    let got: Option<AnimationSequence> = if raw {
                        match AnimationSequence::from_bytes_raw(tail) {
                            Ok((seq, _)) => Some(seq),
                            Err(_) => None,
                        }
                    } else {
                        match AnimationSequence::from_bytes(tail) {
                            Ok((seq, _)) => Some(seq),
                            Err(_) => None,
                        }
                    };
                    assert(match frames_in(tail@, raw) {
                        Some(fs) => got matches Some(q) && q.spec_frames() == fs,
                        None => got is None,
                    });
                    match got {
                        Some(seq) => {
                            if !seq.is_empty() {
                                sequences.push((s, seq));
                                assert(slot_frames(sequences@) =~= slot_frames(before).push(
                                    (s, seq.spec_frames()),
                                ));
                            }
                        },
                        None => {},
                    }
                },
                None => {},
            }
            s = s + 1;
        }
        Ok(File { header, index_table, sequences })
    }

    /// Reads a script, following the jumps of each sequence the way the
    /// engine plays it.
    pub fn from_bytes(data: &[u8]) -> (r: Result<File, DvFileError>)
        ensures
            File::parsed(data@, false, r),
    {
        File::parse(data, false)
    }

    /// Reads a script with the descriptors of each sequence as stored.
    pub fn from_bytes_raw(data: &[u8]) -> (r: Result<File, DvFileError>)
        ensures
            File::parsed(data@, true, r),
    {
        File::parse(data, true)
    }

    /// Reads a script from the rest of a reader, following the jumps.
    pub fn from_reader(reader: &mut ByteReader) -> (r: Result<File, DvFileError>)
        ensures
            final(reader).spec_data() == old(reader).spec_data(),
            File::parsed(old(reader).rest(), false, r),
    {
        let data = reader.read_to_end();
        File::parse(data.as_slice(), false)
    }

    /// Reads a script from the rest of a reader, with the descriptors as
    /// stored.
    pub fn from_reader_raw(reader: &mut ByteReader) -> (r: Result<File, DvFileError>)
        ensures
            final(reader).spec_data() == old(reader).spec_data(),
            File::parsed(old(reader).rest(), true, r),
    {
        let data = reader.read_to_end();
        File::parse(data.as_slice(), true)
    }
}

impl Default for File {
    fn default() -> (r: Self)
        ensures
            r.spec_header() == Seq::new(HEADER_SIZE as nat, |i: int| 0u8),
            r.spec_index_table() == Seq::new(ANIMATION_SLOT_COUNT as nat, |i: int| NO_ANIMATION),
            r.spec_sequences() == Seq::<(usize, Seq<FrameDescriptor>)>::empty(),
            r.wf(),
    {
        File::new()
    }
}

} // verus!

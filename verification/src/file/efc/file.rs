//! Reading a sound effect bank: the index table and the effects it points to.

use vstd::prelude::*;

use super::super::error::{DvFileError, FileType};
use super::super::le::{copy_range, read_u32, u32_at};
use super::super::reader::ByteReader;
use super::super::text::{decimal, push_decimal, push_str, string_from_chars};
use super::constants::{ADPCM_HEADER_SIZE, INDEX_TABLE_SIZE, MAX_EFFECTS, SOUND_HEADER_SIZE};
use super::decoder::{decode_ima_adpcm, decoded_pcm, is_short_data_error};
use super::iterator::{DecodedSoundIter, EffectInfoIter};
use super::types::{
    is_adpcm_header_of, sound_header_of, AdpcmDataHeader, DecodedSound,
    EffectInfo, SoundDataHeader,
};

verus! {

/// The first set offset at or after index `from`, or 0 if there is none.
pub open spec fn next_set_offset(t: Seq<u32>, from: int) -> u32
    decreases MAX_EFFECTS - from,
{
    if from >= MAX_EFFECTS || from < 0 {
        0
    } else if t[from] != 0 {
        t[from]
    } else {
        next_set_offset(t, from + 1)
    }
}

/// Where effect `id` ends: at the next set offset, or else at the end of
/// the file (its length taken modulo 2^32).
pub open spec fn effect_end(t: Seq<u32>, file_len: int, id: int) -> u32 {
    let n = next_set_offset(t, id + 1);
    if n == 0 {
        (file_len % 0x1_0000_0000) as u32
    } else {
        n
    }
}

/// Whether effect `id` exists and ends no earlier than it starts.
pub open spec fn has_span(t: Seq<u32>, file_len: int, id: int) -> bool {
    0 <= id < MAX_EFFECTS && t[id] != 0 && effect_end(t, file_len, id) >= t[id]
}

/// Whether `e` is an entry-not-found error of a sound bank with message `m`.
pub open spec fn is_not_found(e: DvFileError, m: Seq<char>) -> bool {
    e matches DvFileError::EntryNotFound { file_type, message } && file_type == FileType::Efc
        && message@ == m
}

/// Whether `e` is the error for effect `id` having no span.
pub open spec fn is_span_error(t: Seq<u32>, file_len: int, id: int, e: DvFileError) -> bool {
    if id >= MAX_EFFECTS {
        is_not_found(e, "Effect ID "@ + decimal(id as nat) + " out of range"@)
    } else if t[id] == 0 {
        is_not_found(e, "Effect ID "@ + decimal(id as nat) + " is not a valid entry"@)
    } else {
        is_not_found(
            e,
            "Effect ID "@ + decimal(id as nat) + " has invalid offset: next_offset "@ + decimal(
                effect_end(t, file_len, id) as nat,
            ) + " < offset "@ + decimal(t[id] as nat),
        )
    }
}

/// The number of ADPCM bytes read for an effect of `size` bytes whose
/// header gives `sample_count` and `channels`: the header byte count plus
/// one byte per two samples, but no more than what follows the headers.
pub open spec fn adpcm_read_size(sample_count: u32, channels: u16, size: int) -> int {
    let want = 4 + (sample_count * channels + 1) / 2;
    let room = size - SOUND_HEADER_SIZE - ADPCM_HEADER_SIZE;
    if want > room {
        room
    } else {
        want
    }
}

/// The number of set entries among the first `k` of the table.
pub open spec fn count_set_offsets(t: Seq<u32>, k: int) -> nat
    decreases k,
{
    if k <= 0 {
        0
    } else {
        count_set_offsets(t, k - 1) + if t[k - 1] != 0 {
            1nat
        } else {
            0nat
        }
    }
}

/// The effects listed by the index table from index `from` on, in order,
/// with zero headers.
pub open spec fn effects_from(t: Seq<u32>, from: int) -> Seq<EffectInfo>
    decreases MAX_EFFECTS - from,
{
    if from >= MAX_EFFECTS || from < 0 {
        Seq::empty()
    } else if t[from] != 0 {
        seq![effect_info(from, t[from])] + effects_from(t, from + 1)
    } else {
        effects_from(t, from + 1)
    }
}

/// The listing entry of effect `id` at `offset`.
pub open spec fn effect_info(id: int, offset: u32) -> EffectInfo {
    EffectInfo {
        id: id as usize,
        offset,
        header: SoundDataHeader { sound_type: 0, unknown_1: 0, priority: 0 },
    }
}

/// Sound effect bank: the index table, read from the start of the data,
/// and the data the effects are read from.
#[derive(Debug, Clone, PartialEq, Eq, Hash)]
pub struct File {
    data: Vec<u8>,
    index_table: [u32; MAX_EFFECTS],
}

impl File {
    /// The bytes of the bank.
    pub closed spec fn spec_data(&self) -> Seq<u8> {
        self.data@
    }

    /// The index table: the offset of each effect, 0 where there is none.
    pub closed spec fn spec_table(&self) -> Seq<u32> {
        self.index_table@
    }

    /// The table has one entry per effect.
    pub proof fn lemma_table_len(&self)
        ensures
            self.spec_table().len() == MAX_EFFECTS,
    {
    }

    /// What reading effect `id` gives, as [`File::extract`] states it.
    pub open spec fn extract_ensures(&self, id: int, r: Result<DecodedSound, DvFileError>) -> bool {
        let t = self.spec_table();
        let data = self.spec_data();
        let len = data.len() as int;
        let off = t[id] as int;
        let size = effect_end(t, len, id) - off;
        let hb = data.subrange(off + 4, off + 196);
        let count = u32_at(hb, 0xBC);
        let channels = (hb[4] as int + 256 * hb[5] as int) as u16;
        let asz = adpcm_read_size(count, channels, size);
        &&& !has_span(t, len, id) ==> (r matches Err(e) && is_span_error(t, len, id, e))
        &&& has_span(t, len, id) && off + SOUND_HEADER_SIZE > len ==> r == Err::<
            DecodedSound,
            DvFileError,
        >(
            DvFileError::InsufficientData {
                file_type: FileType::Efc,
                expected: SOUND_HEADER_SIZE,
                actual: (if off <= len {
                    len - off
                } else {
                    0
                }) as usize,
            },
        )
        &&& has_span(t, len, id) && off + SOUND_HEADER_SIZE <= len && off + 196 > len ==> r
            == Err::<DecodedSound, DvFileError>(
            DvFileError::InsufficientData {
                file_type: FileType::Efc,
                expected: ADPCM_HEADER_SIZE,
                actual: (len - off - 4) as usize,
            },
        )
        &&& has_span(t, len, id) && off + 196 <= len && size < 196 ==> r == Err::<DecodedSound, DvFileError>(
            DvFileError::InsufficientData {
                file_type: FileType::Efc,
                expected: 196,
                actual: size as usize,
            },
        )
        &&& has_span(t, len, id) && off + 196 <= len && size >= 196 && off + 196 + asz > len ==> r == Err::<
            DecodedSound,
            DvFileError,
        >(
            DvFileError::InsufficientData {
                file_type: FileType::Efc,
                expected: asz as usize,
                actual: (len - off - 196) as usize,
            },
        )
        &&& has_span(t, len, id) && off + 196 <= len && size >= 196 && off + 196 + asz <= len && asz < 4 ==> (r matches Err(e)
            && is_short_data_error(e))
        &&& has_span(t, len, id) && off + 196 <= len && size >= 196 && off + 196 + asz <= len && asz >= 4 ==> (r matches Ok(s) && s.id
            == id && s.sound_header == sound_header_of(data.subrange(off, off + 4))
            && is_adpcm_header_of(s.adpcm_header, hb) && s.pcm_data@ == decoded_pcm(
            data.subrange(off + 196, off + 196 + asz),
            s.adpcm_header.step_table@,
            count * channels,
        ))
    }

    /// Reads the index table at the reader's position; the effects are read
    /// from the reader's data.
    pub fn from_reader(reader: ByteReader) -> (r: Result<Self, DvFileError>)
        ensures
            reader.can_read(INDEX_TABLE_SIZE as int) ==> (r matches Ok(f) && f.spec_data()
                == reader.spec_data() && f.spec_table() == Seq::new(
                MAX_EFFECTS as nat,
                |i: int| u32_at(reader.spec_data(), reader.spec_pos() + 4 * i),
            )),
            !reader.can_read(INDEX_TABLE_SIZE as int) ==> r == Err::<File, DvFileError>(
                DvFileError::InsufficientData {
                    file_type: FileType::Efc,
                    expected: INDEX_TABLE_SIZE,
                    actual: reader.spec_remaining() as usize,
                },
            ),
    {
        let mut reader = reader;
        let ghost start = reader.spec_pos();
        let ghost data = reader.spec_data();
        let left = reader.remaining();
        let bytes = match reader.read_exact(INDEX_TABLE_SIZE) {
            Some(b) => b,
            None => {
                return Err(
                    DvFileError::InsufficientData {
                        file_type: FileType::Efc,
                        expected: INDEX_TABLE_SIZE,
                        actual: left,
                    },
                );
            },
        };
        let mut index_table = [0u32; MAX_EFFECTS];
        let mut i: usize = 0;
        while i < MAX_EFFECTS
            invariant
                i <= MAX_EFFECTS,
                bytes@.len() == INDEX_TABLE_SIZE,
                bytes@ == data.subrange(start as int, start + INDEX_TABLE_SIZE),
                start + INDEX_TABLE_SIZE <= data.len(),
                index_table@.len() == MAX_EFFECTS,
                forall|k: int|
                    0 <= k < i ==> index_table@[k] == #[trigger] u32_at(data, start + 4 * k),
            decreases MAX_EFFECTS - i,
        {
            let v = read_u32(bytes.as_slice(), 4 * i);
            assert(bytes@[4 * i] == data[start + 4 * i]);
            assert(bytes@[4 * i + 1] == data[start + 4 * i + 1]);
            assert(bytes@[4 * i + 2] == data[start + 4 * i + 2]);
            assert(bytes@[4 * i + 3] == data[start + 4 * i + 3]);
            assert(v == u32_at(data, start + 4 * i));
            index_table[i] = v;
            i = i + 1;
        }
        let f = File { data: reader.into_inner(), index_table };
        assert(f.index_table@ =~= Seq::new(
            MAX_EFFECTS as nat,
            |i: int| u32_at(data, start + 4 * i),
        ));
        Ok(f)
    }

    /// The offset and byte size of effect `id`.
    fn get_offset(&self, id: usize) -> (r: Result<(u32, u32), DvFileError>)
        ensures
            has_span(self.spec_table(), self.spec_data().len() as int, id as int) ==> r == Ok::<
                (u32, u32),
                DvFileError,
            >(
                (
                    self.spec_table()[id as int],
                    (effect_end(self.spec_table(), self.spec_data().len() as int, id as int)
                        - self.spec_table()[id as int]) as u32,
                ),
            ),
            !has_span(self.spec_table(), self.spec_data().len() as int, id as int) ==> (r matches Err(
                e,
            ) && is_span_error(self.spec_table(), self.spec_data().len() as int, id as int, e)),
    {
        let ghost t = self.index_table@;
        if id >= MAX_EFFECTS {
            let mut m: Vec<char> = Vec::new();
            push_str(&mut m, "Effect ID ");
            push_decimal(&mut m, id as u64);
            push_str(&mut m, " out of range");
            return Err(
                DvFileError::EntryNotFound { file_type: FileType::Efc, message: string_from_chars(&m) },
            );
        }
        let offset = self.index_table[id];
        if offset == 0 {
            let mut m: Vec<char> = Vec::new();
            push_str(&mut m, "Effect ID ");
            push_decimal(&mut m, id as u64);
            push_str(&mut m, " is not a valid entry");
            return Err(
                DvFileError::EntryNotFound { file_type: FileType::Efc, message: string_from_chars(&m) },
            );
        }
        let mut next_offset: u32 = 0;
        let mut i: usize = id + 1;
        while i < MAX_EFFECTS
            invariant_except_break
                id < MAX_EFFECTS,
                id + 1 <= i <= MAX_EFFECTS,
                t == self.index_table@,
                t.len() == MAX_EFFECTS,
                next_offset == 0,
                next_set_offset(t, id + 1) == next_set_offset(t, i as int),
            ensures
                next_offset == next_set_offset(t, id + 1),
            decreases MAX_EFFECTS - i,
        {
            if self.index_table[i] != 0 {
                next_offset = self.index_table[i];
                break;
            }
            i = i + 1;
        }
        if next_offset == 0 {
            let end = self.data.len() as u64;
            next_offset = (end % 0x1_0000_0000) as u32;
        }
        if next_offset < offset {
            let mut m: Vec<char> = Vec::new();
            push_str(&mut m, "Effect ID ");
            push_decimal(&mut m, id as u64);
            push_str(&mut m, " has invalid offset: next_offset ");
            push_decimal(&mut m, next_offset as u64);
            push_str(&mut m, " < offset ");
            push_decimal(&mut m, offset as u64);
            return Err(
                DvFileError::EntryNotFound { file_type: FileType::Efc, message: string_from_chars(&m) },
            );
        }
        Ok((offset, next_offset - offset))
    }

    /// Reads and decodes effect `id`: its sound data header, its ADPCM
    /// header and as much ADPCM data as the header asks for and the effect
    /// holds; an error when the effect is shorter than its two headers.
    pub fn extract(&self, id: usize) -> (r: Result<DecodedSound, DvFileError>)
        ensures
            self.extract_ensures(id as int, r),
    {
        let ghost t = self.index_table@;
        let ghost data = self.data@;
        let (offset, size) = match self.get_offset(id) {
            Ok(v) => v,
            Err(e) => {
                return Err(e);
            },
        };
        let len = self.data.len();
        let off = offset as usize;
        assert(has_span(t, len as int, id as int));
        assert(offset == t[id as int]);
        if off > len || len - off < SOUND_HEADER_SIZE {
            return Err(
                DvFileError::InsufficientData {
                    file_type: FileType::Efc,
                    expected: SOUND_HEADER_SIZE,
                    actual: if off <= len {
                        len - off
                    } else {
                        0
                    },
                },
            );
        }
        let sb = copy_range(self.data.as_slice(), off, off + SOUND_HEADER_SIZE);
        let sound_header = match SoundDataHeader::from_bytes(sb.as_slice()) {
            Ok(h) => h,
            Err(e) => {
                return Err(e);
            },
        };
        let hoff = off + SOUND_HEADER_SIZE;
        if len - hoff < ADPCM_HEADER_SIZE {
            return Err(
                DvFileError::InsufficientData {
                    file_type: FileType::Efc,
                    expected: ADPCM_HEADER_SIZE,
                    actual: len - hoff,
                },
            );
        }
        let hb = copy_range(self.data.as_slice(), hoff, hoff + ADPCM_HEADER_SIZE);
        let adpcm_header = match AdpcmDataHeader::from_bytes(hb.as_slice()) {
            Ok(h) => h,
            Err(e) => {
                return Err(e);
            },
        };
        assert(adpcm_header.channels == (hb@[4] as int + 256 * hb@[5] as int) as u16);
        proof {
            assert(adpcm_header.sample_count * adpcm_header.channels <= 0xFFFF_FFFFu64 * 0xFFFFu64)
                by (nonlinear_arith)
                requires
                    adpcm_header.sample_count <= 0xFFFF_FFFFu64,
                    adpcm_header.channels <= 0xFFFFu64,
            ;
        }
        if (size as u64) < (SOUND_HEADER_SIZE + ADPCM_HEADER_SIZE) as u64 {
            return Err(
                DvFileError::InsufficientData {
                    file_type: FileType::Efc,
                    expected: SOUND_HEADER_SIZE + ADPCM_HEADER_SIZE,
                    actual: size as usize,
                },
            );
        }
        let samples: u64 = adpcm_header.sample_count as u64 * adpcm_header.channels as u64;
        let mut adpcm_size: u64 = 4 + (samples + 1) / 2;
        let room: u64 = size as u64 - (SOUND_HEADER_SIZE + ADPCM_HEADER_SIZE) as u64;
        if adpcm_size > room {
            adpcm_size = room;
        }
        let doff = hoff + ADPCM_HEADER_SIZE;
        if ((len - doff) as u64) < adpcm_size {
            return Err(
                DvFileError::InsufficientData {
                    file_type: FileType::Efc,
                    expected: adpcm_size as usize,
                    actual: len - doff,
                },
            );
        }
        let adpcm_data = copy_range(self.data.as_slice(), doff, doff + adpcm_size as usize);
        let pcm_data = match decode_ima_adpcm(
            adpcm_data.as_slice(),
            &adpcm_header.step_table,
            adpcm_header.channels,
            adpcm_header.sample_count,
        ) {
            Ok(p) => p,
            Err(e) => {
                return Err(e);
            },
        };
        Ok(DecodedSound { id, sound_header, adpcm_header, pcm_data })
    }

    /// The effects present, in index order, with zero headers.
    pub fn list_effects(&self) -> (r: Vec<EffectInfo>)
        ensures
            r@ == effects_from(self.spec_table(), 0),
    {
        let mut effects: Vec<EffectInfo> = Vec::new();
        let ghost t = self.index_table@;
        let mut id: usize = 0;
        while id < MAX_EFFECTS
            invariant
                id <= MAX_EFFECTS,
                t == self.index_table@,
                t.len() == MAX_EFFECTS,
                effects@ + effects_from(t, id as int) == effects_from(t, 0),
            decreases MAX_EFFECTS - id,
        {
            let offset = self.index_table[id];
            if offset != 0 {
                effects.push(
                    EffectInfo {
                        id,
                        offset,
                        header: SoundDataHeader { sound_type: 0, unknown_1: 0, priority: 0 },
                    },
                );
                assert(effects@ + effects_from(t, id + 1) =~= effects_from(t, 0)) by {
                    assert(effects_from(t, id as int) == seq![effect_info(id as int, offset)]
                        + effects_from(t, id + 1));
                }
            }
            id = id + 1;
        }
        assert(effects@ =~= effects_from(t, 0));
        effects
    }

    /// Whether effect `id` is present.
    pub fn has_effect(&self, id: usize) -> (r: bool)
        ensures
            r == (id < MAX_EFFECTS && self.spec_table()[id as int] != 0),
    {
        id < MAX_EFFECTS && self.index_table[id] != 0
    }

    /// The number of effects present.
    pub fn effect_count(&self) -> (r: usize)
        ensures
            r == count_set_offsets(self.spec_table(), MAX_EFFECTS as int),
    {
        let mut count: usize = 0;
        let mut i: usize = 0;
        while i < MAX_EFFECTS
            invariant
                i <= MAX_EFFECTS,
                self.index_table@.len() == MAX_EFFECTS,
                count == count_set_offsets(self.index_table@, i as int),
                count <= i,
            decreases MAX_EFFECTS - i,
        {
            if self.index_table[i] != 0 {
                count = count + 1;
            }
            i = i + 1;
        }
        count
    }

    /// An iterator over the effects present, without decoding them.
    pub fn iter_info(&self) -> (r: EffectInfoIter<'_>)
        ensures
            r.spec_table() == self.spec_table(),
            r.spec_current_id() == 0,
    {
        EffectInfoIter::new(&self.index_table)
    }

    /// An iterator that decodes the effects present, one at a time.
    pub fn iter_sounds(&self) -> (r: DecodedSoundIter<'_>)
        ensures
            r.spec_file() == *self,
            r.spec_current_id() == 0,
    {
        DecodedSoundIter::new(self)
    }

    /// Same as [`File::iter_info`].
    pub fn iter(&self) -> (r: EffectInfoIter<'_>)
        ensures
            r.spec_table() == self.spec_table(),
            r.spec_current_id() == 0,
    {
        self.iter_info()
    }
}

} // verus!

//! The headers of a sound effect, its place in the bank, and decoded sounds.

use vstd::prelude::*;
use vstd::string::StringExecFns;

use super::super::error::{DvFileError, FileType};
use super::super::le::{
    i16_at, i16_bytes, lemma_i16_roundtrip, lemma_u16_roundtrip, lemma_u32_roundtrip, push_i16,
    push_u16, push_u32, read_i16, read_u16, read_u32, u16_at, u16_bytes, u32_at, u32_bytes,
};
use super::super::reader::ByteReader;
use super::super::show::append_decimal;
use super::super::text::decimal;
use super::constants::{ADPCM_HEADER_SIZE, SAMPLE_COUNT_OFFSET, SOUND_HEADER_SIZE, STEP_TABLE_ENTRIES};

verus! {

/// Sound data header: the first four bytes of each sound effect.
#[derive(Debug, Clone, Copy, PartialEq, Eq, Hash)]
pub struct SoundDataHeader {
    /// Sound type identifier
    pub sound_type: u8,
    /// Unknown field
    pub unknown_1: u8,
    /// Priority of the sound effect
    pub priority: u16,
}

/// The four bytes of a sound data header.
pub open spec fn sound_header_bytes(h: SoundDataHeader) -> Seq<u8> {
    seq![h.sound_type, h.unknown_1] + u16_bytes(h.priority)
}

/// The sound data header stored at the start of `b`.
pub open spec fn sound_header_of(b: Seq<u8>) -> SoundDataHeader {
    SoundDataHeader { sound_type: b[0], unknown_1: b[1], priority: u16_at(b, 2) }
}

impl SoundDataHeader {
    /// A description of the header, one field per line.
    pub fn to_string(&self) -> (r: String)
        ensures
            r@ == "SoundDataHeader:\n- Sound Type: "@ + decimal(self.sound_type as nat) + "\n- Unknown 1: "@ + decimal(
                self.unknown_1 as nat,
            ) + "\n- Priority: "@ + decimal(self.priority as nat),
    {
        let mut s = String::from_str("SoundDataHeader:\n- Sound Type: ");
        append_decimal(&mut s, self.sound_type as u64);
        s.append("\n- Unknown 1: ");
        append_decimal(&mut s, self.unknown_1 as u64);
        s.append("\n- Priority: ");
        append_decimal(&mut s, self.priority as u64);
        s
    }

    /// Reads the header from the first four bytes of `bytes`.
    pub fn from_bytes(bytes: &[u8]) -> (r: Result<Self, DvFileError>)
        ensures
            bytes@.len() >= SOUND_HEADER_SIZE ==> r == Ok::<SoundDataHeader, DvFileError>(
                sound_header_of(bytes@),
            ),
            bytes@.len() < SOUND_HEADER_SIZE ==> r == Err::<SoundDataHeader, DvFileError>(
                DvFileError::InsufficientData {
                    file_type: FileType::Efc,
                    expected: SOUND_HEADER_SIZE,
                    actual: bytes@.len() as usize,
                },
            ),
    {
        if bytes.len() < SOUND_HEADER_SIZE {
            return Err(
                DvFileError::InsufficientData {
                    file_type: FileType::Efc,
                    expected: SOUND_HEADER_SIZE,
                    actual: bytes.len(),
                },
            );
        }
        Ok(
            SoundDataHeader {
                sound_type: bytes[0],
                unknown_1: bytes[1],
                priority: read_u16(bytes, 2),
            },
        )
    }

    /// Reads the header at the reader's position.
    pub fn from_reader(reader: &mut ByteReader) -> (r: Result<Self, DvFileError>)
        ensures
            final(reader).spec_data() == old(reader).spec_data(),
            old(reader).can_read(SOUND_HEADER_SIZE as int) ==> r == Ok::<
                SoundDataHeader,
                DvFileError,
            >(
                sound_header_of(
                    old(reader).spec_data().subrange(
                        old(reader).spec_pos() as int,
                        old(reader).spec_pos() + SOUND_HEADER_SIZE,
                    ),
                ),
            ) && final(reader).spec_pos() == old(reader).spec_pos() + SOUND_HEADER_SIZE,
            !old(reader).can_read(SOUND_HEADER_SIZE as int) ==> r == Err::<SoundDataHeader, DvFileError>(
                DvFileError::InsufficientData {
                    file_type: FileType::Efc,
                    expected: SOUND_HEADER_SIZE,
                    actual: old(reader).spec_remaining() as usize,
                },
            ),
    {
        let left = reader.remaining();
        match reader.read_exact(SOUND_HEADER_SIZE) {
            Some(b) => SoundDataHeader::from_bytes(b.as_slice()),
            None => Err(
                DvFileError::InsufficientData {
                    file_type: FileType::Efc,
                    expected: SOUND_HEADER_SIZE,
                    actual: left,
                },
            ),
        }
    }

    /// Appends the four header bytes.
    pub fn write_bytes(&self, out: &mut Vec<u8>)
        ensures
            final(out)@ == old(out)@ + sound_header_bytes(*self),
    {
        out.push(self.sound_type);
        out.push(self.unknown_1);
        push_u16(out, self.priority);
        assert(final(out)@ =~= old(out)@ + sound_header_bytes(*self));
    }
}

/// ADPCM data header: sample rate, channels, step table and sample count.
#[derive(Debug, Clone, PartialEq, Eq, Hash)]
pub struct AdpcmDataHeader {
    /// Sample rate in Hz
    pub sample_rate: u32,
    /// Number of channels
    pub channels: u16,
    /// Unknown field
    pub unknown: u16,
    /// IMA ADPCM step table
    pub step_table: [i16; STEP_TABLE_ENTRIES],
    /// Number of PCM samples (at offset 0xBC of the header)
    pub sample_count: u32,
}

/// The bytes of a step table, each entry little-endian.
pub open spec fn step_table_bytes(t: Seq<i16>) -> Seq<u8> {
    Seq::new((2 * t.len()) as nat, |k: int| i16_bytes(t[k / 2])[k % 2])
}

/// The 0xC0 bytes of an ADPCM header: rate, channels, unknown, the step
/// table, two zero bytes of padding and the sample count.
pub open spec fn adpcm_header_bytes(h: AdpcmDataHeader) -> Seq<u8> {
    u32_bytes(h.sample_rate) + u16_bytes(h.channels) + u16_bytes(h.unknown) + step_table_bytes(
        h.step_table@,
    ) + seq![0u8, 0u8] + u32_bytes(h.sample_count)
}

/// The step table stored in ADPCM header bytes.
pub open spec fn step_table_of(b: Seq<u8>) -> Seq<i16> {
    Seq::new(STEP_TABLE_ENTRIES as nat, |i: int| i16_at(b, 8 + 2 * i))
}

/// Whether `h` holds the fields stored in ADPCM header bytes `b`.
pub open spec fn is_adpcm_header_of(h: AdpcmDataHeader, b: Seq<u8>) -> bool {
    &&& h.sample_rate == u32_at(b, 0)
    &&& h.channels == u16_at(b, 4)
    &&& h.unknown == u16_at(b, 6)
    &&& h.step_table@ == step_table_of(b)
    &&& h.sample_count == u32_at(b, SAMPLE_COUNT_OFFSET as int)
}

impl AdpcmDataHeader {
    /// A description of the header, one field per line (without the step
    /// table).
    pub fn to_string(&self) -> (r: String)
        ensures
            r@ == "AdpcmDataHeader:\n- Sample Rate: "@ + decimal(self.sample_rate as nat) + " Hz\n- Channels: "@
                + decimal(self.channels as nat) + "\n- Unknown: "@ + decimal(self.unknown as nat)
                + "\n- Sample Count: "@ + decimal(self.sample_count as nat),
    {
        let mut s = String::from_str("AdpcmDataHeader:\n- Sample Rate: ");
        append_decimal(&mut s, self.sample_rate as u64);
        s.append(" Hz\n- Channels: ");
        append_decimal(&mut s, self.channels as u64);
        s.append("\n- Unknown: ");
        append_decimal(&mut s, self.unknown as u64);
        s.append("\n- Sample Count: ");
        append_decimal(&mut s, self.sample_count as u64);
        s
    }

    /// Reads the header from the first 0xC0 bytes of `bytes`.
    pub fn from_bytes(bytes: &[u8]) -> (r: Result<Self, DvFileError>)
        ensures
            bytes@.len() >= ADPCM_HEADER_SIZE ==> (r matches Ok(h) && is_adpcm_header_of(h, bytes@)),
            bytes@.len() < ADPCM_HEADER_SIZE ==> r == Err::<AdpcmDataHeader, DvFileError>(
                DvFileError::InsufficientData {
                    file_type: FileType::Efc,
                    expected: ADPCM_HEADER_SIZE,
                    actual: bytes@.len() as usize,
                },
            ),
    {
        if bytes.len() < ADPCM_HEADER_SIZE {
            return Err(
                DvFileError::InsufficientData {
                    file_type: FileType::Efc,
                    expected: ADPCM_HEADER_SIZE,
                    actual: bytes.len(),
                },
            );
        }
        let mut step_table = [0i16; STEP_TABLE_ENTRIES];
        let mut i: usize = 0;
        while i < STEP_TABLE_ENTRIES
            invariant
                i <= STEP_TABLE_ENTRIES,
                bytes@.len() >= ADPCM_HEADER_SIZE,
                step_table@.len() == STEP_TABLE_ENTRIES,
                forall|k: int| 0 <= k < i ==> step_table@[k] == #[trigger] step_table_of(bytes@)[k],
            decreases STEP_TABLE_ENTRIES - i,
        {
            step_table[i] = read_i16(bytes, 8 + 2 * i);
            i = i + 1;
        }
        assert(step_table@ =~= step_table_of(bytes@));
        Ok(
            AdpcmDataHeader {
                sample_rate: read_u32(bytes, 0),
                channels: read_u16(bytes, 4),
                unknown: read_u16(bytes, 6),
                step_table,
                sample_count: read_u32(bytes, SAMPLE_COUNT_OFFSET),
            },
        )
    }

    /// Reads the header at the reader's position.
    pub fn from_reader(reader: &mut ByteReader) -> (r: Result<Self, DvFileError>)
        ensures
            final(reader).spec_data() == old(reader).spec_data(),
            old(reader).can_read(ADPCM_HEADER_SIZE as int) ==> (r matches Ok(h) && is_adpcm_header_of(
                h,
                old(reader).spec_data().subrange(
                    old(reader).spec_pos() as int,
                    old(reader).spec_pos() + ADPCM_HEADER_SIZE,
                ),
            )) && final(reader).spec_pos() == old(reader).spec_pos() + ADPCM_HEADER_SIZE,
            !old(reader).can_read(ADPCM_HEADER_SIZE as int) ==> r == Err::<
                AdpcmDataHeader,
                DvFileError,
            >(
                DvFileError::InsufficientData {
                    file_type: FileType::Efc,
                    expected: ADPCM_HEADER_SIZE,
                    actual: old(reader).spec_remaining() as usize,
                },
            ),
    {
        let left = reader.remaining();
        match reader.read_exact(ADPCM_HEADER_SIZE) {
            Some(b) => AdpcmDataHeader::from_bytes(b.as_slice()),
            None => Err(
                DvFileError::InsufficientData {
                    file_type: FileType::Efc,
                    expected: ADPCM_HEADER_SIZE,
                    actual: left,
                },
            ),
        }
    }

    /// Appends the 0xC0 header bytes.
    pub fn write_bytes(&self, out: &mut Vec<u8>)
        ensures
            final(out)@ == old(out)@ + adpcm_header_bytes(*self),
    {
        let ghost start = out@;
        push_u32(out, self.sample_rate);
        push_u16(out, self.channels);
        push_u16(out, self.unknown);
        let ghost before = out@;
        let mut i: usize = 0;
        while i < STEP_TABLE_ENTRIES
            invariant
                i <= STEP_TABLE_ENTRIES,
                self.step_table@.len() == STEP_TABLE_ENTRIES,
                out@ == before + step_table_bytes(self.step_table@.subrange(0, i as int)),
            decreases STEP_TABLE_ENTRIES - i,
        {
            push_i16(out, self.step_table[i]);
            proof {
                let t0 = self.step_table@.subrange(0, i as int);
                let t1 = self.step_table@.subrange(0, i + 1);
                assert(step_table_bytes(t1) =~= step_table_bytes(t0) + i16_bytes(
                    self.step_table@[i as int],
                ));
            }
            i = i + 1;
        }
        assert(self.step_table@.subrange(0, STEP_TABLE_ENTRIES as int) =~= self.step_table@);
        out.push(0u8);
        out.push(0u8);
        push_u32(out, self.sample_count);
        assert(final(out)@ =~= old(out)@ + adpcm_header_bytes(*self));
    }
}

/// Writing an ADPCM header and reading the bytes back gives the same fields.
pub proof fn lemma_adpcm_header_roundtrip(h: AdpcmDataHeader)
    ensures
        adpcm_header_bytes(h).len() == ADPCM_HEADER_SIZE,
        is_adpcm_header_of(h, adpcm_header_bytes(h)),
{
    let b = adpcm_header_bytes(h);
    let t = step_table_bytes(h.step_table@);
    assert(b.subrange(0, 4) =~= u32_bytes(h.sample_rate));
    lemma_u32_roundtrip(h.sample_rate, b, 0);
    assert(b.subrange(4, 6) =~= u16_bytes(h.channels));
    lemma_u16_roundtrip(h.channels, b, 4);
    assert(b.subrange(6, 8) =~= u16_bytes(h.unknown));
    lemma_u16_roundtrip(h.unknown, b, 6);
    assert(b.subrange(0xBC, 0xC0) =~= u32_bytes(h.sample_count));
    lemma_u32_roundtrip(h.sample_count, b, 0xBC);
    assert forall|i: int| 0 <= i < STEP_TABLE_ENTRIES implies #[trigger] step_table_of(b)[i]
        == h.step_table@[i] by {
        assert(b.subrange(8 + 2 * i, 8 + 2 * i + 2) =~= i16_bytes(h.step_table@[i])) by {
            assert(b[8 + 2 * i] == t[2 * i]);
            assert(b[8 + 2 * i + 1] == t[2 * i + 1]);
            assert((2 * i) / 2 == i && (2 * i) % 2 == 0);
            assert((2 * i + 1) / 2 == i && (2 * i + 1) % 2 == 1);
        }
        lemma_i16_roundtrip(h.step_table@[i], b, 8 + 2 * i);
    }
    assert(step_table_of(b) =~= h.step_table@);
}

/// Writing a sound data header and reading it back gives the same fields.
pub proof fn lemma_sound_header_roundtrip(h: SoundDataHeader)
    ensures
        sound_header_bytes(h).len() == SOUND_HEADER_SIZE,
        sound_header_of(sound_header_bytes(h)) == h,
{
    let b = sound_header_bytes(h);
    assert(b.subrange(2, 4) =~= u16_bytes(h.priority));
    lemma_u16_roundtrip(h.priority, b, 2);
}

/// A sound effect of the bank: its index and its sound data header.
#[derive(Debug, Clone, PartialEq, Eq, Hash)]
pub struct EffectInfo {
    /// Effect ID (0 to 255)
    pub id: usize,
    /// Offset of the effect data in the file
    pub offset: u32,
    /// Sound data header
    pub header: SoundDataHeader,
}

/// A decoded sound effect.
#[derive(Debug, Clone, PartialEq, Eq, Hash)]
pub struct DecodedSound {
    /// Effect ID
    pub id: usize,
    /// Sound data header
    pub sound_header: SoundDataHeader,
    /// ADPCM data header
    pub adpcm_header: AdpcmDataHeader,
    /// Decoded PCM samples
    pub pcm_data: Vec<i16>,
}

impl DecodedSound {
    /// The duration in milliseconds: `sample_count * 1000 / sample_rate`,
    /// or 0 for a zero sample rate.
    pub fn duration_ms(&self) -> (r: u32)
        ensures
            r == if self.adpcm_header.sample_rate == 0 {
                0
            } else {
                ((self.adpcm_header.sample_count * 1000) / (self.adpcm_header.sample_rate as int)) as u32
            },
    {
        let total_samples = self.adpcm_header.sample_count as u64;
        let sample_rate = self.adpcm_header.sample_rate as u64;
        if sample_rate == 0 {
            return 0;
        }
        let ms = (total_samples * 1000) / sample_rate;
        ms as u32
    }
}

} // verus!

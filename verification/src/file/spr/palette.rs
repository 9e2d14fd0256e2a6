//! The 80-colour palette of sprites: four bytes (R, G, B, X) per colour.

use vstd::prelude::*;

use super::super::error::{DvFileError, FileType};
use super::super::reader::ByteReader;

verus! {

/// Number of colours in the palette file.
pub const SPR_PAL_COLOR_COUNT: usize = 80;

/// Size of the palette file in bytes (80 colours of 4 bytes).
pub const SPR_PAL_FILE_SIZE: usize = 320;

/// Sprite colour palette.
#[derive(Debug, Clone, PartialEq, Eq)]
pub struct Palette {
    colors: [u8; SPR_PAL_FILE_SIZE],
}

/// The four bytes of colour `index`.
pub open spec fn color_at(colors: Seq<u8>, index: int) -> (u8, u8, u8, u8) {
    (colors[4 * index], colors[4 * index + 1], colors[4 * index + 2], colors[4 * index + 3])
}

impl Palette {
    /// The palette bytes, four per colour.
    pub closed spec fn spec_colors(&self) -> Seq<u8> {
        self.colors@
    }

    /// The palette always holds 320 bytes.
    pub proof fn lemma_len(&self)
        ensures
            self.spec_colors().len() == SPR_PAL_FILE_SIZE,
    {
    }

    /// A palette with every byte zero.
    pub fn new() -> (r: Self)
        ensures
            r.spec_colors() == Seq::new(SPR_PAL_FILE_SIZE as nat, |i: int| 0u8),
    {
        let r = Palette { colors: [0u8; SPR_PAL_FILE_SIZE] };
        assert(r.colors@ =~= Seq::new(SPR_PAL_FILE_SIZE as nat, |i: int| 0u8));
        r
    }

    /// Reads the palette from the first 320 bytes of `data`.
    pub fn from_bytes(data: &[u8]) -> (r: Result<Self, DvFileError>)
        ensures
            data@.len() >= SPR_PAL_FILE_SIZE ==> (r matches Ok(p) && p.spec_colors() == data@.subrange(
                0,
                SPR_PAL_FILE_SIZE as int,
            )),
            data@.len() < SPR_PAL_FILE_SIZE ==> r == Err::<Palette, DvFileError>(
                DvFileError::InsufficientData {
                    file_type: FileType::Spr,
                    expected: SPR_PAL_FILE_SIZE,
                    actual: data@.len() as usize,
                },
            ),
    {
        if data.len() < SPR_PAL_FILE_SIZE {
            return Err(DvFileError::insufficient_data(FileType::Spr, SPR_PAL_FILE_SIZE, data.len()));
        }
        let mut colors = [0u8; SPR_PAL_FILE_SIZE];
        let mut i: usize = 0;
        while i < SPR_PAL_FILE_SIZE
            invariant
                i <= SPR_PAL_FILE_SIZE,
                data@.len() >= SPR_PAL_FILE_SIZE,
                colors@.len() == SPR_PAL_FILE_SIZE,
                forall|j: int| 0 <= j < i ==> colors@[j] == data@[j],
            decreases SPR_PAL_FILE_SIZE - i,
        {
            colors[i] = data[i];
            i = i + 1;
        }
        assert(colors@ =~= data@.subrange(0, SPR_PAL_FILE_SIZE as int));
        Ok(Palette { colors })
    }

    /// Reads 320 palette bytes at the reader's position.
    pub fn from_reader(reader: &mut ByteReader) -> (r: Result<Self, DvFileError>)
        ensures
            final(reader).spec_data() == old(reader).spec_data(),
            old(reader).can_read(SPR_PAL_FILE_SIZE as int) ==> (r matches Ok(p) && p.spec_colors()
                == old(reader).spec_data().subrange(
                old(reader).spec_pos() as int,
                old(reader).spec_pos() + SPR_PAL_FILE_SIZE,
            )),
            !old(reader).can_read(SPR_PAL_FILE_SIZE as int) ==> r == Err::<Palette, DvFileError>(
                DvFileError::InsufficientData {
                    file_type: FileType::Spr,
                    expected: SPR_PAL_FILE_SIZE,
                    actual: old(reader).spec_remaining() as usize,
                },
            ),
    {
        let left = reader.remaining();
        let bytes = match reader.read_exact(SPR_PAL_FILE_SIZE) {
            Some(b) => b,
            None => {
                return Err(
                    DvFileError::InsufficientData {
                        file_type: FileType::Spr,
                        expected: SPR_PAL_FILE_SIZE,
                        actual: left,
                    },
                );
            },
        };
        let mut colors = [0u8; SPR_PAL_FILE_SIZE];
        let mut i: usize = 0;
        while i < SPR_PAL_FILE_SIZE
            invariant
                i <= SPR_PAL_FILE_SIZE,
                bytes@.len() == SPR_PAL_FILE_SIZE,
                colors@.len() == SPR_PAL_FILE_SIZE,
                forall|k: int| 0 <= k < i ==> colors@[k] == bytes@[k],
            decreases SPR_PAL_FILE_SIZE - i,
        {
            colors[i] = bytes[i];
            i = i + 1;
        }
        assert(colors@ =~= bytes@);
        Ok(Palette { colors })
    }

    /// The colour at `index` as (R, G, B, X), or `None` past the 80 stored
    /// colours.
    pub fn get(&self, index: u8) -> (r: Option<(u8, u8, u8, u8)>)
        ensures
            index < SPR_PAL_COLOR_COUNT ==> r == Some(color_at(self.spec_colors(), index as int)),
            index >= SPR_PAL_COLOR_COUNT ==> r is None,
    {
        if (index as usize) < SPR_PAL_COLOR_COUNT {
            Some(self.color(index))
        } else {
            None
        }
    }

    /// The stored colour at `index` as (R, G, B, X).
    pub(crate) fn color(&self, index: u8) -> (r: (u8, u8, u8, u8))
        requires
            index < SPR_PAL_COLOR_COUNT,
        ensures
            r == color_at(self.spec_colors(), index as int),
    {
        let offset = index as usize * 4;
        (self.colors[offset], self.colors[offset + 1], self.colors[offset + 2], self.colors[offset + 3])
    }

    /// Sets the colour at `index`.
    pub fn set(&mut self, index: u8, color: (u8, u8, u8, u8))
        requires
            index < SPR_PAL_COLOR_COUNT,
        ensures
            final(self).spec_colors() == old(self).spec_colors().update(4 * index, color.0).update(
                4 * index + 1,
                color.1,
            ).update(4 * index + 2, color.2).update(4 * index + 3, color.3),
    {
        let offset = index as usize * 4;
        self.colors[offset] = color.0;
        self.colors[offset + 1] = color.1;
        self.colors[offset + 2] = color.2;
        self.colors[offset + 3] = color.3;
    }

    /// The palette bytes.
    pub fn colors(&self) -> (r: &[u8; SPR_PAL_FILE_SIZE])
        ensures
            r@ == self.spec_colors(),
    {
        &self.colors
    }

    /// The palette bytes, for changing in place.
    pub fn colors_mut(&mut self) -> (r: &mut [u8; SPR_PAL_FILE_SIZE])
        ensures
            r@ == old(self).spec_colors(),
            final(self).spec_colors() == final(r)@,
    {
        &mut self.colors
    }

    /// The 320 bytes of the palette file.
    pub fn to_bytes(&self) -> (r: Vec<u8>)
        ensures
            r@ == self.spec_colors(),
    {
        let mut out: Vec<u8> = Vec::new();
        let mut i: usize = 0;
        while i < SPR_PAL_FILE_SIZE
            invariant
                i <= SPR_PAL_FILE_SIZE,
                self.colors@.len() == SPR_PAL_FILE_SIZE,
                out@ == self.colors@.subrange(0, i as int),
            decreases SPR_PAL_FILE_SIZE - i,
        {
            out.push(self.colors[i]);
            i = i + 1;
            assert(out@ =~= self.colors@.subrange(0, i as int));
        }
        assert(self.colors@.subrange(0, SPR_PAL_FILE_SIZE as int) =~= self.colors@);
        out
    }
}

impl Default for Palette {
    fn default() -> (r: Self)
        ensures
            r.spec_colors() == Seq::new(SPR_PAL_FILE_SIZE as nat, |i: int| 0u8),
    {
        Palette::new()
    }
}

} // verus!

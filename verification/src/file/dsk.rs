//! DSK block containers: the data of many files stored in 2048-byte blocks,
//! described by the entries of the PFT file that goes with it.

use vstd::prelude::*;

use super::error::DskError;
use super::pft;
use super::pft::{blocks_for, Entry};
use super::reader::ByteReader;
use super::text::{eq_ignore_ascii_case, spec_decode_name};
use super::DSK_BLOCK_SIZE;
use vstd::string::StringExecFns;

verus! {

/// The valid entries (non-zero size or non-empty name), in order.
pub open spec fn valid_entries(es: Seq<Entry>) -> Seq<Entry>
    decreases es.len(),
{
    if es.len() == 0 {
        Seq::empty()
    } else if es.last().spec_is_valid() {
        valid_entries(es.drop_last()).push(es.last())
    } else {
        valid_entries(es.drop_last())
    }
}

/// The index of the first entry whose name is `name` (ignoring ASCII case),
/// from `i` on.
pub open spec fn named_from(es: Seq<Entry>, name: Seq<char>, i: int) -> Option<int>
    decreases es.len() - i,
{
    if i < 0 || i >= es.len() {
        None
    } else if eq_ignore_ascii_case(spec_decode_name(es[i].raw_name@), name) {
        Some(i)
    } else {
        named_from(es, name, i + 1)
    }
}

/// What reading `count` blocks from block `start` of `data` gives: the
/// bytes, or the out-of-range error naming the last block asked for and the
/// number of whole blocks.
pub open spec fn blocks_read(data: Seq<u8>, start: int, count: int, r: Result<Vec<u8>, DskError>) -> bool {
    let offset = start * DSK_BLOCK_SIZE;
    let end = offset + count * DSK_BLOCK_SIZE;
    if end > data.len() {
        r matches Err(e) && e matches DskError::BlockOutOfRange { index, total } && index == ((start
            + count - 1) % 0x1_0000_0000) as u32 && total == data.len() as int / DSK_BLOCK_SIZE as int
    } else {
        r matches Ok(v) && v@ == data.subrange(offset, end)
    }
}

/// What extracting an entry from `data` gives: its bytes from its first
/// block, or the out-of-range error of its blocks.
pub open spec fn extracted(data: Seq<u8>, e: Entry, r: Result<Vec<u8>, DskError>) -> bool {
    let offset = e.index * DSK_BLOCK_SIZE;
    let blocks = blocks_for(e.actual_size as int);
    if offset + blocks * DSK_BLOCK_SIZE > data.len() {
        blocks_read(data, e.index as int, blocks, r)
    } else {
        r matches Ok(v) && v@ == data.subrange(offset, offset + e.actual_size)
    }
}

/// A DSK container held in memory, with the PFT file that describes it.
#[derive(Debug)]
pub struct File {
    reader: ByteReader,
    pft: pft::File,
    name: Option<String>,
}

impl File {
    /// The container data.
    pub closed spec fn spec_data(&self) -> Seq<u8> {
        self.reader.spec_data()
    }

    /// The read position in the container data.
    pub closed spec fn spec_pos(&self) -> u64 {
        self.reader.spec_pos()
    }

    /// The entries of the PFT file.
    pub closed spec fn spec_entries(&self) -> Seq<Entry> {
        self.pft.spec_entries()
    }

    /// The PFT file.
    pub closed spec fn spec_pft(&self) -> pft::File {
        self.pft
    }

    /// The name given to the container, if any.
    pub closed spec fn spec_name(&self) -> Option<Seq<char>> {
        match self.name {
            Some(n) => Some(n@),
            None => None,
        }
    }

    /// A container over the data of `reader`, described by `pft`.
    pub fn new(reader: ByteReader, pft: pft::File) -> (r: Self)
        ensures
            r.spec_data() == reader.spec_data(),
            r.spec_pos() == reader.spec_pos(),
            r.spec_pft() == pft,
            r.spec_name() is None,
    {
        File { reader, pft, name: None }
    }

    /// A named container over the data of `reader`, described by `pft`.
    pub fn with_name(reader: ByteReader, pft: pft::File, name: &str) -> (r: Self)
        ensures
            r.spec_data() == reader.spec_data(),
            r.spec_pos() == reader.spec_pos(),
            r.spec_pft() == pft,
            r.spec_name() == Some(name@),
    {
        File { reader, pft, name: Some(String::from_str(name)) }
    }

    /// A container over `data`, described by `pft`.
    pub fn from_bytes(data: Vec<u8>, pft: pft::File) -> (r: Self)
        ensures
            r.spec_data() == data@,
            r.spec_pos() == 0,
            r.spec_pft() == pft,
            r.spec_name() is None,
    {
        File::new(ByteReader::new(data), pft)
    }

    /// The PFT file.
    pub fn pft(&self) -> (r: &pft::File)
        ensures
            *r == self.spec_pft(),
    {
        &self.pft
    }

    /// The name given to the container, if any.
    pub fn name(&self) -> (r: Option<&str>)
        ensures
            match self.spec_name() {
                Some(n) => r matches Some(s) && s@ == n,
                None => r is None,
            },
    {
        match &self.name {
            Some(n) => Some(n.as_str()),
            None => None,
        }
    }

    /// The size of the container data in bytes.
    pub fn size(&mut self) -> (r: u64)
        ensures
            r == old(self).spec_data().len(),
            final(self).spec_data() == old(self).spec_data(),
            final(self).spec_pos() == old(self).spec_pos(),
            final(self).spec_pft() == old(self).spec_pft(),
            final(self).spec_name() == old(self).spec_name(),
    {
        let current = self.reader.position();
        let size = self.reader.seek_end();
        self.reader.seek_start(current);
        size
    }

    /// The number of whole blocks of the container data.
    pub fn num_blocks(&mut self) -> (r: usize)
        ensures
            r == old(self).spec_data().len() as int / DSK_BLOCK_SIZE as int,
            final(self).spec_data() == old(self).spec_data(),
            final(self).spec_pos() == old(self).spec_pos(),
            final(self).spec_pft() == old(self).spec_pft(),
            final(self).spec_name() == old(self).spec_name(),
    {
        let _len = self.reader.len();
        (self.size() / DSK_BLOCK_SIZE as u64) as usize
    }

    /// The number of valid entries (non-zero size or non-empty name).
    pub fn num_files(&self) -> (r: usize)
        ensures
            r == valid_entries(self.spec_entries()).len(),
    {
        self.entries().len()
    }

    /// Whether an entry has the name `name` (ignoring ASCII case).
    pub fn contains(&self, name: &str) -> (r: bool)
        ensures
            r == named_from(self.spec_entries(), name@, 0) is Some,
    {
        let found = self.pft.find_entry(name);
        proof {
            lemma_named_from(self.spec_entries(), name@, 0);
        }
        found.is_some()
    }

    /// The valid entries (non-zero size or non-empty name).
    pub fn entries(&self) -> (r: Vec<Entry>)
        ensures
            r@ == valid_entries(self.spec_entries()),
    {
        let es = self.pft.entries();
        let mut out: Vec<Entry> = Vec::new();
        let mut i: usize = 0;
        while i < es.len()
            invariant
                i <= es@.len(),
                es@ == self.spec_entries(),
                out@ == valid_entries(es@.subrange(0, i as int)),
            decreases es@.len() - i,
        {
            assert(es@.subrange(0, i + 1).drop_last() =~= es@.subrange(0, i as int));
            if es[i].is_valid() {
                out.push(es[i]);
            }
            i = i + 1;
        }
        assert(es@.subrange(0, es@.len() as int) =~= es@);
        out
    }

    /// Reads block `index`: out of range when it starts at or past the end,
    /// and the data runs out when only part of it is there.
    pub fn read_block(&mut self, index: usize) -> (r: Result<Vec<u8>, DskError>)
        ensures
            final(self).spec_data() == old(self).spec_data(),
            final(self).spec_pft() == old(self).spec_pft(),
            final(self).spec_name() == old(self).spec_name(),
            ({
                let data = old(self).spec_data();
                let offset = index * DSK_BLOCK_SIZE;
                if offset >= data.len() {
                    r matches Err(e) && e matches DskError::BlockOutOfRange { index: i, total }
                        && i == (index as int % 0x1_0000_0000) as u32 && total == data.len() as int
                        / DSK_BLOCK_SIZE as int
                } else if offset + DSK_BLOCK_SIZE > data.len() {
                    r matches Err(e) && e == (DskError::UnexpectedEnd {
                        offset: offset as u64,
                        needed: DSK_BLOCK_SIZE,
                        available: (data.len() - offset) as usize,
                    })
                } else {
                    r matches Ok(v) && v@ == data.subrange(offset, offset + DSK_BLOCK_SIZE)
                }
            }),
    {
        let total_size = self.size();
        let offset: u128 = (index as u128) * (DSK_BLOCK_SIZE as u128);
        if offset >= total_size as u128 {
            return Err(
                DskError::BlockOutOfRange {
                    index: (index as u128 % 0x1_0000_0000) as u32,
                    total: (total_size / DSK_BLOCK_SIZE as u64) as usize,
                },
            );
        }
        let offset = offset as u64;
        self.reader.seek_start(offset);
        let available = self.reader.remaining();
        match self.reader.read_exact(DSK_BLOCK_SIZE) {
            Some(buffer) => Ok(buffer),
            None => Err(DskError::UnexpectedEnd { offset, needed: DSK_BLOCK_SIZE, available }),
        }
    }

    /// Reads `count` blocks from block `start_index` on (see `blocks_read`).
    pub fn read_blocks(&mut self, start_index: usize, count: usize) -> (r: Result<
        Vec<u8>,
        DskError,
    >)
        ensures
            final(self).spec_data() == old(self).spec_data(),
            final(self).spec_pft() == old(self).spec_pft(),
            final(self).spec_name() == old(self).spec_name(),
            blocks_read(old(self).spec_data(), start_index as int, count as int, r),
    {
        let offset: u128 = (start_index as u128) * (DSK_BLOCK_SIZE as u128);
        let bytes_to_read: u128 = (count as u128) * (DSK_BLOCK_SIZE as u128);
        let end_offset = offset + bytes_to_read;
        let total_size = self.size();
        let _len = self.reader.len();
        if end_offset > total_size as u128 {
            assert(start_index + count >= 1);
            return Err(
                DskError::BlockOutOfRange {
                    index: (((start_index as u128) + (count as u128) - 1) % 0x1_0000_0000) as u32,
                    total: (total_size / DSK_BLOCK_SIZE as u64) as usize,
                },
            );
        }
        assert(offset <= total_size && bytes_to_read <= total_size);
        self.reader.seek_start(offset as u64);
        match self.reader.read_exact(bytes_to_read as usize) {
            Some(buffer) => Ok(buffer),
            None => Err(
                DskError::UnexpectedEnd {
                    offset: offset as u64,
                    needed: bytes_to_read as usize,
                    available: 0,
                },
            ),
        }
    }

    /// The data of an entry: its blocks from its first one, cut to its size.
    pub fn extract(&mut self, entry: &Entry) -> (r: Result<Vec<u8>, DskError>)
        ensures
            final(self).spec_data() == old(self).spec_data(),
            final(self).spec_pft() == old(self).spec_pft(),
            final(self).spec_name() == old(self).spec_name(),
            extracted(old(self).spec_data(), *entry, r),
    {
        let start_index = entry.index as usize;
        let blocks_needed = entry.blocks_needed() as usize;
        let actual_size = entry.actual_size as usize;
        let block_data = match self.read_blocks(start_index, blocks_needed) {
            Ok(b) => b,
            Err(e) => {
                return Err(e);
            },
        };
        if actual_size > block_data.len() {
            return Err(
                DskError::InvalidExtraction { required: actual_size, available: block_data.len() },
            );
        }
        let out = super::le::copy_range(block_data.as_slice(), 0, actual_size);
        assert(out@ =~= old(self).spec_data().subrange(
            entry.index * DSK_BLOCK_SIZE,
            entry.index * DSK_BLOCK_SIZE + entry.actual_size,
        ));
        Ok(out)
    }

    /// The data of entry `index` of the PFT file; an extraction error when
    /// there is no such entry.
    pub fn extract_by_index(&mut self, index: usize) -> (r: Result<Vec<u8>, DskError>)
        ensures
            final(self).spec_data() == old(self).spec_data(),
            final(self).spec_pft() == old(self).spec_pft(),
            final(self).spec_name() == old(self).spec_name(),
            index < old(self).spec_entries().len() ==> extracted(
                old(self).spec_data(),
                old(self).spec_entries()[index as int],
                r,
            ),
            index >= old(self).spec_entries().len() ==> (r matches Err(e) && e == (
            DskError::InvalidExtraction {
                required: index,
                available: old(self).spec_entries().len() as usize,
            })),
    {
        let entry = match self.pft.get_entry(index) {
            Some(e) => *e,
            None => {
                return Err(
                    DskError::InvalidExtraction {
                        required: index,
                        available: self.pft.num_entries(),
                    },
                );
            },
        };
        self.extract(&entry)
    }

    /// The data of the first entry named `name` (ignoring ASCII case); not
    /// found when there is none.
    pub fn extract_by_name(&mut self, name: &str) -> (r: Result<Vec<u8>, DskError>)
        ensures
            final(self).spec_data() == old(self).spec_data(),
            final(self).spec_pft() == old(self).spec_pft(),
            final(self).spec_name() == old(self).spec_name(),
            match named_from(old(self).spec_entries(), name@, 0) {
                Some(i) => extracted(old(self).spec_data(), old(self).spec_entries()[i], r),
                None => r matches Err(e) && e matches DskError::NotFound { name: n } && n@
                    == name@,
            },
    {
        let found = self.pft.find_entry(name);
        proof {
            lemma_named_from(self.spec_entries(), name@, 0);
        }
        let entry = match found {
            Some(e) => *e,
            None => {
                return Err(DskError::NotFound { name: String::from_str(name) });
            },
        };
        proof {
            let i = choose|i: int|
                0 <= i < self.spec_entries().len() && entry == self.spec_entries()[i]
                    && eq_ignore_ascii_case(spec_decode_name(entry.raw_name@), name@) && forall|j: int|
                    0 <= j < i ==> !eq_ignore_ascii_case(
                        spec_decode_name(self.spec_entries()[j].raw_name@),
                        name@,
                    );
            lemma_named_first(self.spec_entries(), name@, 0, i);
        }
        self.extract(&entry)
    }

    /// An iterator over the valid entries and their data.
    pub fn iter(&mut self) -> (r: DskIterator<'_>)
        ensures
            r.spec_index() == 0,
            *r.spec_dsk() == *old(self),
    {
        DskIterator { dsk: self, index: 0 }
    }

    /// Checks that every entry's blocks lie within the container; the first
    /// entry that does not is reported as too large.
    pub fn validate(&mut self) -> (r: Result<(), DskError>)
        ensures
            final(self).spec_data() == old(self).spec_data(),
            final(self).spec_pos() == old(self).spec_pos(),
            final(self).spec_pft() == old(self).spec_pft(),
            final(self).spec_name() == old(self).spec_name(),
            ({
                let es = old(self).spec_entries();
                let total = old(self).spec_data().len() as int / DSK_BLOCK_SIZE as int;
                match first_too_large(es, total, 0) {
                    Some(i) => r matches Err(e) && e == (DskError::FileTooLarge {
                        size: es[i].actual_size as usize,
                        blocks_needed: blocks_for(es[i].actual_size as int) as usize,
                        blocks_available: if total > es[i].index {
                            (total - es[i].index) as usize
                        } else {
                            0usize
                        },
                    }),
                    None => r is Ok,
                }
            }),
    {
        let total_blocks = self.num_blocks();
        let es = self.pft.entries();
        let mut i: usize = 0;
        while i < es.len()
            invariant
                i <= es@.len(),
                es@ == self.spec_entries(),
                total_blocks == self.spec_data().len() as int / DSK_BLOCK_SIZE as int,
                self.spec_data() == old(self).spec_data(),
                self.spec_pos() == old(self).spec_pos(),
                self.spec_pft() == old(self).spec_pft(),
                self.spec_name() == old(self).spec_name(),
                first_too_large(es@, total_blocks as int, 0) == first_too_large(
                    es@,
                    total_blocks as int,
                    i as int,
                ),
            decreases es@.len() - i,
        {
            let entry = es[i];
            let start_index = entry.index as usize;
            let blocks_needed = entry.blocks_needed() as usize;
            let end_index = start_index as u64 + blocks_needed as u64;
            if end_index > total_blocks as u64 {
                return Err(
                    DskError::FileTooLarge {
                        size: entry.actual_size as usize,
                        blocks_needed,
                        blocks_available: total_blocks.saturating_sub(start_index),
                    },
                );
            }
            i = i + 1;
        }
        Ok(())
    }

    /// The reader, giving up the container.
    pub fn into_inner(self) -> (r: ByteReader)
        ensures
            r.spec_data() == self.spec_data(),
            r.spec_pos() == self.spec_pos(),
    {
        self.reader
    }

    /// The reader.
    pub fn get_ref(&self) -> (r: &ByteReader)
        ensures
            r.spec_data() == self.spec_data(),
            r.spec_pos() == self.spec_pos(),
    {
        &self.reader
    }

    /// The reader, for moving its position.
    pub fn get_mut(&mut self) -> (r: &mut ByteReader)
        ensures
            r.spec_data() == old(self).spec_data(),
            r.spec_pos() == old(self).spec_pos(),
            final(self).spec_data() == final(r).spec_data(),
            final(self).spec_pos() == final(r).spec_pos(),
            final(self).spec_pft() == old(self).spec_pft(),
            final(self).spec_name() == old(self).spec_name(),
    {
        &mut self.reader
    }
}

/// The first entry, from `i` on, whose blocks end past `total` blocks.
pub open spec fn first_too_large(es: Seq<Entry>, total: int, i: int) -> Option<int>
    decreases es.len() - i,
{
    if i < 0 || i >= es.len() {
        None
    } else if es[i].index + blocks_for(es[i].actual_size as int) > total {
        Some(i)
    } else {
        first_too_large(es, total, i + 1)
    }
}

/// `named_from` finds an entry of that name, or there is none.
proof fn lemma_named_from(es: Seq<Entry>, name: Seq<char>, i: int)
    requires
        0 <= i <= es.len(),
    ensures
        named_from(es, name, i) is None <==> forall|j: int|
            i <= j < es.len() ==> !eq_ignore_ascii_case(spec_decode_name(es[j].raw_name@), name),
    decreases es.len() - i,
{
    if i < es.len() {
        lemma_named_from(es, name, i + 1);
    }
}

/// The first entry of that name is the one `named_from` finds.
proof fn lemma_named_first(es: Seq<Entry>, name: Seq<char>, i: int, k: int)
    requires
        0 <= i <= k < es.len(),
        eq_ignore_ascii_case(spec_decode_name(es[k].raw_name@), name),
        forall|j: int| 0 <= j < k ==> !eq_ignore_ascii_case(spec_decode_name(es[j].raw_name@), name),
    ensures
        named_from(es, name, i) == Some(k),
    decreases k - i,
{
    if i < k {
        lemma_named_first(es, name, i + 1, k);
    }
}

/// Walks the valid entries of a container and extracts their data.
pub struct DskIterator<'a> {
    dsk: &'a mut File,
    index: usize,
}

impl<'a> DskIterator<'a> {
    /// The container walked.
    pub closed spec fn spec_dsk(&self) -> &File {
        self.dsk
    }

    /// The index of the next entry to look at.
    pub closed spec fn spec_index(&self) -> usize {
        self.index
    }

    /// The next valid entry and its extracted data (or the error of its
    /// extraction); `None` once every entry has been looked at.
    pub fn next(&mut self) -> (r: Option<Result<(Entry, Vec<u8>), DskError>>)
        ensures
            ({
                let es = old(self).spec_dsk().spec_entries();
                let data = old(self).spec_dsk().spec_data();
                match next_valid(es, old(self).spec_index() as int) {
                    Some(i) => r matches Some(x) && final(self).spec_index() == i + 1 && match x {
                        Ok((e, v)) => e == es[i] && extracted(data, es[i], Ok::<Vec<u8>, DskError>(v)),
                        Err(err) => extracted(data, es[i], Err::<Vec<u8>, DskError>(err)),
                    },
                    None => r is None,
                }
            }),
            final(self).spec_dsk().spec_data() == old(self).spec_dsk().spec_data(),
            final(self).spec_dsk().spec_entries() == old(self).spec_dsk().spec_entries(),
    {
        loop
            invariant
                self.dsk.spec_data() == old(self).spec_dsk().spec_data(),
                self.dsk.spec_entries() == old(self).spec_dsk().spec_entries(),
                self.dsk.spec_pft() == old(self).spec_dsk().spec_pft(),
                next_valid(self.dsk.spec_entries(), old(self).spec_index() as int) == next_valid(
                    self.dsk.spec_entries(),
                    self.index as int,
                ),
                old(self).spec_index() <= self.index,
            decreases usize::MAX - self.index,
        {
            if self.index >= self.dsk.pft.num_entries() {
                return None;
            }
            let entry = match self.dsk.pft.get_entry(self.index) {
                Some(e) => *e,
                None => {
                    return None;
                },
            };
            self.index = self.index + 1;
            if !entry.is_valid() {
                continue;
            }
            let result = self.dsk.extract(&entry);
            return Some(
                match result {
                    Ok(data) => Ok((entry, data)),
                    Err(e) => Err(e),
                },
            );
        }
    }
}

/// The index of the first valid entry from `i` on.
pub open spec fn next_valid(es: Seq<Entry>, i: int) -> Option<int>
    decreases es.len() - i,
{
    if i < 0 || i >= es.len() {
        None
    } else if es[i].spec_is_valid() {
        Some(i)
    } else {
        next_valid(es, i + 1)
    }
}

} // verus!

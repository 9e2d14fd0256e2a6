//! PFT (pack file table): the index of the files stored in a DSK container,
//! with each file's name, first block and size.

use vstd::prelude::*;
use vstd::string::StringExecFns;
use vstd::string::StringSliceAdditionalSpecFns;

use super::error::{DvFileError, FileType};
use super::le::{
    copy_range, push_slice, push_u32, push_u64, read_u32, read_u64, u32_at, u32_bytes, u64_at,
    u64_bytes, lemma_u32_roundtrip, lemma_u64_roundtrip,
};
use super::text::{chars_eq_ignore_ascii_case, decode_name, decode_name_chars, eq_ignore_ascii_case, spec_decode_name};
use super::show::{append_decimal, hex_list, hex_list_string};
use super::text::decimal;
use super::DSK_BLOCK_SIZE;

verus! {

/// Magic number of PFT files.
pub const MAGIC: [u8; 4] = [0x10, 0x00, 0x00, 0x08];

/// Size of the PFT header in bytes.
pub const HEADER_SIZE: usize = 16;

/// Size of one PFT entry in bytes.
pub const ENTRY_SIZE: usize = 16;

/// The magic number as a sequence.
pub open spec fn magic_seq() -> Seq<u8> {
    seq![0x10u8, 0x00u8, 0x00u8, 0x08u8]
}

/// PFT file header.
#[derive(Debug, Clone, Copy, PartialEq, Eq, Hash)]
pub struct Header {
    /// Magic number
    pub magic: [u8; 4],
    /// Number of entries
    pub num_entries: u32,
    /// Reserved padding
    pub padding: u64,
}

/// The serialized form of a header.
pub open spec fn header_bytes(h: Header) -> Seq<u8> {
    h.magic@ + u32_bytes(h.num_entries) + u64_bytes(h.padding)
}

/// Whether `h` is the header stored in the first 16 bytes of `s`.
pub open spec fn header_decodes(h: Header, s: Seq<u8>) -> bool {
    &&& h.magic@ == s.subrange(0, 4)
    &&& h.num_entries == u32_at(s, 4)
    &&& h.padding == u64_at(s, 8)
}

/// The description of a header: its magic in hexadecimal and its entry
/// count.
pub open spec fn header_text(h: Header) -> Seq<char> {
    "PFT { magic: "@ + hex_list(h.magic@) + ", num_entries: "@ + decimal(h.num_entries as nat) + " }"@
}

/// The description of an entry: its name, first block and size.
pub open spec fn entry_text(e: Entry) -> Seq<char> {
    "Entry { name: '"@ + spec_decode_name(e.raw_name@) + "', index: "@ + decimal(e.index as nat)
        + ", actual_size: "@ + decimal(e.actual_size as nat) + " }"@
}

/// The entry lines of a file description, each indented and ended by a
/// newline.
pub open spec fn entry_lines(es: Seq<Entry>) -> Seq<char>
    decreases es.len(),
{
    if es.len() == 0 {
        Seq::empty()
    } else {
        entry_lines(es.drop_last()) + "  "@ + entry_text(es.last()) + "\n"@
    }
}

impl Header {
    /// A one-line description: the magic and the entry count.
    pub fn to_string(&self) -> (r: String)
        ensures
            r@ == header_text(*self),
    {
        let mut s = String::from_str("PFT { magic: ");
        s.append(hex_list_string(self.magic.as_slice()).as_str());
        s.append(", num_entries: ");
        append_decimal(&mut s, self.num_entries as u64);
        s.append(" }");
        s
    }

    /// Creates a header with the given number of entries.
    pub fn new(num_entries: u32) -> (r: Self)
        ensures
            r.magic@ == magic_seq(),
            r.num_entries == num_entries,
            r.padding == 0,
    {
        Header { magic: MAGIC, num_entries, padding: 0 }
    }

    /// Parses a header from the first 16 bytes of `data`.
    pub fn from_bytes(data: &[u8]) -> (r: Result<Self, DvFileError>)
        ensures
            data@.len() < 16 ==> r == Err::<Self, DvFileError>(
                DvFileError::InsufficientData {
                    file_type: FileType::Pft,
                    expected: 16,
                    actual: data@.len() as usize,
                },
            ),
            data@.len() >= 16 && data@.subrange(0, 4) != magic_seq() ==> (r matches Err(
                DvFileError::InvalidMagic { file_type, expected, actual },
            ) && file_type == FileType::Pft && expected@ == magic_seq() && actual@
                == data@.subrange(0, 4)),
            data@.len() >= 16 && data@.subrange(0, 4) == magic_seq() ==> (r matches Ok(h)
                && header_decodes(h, data@)),
    {
        if data.len() < HEADER_SIZE {
            return Err(DvFileError::insufficient_data(FileType::Pft, HEADER_SIZE, data.len()));
        }
        let magic: [u8; 4] = [data[0], data[1], data[2], data[3]];
        if !(data[0] == 0x10 && data[1] == 0x00 && data[2] == 0x00 && data[3] == 0x08) {
            assert(magic@ =~= data@.subrange(0, 4));
            return Err(DvFileError::invalid_magic(FileType::Pft, &MAGIC, &magic));
        }
        assert(magic@ =~= data@.subrange(0, 4));
        let num_entries = read_u32(data, 4);
        let padding = read_u64(data, 8);
        Ok(Header { magic, num_entries, padding })
    }

    /// Serializes the header.
    pub fn to_bytes(self) -> (r: [u8; 16])
        ensures
            r@ == header_bytes(self),
    {
        let mut v: Vec<u8> = Vec::new();
        push_slice(&mut v, &self.magic);
        push_u32(&mut v, self.num_entries);
        push_u64(&mut v, self.padding);
        let r: [u8; 16] = [
            v[0],
            v[1],
            v[2],
            v[3],
            v[4],
            v[5],
            v[6],
            v[7],
            v[8],
            v[9],
            v[10],
            v[11],
            v[12],
            v[13],
            v[14],
            v[15],
        ];
        assert(r@ =~= v@);
        r
    }

    /// Size of the header in bytes.
    pub fn size() -> (r: usize)
        ensures
            r == 16,
    {
        HEADER_SIZE
    }

    /// The default header: PFT magic, no entries.
    pub fn default_header() -> (r: Self)
        ensures
            r.magic@ == magic_seq(),
            r.num_entries == 0,
            r.padding == 0,
    {
        Header { magic: MAGIC, num_entries: 0, padding: 0 }
    }
}

/// PFT entry: one file of the DSK container.
#[derive(Debug, Default, Clone, Copy, PartialEq, Eq, Hash)]
pub struct Entry {
    /// ASCII name of the entry
    pub raw_name: [u8; 8],
    /// Index of the first block
    pub index: u32,
    /// Size of the file in bytes
    pub actual_size: u32,
}

/// The serialized form of an entry.
pub open spec fn entry_bytes(e: Entry) -> Seq<u8> {
    e.raw_name@ + u32_bytes(e.index) + u32_bytes(e.actual_size)
}

/// Whether `e` is the entry stored at `off` in `s`.
pub open spec fn entry_decodes(e: Entry, s: Seq<u8>, off: int) -> bool {
    &&& e.raw_name@ == s.subrange(off, off + 8)
    &&& e.index == u32_at(s, off + 8)
    &&& e.actual_size == u32_at(s, off + 12)
}

/// The name field built from the bytes of a name: at most 8 bytes, the rest
/// zero.
pub open spec fn name_field(name: Seq<u8>) -> Seq<u8> {
    Seq::new(8, |i: int| if i < name.len() { name[i] } else { 0u8 })
}

/// Number of 2048-byte blocks that hold `size` bytes.
pub open spec fn blocks_for(size: int) -> int {
    (size + 2047) / 2048
}

impl Entry {
    /// A one-line description: the name, the first block and the size.
    pub fn to_string(&self) -> (r: String)
        ensures
            r@ == entry_text(*self),
    {
        let mut s = String::from_str("Entry { name: '");
        s.append(self.name().as_str());
        s.append("', index: ");
        append_decimal(&mut s, self.index as u64);
        s.append(", actual_size: ");
        append_decimal(&mut s, self.actual_size as u64);
        s.append(" }");
        s
    }

    /// Creates an entry; the name keeps its first 8 bytes.
    pub fn new(name: &str, index: u32, actual_size: u32) -> (r: Self)
        ensures
            r.raw_name@ == name_field(name.spec_bytes()),
            r.index == index,
            r.actual_size == actual_size,
    {
        let bytes = name.as_bytes();
        let mut raw_name = [0u8; 8];
        let mut i: usize = 0;
        while i < 8
            invariant
                i <= 8,
                bytes@ == name.spec_bytes(),
                raw_name@.len() == 8,
                forall|k: int| 0 <= k < i ==> raw_name@[k] == name_field(bytes@)[k],
                forall|k: int| i <= k < 8 ==> raw_name@[k] == 0,
            decreases 8 - i,
        {
            if i < bytes.len() {
                raw_name[i] = bytes[i];
            }
            i = i + 1;
        }
        assert(raw_name@ =~= name_field(name.spec_bytes()));
        Entry { raw_name, index, actual_size }
    }

    /// The name with NUL padding and surrounding white space removed.
    pub fn name(&self) -> (r: String)
        ensures
            r@ == spec_decode_name(self.raw_name@),
    {
        decode_name(&self.raw_name)
    }

    /// Parses an entry from the first 16 bytes of `data`.
    pub fn from_bytes(data: &[u8]) -> (r: Result<Self, DvFileError>)
        ensures
            data@.len() < 16 ==> r == Err::<Self, DvFileError>(
                DvFileError::InsufficientData {
                    file_type: FileType::Pft,
                    expected: 16,
                    actual: data@.len() as usize,
                },
            ),
            data@.len() >= 16 ==> (r matches Ok(e) && entry_decodes(e, data@, 0)),
    {
        if data.len() < ENTRY_SIZE {
            return Err(DvFileError::insufficient_data(FileType::Pft, ENTRY_SIZE, data.len()));
        }
        Ok(Self::parse_at(data, 0))
    }

    /// Parses the entry stored at `off`.
    pub fn parse_at(data: &[u8], off: usize) -> (e: Self)
        requires
            off + 16 <= data@.len(),
        ensures
            entry_decodes(e, data@, off as int),
    {
        let raw_name: [u8; 8] = [
            data[off],
            data[off + 1],
            data[off + 2],
            data[off + 3],
            data[off + 4],
            data[off + 5],
            data[off + 6],
            data[off + 7],
        ];
        assert(raw_name@ =~= data@.subrange(off as int, off + 8));
        Entry { raw_name, index: read_u32(data, off + 8), actual_size: read_u32(data, off + 12) }
    }

    /// Appends the serialized entry.
    pub fn write_to(&self, out: &mut Vec<u8>)
        ensures
            final(out)@ == old(out)@ + entry_bytes(*self),
    {
        push_slice(out, &self.raw_name);
        push_u32(out, self.index);
        push_u32(out, self.actual_size);
        assert(final(out)@ =~= old(out)@ + entry_bytes(*self));
    }

    /// Serializes the entry.
    pub fn to_bytes(self) -> (r: [u8; 16])
        ensures
            r@ == entry_bytes(self),
    {
        let mut v: Vec<u8> = Vec::new();
        self.write_to(&mut v);
        assert(v@ =~= entry_bytes(self));
        let r: [u8; 16] = [
            v[0],
            v[1],
            v[2],
            v[3],
            v[4],
            v[5],
            v[6],
            v[7],
            v[8],
            v[9],
            v[10],
            v[11],
            v[12],
            v[13],
            v[14],
            v[15],
        ];
        assert(r@ =~= v@);
        r
    }

    /// Size of an entry in bytes.
    pub fn size() -> (r: usize)
        ensures
            r == 16,
    {
        ENTRY_SIZE
    }

    /// Block size of DSK files.
    pub fn block_size() -> (r: usize)
        ensures
            r == 2048,
    {
        DSK_BLOCK_SIZE
    }

    /// Number of blocks that hold the entry's data.
    pub fn blocks_needed(&self) -> (r: u32)
        ensures
            r == blocks_for(self.actual_size as int),
    {
        let s = self.actual_size;
        s / 2048 + if s % 2048 == 0 {
            0
        } else {
            1
        }
    }

    /// An entry is valid when it has a non-zero size or a non-empty name.
    pub fn is_valid(&self) -> (r: bool)
        ensures
            r == self.spec_is_valid(),
    {
        if self.actual_size > 0 {
            return true;
        }
        let mut i: usize = 0;
        while i < 8
            invariant
                i <= 8,
                self.raw_name@.len() == 8,
                forall|k: int| 0 <= k < i ==> self.raw_name@[k] == 0,
            decreases 8 - i,
        {
            if self.raw_name[i] != 0 {
                return true;
            }
            i = i + 1;
        }
        false
    }

    /// Whether the entry has a non-zero size or a non-empty name.
    pub open spec fn spec_is_valid(&self) -> bool {
        self.actual_size > 0 || exists|k: int| 0 <= k < 8 && self.raw_name@[k] != 0
    }
}

/// Concatenated serialized entries.
pub open spec fn entries_bytes(es: Seq<Entry>) -> Seq<u8>
    decreases es.len(),
{
    if es.len() == 0 {
        Seq::empty()
    } else {
        entries_bytes(es.drop_last()) + entry_bytes(es.last())
    }
}

/// Length of the concatenated serialized entries.
pub proof fn lemma_entries_bytes_len(es: Seq<Entry>)
    ensures
        entries_bytes(es).len() == 16 * es.len(),
    decreases es.len(),
{
    if es.len() > 0 {
        lemma_entries_bytes_len(es.drop_last());
    }
}

/// Each entry sits at its 16-byte slot of the concatenated serialization.
pub proof fn lemma_entries_bytes_at(es: Seq<Entry>, i: int)
    requires
        0 <= i < es.len(),
    ensures
        entries_bytes(es).subrange(16 * i, 16 * i + 16) == entry_bytes(es[i]),
    decreases es.len(),
{
    lemma_entries_bytes_len(es.drop_last());
    if i < es.len() - 1 {
        lemma_entries_bytes_at(es.drop_last(), i);
        assert(entries_bytes(es).subrange(16 * i, 16 * i + 16) =~= entries_bytes(
            es.drop_last(),
        ).subrange(16 * i, 16 * i + 16));
    } else {
        assert(entries_bytes(es).subrange(16 * i, 16 * i + 16) =~= entry_bytes(es.last()));
    }
}

/// PFT file: a header and its entries.
#[derive(Debug, Clone, PartialEq, Eq, Hash)]
pub struct File {
    header: Header,
    entries: Vec<Entry>,
}

/// The serialized form of a PFT file.
pub open spec fn file_bytes(h: Header, es: Seq<Entry>) -> Seq<u8> {
    header_bytes(h) + entries_bytes(es)
}

impl File {
    /// The header.
    pub closed spec fn spec_header(&self) -> Header {
        self.header
    }

    /// The entries.
    pub closed spec fn spec_entries(&self) -> Seq<Entry> {
        self.entries@
    }

    /// Creates a PFT file holding the given entries.
    pub fn new(entries: Vec<Entry>) -> (r: Self)
        ensures
            r.spec_entries() == entries@,
            r.spec_header().magic@ == magic_seq(),
            r.spec_header().num_entries == entries@.len() as u32,
            r.spec_header().padding == 0,
    {
        let num = entries.len() as u32;
        File { header: Header::new(num), entries }
    }

    /// Creates an empty PFT file.
    pub fn empty() -> (r: Self)
        ensures
            r.spec_entries().len() == 0,
            r.spec_header().magic@ == magic_seq(),
            r.spec_header().num_entries == 0,
            r.spec_header().padding == 0,
    {
        File { header: Header::default_header(), entries: Vec::new() }
    }

    /// The header.
    pub fn header(&self) -> (r: &Header)
        ensures
            *r == self.spec_header(),
    {
        &self.header
    }

    /// The entries.
    pub fn entries(&self) -> (r: &[Entry])
        ensures
            r@ == self.spec_entries(),
    {
        self.entries.as_slice()
    }

    /// Number of entries.
    pub fn num_entries(&self) -> (r: usize)
        ensures
            r == self.spec_entries().len(),
    {
        self.entries.len()
    }

    /// The entry at `index`, if any.
    pub fn get_entry(&self, index: usize) -> (r: Option<&Entry>)
        ensures
            index < self.spec_entries().len() ==> r == Some(&self.spec_entries()[index as int]),
            index >= self.spec_entries().len() ==> r is None,
    {
        if index < self.entries.len() {
            Some(&self.entries[index])
        } else {
            None
        }
    }

    /// The first entry whose displayed name equals `name`, ignoring ASCII case.
    pub fn find_entry(&self, name: &str) -> (r: Option<&Entry>)
        ensures
            r matches Some(e) ==> exists|i: int|
                0 <= i < self.spec_entries().len() && *e == self.spec_entries()[i]
                    && eq_ignore_ascii_case(spec_decode_name(e.raw_name@), name@) && forall|j: int|
                    0 <= j < i ==> !eq_ignore_ascii_case(
                        spec_decode_name(self.spec_entries()[j].raw_name@),
                        name@,
                    ),
            r is None ==> forall|j: int|
                0 <= j < self.spec_entries().len() ==> !eq_ignore_ascii_case(
                    spec_decode_name(self.spec_entries()[j].raw_name@),
                    name@,
                ),
    {
        let mut i: usize = 0;
        while i < self.entries.len()
            invariant
                i <= self.entries@.len(),
                forall|j: int|
                    0 <= j < i ==> !eq_ignore_ascii_case(
                        spec_decode_name(self.entries@[j].raw_name@),
                        name@,
                    ),
            decreases self.entries@.len() - i,
        {
            let chars = decode_name_chars(&self.entries[i].raw_name);
            if chars_eq_ignore_ascii_case(&chars, name) {
                proof {
                    let k = i as int;
                    assert(0 <= k < self.spec_entries().len() && self.entries@[k]
                        == self.spec_entries()[k] && eq_ignore_ascii_case(
                        spec_decode_name(self.entries@[k].raw_name@),
                        name@,
                    ));
                }
                return Some(&self.entries[i]);
            }
            i = i + 1;
        }
        None
    }

    /// Appends an entry and updates the header's entry count.
    pub fn add_entry(&mut self, entry: Entry)
        ensures
            final(self).spec_entries() == old(self).spec_entries().push(entry),
            final(self).spec_header().num_entries == (old(self).spec_entries().len() + 1) as u32,
            final(self).spec_header().magic == old(self).spec_header().magic,
            final(self).spec_header().padding == old(self).spec_header().padding,
    {
        self.entries.push(entry);
        self.header.num_entries = self.entries.len() as u32;
    }

    /// Parses a PFT file: the header, then as many entries as it announces.
    pub fn from_bytes(data: &[u8]) -> (r: Result<Self, DvFileError>)
        ensures
            data@.len() < 16 ==> r == Err::<Self, DvFileError>(
                DvFileError::InsufficientData {
                    file_type: FileType::Pft,
                    expected: 16,
                    actual: data@.len() as usize,
                },
            ),
            data@.len() >= 16 && data@.subrange(0, 4) != magic_seq() ==> (r matches Err(e)
                && e is InvalidMagic),
            data@.len() >= 16 && data@.subrange(0, 4) == magic_seq() && data@.len() < 16 + 16
                * u32_at(data@, 4) ==> r == Err::<Self, DvFileError>(
                DvFileError::InsufficientData {
                    file_type: FileType::Pft,
                    expected: (16 + 16 * u32_at(data@, 4)) as usize,
                    actual: data@.len() as usize,
                },
            ),
            data@.len() >= 16 && data@.subrange(0, 4) == magic_seq() && data@.len() >= 16 + 16
                * u32_at(data@, 4) ==> (r matches Ok(f) && header_decodes(f.spec_header(), data@)
                && f.spec_entries().len() == u32_at(data@, 4) && forall|i: int|
                0 <= i < f.spec_entries().len() ==> entry_decodes(
                    f.spec_entries()[i],
                    data@,
                    16 + 16 * i,
                )),
    {
        let header = Header::from_bytes(data)?;
        let required: u64 = 16 + 16 * (header.num_entries as u64);
        if (data.len() as u64) < required {
            return Err(DvFileError::insufficient_data(FileType::Pft, required as usize, data.len()));
        }
        let n = header.num_entries as usize;
        let dlen = data.len();
        let mut entries: Vec<Entry> = Vec::new();
        let mut i: usize = 0;
        while i < n
            invariant
                i <= n,
                16 + 16 * n <= data@.len(),
                dlen == data@.len(),
                entries@.len() == i,
                forall|k: int| 0 <= k < i ==> entry_decodes(entries@[k], data@, 16 + 16 * k),
            decreases n - i,
        {
            let e = Entry::parse_at(data, HEADER_SIZE + i * ENTRY_SIZE);
            entries.push(e);
            i = i + 1;
        }
        Ok(File { header, entries })
    }

    /// Serializes the file: header, then each entry.
    pub fn to_bytes(&self) -> (r: Vec<u8>)
        ensures
            r@ == file_bytes(self.spec_header(), self.spec_entries()),
    {
        let mut out: Vec<u8> = Vec::new();
        let hb = self.header.to_bytes();
        push_slice(&mut out, &hb);
        let mut i: usize = 0;
        while i < self.entries.len()
            invariant
                i <= self.entries@.len(),
                out@ == header_bytes(self.header) + entries_bytes(
                    self.entries@.subrange(0, i as int),
                ),
            decreases self.entries@.len() - i,
        {
            self.entries[i].write_to(&mut out);
            proof {
                let es = self.entries@.subrange(0, i + 1);
                assert(es.drop_last() =~= self.entries@.subrange(0, i as int));
            }
            i = i + 1;
            assert(out@ =~= header_bytes(self.header) + entries_bytes(
                self.entries@.subrange(0, i as int),
            ));
        }
        assert(self.entries@.subrange(0, self.entries@.len() as int) =~= self.entries@);
        out
    }

    /// A description: the header, then one line per entry.
    pub fn to_string(&self) -> (r: String)
        ensures
            r@ == "PFT File: "@ + header_text(self.spec_header()) + "\nEntries:\n"@ + entry_lines(
                self.spec_entries(),
            ),
    {
        let mut s = String::from_str("PFT File: ");
        s.append(self.header.to_string().as_str());
        s.append("\nEntries:\n");
        let ghost start = s@;
        let mut i: usize = 0;
        while i < self.entries.len()
            invariant
                i <= self.entries@.len(),
                s@ == start + entry_lines(self.entries@.subrange(0, i as int)),
            decreases self.entries@.len() - i,
        {
            s.append("  ");
            s.append(self.entries[i].to_string().as_str());
            s.append("\n");
            proof {
                let p = self.entries@.subrange(0, i + 1);
                assert(p.drop_last() =~= self.entries@.subrange(0, i as int));
                assert(p.last() == self.entries@[i as int]);
            }
            i = i + 1;
        }
        assert(self.entries@.subrange(0, self.entries@.len() as int) =~= self.entries@);
        s
    }

    /// Checks that the header's entry count matches the entries present.
    pub fn validate(&self) -> (r: Result<(), DvFileError>)
        ensures
            self.spec_header().num_entries as int == self.spec_entries().len() ==> r is Ok,
            self.spec_header().num_entries as int != self.spec_entries().len() ==> r == Err::<
                (),
                DvFileError,
            >(
                DvFileError::EntryCountMismatch {
                    file_type: FileType::Pft,
                    expected: self.spec_header().num_entries,
                    actual: self.spec_entries().len() as usize,
                },
            ),
    {
        if self.header.num_entries as usize != self.entries.len() {
            return Err(
                DvFileError::EntryCountMismatch {
                    file_type: FileType::Pft,
                    expected: self.header.num_entries,
                    actual: self.entries.len(),
                },
            );
        }
        Ok(())
    }
}

/// Serializing a header and parsing it back gives the same fields.
pub proof fn lemma_header_roundtrip(h: Header)
    ensures
        header_bytes(h).len() == 16,
        header_decodes(h, header_bytes(h)),
{
    let s = header_bytes(h);
    assert(s.subrange(0, 4) =~= h.magic@);
    assert(s.subrange(4, 8) =~= u32_bytes(h.num_entries));
    assert(s.subrange(8, 16) =~= u64_bytes(h.padding));
    lemma_u32_roundtrip(h.num_entries, s, 4);
    lemma_u64_roundtrip(h.padding, s, 8);
}

/// Serializing an entry and parsing it back gives the same fields.
pub proof fn lemma_entry_roundtrip(e: Entry, s: Seq<u8>, off: int)
    requires
        0 <= off,
        off + 16 <= s.len(),
        s.subrange(off, off + 16) == entry_bytes(e),
    ensures
        entry_decodes(e, s, off),
{
    let b = entry_bytes(e);
    assert(s.subrange(off, off + 8) =~= b.subrange(0, 8));
    assert(b.subrange(0, 8) =~= e.raw_name@);
    assert(s.subrange(off + 8, off + 12) =~= u32_bytes(e.index)) by {
        assert(s.subrange(off + 8, off + 12) =~= b.subrange(8, 12));
    }
    assert(s.subrange(off + 12, off + 16) =~= u32_bytes(e.actual_size)) by {
        assert(s.subrange(off + 12, off + 16) =~= b.subrange(12, 16));
    }
    lemma_u32_roundtrip(e.index, s, off + 8);
    lemma_u32_roundtrip(e.actual_size, s, off + 12);
}

/// A PFT file whose header carries the PFT magic and counts its entries is
/// read back from its serialization with the same header and entries.
pub proof fn lemma_file_roundtrip(h: Header, es: Seq<Entry>)
    requires
        h.magic@ == magic_seq(),
        h.num_entries == es.len(),
    ensures
        ({
            let s = file_bytes(h, es);
            &&& s.len() == 16 + 16 * es.len()
            &&& s.subrange(0, 4) == magic_seq()
            &&& header_decodes(h, s)
            &&& u32_at(s, 4) == es.len()
            &&& forall|i: int| 0 <= i < es.len() ==> entry_decodes(es[i], s, 16 + 16 * i)
        }),
{
    let s = file_bytes(h, es);
    lemma_header_roundtrip(h);
    lemma_entries_bytes_len(es);
    assert(s.subrange(0, 16) =~= header_bytes(h));
    assert(header_decodes(h, s)) by {
        assert(s.subrange(0, 4) =~= header_bytes(h).subrange(0, 4));
        assert(s.subrange(4, 8) =~= header_bytes(h).subrange(4, 8));
        assert(header_bytes(h).subrange(4, 8) =~= u32_bytes(h.num_entries));
        lemma_u32_roundtrip(h.num_entries, s, 4);
        assert(s.subrange(8, 16) =~= header_bytes(h).subrange(8, 16));
        assert(header_bytes(h).subrange(8, 16) =~= u64_bytes(h.padding));
        lemma_u64_roundtrip(h.padding, s, 8);
    }
    assert forall|i: int| 0 <= i < es.len() implies entry_decodes(es[i], s, 16 + 16 * i) by {
        lemma_entries_bytes_at(es, i);
        assert(s.subrange(16 + 16 * i, 16 + 16 * i + 16) =~= entries_bytes(es).subrange(
            16 * i,
            16 * i + 16,
        ));
        lemma_entry_roundtrip(es[i], s, 16 + 16 * i);
    }
}

} // verus!

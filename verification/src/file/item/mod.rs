//! Item data file (`ITEM.dat`): a 2-byte item count, the encrypted item
//! records of 208 bytes each, and a 128-byte block that scatters the 32-bit
//! checksum of the decrypted data over four of its bytes.

use vstd::prelude::*;
use vstd::string::StringExecFns;
use vstd::arithmetic::div_mod::lemma_add_mod_noop;
use vstd::std_specs::iter::IteratorSpec;

use super::error::ItemError;
use super::show::append_decimal;
use super::text::decimal;
use super::le::{lemma_u16_roundtrip, push_u16, u16_at, u16_bytes};

pub mod entry;
pub mod tables;

use tables::{decode_byte, decode_table, encode_byte, encode_table, lemma_tables_inverse};

verus! {

/// Size of the item count field in bytes.
pub const ITEM_COUNT_SIZE: usize = 2;

/// Size of each item record in bytes.
pub const ITEM_SIZE: usize = 208;

/// Size of the checksum block at the end of the file.
pub const CHECKSUM_BUFFER_SIZE: usize = 128;

/// One item record (208 bytes).
pub type ItemRaw = [u8; 208];

/// The records laid end to end.
pub open spec fn flat(items: Seq<[u8; 208]>) -> Seq<u8>
    decreases items.len(),
{
    if items.len() == 0 {
        Seq::empty()
    } else {
        flat(items.drop_last()) + items.last()@
    }
}

/// Sum of all bytes.
pub open spec fn sum_bytes(s: Seq<u8>) -> int
    decreases s.len(),
{
    if s.len() == 0 {
        0
    } else {
        sum_bytes(s.drop_last()) + s.last() as int
    }
}

/// The 32-bit checksum: the byte sum modulo 2^32.
pub open spec fn checksum(s: Seq<u8>) -> u32 {
    (sum_bytes(s) % 4294967296) as u32
}

/// Decrypted bytes.
pub open spec fn decrypt(s: Seq<u8>) -> Seq<u8> {
    Seq::new(s.len(), |i: int| decode_table(s[i]))
}

/// Encrypted bytes.
pub open spec fn encrypt(s: Seq<u8>) -> Seq<u8> {
    Seq::new(s.len(), |i: int| encode_table(s[i]))
}

/// The 128-byte block holding checksum `c`: bits 31..24 at 0x00, 23..16 at
/// 0x07, 15..8 at 0x29, 7..0 at 0x41, all other bytes zero.
pub open spec fn checksum_block(c: u32) -> Seq<u8> {
    Seq::new(
        128,
        |i: int|
            if i == 0x00 {
                (c / 16777216) as u8
            } else if i == 0x07 {
                ((c / 65536) % 256) as u8
            } else if i == 0x29 {
                ((c / 256) % 256) as u8
            } else if i == 0x41 {
                (c % 256) as u8
            } else {
                0u8
            },
    )
}

/// The checksum stored in the block that starts at `off`.
pub open spec fn stored_checksum(s: Seq<u8>, off: int) -> u32 {
    (s[off] as int * 16777216 + s[off + 0x07] as int * 65536 + s[off + 0x29] as int * 256
        + s[off + 0x41] as int) as u32
}

/// The serialized form of an item file.
pub open spec fn item_file_bytes(count: u16, items: Seq<[u8; 208]>) -> Seq<u8> {
    u16_bytes(count) + encrypt(flat(items)) + checksum_block(checksum(flat(items)))
}

/// Length of the laid-out records.
pub proof fn lemma_flat_len(items: Seq<[u8; 208]>)
    ensures
        flat(items).len() == 208 * items.len(),
    decreases items.len(),
{
    if items.len() > 0 {
        lemma_flat_len(items.drop_last());
    }
}

/// Record `k` occupies bytes `208k .. 208k + 208` of the layout.
pub proof fn lemma_flat_at(items: Seq<[u8; 208]>, k: int)
    requires
        0 <= k < items.len(),
    ensures
        flat(items).subrange(208 * k, 208 * k + 208) == items[k]@,
    decreases items.len(),
{
    lemma_flat_len(items.drop_last());
    if k < items.len() - 1 {
        lemma_flat_at(items.drop_last(), k);
        assert(flat(items).subrange(208 * k, 208 * k + 208) =~= flat(items.drop_last()).subrange(
            208 * k,
            208 * k + 208,
        ));
    } else {
        assert(flat(items).subrange(208 * k, 208 * k + 208) =~= items.last()@);
    }
}

proof fn lemma_sum_step(s: Seq<u8>, i: int)
    requires
        0 <= i < s.len(),
    ensures
        sum_bytes(s.subrange(0, i + 1)) == sum_bytes(s.subrange(0, i)) + s[i],
{
    assert(s.subrange(0, i + 1).drop_last() =~= s.subrange(0, i));
}

proof fn lemma_checksum_step(acc: u32, s: Seq<u8>, i: int)
    requires
        0 <= i < s.len(),
        acc == checksum(s.subrange(0, i)),
    ensures
        ((acc as int + s[i] as int) % 4294967296) as u32 == checksum(s.subrange(0, i + 1)),
{
    lemma_sum_step(s, i);
    lemma_add_mod_noop(sum_bytes(s.subrange(0, i)), s[i] as int, 4294967296);
    assert((s[i] as int) % 4294967296 == s[i] as int);
    assert((acc as int) % 4294967296 == acc as int);
}

proof fn lemma_block_checksum(c: u32)
    ensures
        stored_checksum(checksum_block(c), 0) == c,
        checksum_block(c).len() == 128,
{
    let b = checksum_block(c);
    assert(b[0] == (c / 16777216) as u8);
    assert(b[0x07] == ((c / 65536) % 256) as u8);
    assert(b[0x29] == ((c / 256) % 256) as u8);
    assert(b[0x41] == (c % 256) as u8);
}

/// Item data file.
#[derive(Debug, Clone, PartialEq, Eq)]
pub struct File {
    item_count: u16,
    items: Vec<ItemRaw>,
}

impl File {
    /// The item count field.
    pub closed spec fn spec_item_count(&self) -> u16 {
        self.item_count
    }

    /// The item records.
    pub closed spec fn spec_items(&self) -> Seq<ItemRaw> {
        self.items@
    }

    /// The count field equals the number of records.
    pub open spec fn wf(&self) -> bool {
        self.spec_item_count() == self.spec_items().len()
    }

    /// Creates an empty item file.
    pub fn new() -> (r: Self)
        ensures
            r.wf(),
            r.spec_items().len() == 0,
    {
        File { item_count: 0, items: Vec::new() }
    }

    /// Parses an item file: item count, encrypted records, checksum block.
    pub fn from_bytes(data: &[u8]) -> (r: Result<Self, ItemError>)
        ensures
            data@.len() < 130 ==> r == Err::<Self, ItemError>(
                ItemError::InsufficientData { expected: 130, actual: data@.len() as usize },
            ),
            data@.len() >= 130 && data@.len() < 130 + 208 * u16_at(data@, 0) ==> r == Err::<
                Self,
                ItemError,
            >(
                ItemError::InsufficientData {
                    expected: (130 + 208 * u16_at(data@, 0)) as usize,
                    actual: data@.len() as usize,
                },
            ),
            ({
                let n = u16_at(data@, 0) as int;
                let dec = decrypt(data@.subrange(2, 2 + 208 * n));
                let fc = stored_checksum(data@, 2 + 208 * n);
                data@.len() >= 130 + 208 * n ==> {
                    &&& checksum(dec) != fc ==> r == Err::<Self, ItemError>(
                        ItemError::ChecksumMismatch { expected: fc, actual: checksum(dec) },
                    )
                    &&& checksum(dec) == fc ==> (r matches Ok(f) && f.wf() && f.spec_item_count()
                        == n && flat(f.spec_items()) == dec)
                }
            }),
    {
        if data.len() < 130 {
            return Err(ItemError::InsufficientData { expected: 130, actual: data.len() });
        }
        let count = data[0] as u16 + 256 * (data[1] as u16);
        let n = count as usize;
        let data_size = n * ITEM_SIZE;
        let total = ITEM_COUNT_SIZE + data_size + CHECKSUM_BUFFER_SIZE;
        if data.len() < total {
            return Err(ItemError::InsufficientData { expected: total, actual: data.len() });
        }
        let ghost enc = data@.subrange(2, 2 + 208 * n);
        let mut decrypted: Vec<u8> = Vec::new();
        let mut acc: u32 = 0;
        let mut i: usize = 0;
        while i < data_size
            invariant
                i <= data_size,
                data_size == 208 * n,
                2 + data_size + 128 <= data@.len(),
                enc == data@.subrange(2, 2 + 208 * n),
                decrypted@ == decrypt(enc).subrange(0, i as int),
                acc == checksum(decrypt(enc).subrange(0, i as int)),
            decreases data_size - i,
        {
            let d = decode_byte(data[2 + i]);
            proof {
                lemma_checksum_step(acc, decrypt(enc), i as int);
            }
            decrypted.push(d);
            acc = ((acc as u64 + d as u64) % 4294967296) as u32;
            i = i + 1;
            assert(decrypted@ =~= decrypt(enc).subrange(0, i as int));
        }
        assert(decrypt(enc).subrange(0, data_size as int) =~= decrypt(enc));
        let off = 2 + data_size;
        let stored: u32 = (data[off] as u32) * 16777216 + (data[off + 0x07] as u32) * 65536 + (
        data[off + 0x29] as u32) * 256 + (data[off + 0x41] as u32);
        if acc != stored {
            return Err(ItemError::ChecksumMismatch { expected: stored, actual: acc });
        }
        let mut items: Vec<ItemRaw> = Vec::new();
        let mut k: usize = 0;
        while k < n
            invariant
                k <= n,
                208 * n <= usize::MAX,
                decrypted@.len() == 208 * n,
                items@.len() == k,
                flat(items@) == decrypted@.subrange(0, 208 * k),
            decreases n - k,
        {
            let mut item: ItemRaw = [0u8; 208];
            let mut j: usize = 0;
            while j < ITEM_SIZE
                invariant
                    j <= 208,
                    k < n,
                    208 * n <= usize::MAX,
                    decrypted@.len() == 208 * n,
                    item@.len() == 208,
                    forall|t: int| 0 <= t < j ==> item@[t] == decrypted@[208 * k + t],
                decreases 208 - j,
            {
                item[j] = decrypted[k * ITEM_SIZE + j];
                j = j + 1;
            }
            assert(item@ =~= decrypted@.subrange(208 * k, 208 * k + 208));
            let ghost prev = items@;
            items.push(item);
            assert(items@.drop_last() =~= prev);
            k = k + 1;
            assert(flat(items@) =~= decrypted@.subrange(0, 208 * k));
        }
        assert(decrypted@.subrange(0, 208 * n) =~= decrypted@);
        Ok(File { item_count: count, items })
    }

    /// A one-line description: the number of items.
    pub fn to_string(&self) -> (r: String)
        ensures
            r@ == "Item File: "@ + decimal(self.spec_item_count() as nat) + " items"@,
    {
        let mut s = String::from_str("Item File: ");
        append_decimal(&mut s, self.item_count as u64);
        s.append(" items");
        s
    }

    /// Number of items.
    pub fn item_count(&self) -> (r: u16)
        ensures
            r == self.spec_item_count(),
    {
        self.item_count
    }

    /// The record at `index`, if any.
    pub fn get_item(&self, index: usize) -> (r: Option<&ItemRaw>)
        ensures
            index < self.spec_items().len() ==> r == Some(&self.spec_items()[index as int]),
            index >= self.spec_items().len() ==> r is None,
    {
        if index < self.items.len() {
            Some(&self.items[index])
        } else {
            None
        }
    }

    /// The records in order.
    pub fn items(&self) -> (r: &[ItemRaw])
        ensures
            r@ == self.spec_items(),
    {
        self.items.as_slice()
    }

    /// The record at `index` for editing, if any.
    pub fn get_item_mut(&mut self, index: usize) -> (r: Option<&mut ItemRaw>)
        ensures
            index < old(self).spec_items().len() ==> r is Some && *r->0 == old(self).spec_items()[index as int]
                && final(self).spec_items() == old(self).spec_items().update(index as int, *final(r->0))
                && final(self).spec_item_count() == old(self).spec_item_count(),
            index >= old(self).spec_items().len() ==> r is None && *final(self) == *old(self),
    {
        if index < self.items.len() {
            Some(&mut self.items[index])
        } else {
            None
        }
    }

    /// The records, for changing in place (the count stays as it is).
    pub fn items_mut(&mut self) -> (r: &mut [ItemRaw])
        ensures
            r@ == old(self).spec_items(),
            final(self).spec_items() == final(r)@,
            final(self).spec_item_count() == old(self).spec_item_count(),
    {
        self.items.as_mut_slice()
    }

    /// An iterator over the records in order.
    pub fn iter(&self) -> (r: std::slice::Iter<'_, ItemRaw>)
        ensures
            r.remaining() == self.spec_items().as_ref(),
    {
        proof {
            broadcast use vstd::std_specs::slice::axiom_spec_slice_iter;
        }
        self.items.as_slice().iter()
    }

    /// Serializes the file: count, encrypted records, checksum block.
    pub fn to_bytes(&self) -> (r: Vec<u8>)
        requires
            self.wf(),
        ensures
            r@ == item_file_bytes(self.spec_item_count(), self.spec_items()),
    {
        let mut plain: Vec<u8> = Vec::new();
        let mut k: usize = 0;
        while k < self.items.len()
            invariant
                k <= self.items@.len(),
                plain@ == flat(self.items@.subrange(0, k as int)),
            decreases self.items@.len() - k,
        {
            let mut j: usize = 0;
            let ghost before = plain@;
            while j < ITEM_SIZE
                invariant
                    j <= 208,
                    k < self.items@.len(),
                    plain@ == before + self.items@[k as int]@.subrange(0, j as int),
                decreases 208 - j,
            {
                plain.push(self.items[k][j]);
                j = j + 1;
                assert(plain@ =~= before + self.items@[k as int]@.subrange(0, j as int));
            }
            proof {
                let s = self.items@.subrange(0, k + 1);
                assert(s.drop_last() =~= self.items@.subrange(0, k as int));
                assert(self.items@[k as int]@.subrange(0, 208) =~= self.items@[k as int]@);
            }
            k = k + 1;
        }
        assert(self.items@.subrange(0, self.items@.len() as int) =~= self.items@);
        let mut out: Vec<u8> = Vec::new();
        push_u16(&mut out, self.item_count);
        let mut acc: u32 = 0;
        let mut i: usize = 0;
        while i < plain.len()
            invariant
                i <= plain@.len(),
                out@ == u16_bytes(self.item_count) + encrypt(plain@).subrange(0, i as int),
                acc == checksum(plain@.subrange(0, i as int)),
            decreases plain@.len() - i,
        {
            let b = plain[i];
            out.push(encode_byte(b));
            proof {
                lemma_sum_step(plain@, i as int);
                lemma_add_mod_noop(sum_bytes(plain@.subrange(0, i as int)), b as int, 4294967296);
            }
            acc = ((acc as u64 + b as u64) % 4294967296) as u32;
            i = i + 1;
            assert(out@ =~= u16_bytes(self.item_count) + encrypt(plain@).subrange(0, i as int));
        }
        assert(plain@.subrange(0, plain@.len() as int) =~= plain@);
        assert(encrypt(plain@).subrange(0, plain@.len() as int) =~= encrypt(plain@));
        let mut block: Vec<u8> = Vec::new();
        let mut t: usize = 0;
        while t < CHECKSUM_BUFFER_SIZE
            invariant
                t <= 128,
                block@ == checksum_block(acc).subrange(0, t as int),
            decreases 128 - t,
        {
            let v: u8 = if t == 0x00 {
                (acc / 16777216) as u8
            } else if t == 0x07 {
                ((acc / 65536) % 256) as u8
            } else if t == 0x29 {
                ((acc / 256) % 256) as u8
            } else if t == 0x41 {
                (acc % 256) as u8
            } else {
                0u8
            };
            block.push(v);
            t = t + 1;
            assert(block@ =~= checksum_block(acc).subrange(0, t as int));
        }
        assert(checksum_block(acc).subrange(0, 128) =~= checksum_block(acc));
        let mut j: usize = 0;
        let ghost mid = out@;
        while j < block.len()
            invariant
                j <= block@.len(),
                out@ == mid + block@.subrange(0, j as int),
            decreases block@.len() - j,
        {
            out.push(block[j]);
            j = j + 1;
            assert(out@ =~= mid + block@.subrange(0, j as int));
        }
        assert(block@.subrange(0, block@.len() as int) =~= block@);
        out
    }

    /// Appends a record.
    pub fn add_item(&mut self, item: ItemRaw)
        requires
            old(self).wf(),
            old(self).spec_items().len() < 65535,
        ensures
            final(self).wf(),
            final(self).spec_items() == old(self).spec_items().push(item),
    {
        self.items.push(item);
        self.item_count = self.item_count + 1;
    }

    /// Removes and returns the record at `index`, if any.
    pub fn remove_item(&mut self, index: usize) -> (r: Option<ItemRaw>)
        requires
            old(self).wf(),
        ensures
            final(self).wf(),
            index < old(self).spec_items().len() ==> r == Some(old(self).spec_items()[index as int])
                && final(self).spec_items() == old(self).spec_items().remove(index as int),
            index >= old(self).spec_items().len() ==> r is None && final(self).spec_items() == old(
                self,
            ).spec_items(),
    {
        if index < self.items.len() {
            self.item_count = self.item_count - 1;
            Some(self.items.remove(index))
        } else {
            None
        }
    }
}

/// A well-formed item file is read back from its serialization with the same
/// records: the count, the length, the decrypted records and the stored
/// checksum all agree.
pub proof fn lemma_item_file_roundtrip(count: u16, items: Seq<ItemRaw>)
    requires
        count == items.len(),
    ensures
        ({
            let s = item_file_bytes(count, items);
            let n = count as int;
            &&& s.len() == 130 + 208 * n
            &&& u16_at(s, 0) == count
            &&& decrypt(s.subrange(2, 2 + 208 * n)) == flat(items)
            &&& stored_checksum(s, 2 + 208 * n) == checksum(decrypt(s.subrange(2, 2 + 208 * n)))
        }),
{
    let s = item_file_bytes(count, items);
    let n = count as int;
    lemma_flat_len(items);
    let f = flat(items);
    lemma_tables_inverse();
    assert(s.subrange(0, 2) =~= u16_bytes(count));
    lemma_u16_roundtrip(count, s, 0);
    assert(s.subrange(2, 2 + 208 * n) =~= encrypt(f));
    assert(decrypt(encrypt(f)) =~= f);
    let c = checksum(f);
    lemma_block_checksum(c);
    let b = checksum_block(c);
    assert(s[2 + 208 * n] == b[0]);
    assert(s[2 + 208 * n + 0x07] == b[0x07]);
    assert(s[2 + 208 * n + 0x29] == b[0x29]);
    assert(s[2 + 208 * n + 0x41] == b[0x41]);
}

/// Encrypting and decrypting undo each other on every byte value.
pub proof fn lemma_encryption_bijective(b: u8)
    ensures
        encode_table(decode_table(b)) == b,
        decode_table(encode_table(b)) == b,
{
    lemma_tables_inverse();
}

} // verus!

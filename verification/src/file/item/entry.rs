//! One record of the item database, decoded into its known fields.

use vstd::prelude::*;

use super::super::le::{read_u16, u16_at};
use super::super::text::{decode_name, spec_decode_name};

verus! {

/// An item record.
#[derive(Debug, Clone, PartialEq, Eq)]
pub struct ItemEntry {
    /// Item ID
    pub id: u16,
    raw_name: [u8; 23],
    unknown1: [u8; 4],
    /// Item type
    pub item_type: u8,
}

impl ItemEntry {
    /// The item ID.
    pub closed spec fn spec_id(&self) -> u16 {
        self.id
    }

    /// The item type.
    pub closed spec fn spec_item_type(&self) -> u8 {
        self.item_type
    }

    /// The raw name bytes.
    pub closed spec fn spec_raw_name(&self) -> Seq<u8> {
        self.raw_name@
    }

    /// The four unknown bytes.
    pub closed spec fn spec_unknown1(&self) -> Seq<u8> {
        self.unknown1@
    }

    /// The item name: the raw name decoded, NUL padding and surrounding white
    /// space removed.
    pub fn name(&self) -> (r: String)
        ensures
            r@ == spec_decode_name(self.spec_raw_name()),
    {
        decode_name(&self.raw_name)
    }

    /// Reads an entry from the first 30 bytes of `data`: ID (2 bytes), name
    /// (23 bytes), four unknown bytes and the item type.
    pub fn from_slice(data: &[u8]) -> (r: Self)
        requires
            data@.len() >= 30,
        ensures
            r.spec_id() == u16_at(data@, 0),
            r.spec_raw_name() == data@.subrange(2, 25),
            r.spec_unknown1() == data@.subrange(25, 29),
            r.spec_item_type() == data@[29],
    {
        let id = read_u16(data, 0);
        let mut raw_name = [0u8; 23];
        let mut i: usize = 0;
        while i < 23
            invariant
                i <= 23,
                data@.len() >= 30,
                raw_name@.len() == 23,
                forall|k: int| 0 <= k < i ==> raw_name@[k] == data@[2 + k],
            decreases 23 - i,
        {
            raw_name[i] = data[2 + i];
            i = i + 1;
        }
        assert(raw_name@ =~= data@.subrange(2, 25));
        let unknown1: [u8; 4] = [data[25], data[26], data[27], data[28]];
        assert(unknown1@ =~= data@.subrange(25, 29));
        ItemEntry { id, raw_name, unknown1, item_type: data[29] }
    }
}

} // verus!

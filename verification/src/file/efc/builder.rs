//! Building sound effect banks: encoding sounds and laying out the file.

use std::collections::HashMap;
use vstd::prelude::*;

use super::super::error::{DvFileError, FileType};
use super::super::le::{filled, push_slice, push_u32, u32_bytes, write_at};
use super::super::text::{decimal, push_decimal, push_str, string_from_chars};
use super::constants::{INDEX_TABLE_SIZE, MAX_EFFECTS};
use super::encoder::{encode_ima_adpcm, encoded_adpcm, is_empty_pcm_error};
use super::super::le::{lemma_u32_roundtrip, u32_at};
use super::file::{effect_end, has_span, is_not_found, next_set_offset};
use super::types::{adpcm_header_bytes, lemma_adpcm_header_roundtrip, sound_header_bytes, DecodedSound};

verus! {

broadcast use vstd::std_specs::hash::group_hash_axioms;

/// The bytes of an encoded sound effect: its sound data header, its ADPCM
/// header and its samples encoded with its step table.
pub open spec fn sound_bytes(s: DecodedSound) -> Seq<u8> {
    sound_header_bytes(s.sound_header) + adpcm_header_bytes(s.adpcm_header) + encoded_adpcm(
        s.pcm_data@,
        s.adpcm_header.step_table@,
    )
}

impl DecodedSound {
    /// Encodes the sound effect: headers, then the samples as IMA ADPCM.
    /// A sound without samples cannot be encoded.
    pub fn to_bytes(&self) -> (r: Result<Vec<u8>, DvFileError>)
        ensures
            self.pcm_data@.len() == 0 ==> (r matches Err(e) && is_empty_pcm_error(e)),
            self.pcm_data@.len() > 0 ==> (r matches Ok(b) && b@ == sound_bytes(*self)),
    {
        let mut buffer: Vec<u8> = Vec::new();
        self.sound_header.write_bytes(&mut buffer);
        self.adpcm_header.write_bytes(&mut buffer);
        let adpcm = match encode_ima_adpcm(
            self.pcm_data.as_slice(),
            &self.adpcm_header.step_table,
            self.adpcm_header.channels,
        ) {
            Ok(a) => a,
            Err(e) => {
                return Err(e);
            },
        };
        push_slice(&mut buffer, adpcm.as_slice());
        assert(buffer@ =~= sound_bytes(*self));
        Ok(buffer)
    }
}

/// The bytes of the effects at indices below `k`, in index order.
pub open spec fn payload(effects: Seq<Option<DecodedSound>>, k: int) -> Seq<u8>
    decreases k,
{
    if k <= 0 {
        Seq::empty()
    } else {
        payload(effects, k - 1) + match effects[k - 1] {
            Some(s) => sound_bytes(s),
            None => Seq::empty(),
        }
    }
}

/// Whether every present effect has samples.
pub open spec fn all_encodable(effects: Seq<Option<DecodedSound>>) -> bool {
    forall|j: int| 0 <= j < effects.len() ==> (#[trigger] effects[j] matches Some(s) ==> s.pcm_data@.len() > 0)
}

/// The index table of a built bank: each present effect starts right
/// after the table and the effects before it.
pub open spec fn built_table(effects: Seq<Option<DecodedSound>>) -> Seq<u32> {
    Seq::new(
        MAX_EFFECTS as nat,
        |id: int|
            if effects[id] is Some {
                (INDEX_TABLE_SIZE + payload(effects, id).len()) as u32
            } else {
                0u32
            },
    )
}

/// The bytes of an index table, each entry little-endian.
pub open spec fn index_bytes(t: Seq<u32>) -> Seq<u8> {
    Seq::new((4 * t.len()) as nat, |k: int| u32_bytes(t[k / 4])[k % 4])
}

/// The bytes of a built bank: the index table, then the effects in index
/// order.
pub open spec fn built_bytes(effects: Seq<Option<DecodedSound>>) -> Seq<u8> {
    index_bytes(built_table(effects)) + payload(effects, MAX_EFFECTS as int)
}

/// The number of present effects among the first `k`.
pub open spec fn count_present(effects: Seq<Option<DecodedSound>>, k: int) -> nat
    decreases k,
{
    if k <= 0 {
        0
    } else {
        count_present(effects, k - 1) + if effects[k - 1] is Some {
            1nat
        } else {
            0nat
        }
    }
}

/// The payload of fewer effects is no longer.
pub proof fn lemma_payload_grows(effects: Seq<Option<DecodedSound>>, k: int, m: int)
    requires
        0 <= k <= m,
    ensures
        payload(effects, k).len() <= payload(effects, m).len(),
        payload(effects, m).subrange(0, payload(effects, k).len() as int) == payload(effects, k),
    decreases m - k,
{
    if k < m {
        lemma_payload_grows(effects, k, m - 1);
        assert(payload(effects, m).subrange(0, payload(effects, m - 1).len() as int) =~= payload(
            effects,
            m - 1,
        ));
        assert(payload(effects, m).subrange(0, payload(effects, k).len() as int) =~= payload(
            effects,
            m - 1,
        ).subrange(0, payload(effects, k).len() as int));
    } else {
        assert(payload(effects, m).subrange(0, payload(effects, k).len() as int) =~= payload(
            effects,
            k,
        ));
    }
}

/// The size of an effect's bytes: the two headers, the first sample with
/// its step index, and one byte per two further samples.
proof fn lemma_sound_bytes_len(s: DecodedSound)
    ensures
        sound_bytes(s).len() == 200 + s.pcm_data@.len() / 2,
{
    lemma_adpcm_header_roundtrip(s.adpcm_header);
}

/// The number of indices below `k` that a map holds.
pub open spec fn count_keys<V>(m: Map<usize, V>, k: int) -> nat
    decreases k,
{
    if k <= 0 {
        0
    } else {
        count_keys(m, k - 1) + if m.contains_key((k - 1) as usize) {
            1nat
        } else {
            0nat
        }
    }
}

/// A map whose keys all lie below `k` holds as many keys as `count_keys`
/// counts below `k`.
proof fn lemma_count_keys<V>(m: Map<usize, V>, k: int)
    requires
        0 <= k <= usize::MAX + 1,
        m.dom().finite(),
        forall|j: usize| #[trigger] m.contains_key(j) ==> j < k,
    ensures
        m.len() == count_keys(m, k),
    decreases k,
{
    if k <= 0 {
        if m.dom().len() > 0 {
            let j = m.dom().choose();
            assert(m.contains_key(j));
        }
        assert(m.dom() =~= Set::<usize>::empty());
    } else {
        let last = (k - 1) as usize;
        let rest = m.remove(last);
        lemma_count_keys(rest, k - 1);
        assert forall|j: usize| j < k - 1 implies #[trigger] rest.contains_key(j) == m.contains_key(j) by {}
        lemma_count_keys_agree(rest, m, k - 1);
        if m.contains_key(last) {
            assert(m.dom() =~= rest.dom().insert(last));
        } else {
            assert(m.dom() =~= rest.dom());
        }
    }
}

/// Two maps that hold the same indices below `k` count alike below `k`.
proof fn lemma_count_keys_agree<V>(a: Map<usize, V>, b: Map<usize, V>, k: int)
    requires
        forall|j: usize| j < k ==> #[trigger] a.contains_key(j) == b.contains_key(j),
    ensures
        count_keys(a, k) == count_keys(b, k),
    decreases k,
{
    if k > 0 {
        lemma_count_keys_agree(a, b, k - 1);
    }
}

/// Builder of sound effect banks: up to 256 effects, by index.
#[derive(Debug, Clone)]
pub struct FileBuilder {
    effects: HashMap<usize, DecodedSound>,
}

impl FileBuilder {
    /// The effect at each index, if any.
    pub closed spec fn spec_effects(&self) -> Seq<Option<DecodedSound>> {
        Seq::new(
            MAX_EFFECTS as nat,
            |i: int|
                if self.effects@.contains_key(i as usize) {
                    Some(self.effects@[i as usize])
                } else {
                    None
                },
        )
    }

    /// Every effect stands at an index below 256.
    pub closed spec fn wf(&self) -> bool {
        &&& forall|j: usize| #[trigger] self.effects@.contains_key(j) ==> j < MAX_EFFECTS
        &&& self.effects@.dom().finite()
    }

    /// There is one slot per index.
    pub proof fn lemma_slots(&self)
        ensures
            self.spec_effects().len() == MAX_EFFECTS,
    {
    }

    /// An empty builder.
    pub fn new() -> (r: Self)
        ensures
            r.wf(),
            r.spec_effects() == Seq::new(MAX_EFFECTS as nat, |i: int| None::<DecodedSound>),
    {
        let r = FileBuilder { effects: HashMap::new() };
        assert(r.spec_effects() =~= Seq::new(MAX_EFFECTS as nat, |i: int| None::<DecodedSound>));
        r
    }

    /// Puts `sound` at index `id`, replacing any effect there.
    pub fn insert_effect(&mut self, id: usize, sound: DecodedSound) -> (r: Result<(), DvFileError>)
        requires
            old(self).wf(),
        ensures
            final(self).wf(),
            id < MAX_EFFECTS ==> r is Ok && final(self).spec_effects() == old(
                self,
            ).spec_effects().update(id as int, Some(sound)),
            id >= MAX_EFFECTS ==> (r matches Err(e) && is_not_found(
                e,
                "Effect ID "@ + decimal(id as nat) + " out of range (max 255)"@,
            )) && final(self).spec_effects() == old(self).spec_effects(),
    {
        if id >= MAX_EFFECTS {
            let mut m: Vec<char> = Vec::new();
            push_str(&mut m, "Effect ID ");
            push_decimal(&mut m, id as u64);
            push_str(&mut m, " out of range (max 255)");
            return Err(
                DvFileError::EntryNotFound { file_type: FileType::Efc, message: string_from_chars(&m) },
            );
        }
        let ghost before = self.spec_effects();
        self.effects.insert(id, sound);
        assert(self.spec_effects() =~= before.update(id as int, Some(sound)));
        Ok(())
    }

    /// Whether there is an effect at index `id`.
    pub fn has_effect(&self, id: usize) -> (r: bool)
        requires
            self.wf(),
        ensures
            r == (id < MAX_EFFECTS && self.spec_effects()[id as int] is Some),
    {
        self.effects.contains_key(&id)
    }

    /// The number of effects.
    pub fn effect_count(&self) -> (r: usize)
        requires
            self.wf(),
        ensures
            r == count_present(self.spec_effects(), MAX_EFFECTS as int),
    {
        proof {
            lemma_count_keys(self.effects@, MAX_EFFECTS as int);
            self.lemma_count_present(MAX_EFFECTS as int);
        }
        self.effects.len()
    }

    proof fn lemma_count_present(&self, k: int)
        requires
            0 <= k <= MAX_EFFECTS,
        ensures
            count_present(self.spec_effects(), k) == count_keys(self.effects@, k),
        decreases k,
    {
        if k > 0 {
            self.lemma_count_present(k - 1);
        }
    }

    /// Removes the effect at index `id`, if any.
    pub fn remove_effect(&mut self, id: usize)
        requires
            old(self).wf(),
        ensures
            final(self).wf(),
            id < MAX_EFFECTS ==> final(self).spec_effects() == old(self).spec_effects().update(
                id as int,
                None,
            ),
            id >= MAX_EFFECTS ==> final(self).spec_effects() == old(self).spec_effects(),
    {
        let ghost before = self.spec_effects();
        self.effects.remove(&id);
        if id < MAX_EFFECTS {
            assert(self.spec_effects() =~= before.update(id as int, None));
        } else {
            assert(self.spec_effects() =~= before);
        }
    }

    /// The size in bytes of the bank that `to_bytes` writes: the index
    /// table and the bytes of each effect.
    pub fn bank_size(&self) -> (r: u128)
        requires
            self.wf(),
        ensures
            r == INDEX_TABLE_SIZE + payload(self.spec_effects(), MAX_EFFECTS as int).len(),
    {
        let mut total: u128 = INDEX_TABLE_SIZE as u128;
        let mut i: usize = 0;
        while i < MAX_EFFECTS
            invariant
                self.wf(),
                i <= MAX_EFFECTS,
                total == INDEX_TABLE_SIZE + payload(self.spec_effects(), i as int).len(),
                total <= INDEX_TABLE_SIZE + i * (200 + usize::MAX as int),
            decreases MAX_EFFECTS - i,
        {
            match self.effects.get(&i) {
                Some(s) => {
                    proof {
                        lemma_sound_bytes_len(*s);
                    }
                    let n = s.pcm_data.len();
                    assert(i * (200 + usize::MAX as int) <= 255 * (200 + usize::MAX as int)) by (nonlinear_arith)
                        requires
                            i < 256,
                    ;
                    assert(usize::MAX <= 0xFFFF_FFFF_FFFF_FFFFu64);
                    total = total + 200 + (n / 2) as u128;
                    assert((i + 1) * (200 + usize::MAX as int) == i * (200 + usize::MAX as int) + (200
                        + usize::MAX as int)) by (nonlinear_arith);
                },
                None => {
                    assert((i + 1) * (200 + usize::MAX as int) >= i * (200 + usize::MAX as int)) by (nonlinear_arith);
                },
            }
            i = i + 1;
        }
        total
    }

    /// The bytes of the bank: the index table, then each effect in index
    /// order. An effect without samples cannot be encoded.
    pub fn to_bytes(&self) -> (r: Result<Vec<u8>, DvFileError>)
        requires
            self.wf(),
            INDEX_TABLE_SIZE + payload(self.spec_effects(), MAX_EFFECTS as int).len() <= u32::MAX,
        ensures
            !all_encodable(self.spec_effects()) ==> (r matches Err(e) && is_empty_pcm_error(e)),
            all_encodable(self.spec_effects()) ==> (r matches Ok(b) && b@ == built_bytes(
                self.spec_effects(),
            )),
    {
        let ghost effects = self.spec_effects();
        let ghost table = built_table(effects);
        let mut buffer = filled(0, INDEX_TABLE_SIZE);
        let ghost zeros = buffer@;
        let mut offsets: Vec<u32> = Vec::new();
        let mut current: u32 = INDEX_TABLE_SIZE as u32;
        let mut id: usize = 0;
        while id < MAX_EFFECTS
            invariant
                id <= MAX_EFFECTS,
                effects == self.spec_effects(),
                self.wf(),
                effects.len() == MAX_EFFECTS,
                table == built_table(effects),
                zeros.len() == INDEX_TABLE_SIZE,
                INDEX_TABLE_SIZE + payload(effects, MAX_EFFECTS as int).len() <= u32::MAX,
                buffer@ == zeros + payload(effects, id as int),
                current == INDEX_TABLE_SIZE + payload(effects, id as int).len(),
                offsets@ == table.subrange(0, id as int),
                forall|j: int| 0 <= j < id ==> (#[trigger] effects[j] matches Some(s) ==> s.pcm_data@.len() > 0),
            decreases MAX_EFFECTS - id,
        {
            proof {
                lemma_payload_grows(effects, id + 1, MAX_EFFECTS as int);
            }
            match self.effects.get(&id) {
                Some(sound) => {
                    let data = match sound.to_bytes() {
                        Ok(d) => d,
                        Err(e) => {
                            return Err(e);
                        },
                    };
                    offsets.push(current);
                    push_slice(&mut buffer, data.as_slice());
                    current = current + data.len() as u32;
                },
                None => {
                    offsets.push(0);
                },
            }
            assert(buffer@ =~= zeros + payload(effects, id + 1));
            assert(offsets@ =~= table.subrange(0, id + 1));
            id = id + 1;
        }
        assert(offsets@ =~= table);
        let mut i: usize = 0;
        while i < MAX_EFFECTS
            invariant
                i <= MAX_EFFECTS,
                offsets@ == table,
                table.len() == MAX_EFFECTS,
                zeros == Seq::new(INDEX_TABLE_SIZE as nat, |k: int| 0u8),
                buffer@ == index_bytes(table.subrange(0, i as int)) + zeros.subrange(
                    4 * i,
                    INDEX_TABLE_SIZE as int,
                ) + payload(effects, MAX_EFFECTS as int),
            decreases MAX_EFFECTS - i,
        {
            let mut entry: Vec<u8> = Vec::new();
            push_u32(&mut entry, offsets[i]);
            write_at(&mut buffer, 4 * i, entry.as_slice());
            assert(index_bytes(table.subrange(0, i + 1)) =~= index_bytes(table.subrange(0, i as int))
                + u32_bytes(table[i as int]));
            assert(buffer@ =~= index_bytes(table.subrange(0, i + 1)) + zeros.subrange(
                4 * (i + 1),
                INDEX_TABLE_SIZE as int,
            ) + payload(effects, MAX_EFFECTS as int));
            i = i + 1;
        }
        assert(table.subrange(0, MAX_EFFECTS as int) =~= table);
        assert(buffer@ =~= built_bytes(effects));
        Ok(buffer)
    }
}

impl Default for FileBuilder {
    fn default() -> (r: Self)
        ensures
            r.wf(),
            r.spec_effects() == Seq::new(MAX_EFFECTS as nat, |i: int| None::<DecodedSound>),
    {
        FileBuilder::new()
    }
}

proof fn lemma_next_offset(effects: Seq<Option<DecodedSound>>, j: int)
    requires
        effects.len() == MAX_EFFECTS,
        0 <= j <= MAX_EFFECTS,
        INDEX_TABLE_SIZE + payload(effects, MAX_EFFECTS as int).len() <= u32::MAX,
    ensures
        next_set_offset(built_table(effects), j) == 0 ==> payload(effects, j) == payload(
            effects,
            MAX_EFFECTS as int,
        ),
        next_set_offset(built_table(effects), j) != 0 ==> next_set_offset(built_table(effects), j)
            == INDEX_TABLE_SIZE + payload(effects, j).len(),
    decreases MAX_EFFECTS - j,
{
    let t = built_table(effects);
    if j < MAX_EFFECTS {
        lemma_payload_grows(effects, j, MAX_EFFECTS as int);
        if effects[j] is Some {
            assert(t[j] == INDEX_TABLE_SIZE + payload(effects, j).len());
        } else {
            assert(t[j] == 0);
            lemma_next_offset(effects, j + 1);
            assert(payload(effects, j + 1) =~= payload(effects, j));
        }
    }
}

/// Reading back a built bank: the table read from its first bytes is the
/// built table; an index has an offset exactly when an effect was put
/// there; and the bytes from an effect's offset to where it ends (the next
/// set offset, or the end of the data) are that effect's encoded bytes.
pub proof fn lemma_built_bank_read_back(effects: Seq<Option<DecodedSound>>)
    requires
        effects.len() == MAX_EFFECTS,
        INDEX_TABLE_SIZE + payload(effects, MAX_EFFECTS as int).len() <= u32::MAX,
    ensures
        forall|i: int|
            0 <= i < MAX_EFFECTS ==> #[trigger] u32_at(built_bytes(effects), 4 * i) == built_table(
                effects,
            )[i],
        forall|i: int|
            0 <= i < MAX_EFFECTS ==> (#[trigger] built_table(effects)[i] != 0 <==> effects[i] is Some),
        forall|i: int|
            0 <= i < MAX_EFFECTS && #[trigger] effects[i] is Some ==> {
                let b = built_bytes(effects);
                let t = built_table(effects);
                &&& has_span(t, b.len() as int, i)
                &&& b.subrange(t[i] as int, effect_end(t, b.len() as int, i) as int) == sound_bytes(
                    effects[i]->0,
                )
            },
{
    let b = built_bytes(effects);
    let t = built_table(effects);
    let ib = index_bytes(t);
    let total = payload(effects, MAX_EFFECTS as int);
    assert forall|i: int| 0 <= i < MAX_EFFECTS implies #[trigger] u32_at(b, 4 * i) == t[i] by {
        assert(b.subrange(4 * i, 4 * i + 4) =~= u32_bytes(t[i])) by {
            assert forall|k: int| 0 <= k < 4 implies b[4 * i + k] == u32_bytes(t[i])[k] by {
                assert(b[4 * i + k] == ib[4 * i + k]);
                assert((4 * i + k) / 4 == i && (4 * i + k) % 4 == k);
            }
        }
        lemma_u32_roundtrip(t[i], b, 4 * i);
    }
    assert forall|i: int| 0 <= i < MAX_EFFECTS implies (#[trigger] t[i] != 0 <==> effects[i] is Some) by {
        lemma_payload_grows(effects, i, MAX_EFFECTS as int);
    }
    assert forall|i: int| 0 <= i < MAX_EFFECTS && #[trigger] effects[i] is Some implies {
        &&& has_span(t, b.len() as int, i)
        &&& b.subrange(t[i] as int, effect_end(t, b.len() as int, i) as int) == sound_bytes(
            effects[i]->0,
        )
    } by {
        let s = effects[i]->0;
        lemma_payload_grows(effects, i, MAX_EFFECTS as int);
        lemma_payload_grows(effects, i + 1, MAX_EFFECTS as int);
        lemma_next_offset(effects, i + 1);
        let p0 = payload(effects, i);
        let p1 = payload(effects, i + 1);
        assert(p1 == p0 + sound_bytes(s));
        assert(t[i] == INDEX_TABLE_SIZE + p0.len());
        assert(effect_end(t, b.len() as int, i) == INDEX_TABLE_SIZE + p1.len());
        assert(b.subrange(t[i] as int, effect_end(t, b.len() as int, i) as int) =~= sound_bytes(s))
            by {
            assert(total.subrange(0, p1.len() as int) == p1);
            assert forall|k: int| 0 <= k < sound_bytes(s).len() implies b[t[i] + k] == sound_bytes(
                s,
            )[k] by {
                assert(b[t[i] + k] == total[p0.len() + k]);
                assert(total[p0.len() + k] == p1[p0.len() + k]);
            }
        }
    }
}

} // verus!

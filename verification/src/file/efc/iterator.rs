//! Walking the effects of a sound bank, with or without decoding them.

use vstd::prelude::*;

use super::super::error::DvFileError;
use super::constants::MAX_EFFECTS;
use super::file::{effects_from, File};
use super::types::{DecodedSound, EffectInfo, SoundDataHeader};

verus! {

/// Iterator over the effects present in an index table, without decoding.
pub struct EffectInfoIter<'a> {
    index_table: &'a [u32; MAX_EFFECTS],
    current_id: usize,
}

impl<'a> EffectInfoIter<'a> {
    /// The index table being walked.
    pub closed spec fn spec_table(&self) -> Seq<u32> {
        self.index_table@
    }

    /// The next index to look at.
    pub closed spec fn spec_current_id(&self) -> usize {
        self.current_id
    }

    /// An iterator from the first index.
    pub(crate) fn new(index_table: &'a [u32; MAX_EFFECTS]) -> (r: Self)
        ensures
            r.spec_table() == index_table@,
            r.spec_current_id() == 0,
    {
        EffectInfoIter { index_table, current_id: 0 }
    }

    /// The next effect present, if any.
    pub fn next(&mut self) -> (r: Option<EffectInfo>)
        ensures
            final(self).spec_table() == old(self).spec_table(),
            match r {
                Some(info) => effects_from(old(self).spec_table(), old(self).spec_current_id() as int)
                    == seq![info] + effects_from(
                    final(self).spec_table(),
                    final(self).spec_current_id() as int,
                ),
                None => effects_from(old(self).spec_table(), old(self).spec_current_id() as int)
                    == Seq::<EffectInfo>::empty() && final(self).spec_current_id() == if old(self).spec_current_id() < MAX_EFFECTS {
                    MAX_EFFECTS
                } else {
                    old(self).spec_current_id() as usize
                },
            },
    {
        let ghost t = self.index_table@;
        let ghost start = self.current_id as int;
        while self.current_id < MAX_EFFECTS
            invariant
                t == self.index_table@,
                t.len() == MAX_EFFECTS,
                start <= self.current_id,
                self.current_id <= MAX_EFFECTS || self.current_id == start,
                start == old(self).current_id,
                self.index_table == old(self).index_table,
                effects_from(t, start) == effects_from(t, self.current_id as int),
            decreases MAX_EFFECTS - self.current_id,
        {
            let id = self.current_id;
            let offset = self.index_table[id];
            self.current_id = self.current_id + 1;
            if offset != 0 {
                return Some(
                    EffectInfo {
                        id,
                        offset,
                        header: SoundDataHeader { sound_type: 0, unknown_1: 0, priority: 0 },
                    },
                );
            }
        }
        None
    }
}

/// Iterator that decodes the effects present in a bank, in index order.
pub struct DecodedSoundIter<'a> {
    file: &'a File,
    current_id: usize,
}

impl<'a> DecodedSoundIter<'a> {
    /// The bank being walked.
    pub closed spec fn spec_file(&self) -> File {
        *self.file
    }

    /// The next index to look at.
    pub closed spec fn spec_current_id(&self) -> usize {
        self.current_id
    }

    /// An iterator from the first index.
    pub(crate) fn new(file: &'a File) -> (r: Self)
        ensures
            r.spec_file() == *file,
            r.spec_current_id() == 0,
    {
        DecodedSoundIter { file, current_id: 0 }
    }

    /// Decodes the next effect present, if any.
    pub fn next(&mut self) -> (r: Option<Result<DecodedSound, DvFileError>>)
        ensures
            final(self).spec_file() == old(self).spec_file(),
            match r {
                Some(res) => {
                    let id = final(self).spec_current_id() - 1;
                    let t = old(self).spec_file().spec_table();
                    &&& old(self).spec_current_id() <= id < MAX_EFFECTS
                    &&& t[id] != 0
                    &&& forall|j: int| old(self).spec_current_id() <= j < id ==> t[j] == 0
                    &&& old(self).spec_file().extract_ensures(id, res)
                },
                None => {
                    &&& forall|j: int|
                        old(self).spec_current_id() <= j < MAX_EFFECTS ==> old(self).spec_file().spec_table()[j] == 0
                    &&& final(self).spec_current_id() == if old(self).spec_current_id()
                        < MAX_EFFECTS {
                        MAX_EFFECTS
                    } else {
                        old(self).spec_current_id() as usize
                    }
                },
            },
    {
        let ghost start = self.current_id as int;
        proof {
            self.file.lemma_table_len();
        }
        while self.current_id < MAX_EFFECTS
            invariant
                self.file == old(self).file,
                self.file.spec_table().len() == MAX_EFFECTS,
                start <= self.current_id,
                self.current_id <= MAX_EFFECTS || self.current_id == start,
                start == old(self).current_id,
                forall|j: int| start <= j < self.current_id ==> self.file.spec_table()[j] == 0,
            decreases MAX_EFFECTS - self.current_id,
        {
            let id = self.current_id;
            self.current_id = self.current_id + 1;
            if self.file.has_effect(id) {
                return Some(self.file.extract(id));
            }
        }
        None
    }
}

} // verus!

//! A seekable source of bytes held in memory: the data of a file together
//! with a read position, as the file formats read them.

use vstd::prelude::*;

verus! {

/// Bytes with a read position; the position may lie past the end.
#[derive(Debug, Clone, PartialEq, Eq, Hash)]
pub struct ByteReader {
    data: Vec<u8>,
    pos: u64,
}

impl ByteReader {
    /// The bytes.
    pub closed spec fn spec_data(&self) -> Seq<u8> {
        self.data@
    }

    /// The read position.
    pub closed spec fn spec_pos(&self) -> u64 {
        self.pos
    }

    /// Whether `n` bytes can be read at the current position.
    pub open spec fn can_read(&self, n: int) -> bool {
        self.spec_pos() + n <= self.spec_data().len()
    }

    /// The bytes from the read position to the end (none when the position
    /// lies past the end).
    pub open spec fn rest(&self) -> Seq<u8> {
        if self.spec_pos() <= self.spec_data().len() {
            self.spec_data().subrange(self.spec_pos() as int, self.spec_data().len() as int)
        } else {
            Seq::empty()
        }
    }

    /// The number of bytes after the read position.
    pub open spec fn spec_remaining(&self) -> int {
        if self.spec_pos() <= self.spec_data().len() {
            self.spec_data().len() - self.spec_pos()
        } else {
            0
        }
    }

    /// The number of bytes after the read position.
    pub fn remaining(&self) -> (n: usize)
        ensures
            n == self.spec_remaining(),
    {
        let len = self.data.len();
        if self.pos <= len as u64 {
            len - self.pos as usize
        } else {
            0
        }
    }

    /// A reader at the start of `data`.
    pub fn new(data: Vec<u8>) -> (r: Self)
        ensures
            r.spec_data() == data@,
            r.spec_pos() == 0,
    {
        ByteReader { data, pos: 0 }
    }

    /// The number of bytes.
    pub fn len(&self) -> (r: usize)
        ensures
            r == self.spec_data().len(),
    {
        self.data.len()
    }

    /// Whether there are no bytes.
    pub fn is_empty(&self) -> (r: bool)
        ensures
            r == (self.spec_data().len() == 0),
    {
        self.data.len() == 0
    }

    /// The read position.
    pub fn position(&self) -> (r: u64)
        ensures
            r == self.spec_pos(),
    {
        self.pos
    }

    /// The bytes.
    pub fn get_ref(&self) -> (r: &[u8])
        ensures
            r@ == self.spec_data(),
    {
        self.data.as_slice()
    }

    /// Moves the read position to `pos` bytes from the start.
    pub fn seek_start(&mut self, pos: u64) -> (r: u64)
        ensures
            final(self).spec_data() == old(self).spec_data(),
            final(self).spec_pos() == pos,
            r == pos,
    {
        self.pos = pos;
        pos
    }

    /// Moves the read position to the end and returns it.
    pub fn seek_end(&mut self) -> (r: u64)
        ensures
            final(self).spec_data() == old(self).spec_data(),
            final(self).spec_pos() == old(self).spec_data().len(),
            r == old(self).spec_data().len(),
    {
        let n = self.data.len() as u64;
        self.pos = n;
        n
    }

    /// Reads exactly `n` bytes at the position and moves past them; when
    /// fewer remain, returns `None` and moves to the end.
    pub fn read_exact(&mut self, n: usize) -> (r: Option<Vec<u8>>)
        ensures
            final(self).spec_data() == old(self).spec_data(),
            old(self).can_read(n as int) ==> (r matches Some(v) && v@ == old(
                self,
            ).spec_data().subrange(old(self).spec_pos() as int, old(self).spec_pos() + n))
                && final(self).spec_pos() == old(self).spec_pos() + n,
            !old(self).can_read(n as int) ==> r is None && final(self).spec_pos() == old(
                self,
            ).spec_data().len(),
    {
        let len = self.data.len();
        if self.pos <= len as u64 && (n as u64) <= (len as u64) - self.pos {
            let start = self.pos as usize;
            let out = super::le::copy_range(self.data.as_slice(), start, start + n);
            self.pos = self.pos + n as u64;
            Some(out)
        } else {
            self.pos = len as u64;
            None
        }
    }

    /// The bytes from the position to the end (none when the position lies
    /// past the end); moves to the end.
    pub fn read_to_end(&mut self) -> (r: Vec<u8>)
        ensures
            final(self).spec_data() == old(self).spec_data(),
            r@ == if old(self).spec_pos() <= old(self).spec_data().len() {
                old(self).spec_data().subrange(
                    old(self).spec_pos() as int,
                    old(self).spec_data().len() as int,
                )
            } else {
                Seq::<u8>::empty()
            },
            final(self).spec_pos() == if old(self).spec_pos() <= old(self).spec_data().len() {
                old(self).spec_data().len() as u64
            } else {
                old(self).spec_pos()
            },
    {
        let len = self.data.len();
        if self.pos <= len as u64 {
            let start = self.pos as usize;
            let out = super::le::copy_range(self.data.as_slice(), start, len);
            self.pos = len as u64;
            out
        } else {
            Vec::new()
        }
    }

    /// The bytes, giving up the reader.
    pub fn into_inner(self) -> (r: Vec<u8>)
        ensures
            r@ == self.spec_data(),
    {
        self.data
    }
}

} // verus!

//! A byte buffer with a movable cursor: bytes go where the cursor stands,
//! and a buffer that ends before them is continued with zero bytes.

use vstd::prelude::*;
use crate::binary::{BinaryWriter, WriterState};
use crate::encoding::{zeros, placed, padding_for, overwrite};

verus! {

/// `data`, continued with zero bytes up to `len` where it is shorter.
pub open spec fn extended(data: Seq<u8>, len: nat) -> Seq<u8> {
    if data.len() >= len {
        data
    } else {
        data + zeros((len - data.len()) as nat)
    }
}

/// A byte buffer with a cursor that may stand anywhere; alignment counts
/// from the start of the section that was marked last.
pub struct FileWriter {
    pub data: Vec<u8>,
    pub current_position: usize,
    pub section_start: usize,
}

impl Default for FileWriter {
    fn default() -> (r: Self)
        ensures
            r.data@ == Seq::<u8>::empty(),
            r.current_position == 0,
            r.section_start == 0,
    {
        Self { data: Vec::new(), current_position: 0, section_start: 0 }
    }
}

impl FileWriter {
    /// Moves the cursor to `pos`; the stored bytes stay as they are.
    pub fn set_pos(&mut self, pos: usize)
        ensures
            final(self).data@ == old(self).data@,
            final(self).current_position == pos,
            final(self).section_start == old(self).section_start,
    {
        self.current_position = pos;
    }

    /// Makes the cursor the origin of alignment and of [`FileWriter::current_offset`].
    pub fn mark_section_start(&mut self)
        ensures
            final(self).data@ == old(self).data@,
            final(self).current_position == old(self).current_position,
            final(self).section_start == old(self).current_position,
    {
        self.section_start = self.current_position;
    }

    /// The cursor's distance from the start of the section.
    pub fn current_offset(&self) -> (r: usize)
        requires
            self.section_start <= self.current_position,
        ensures
            r == self.current_position - self.section_start,
    {
        self.current_position - self.section_start
    }

    /// Lays `data` down at `index`, wherever the cursor stands; a buffer that
    /// ends before `index` is continued with zero bytes first.
    pub fn store(&mut self, index: usize, data: &[u8])
        requires
            index + data@.len() <= usize::MAX,
        ensures
            final(self).data@ == placed(old(self).data@, index as nat, data@),
            final(self).current_position == old(self).current_position,
            final(self).section_start == old(self).section_start,
    {
        let n = data.len();
        if index + n > self.data.len() {
            self.data.resize(index + n, 0);
        }
        proof {
            reveal(placed);
            let stored = old(self).data@;
            let padded = self.data@;
            if index + n > stored.len() {
                assert forall|j: int| 0 <= j < stored.len() implies padded[j] == stored[j] by {
                    assert(padded.subrange(0, stored.len() as int)[j] == padded[j]);
                }
            }
            assert(placed(padded, index as nat, data@) =~= placed(stored, index as nat, data@));
        }
        overwrite(&mut self.data, index, data);
    }
}

impl BinaryWriter for FileWriter {
    /// The content is what the buffer stores, continued with zero bytes up to the cursor.
    open spec fn state(&self) -> WriterState {
        WriterState {
            content: extended(self.data@, self.current_position as nat),
            cursor: self.current_position as nat,
            origin: self.section_start as nat,
            limit: Some(usize::MAX as nat),
        }
    }

    open spec fn wf(&self) -> bool {
        true
    }

    proof fn lemma_cursor_in_content(&self) {
    }

    fn pos(&self) -> (p: usize) {
        self.current_position
    }

    fn reserve(&mut self, amount: usize)
        ensures
            final(self).data@ == extended(
                old(self).data@,
                (old(self).current_position + amount) as nat,
            ),
    {
        proof {
            reveal(placed);
            assert(extended(
                placed(self.data@, (self.current_position + amount) as nat, Seq::empty()),
                (self.current_position + amount) as nat,
            ) =~= placed(
                extended(self.data@, self.current_position as nat),
                (self.current_position + amount) as nat,
                Seq::empty(),
            ));
        }
        let nothing: [u8; 0] = [];
        assert(nothing@ =~= Seq::<u8>::empty());
        self.store(self.current_position + amount, nothing.as_slice());
        self.current_position += amount;
        proof {
            reveal(placed);
            assert(self.data@ =~= extended(old(self).data@, self.current_position as nat));
        }
    }

    fn write_bytes(&mut self, data: &[u8])
        ensures
            final(self).data@ == placed(old(self).data@, old(self).current_position as nat, data@),
            final(self).data@.len() >= final(self).current_position,
    {
        proof {
            reveal(placed);
            assert(placed(self.data@, self.current_position as nat, data@) =~= placed(
                extended(self.data@, self.current_position as nat),
                self.current_position as nat,
                data@,
            ));
        }
        self.store(self.current_position, data);
        self.current_position += data.len();
    }

    fn write_bytes_at(&mut self, index: usize, data: &[u8])
        ensures
            final(self).data@ == placed(old(self).data@, index as nat, data@),
    {
        proof {
            reveal(placed);
            assert(extended(
                placed(self.data@, index as nat, data@),
                self.current_position as nat,
            ) =~= placed(extended(self.data@, self.current_position as nat), index as nat, data@));
        }
        self.store(index, data);
    }

    fn align_to(&mut self, i: usize)
        ensures
            final(self).data@ == extended(old(self).data@, final(self).current_position as nat),
    {
        let pad = padding_for(self.current_position - self.section_start, i);
        self.reserve(pad);
    }
}

} // verus!

//! The writes of one epoch that are not yet part of a committed version.

use crate::value::{entry_views, Entry, EntryView};
use vstd::prelude::*;

verus! {

/// The writes of one epoch, in the order they were made.
#[derive(Debug)]
pub struct SharedBuffer {
    epoch: u64,
    entries: Vec<Entry>,
}

/// What a shared buffer holds.
pub struct SharedBufferView {
    /// The epoch the buffer was created for.
    pub epoch: u64,
    /// The writes, in the order they were made.
    pub entries: Seq<EntryView>,
}

impl View for SharedBuffer {
    type V = SharedBufferView;

    closed spec fn view(&self) -> SharedBufferView {
        SharedBufferView { epoch: self.epoch, entries: entry_views(self.entries@) }
    }
}

impl SharedBuffer {
    /// A buffer without writes for `epoch`.
    pub fn new(epoch: u64) -> (b: SharedBuffer)
        ensures
            b@ == (SharedBufferView { epoch, entries: Seq::empty() }),
    {
        let b = SharedBuffer { epoch, entries: Vec::new() };
        assert(b@.entries =~= Seq::<EntryView>::empty());
        b
    }

    /// The epoch the buffer was created for.
    pub fn epoch(&self) -> (e: u64)
        ensures
            e == self@.epoch,
    {
        self.epoch
    }

    /// Number of writes.
    pub fn len(&self) -> (n: usize)
        ensures
            n == self@.entries.len(),
    {
        self.entries.len()
    }

    /// Whether nothing was written.
    pub fn is_empty(&self) -> (b: bool)
        ensures
            b == (self@.entries.len() == 0),
    {
        self.entries.len() == 0
    }

    /// Adds a write.
    pub fn write(&mut self, entry: Entry)
        ensures
            final(self)@ == (SharedBufferView {
                epoch: old(self)@.epoch,
                entries: old(self)@.entries.push(entry@),
            }),
    {
        self.entries.push(entry);
        assert(entry_views(self.entries@) =~= entry_views(old(self).entries@).push(entry@));
    }
}

impl Clone for SharedBuffer {
    fn clone(&self) -> (b: SharedBuffer)
        ensures
            b@ == self@,
    {
        let mut entries: Vec<Entry> = Vec::new();
        let mut i: usize = 0;
        while i < self.entries.len()
            invariant
                i <= self.entries@.len(),
                entry_views(entries@) == entry_views(self.entries@).subrange(0, i as int),
            decreases self.entries@.len() - i,
        {
            let ghost before = entry_views(entries@);
            entries.push(self.entries[i].clone());
            assert(entry_views(entries@) =~= before.push(self.entries@[i as int]@));
            assert(entry_views(self.entries@).subrange(0, i + 1) =~= entry_views(
                self.entries@,
            ).subrange(0, i as int).push(self.entries@[i as int]@));
            i += 1;
        }
        assert(entry_views(self.entries@).subrange(0, i as int) =~= entry_views(self.entries@));
        SharedBuffer { epoch: self.epoch, entries }
    }
}

} // verus!

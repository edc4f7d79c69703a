//! Sorted tables held in memory: their metadata and the builder that
//! collects the entries of one table.

use crate::error::{HummockError, HummockResult};
use crate::iterator::{spec_full_keys, spec_sorted};
use crate::key::{
    full_key_lt, get_table_id, is_full_key, lemma_full_key_transitive, spec_table_id, KeyOrder,
    VersionedComparator,
};
use crate::value::{copy_bytes, entry_views, spec_value_len, Entry, EntryView, HummockValue};
use vstd::prelude::*;

verus! {

/// Size taken for one entry when nothing better is known.
pub const DEFAULT_ENTRY_SIZE: usize = 1024;

/// How the blocks of a table are compressed.
#[derive(Clone, Copy, Debug, PartialEq, Eq, Structural)]
pub enum CompressionAlgorithm {
    Uncompressed,
    Lz4,
    Zstd,
}

/// Whether reads and writes of a table fill the block cache.
#[derive(Clone, Copy, Debug, PartialEq, Eq, Structural)]
pub enum CachePolicy {
    Fill,
    NotFill,
}

/// Settings of a table builder.
#[derive(Clone, Copy, Debug, PartialEq, Eq, Structural)]
pub struct SstableBuilderOptions {
    /// Size in bytes at which a table counts as full.
    pub capacity: usize,
    /// Size in bytes at which a block counts as full.
    pub block_capacity: usize,
    /// Number of keys between two restart points of a block.
    pub restart_interval: usize,
    /// Expected size in bytes of the table's bloom filter.
    pub estimate_bloom_filter_capacity: usize,
    /// How the blocks are compressed.
    pub compression_algorithm: CompressionAlgorithm,
}

/// What a finished table records about itself.
#[derive(Debug)]
pub struct SstableMeta {
    /// The first key of the table; empty for a table without entries.
    pub smallest_key: Vec<u8>,
    /// The last key of the table; empty for a table without entries.
    pub largest_key: Vec<u8>,
    /// Number of entries.
    pub key_count: usize,
    /// Size in bytes of keys and payloads together.
    pub estimated_size: usize,
}

/// Bytes that one entry adds to a table: its key and its payload.
pub open spec fn spec_entry_len(e: EntryView) -> nat {
    e.key.len() + spec_value_len(e.value)
}

/// Size in bytes of the keys and payloads of a table, capped at the
/// largest `usize`.
pub open spec fn spec_data_len(entries: Seq<EntryView>) -> nat
    decreases entries.len(),
{
    if entries.len() == 0 {
        0
    } else {
        let sum = spec_data_len(entries.drop_last()) + spec_entry_len(entries.last());
        if sum > usize::MAX {
            usize::MAX as nat
        } else {
            sum
        }
    }
}

/// The ids of the tables whose keys occur in a table, each run of equal
/// ids listed once, in order of occurrence.
pub open spec fn spec_table_ids(entries: Seq<EntryView>) -> Seq<u32>
    decreases entries.len(),
{
    if entries.len() == 0 {
        Seq::empty()
    } else {
        let before = spec_table_ids(entries.drop_last());
        match spec_table_id(entries.last().key) {
            Some(id) => if before.len() > 0 && before.last() == id {
                before
            } else {
                before.push(id)
            },
            None => before,
        }
    }
}

/// Collects the entries of one table.
pub struct SstableBuilder {
    sstable_id: u64,
    options: SstableBuilderOptions,
    entries: Vec<Entry>,
    data_len: usize,
    table_ids: Vec<u32>,
}

impl View for SstableBuilder {
    type V = Seq<EntryView>;

    /// The entries added so far, in order.
    closed spec fn view(&self) -> Seq<EntryView> {
        entry_views(self.entries@)
    }
}

impl SstableBuilder {
    /// The builder's bookkeeping agrees with the entries it holds.
    pub closed spec fn wf(&self) -> bool {
        &&& self.data_len == spec_data_len(entry_views(self.entries@))
        &&& self.table_ids@ == spec_table_ids(entry_views(self.entries@))
    }

    /// The id of the table being built.
    pub closed spec fn id(&self) -> u64 {
        self.sstable_id
    }

    /// The settings the builder was made with.
    pub closed spec fn spec_options(&self) -> SstableBuilderOptions {
        self.options
    }

    /// Whether the table has reached the capacity it was made with.
    pub open spec fn spec_reach_capacity(&self) -> bool {
        spec_data_len(self@) >= self.spec_options().capacity
    }

    /// A builder without entries for the table `sstable_id`.
    pub fn new(sstable_id: u64, options: SstableBuilderOptions) -> (b: SstableBuilder)
        ensures
            b.id() == sstable_id,
            b.spec_options() == options,
            b@ == Seq::<EntryView>::empty(),
            b.wf(),
    {
        let b = SstableBuilder {
            sstable_id,
            options,
            entries: Vec::new(),
            data_len: 0,
            table_ids: Vec::new(),
        };
        assert(b@ =~= Seq::<EntryView>::empty());
        b
    }

    /// The id of the table being built.
    pub fn sstable_id(&self) -> (id: u64)
        ensures
            id == self.id(),
    {
        self.sstable_id
    }

    /// The settings the builder was made with.
    pub fn options(&self) -> (o: SstableBuilderOptions)
        ensures
            o == self.spec_options(),
    {
        self.options
    }

    /// Appends an entry.
    pub fn add(&mut self, full_key: &[u8], value: HummockValue)
        requires
            old(self).wf(),
        ensures
            final(self).wf(),
            final(self)@ == old(self)@.push(EntryView { key: full_key@, value: value@ }),
            final(self).id() == old(self).id(),
            final(self).spec_options() == old(self).spec_options(),
    {
        let ghost before = entry_views(self.entries@);
        let entry = Entry { key: copy_bytes(full_key), value };
        let added = full_key.len().saturating_add(entry.value.encoded_len());
        let new_len = self.data_len.saturating_add(added);
        let table_id = get_table_id(full_key);
        let n = self.table_ids.len();
        let push_id = match table_id {
            Some(id) => n == 0 || self.table_ids[n - 1] != id,
            None => false,
        };
        self.entries.push(entry);
        self.data_len = new_len;
        if push_id {
            self.table_ids.push(table_id.unwrap());
        }
        proof {
            let after = entry_views(self.entries@);
            assert(after =~= before.push(entry@));
            assert(after.drop_last() =~= before);
        }
    }

    /// Number of entries added so far.
    pub fn len(&self) -> (n: usize)
        ensures
            n == self@.len(),
    {
        self.entries.len()
    }

    /// Whether no entry has been added.
    pub fn is_empty(&self) -> (b: bool)
        ensures
            b == (self@.len() == 0),
    {
        self.entries.len() == 0
    }

    /// Size in bytes of the keys and payloads added so far.
    pub fn approximate_len(&self) -> (n: usize)
        requires
            self.wf(),
        ensures
            n == spec_data_len(self@),
    {
        self.data_len
    }

    /// Whether the table has reached the capacity it was made with.
    pub fn reach_capacity(&self) -> (full: bool)
        requires
            self.wf(),
        ensures
            full == self.spec_reach_capacity(),
    {
        self.data_len >= self.options.capacity
    }

    /// Ends the table: gives its id, its entries, its metadata and the ids
    /// of the tables whose keys it holds.
    pub fn finish(self) -> (out: (u64, Vec<Entry>, SstableMeta, Vec<u32>))
        requires
            self.wf(),
        ensures
            out.0 == self.id(),
            entry_views(out.1@) == self@,
            spec_meta_of(out.2, self@),
            out.3@ == spec_table_ids(self@),
    {
        let n = self.entries.len();
        let (smallest_key, largest_key) = if n == 0 {
            (Vec::new(), Vec::new())
        } else {
            (
                copy_bytes(self.entries[0].key.as_slice()),
                copy_bytes(self.entries[n - 1].key.as_slice()),
            )
        };
        let meta = SstableMeta {
            smallest_key,
            largest_key,
            key_count: n,
            estimated_size: self.data_len,
        };
        (self.sstable_id, self.entries, meta, self.table_ids)
    }
}

/// Whether `meta` describes a table with the given entries.
pub open spec fn spec_meta_of(meta: SstableMeta, entries: Seq<EntryView>) -> bool {
    &&& meta.key_count == entries.len()
    &&& meta.estimated_size == spec_data_len(entries)
    &&& meta.smallest_key@ == if entries.len() == 0 {
        Seq::<u8>::empty()
    } else {
        entries.first().key
    }
    &&& meta.largest_key@ == if entries.len() == 0 {
        Seq::<u8>::empty()
    } else {
        entries.last().key
    }
}

/// Whether each key of `entries` is below the next one.
pub open spec fn spec_steps_up(entries: Seq<EntryView>) -> bool {
    forall|i: int|
        0 <= i < entries.len() - 1 ==> full_key_lt(
            (#[trigger] entries[i]).key,
            entries[i + 1].key,
        )
}

/// Keys of which each is below the next strictly increase.
pub proof fn lemma_steps_up_sorted(entries: Seq<EntryView>, i: int, j: int)
    requires
        spec_steps_up(entries),
        0 <= i < j < entries.len(),
    ensures
        full_key_lt(entries[i].key, entries[j].key),
    decreases j - i,
{
    if i + 1 < j {
        lemma_steps_up_sorted(entries, i, j - 1);
        assert(full_key_lt(entries[j - 1].key, entries[j - 1 + 1].key));
        lemma_full_key_transitive(entries[i].key, entries[j - 1].key, entries[j].key);
    }
}

/// A stored table: entries with full keys in strictly increasing order.
#[derive(Debug)]
pub struct Sstable {
    id: u64,
    entries: Vec<Entry>,
}

impl View for Sstable {
    type V = Seq<EntryView>;

    /// The entries of the table, in order.
    closed spec fn view(&self) -> Seq<EntryView> {
        entry_views(self.entries@)
    }
}

impl Sstable {
    /// The keys are full keys and strictly increase.
    pub open spec fn wf(&self) -> bool {
        spec_full_keys(self@) && spec_sorted(self@)
    }

    /// The id of the table.
    pub closed spec fn spec_id(&self) -> u64 {
        self.id
    }

    /// Makes a table of `entries`, which must have full keys in strictly
    /// increasing order; any other sequence is refused.
    pub fn new(id: u64, entries: Vec<Entry>) -> (r: HummockResult<Sstable>)
        ensures
            r is Ok <==> spec_full_keys(entry_views(entries@)) && spec_sorted(
                entry_views(entries@),
            ),
            r matches Ok(t) ==> t.wf() && t.spec_id() == id && t@ == entry_views(entries@),
            r is Err ==> r == Err::<Sstable, _>(HummockError::Other),
    {
        let ghost views = entry_views(entries@);
        let mut i: usize = 0;
        while i < entries.len()
            invariant
                i <= entries.len(),
                views == entry_views(entries@),
                forall|k: int| 0 <= k < i ==> is_full_key((#[trigger] views[k]).key),
                forall|k: int|
                    0 <= k < i - 1 ==> full_key_lt((#[trigger] views[k]).key, views[k + 1].key),
            decreases entries.len() - i,
        {
            if entries[i].key.len() < 8 {
                assert(!is_full_key(views[i as int].key));
                return Err(HummockError::Other);
            }
            if i > 0 {
                let o = VersionedComparator::compare_key(
                    entries[i - 1].key.as_slice(),
                    entries[i].key.as_slice(),
                );
                if o != KeyOrder::Less {
                    assert(!full_key_lt(views[i - 1].key, views[i as int].key));
                    return Err(HummockError::Other);
                }
            }
            i += 1;
        }
        proof {
            assert forall|a: int, b: int| 0 <= a < b < views.len() implies full_key_lt(
                (#[trigger] views[a]).key,
                (#[trigger] views[b]).key,
            ) by {
                lemma_steps_up_sorted(views, a, b);
            }
        }
        Ok(Sstable { id, entries })
    }

    /// The id of the table.
    pub fn id(&self) -> (id: u64)
        ensures
            id == self.spec_id(),
    {
        self.id
    }

    /// Number of entries.
    pub fn len(&self) -> (n: usize)
        ensures
            n == self@.len(),
    {
        self.entries.len()
    }

    /// The entry at index `i`.
    pub fn entry(&self, i: usize) -> (e: &Entry)
        requires
            i < self@.len(),
        ensures
            e@ == self@[i as int],
    {
        &self.entries[i]
    }
}

} // verus!

//! Iterators over entries in the versioned key order.

use crate::key::{full_key_lt, is_full_key, lemma_full_key_transitive};
use crate::value::{EntryView, HummockValue};
use vstd::prelude::*;

verus! {

/// Whether the keys of `entries` strictly increase in the versioned order.
pub open spec fn spec_sorted(entries: Seq<EntryView>) -> bool {
    forall|i: int, j: int|
        0 <= i < j < entries.len() ==> full_key_lt(
            (#[trigger] entries[i]).key,
            (#[trigger] entries[j]).key,
        )
}

/// Whether every key of `entries` is long enough to end in an epoch.
pub open spec fn spec_full_keys(entries: Seq<EntryView>) -> bool {
    forall|i: int| 0 <= i < entries.len() ==> is_full_key((#[trigger] entries[i]).key)
}

/// Number of leading entries of `entries` whose key is below `key`.
pub open spec fn spec_seek_index(entries: Seq<EntryView>, key: Seq<u8>) -> nat
    decreases entries.len(),
{
    if entries.len() == 0 || !full_key_lt(entries[0].key, key) {
        0
    } else {
        1 + spec_seek_index(entries.skip(1), key)
    }
}

/// What is left of `entries` from the first key that is not below `key`.
pub open spec fn spec_seek(entries: Seq<EntryView>, key: Seq<u8>) -> Seq<EntryView> {
    entries.skip(spec_seek_index(entries, key) as int)
}

/// Whether no key of `entries` is below `key`.
pub open spec fn spec_not_below(entries: Seq<EntryView>, key: Seq<u8>) -> bool {
    forall|i: int| 0 <= i < entries.len() ==> !full_key_lt((#[trigger] entries[i]).key, key)
}

/// A seek skips no more entries than there are.
pub proof fn lemma_seek_index_bound(entries: Seq<EntryView>, key: Seq<u8>)
    ensures
        spec_seek_index(entries, key) <= entries.len(),
    decreases entries.len(),
{
    if entries.len() > 0 && full_key_lt(entries[0].key, key) {
        lemma_seek_index_bound(entries.skip(1), key);
    }
}

/// What is left of sorted entries is sorted.
pub proof fn lemma_skip_sorted(entries: Seq<EntryView>, n: int)
    requires
        spec_sorted(entries),
        0 <= n <= entries.len(),
    ensures
        spec_sorted(entries.skip(n)),
{
    let rest = entries.skip(n);
    assert forall|i: int, j: int| 0 <= i < j < rest.len() implies full_key_lt(
        (#[trigger] rest[i]).key,
        (#[trigger] rest[j]).key,
    ) by {
        assert(rest[i] == entries[n + i] && rest[j] == entries[n + j]);
    }
}

/// A seek in sorted entries leaves sorted entries of which none is below
/// the key.
pub proof fn lemma_seek_sorted(entries: Seq<EntryView>, key: Seq<u8>)
    requires
        spec_sorted(entries),
    ensures
        spec_sorted(spec_seek(entries, key)),
        spec_not_below(spec_seek(entries, key), key),
    decreases entries.len(),
{
    lemma_seek_index_bound(entries, key);
    let k = spec_seek_index(entries, key) as int;
    lemma_skip_sorted(entries, k);
    let rest = spec_seek(entries, key);
    if entries.len() > 0 && full_key_lt(entries[0].key, key) {
        lemma_skip_sorted(entries, 1);
        lemma_seek_sorted(entries.skip(1), key);
        assert(entries.skip(1).skip(k - 1) =~= rest);
    } else {
        assert(rest =~= entries);
        assert forall|i: int| 0 <= i < rest.len() implies !full_key_lt(
            (#[trigger] rest[i]).key,
            key,
        ) by {
            if i > 0 && full_key_lt(rest[i].key, key) {
                assert(full_key_lt(rest[0].key, rest[i].key));
                lemma_full_key_transitive(rest[0].key, rest[i].key, key);
            }
        }
    }
}

/// Whether two states of an iterator run over the same entries: a rewind
/// or a seek leads both to the same place.
pub open spec fn spec_same_source<I: HummockIterator>(a: I, b: I) -> bool {
    &&& a.rewound() == b.rewound()
    &&& forall|key: Seq<u8>| #[trigger] a.sought(key) == b.sought(key)
}

/// A forward iterator over entries.
pub trait HummockIterator: Sized {
    /// The iterator is in a usable state.
    spec fn wf(&self) -> bool;

    /// The entries still to come, the current one first.
    spec fn remaining(&self) -> Seq<EntryView>;

    /// The entries to come after a rewind.
    spec fn rewound(&self) -> Seq<EntryView>;

    /// The entries to come after a seek to `key`.
    spec fn sought(&self, key: Seq<u8>) -> Seq<EntryView>;

    /// Every key the iterator yields is a full key.
    proof fn lemma_full_keys(&self)
        requires
            self.wf(),
        ensures
            spec_full_keys(self.remaining()),
            spec_full_keys(self.rewound()),
            forall|key: Seq<u8>| spec_full_keys(#[trigger] self.sought(key)),
    ;

    /// Whether the iterator stands on an entry.
    fn is_valid(&self) -> (valid: bool)
        requires
            self.wf(),
        ensures
            valid == (self.remaining().len() > 0),
    ;

    /// The key of the current entry.
    fn key(&self) -> (k: &[u8])
        requires
            self.wf(),
            self.remaining().len() > 0,
        ensures
            k@ == self.remaining()[0].key,
    ;

    /// The value of the current entry.
    fn value(&self) -> (v: &HummockValue)
        requires
            self.wf(),
            self.remaining().len() > 0,
        ensures
            v@ == self.remaining()[0].value,
    ;

    /// Moves to the next entry.
    fn next(&mut self)
        requires
            old(self).wf(),
            old(self).remaining().len() > 0,
        ensures
            final(self).wf(),
            final(self).remaining() == old(self).remaining().skip(1),
            final(self).rewound() == old(self).rewound(),
            forall|k: Seq<u8>| #[trigger] final(self).sought(k) == old(self).sought(k),
    ;

    /// Moves to the first entry.
    fn rewind(&mut self)
        requires
            old(self).wf(),
        ensures
            final(self).wf(),
            final(self).remaining() == old(self).rewound(),
            final(self).rewound() == old(self).rewound(),
            forall|k: Seq<u8>| #[trigger] final(self).sought(k) == old(self).sought(k),
    ;

    /// Moves to the first entry whose key is not below `key`.
    fn seek(&mut self, key: &[u8])
        requires
            old(self).wf(),
            is_full_key(key@),
        ensures
            final(self).wf(),
            final(self).remaining() == old(self).sought(key@),
            final(self).rewound() == old(self).rewound(),
            forall|k: Seq<u8>| #[trigger] final(self).sought(k) == old(self).sought(k),
    ;
}

} // verus!

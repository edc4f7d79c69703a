//! Values and key-value entries.

use vstd::prelude::*;

verus! {

/// A value written at some epoch: either a payload or a tombstone.
#[derive(Debug)]
pub enum HummockValue {
    Put(Vec<u8>),
    Delete,
}

impl View for HummockValue {
    type V = Option<Seq<u8>>;

    /// The payload, or `None` for a tombstone.
    open spec fn view(&self) -> Option<Seq<u8>> {
        match self {
            HummockValue::Put(bytes) => Some(bytes@),
            HummockValue::Delete => None,
        }
    }
}

/// Copies a byte slice into a fresh vector.
pub fn copy_bytes(bytes: &[u8]) -> (copy: Vec<u8>)
    ensures
        copy@ == bytes@,
{
    let mut copy: Vec<u8> = Vec::new();
    let mut i: usize = 0;
    while i < bytes.len()
        invariant
            i <= bytes.len(),
            copy@ == bytes@.subrange(0, i as int),
        decreases bytes.len() - i,
    {
        copy.push(bytes[i]);
        assert(bytes@.subrange(0, i + 1) =~= bytes@.subrange(0, i as int).push(bytes@[i as int]));
        i += 1;
    }
    assert(bytes@.subrange(0, i as int) =~= bytes@);
    copy
}

impl HummockValue {
    /// Builds a payload value holding a copy of `bytes`.
    pub fn put(bytes: &[u8]) -> (v: HummockValue)
        ensures
            v@ == Some(bytes@),
    {
        HummockValue::Put(copy_bytes(bytes))
    }

    /// Builds a tombstone.
    pub fn delete() -> (v: HummockValue)
        ensures
            v@ == None::<Seq<u8>>,
    {
        HummockValue::Delete
    }

    /// Whether this value is a tombstone.
    pub fn is_delete(&self) -> (b: bool)
        ensures
            b == (self@ is None),
    {
        match self {
            HummockValue::Delete => true,
            HummockValue::Put(_) => false,
        }
    }

    /// Number of payload bytes; a tombstone has none.
    pub fn encoded_len(&self) -> (n: usize)
        ensures
            n == spec_value_len(self@),
    {
        match self {
            HummockValue::Delete => 0,
            HummockValue::Put(bytes) => bytes.len(),
        }
    }
}

impl Clone for HummockValue {
    fn clone(&self) -> (v: HummockValue)
        ensures
            v@ == self@,
    {
        match self {
            HummockValue::Delete => HummockValue::Delete,
            HummockValue::Put(bytes) => HummockValue::Put(copy_bytes(bytes.as_slice())),
        }
    }
}

/// Number of payload bytes of a value.
pub open spec fn spec_value_len(v: Option<Seq<u8>>) -> nat {
    match v {
        Some(bytes) => bytes.len(),
        None => 0,
    }
}

/// A full key with the value written under it.
#[derive(Debug)]
pub struct Entry {
    pub key: Vec<u8>,
    pub value: HummockValue,
}

/// What an entry holds: the key bytes and the payload, `None` for a tombstone.
pub struct EntryView {
    pub key: Seq<u8>,
    pub value: Option<Seq<u8>>,
}

impl View for Entry {
    type V = EntryView;

    open spec fn view(&self) -> EntryView {
        EntryView { key: self.key@, value: self.value@ }
    }
}

impl Entry {
    /// Builds an entry from copies of a key and a value.
    pub fn new(key: &[u8], value: &HummockValue) -> (e: Entry)
        ensures
            e@ == (EntryView { key: key@, value: value@ }),
    {
        Entry { key: copy_bytes(key), value: value.clone() }
    }
}

impl Clone for Entry {
    fn clone(&self) -> (e: Entry)
        ensures
            e@ == self@,
    {
        Entry { key: copy_bytes(self.key.as_slice()), value: self.value.clone() }
    }
}

/// The views of a sequence of entries, in order.
pub open spec fn entry_views(entries: Seq<Entry>) -> Seq<EntryView> {
    entries.map_values(|e: Entry| e@)
}

} // verus!

//! The range of keys that one scan covers.

use crate::buffer::bytes_view;
use bytes::Bytes;
use vstd::prelude::*;

verus! {

/// A range of full keys. An empty `left` means no lower end, an empty
/// `right` no upper end.
pub struct KeyRange {
    /// The first key of the range.
    pub left: Bytes,
    /// The first key after the range.
    pub right: Bytes,
    /// Whether the range is marked as unbounded.
    pub inf: bool,
}

impl KeyRange {
    /// The bytes of the lower end.
    pub open spec fn spec_left(&self) -> Seq<u8> {
        bytes_view(self.left)
    }

    /// The bytes of the upper end.
    pub open spec fn spec_right(&self) -> Seq<u8> {
        bytes_view(self.right)
    }

    /// The range from `left` up to `right`, each copied.
    pub fn new(left: &[u8], right: &[u8]) -> (kr: KeyRange)
        ensures
            kr.spec_left() == left@,
            kr.spec_right() == right@,
            !kr.inf,
    {
        KeyRange { left: Bytes::copy_from_slice(left), right: Bytes::copy_from_slice(right), inf: false }
    }

    /// The range without ends.
    pub fn inf() -> (kr: KeyRange)
        ensures
            kr.spec_left().len() == 0,
            kr.spec_right().len() == 0,
            kr.inf,
    {
        let empty: Vec<u8> = Vec::new();
        KeyRange {
            left: Bytes::copy_from_slice(empty.as_slice()),
            right: Bytes::copy_from_slice(empty.as_slice()),
            inf: true,
        }
    }
}

} // verus!

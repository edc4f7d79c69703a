//! Sets of epochs, read off in order.

use vstd::prelude::*;
use vstd::std_specs::btree::increasing_seq;
use vstd::std_specs::cmp::OrdSpec;

verus! {

/// The epochs of `epochs` above `lo` and at most `hi`, oldest first.
pub open spec fn spec_epochs_between(epochs: Set<u64>, lo: int, hi: int) -> Seq<u64>
    decreases hi - lo,
{
    if hi <= lo {
        Seq::empty()
    } else {
        let before = spec_epochs_between(epochs, lo, hi - 1);
        if 0 <= hi <= u64::MAX && epochs.contains(hi as u64) {
            before.push(hi as u64)
        } else {
            before
        }
    }
}

/// Whether the epochs strictly ascend.
pub open spec fn spec_ascending(s: Seq<u64>) -> bool {
    forall|i: int, j: int| 0 <= i < j < s.len() ==> s[i] < s[j]
}

/// Whether `s` lists exactly the epochs of `epochs` above `lo` and at
/// most `hi`.
pub open spec fn spec_lists(s: Seq<u64>, epochs: Set<u64>, lo: int, hi: int) -> bool {
    forall|e: u64| s.contains(e) <==> epochs.contains(e) && lo < e <= hi
}

/// The epochs between two bounds are listed oldest first, each once, and
/// none is left out.
pub proof fn lemma_epochs_between(epochs: Set<u64>, lo: int, hi: int)
    ensures
        spec_ascending(spec_epochs_between(epochs, lo, hi)),
        spec_lists(spec_epochs_between(epochs, lo, hi), epochs, lo, hi),
    decreases hi - lo,
{
    let s = spec_epochs_between(epochs, lo, hi);
    if hi > lo {
        let before = spec_epochs_between(epochs, lo, hi - 1);
        lemma_epochs_between(epochs, lo, hi - 1);
        if 0 <= hi <= u64::MAX && epochs.contains(hi as u64) {
            assert forall|i: int, j: int| 0 <= i < j < s.len() implies s[i] < s[j] by {
                if j == before.len() {
                    assert(before.contains(s[i]));
                }
            }
            assert forall|e: u64| s.contains(e) <==> epochs.contains(e) && lo < e <= hi by {
                if s.contains(e) {
                    let i = choose|i: int| 0 <= i < s.len() && s[i] == e;
                    if i < before.len() {
                        assert(before.contains(e));
                    }
                }
                if epochs.contains(e) && lo < e <= hi {
                    if e == hi {
                        assert(s[before.len() as int] == e);
                    } else {
                        assert(before.contains(e));
                        let i = choose|i: int| 0 <= i < before.len() && before[i] == e;
                        assert(s[i] == e);
                    }
                }
            }
        } else {
            assert forall|e: u64| s.contains(e) <==> epochs.contains(e) && lo < e <= hi by {
            }
        }
    }
}

/// Only one list is ascending and lists exactly the epochs between two
/// bounds.
pub proof fn lemma_epochs_between_unique(s: Seq<u64>, epochs: Set<u64>, lo: int, hi: int)
    requires
        spec_ascending(s),
        spec_lists(s, epochs, lo, hi),
    ensures
        s == spec_epochs_between(epochs, lo, hi),
    decreases hi - lo,
{
    if hi <= lo {
        if s.len() > 0 {
            assert(s.contains(s[0]));
        }
        assert(s =~= Seq::<u64>::empty());
    } else if 0 <= hi <= u64::MAX && epochs.contains(hi as u64) {
        let top = hi as u64;
        assert(s.contains(top));
        let i = choose|i: int| 0 <= i < s.len() && s[i] == top;
        if i < s.len() - 1 {
            assert(s.contains(s[s.len() - 1]));
        }
        let rest = s.drop_last();
        assert forall|e: u64| rest.contains(e) <==> epochs.contains(e) && lo < e <= hi - 1 by {
            if rest.contains(e) {
                let k = choose|k: int| 0 <= k < rest.len() && rest[k] == e;
                assert(s[k] == e);
                assert(s.contains(e));
            }
            if epochs.contains(e) && lo < e <= hi - 1 {
                assert(s.contains(e));
                let k = choose|k: int| 0 <= k < s.len() && s[k] == e;
                assert(rest[k] == e);
            }
        }
        lemma_epochs_between_unique(rest, epochs, lo, hi - 1);
        assert(s =~= rest.push(top));
    } else {
        assert forall|e: u64| s.contains(e) <==> epochs.contains(e) && lo < e <= hi - 1 by {
            if s.contains(e) {
                assert(e != hi);
            }
        }
        lemma_epochs_between_unique(s, epochs, lo, hi - 1);
    }
}

/// Keys that a sorted map yields in order strictly ascend.
pub proof fn lemma_increasing_ascends(keys: Seq<u64>)
    requires
        increasing_seq(keys),
    ensures
        spec_ascending(keys),
{
    broadcast use vstd::std_specs::btree::group_btree_axioms;

    assert(vstd::laws_cmp::obeys_cmp::<u64>());
    assert forall|i: int, j: int| 0 <= i < j < keys.len() implies keys[i] < keys[j] by {
        assert(keys[i].cmp_spec(&keys[j]) is Less);
    }
}

} // verus!

//! What one split writes: the entries the retention rules keep, cut into
//! tables.

use crate::iterator::{spec_full_keys, spec_sorted, HummockIterator};
use crate::key::{lemma_lex_irreflexive, lex_lt, spec_user_key};
use crate::multi_builder::{
    lemma_add_all_apart, lemma_add_all_appends, spec_add_all, spec_concat, spec_no_tables,
    spec_tables, TablesModel,
};
use crate::retention::{
    lemma_added_user_keys_ascend, lemma_retained_sorted, spec_added, spec_retained, RetentionRule,
};
use crate::value::EntryView;
use vstd::prelude::*;

verus! {

/// The entries that a scan of the range starting at `left` reads from
/// `iter`: all of them for an empty `left`, else those from the first key
/// that is not below `left`.
pub open spec fn spec_scan_input<I: HummockIterator>(iter: I, left: Seq<u8>) -> Seq<EntryView> {
    if left.len() > 0 {
        iter.sought(left)
    } else {
        iter.rewound()
    }
}

/// What a scan of `input` leaves in a builder that starts without tables
/// and can open `remaining` of them, and whether every entry could be
/// written.
pub open spec fn spec_split_output(
    rule: RetentionRule,
    input: Seq<EntryView>,
    capacity: usize,
    remaining: nat,
) -> (TablesModel, bool) {
    spec_add_all(
        spec_no_tables(remaining),
        capacity,
        spec_added(rule, input, input.len() as int),
    )
}

/// The tables of a split, one after the other, hold exactly the entries
/// that the retention rules keep, so if the input is sorted their keys
/// strictly increase.
pub proof fn lemma_split_output_sorted(
    rule: RetentionRule,
    input: Seq<EntryView>,
    capacity: usize,
    remaining: nat,
)
    requires
        spec_split_output(rule, input, capacity, remaining).1,
    ensures
        spec_concat(spec_tables(spec_split_output(rule, input, capacity, remaining).0))
            == spec_retained(rule, input),
        spec_sorted(input) ==> spec_sorted(
            spec_concat(spec_tables(spec_split_output(rule, input, capacity, remaining).0)),
        ),
{
    let items = spec_added(rule, input, input.len() as int);
    lemma_add_all_appends(spec_no_tables(remaining), capacity, items);
    assert(spec_tables(spec_no_tables(remaining)) =~= Seq::<Seq<EntryView>>::empty());
    assert(spec_concat(Seq::<Seq<EntryView>>::empty()) + spec_retained(rule, input)
        =~= spec_retained(rule, input));
    if spec_sorted(input) {
        lemma_retained_sorted(rule, input);
    }
}

/// No user key is split over tables: two tables that a split cuts from
/// sorted input have no user key in common.
pub proof fn lemma_split_tables_share_no_user_key(
    rule: RetentionRule,
    input: Seq<EntryView>,
    capacity: usize,
    remaining: nat,
    t1: int,
    t2: int,
    x: int,
    y: int,
)
    requires
        spec_sorted(input),
        spec_full_keys(input),
        spec_split_output(rule, input, capacity, remaining).1,
        ({
            let tables = spec_tables(spec_split_output(rule, input, capacity, remaining).0);
            0 <= t1 < tables.len() && 0 <= t2 < tables.len() && t1 != t2 && 0 <= x
                < tables[t1].len() && 0 <= y < tables[t2].len()
        }),
    ensures
        ({
            let tables = spec_tables(spec_split_output(rule, input, capacity, remaining).0);
            spec_user_key(tables[t1][x].key) != spec_user_key(tables[t2][y].key)
        }),
{
    let items = spec_added(rule, input, input.len() as int);
    lemma_added_user_keys_ascend(rule, input, input.len() as int);
    lemma_add_all_apart(remaining, capacity, items);
    let tables = spec_tables(spec_split_output(rule, input, capacity, remaining).0);
    lemma_lex_irreflexive(spec_user_key(tables[t1][x].key));
    if t1 < t2 {
        assert(lex_lt(
            spec_user_key(tables[t1][x].key),
            spec_user_key(tables[t2][y].key),
        ));
    } else {
        assert(lex_lt(
            spec_user_key(tables[t2][y].key),
            spec_user_key(tables[t1][x].key),
        ));
    }
}

} // verus!

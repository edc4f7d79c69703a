//! An iterator over the tables of one sorted run, one table after the
//! other.

use crate::iterator::{
    lemma_seek_index_bound, lemma_seek_sorted, spec_full_keys, spec_not_below, spec_seek,
    spec_seek_index, spec_sorted, HummockIterator,
};
use crate::key::{
    compare_bytes, full_key_lt, is_full_key, lemma_full_key_order_user_keys, lex_lt, spec_user_key,
    user_key, KeyOrder, VersionedComparator,
};
use crate::multi_builder::{lemma_lex_le_lt, lemma_lex_lt_le, spec_tables_apart};
use crate::sstable::Sstable;
use crate::value::{EntryView, HummockValue};
use std::sync::Arc;
use vstd::prelude::*;

verus! {

/// The entries of each table of a run.
pub open spec fn spec_table_views(tables: Seq<Arc<Sstable>>) -> Seq<Seq<EntryView>> {
    tables.map_values(|t: Arc<Sstable>| (*t)@)
}

/// Whether every table of a run has full keys in strictly increasing order.
pub open spec fn spec_tables_wf(tables: Seq<Arc<Sstable>>) -> bool {
    forall|i: int| 0 <= i < tables.len() ==> (#[trigger] tables[i]).wf()
}

/// The entries of `tables` from entry `e` of table `t` on.
pub open spec fn spec_rest(tables: Seq<Seq<EntryView>>, t: int, e: int) -> Seq<EntryView>
    decreases tables.len() - t,
{
    if t < 0 || t >= tables.len() {
        Seq::empty()
    } else {
        tables[t].skip(e) + spec_rest(tables, t + 1, 0)
    }
}

/// Leaving a table at its end is the same as entering the next one.
pub proof fn lemma_rest_table_end(tables: Seq<Seq<EntryView>>, t: int)
    requires
        0 <= t < tables.len(),
    ensures
        spec_rest(tables, t, tables[t].len() as int) == spec_rest(tables, t + 1, 0),
{
    assert(tables[t].skip(tables[t].len() as int) + spec_rest(tables, t + 1, 0) =~= spec_rest(
        tables,
        t + 1,
        0,
    ));
}

/// Stepping over an entry drops it from what is left.
pub proof fn lemma_rest_step(tables: Seq<Seq<EntryView>>, t: int, e: int)
    requires
        0 <= t < tables.len(),
        0 <= e < tables[t].len(),
    ensures
        spec_rest(tables, t, e).len() > 0,
        spec_rest(tables, t, e)[0] == tables[t][e],
        spec_rest(tables, t, e).skip(1) == spec_rest(tables, t, e + 1),
{
    let tail = spec_rest(tables, t + 1, 0);
    assert((tables[t].skip(e) + tail).skip(1) =~= tables[t].skip(e + 1) + tail);
}

/// What is left of tables with full keys has full keys.
pub proof fn lemma_rest_full_keys(tables: Seq<Seq<EntryView>>, t: int, e: int)
    requires
        forall|i: int| 0 <= i < tables.len() ==> spec_full_keys(#[trigger] tables[i]),
        0 <= t,
        0 <= e,
        t < tables.len() ==> e <= tables[t].len(),
    ensures
        spec_full_keys(spec_rest(tables, t, e)),
    decreases tables.len() - t,
{
    if t < tables.len() {
        lemma_rest_full_keys(tables, t + 1, 0);
        let head = tables[t].skip(e);
        let tail = spec_rest(tables, t + 1, 0);
        assert forall|i: int| 0 <= i < (head + tail).len() implies is_full_key(
            (#[trigger] (head + tail)[i]).key,
        ) by {
            if i < head.len() {
                assert(head[i] == tables[t][e + i]);
            } else {
                assert((head + tail)[i] == tail[i - head.len()]);
            }
        }
    }
}

/// Seeking skips entries below the key and nothing else.
pub proof fn lemma_seek_skips(entries: Seq<EntryView>, key: Seq<u8>)
    requires
        entries.len() > 0,
        full_key_lt(entries[0].key, key),
    ensures
        spec_seek(entries, key) == spec_seek(entries.skip(1), key),
{
    let k = spec_seek_index(entries.skip(1), key) as int;
    lemma_seek_index_bound(entries.skip(1), key);
    assert(entries.skip(1 + k) =~= entries.skip(1).skip(k));
}

/// An entry that is left is an entry of the table at the position or of
/// a later one.
pub proof fn lemma_rest_member(tables: Seq<Seq<EntryView>>, t: int, e: int, i: int) -> (src: (
    int,
    int,
))
    requires
        0 <= t,
        0 <= e,
        t < tables.len() ==> e <= tables[t].len(),
        0 <= i < spec_rest(tables, t, e).len(),
    ensures
        t <= src.0 < tables.len(),
        0 <= src.1 < tables[src.0].len(),
        src.0 == t ==> src.1 == e + i,
        spec_rest(tables, t, e)[i] == tables[src.0][src.1],
    decreases tables.len() - t,
{
    let head = tables[t].skip(e);
    if i < head.len() {
        (t, e + i)
    } else {
        lemma_rest_member(tables, t + 1, 0, i - head.len())
    }
}

/// What is left of sorted tables that lie apart is sorted.
pub proof fn lemma_rest_sorted(tables: Seq<Seq<EntryView>>, t: int, e: int)
    requires
        forall|i: int| 0 <= i < tables.len() ==> spec_sorted(#[trigger] tables[i]),
        spec_tables_apart(tables),
        0 <= t,
        0 <= e,
        t < tables.len() ==> e <= tables[t].len(),
    ensures
        spec_sorted(spec_rest(tables, t, e)),
{
    let rest = spec_rest(tables, t, e);
    assert forall|i: int, j: int| 0 <= i < j < rest.len() implies full_key_lt(
        (#[trigger] rest[i]).key,
        (#[trigger] rest[j]).key,
    ) by {
        lemma_rest_members_ascend(tables, t, e, i, j);
    }
}

/// Of two entries that are left, the later one comes from a later table
/// or from a later place in the same table.
pub proof fn lemma_rest_members_ascend(tables: Seq<Seq<EntryView>>, t: int, e: int, i: int, j: int)
    requires
        0 <= t,
        0 <= e,
        t < tables.len() ==> e <= tables[t].len(),
        0 <= i < j < spec_rest(tables, t, e).len(),
        spec_tables_apart(tables),
        forall|k: int| 0 <= k < tables.len() ==> spec_sorted(#[trigger] tables[k]),
    ensures
        full_key_lt(spec_rest(tables, t, e)[i].key, spec_rest(tables, t, e)[j].key),
    decreases tables.len() - t,
{
    let head = tables[t].skip(e);
    let tail = spec_rest(tables, t + 1, 0);
    if j < head.len() {
        assert(spec_sorted(tables[t]));
        assert(head[i] == tables[t][e + i] && head[j] == tables[t][e + j]);
    } else if i < head.len() {
        let b = lemma_rest_member(tables, t + 1, 0, j - head.len());
        assert(head[i] == tables[t][e + i]);
        assert(crate::key::lex_lt(
            crate::key::spec_user_key(tables[t][e + i].key),
            crate::key::spec_user_key(tables[b.0][b.1].key),
        ));
    } else {
        lemma_rest_members_ascend(tables, t + 1, 0, i - head.len(), j - head.len());
    }
}

/// In a sorted table no user key is below that of the first entry or above
/// that of the last.
pub proof fn lemma_table_user_keys(table: Seq<EntryView>, x: int)
    requires
        spec_sorted(table),
        0 <= x < table.len(),
    ensures
        !lex_lt(spec_user_key(table[x].key), spec_user_key(table[0].key)),
        !lex_lt(spec_user_key(table.last().key), spec_user_key(table[x].key)),
{
    crate::key::lemma_lex_irreflexive(spec_user_key(table[x].key));
    if x > 0 {
        lemma_full_key_order_user_keys(table[0].key, table[x].key);
    }
    if x < table.len() - 1 {
        lemma_full_key_order_user_keys(table[x].key, table.last().key);
    }
}

/// Whether the first `n` tables lie apart.
pub open spec fn spec_apart_up_to(tables: Seq<Seq<EntryView>>, n: int) -> bool {
    forall|t1: int, t2: int, x: int, y: int|
        0 <= t1 < t2 < n && 0 <= x < tables[t1].len() && 0 <= y < tables[t2].len() ==> lex_lt(
            spec_user_key((#[trigger] tables[t1][x]).key),
            spec_user_key((#[trigger] tables[t2][y]).key),
        )
}

/// Whether no entry of the first `n` tables has a user key above
/// `user_key`.
pub open spec fn spec_up_to(tables: Seq<Seq<EntryView>>, n: int, user_key: Seq<u8>) -> bool {
    forall|t: int, x: int|
        0 <= t < n && 0 <= x < tables[t].len() ==> !lex_lt(
            user_key,
            spec_user_key((#[trigger] tables[t][x]).key),
        )
}

/// Whether the tables can be read one after the other as one sorted run:
/// they can if every user key of an earlier table is below every user key
/// of a later one.
pub fn can_concat(tables: &Vec<Arc<Sstable>>) -> (ok: bool)
    requires
        spec_tables_wf(tables@),
    ensures
        ok == spec_tables_apart(spec_table_views(tables@)),
{
    let ghost views = spec_table_views(tables@);
    let mut prev: Option<usize> = None;
    let mut i: usize = 0;
    while i < tables.len()
        invariant
            i <= tables@.len(),
            views == spec_table_views(tables@),
            spec_tables_wf(tables@),
            spec_apart_up_to(views, i as int),
            prev matches Some(p) ==> p < i && views[p as int].len() > 0 && spec_up_to(
                views,
                i as int,
                spec_user_key(views[p as int].last().key),
            ),
            prev is None ==> forall|t: int| 0 <= t < i ==> (#[trigger] views[t]).len() == 0,
        decreases tables@.len() - i,
    {
        let n = tables[i].len();
        assert(tables@[i as int].wf());
        if n > 0 {
            let ghost table = views[i as int];
            let ghost first = spec_user_key(table[0].key);
            let ghost last = spec_user_key(table.last().key);
            if let Some(p) = prev {
                let m = tables[p].len();
                assert(tables@[p as int].wf());
                let before = user_key(tables[p].entry(m - 1).key.as_slice());
                let after = user_key(tables[i].entry(0).key.as_slice());
                if compare_bytes(before, after) != KeyOrder::Less {
                    assert(!lex_lt(
                        spec_user_key(views[p as int][m - 1].key),
                        spec_user_key(views[i as int][0].key),
                    ));
                    return false;
                }
                proof {
                    let prev_last = spec_user_key(views[p as int].last().key);
                    assert forall|t1: int, t2: int, x: int, y: int|
                        0 <= t1 < t2 < i + 1 && 0 <= x < views[t1].len() && 0 <= y
                            < views[t2].len() implies lex_lt(
                        spec_user_key((#[trigger] views[t1][x]).key),
                        spec_user_key((#[trigger] views[t2][y]).key),
                    ) by {
                        if t2 == i {
                            lemma_table_user_keys(table, y);
                            lemma_lex_le_lt(spec_user_key(views[t1][x].key), prev_last, first);
                            lemma_lex_lt_le(
                                spec_user_key(views[t1][x].key),
                                first,
                                spec_user_key(table[y].key),
                            );
                        }
                    }
                    assert forall|t: int, x: int|
                        0 <= t < i + 1 && 0 <= x < views[t].len() implies !lex_lt(
                        last,
                        spec_user_key((#[trigger] views[t][x]).key),
                    ) by {
                        if t == i {
                            lemma_table_user_keys(table, x);
                        } else {
                            lemma_table_user_keys(table, 0);
                            lemma_lex_le_lt(spec_user_key(views[t][x].key), prev_last, first);
                            lemma_lex_lt_le(spec_user_key(views[t][x].key), first, last);
                            crate::key::lemma_lex_total(spec_user_key(views[t][x].key), last);
                        }
                    }
                }
            } else {
                proof {
                    assert forall|t: int, x: int|
                        0 <= t < i + 1 && 0 <= x < views[t].len() implies !lex_lt(
                        last,
                        spec_user_key((#[trigger] views[t][x]).key),
                    ) by {
                        lemma_table_user_keys(table, x);
                    }
                }
            }
            prev = Some(i);
        }
        i += 1;
    }
    true
}

/// Iterates over the tables of one run in the order given.
pub struct ConcatSstableIterator {
    tables: Vec<Arc<Sstable>>,
    cur_table: usize,
    cur_entry: usize,
}

impl ConcatSstableIterator {
    /// The tables of the run.
    pub closed spec fn tables(&self) -> Seq<Arc<Sstable>> {
        self.tables@
    }

    /// The position is the first entry that is left, or the end of the run.
    pub closed spec fn positioned(&self) -> bool {
        &&& self.cur_table <= self.tables@.len()
        &&& self.cur_table < self.tables@.len() ==> self.cur_entry < (*self.tables@[self.cur_table as int])@.len()
        &&& self.cur_table == self.tables@.len() ==> self.cur_entry == 0
    }

    /// What is left from the position on.
    pub closed spec fn rest(&self) -> Seq<EntryView> {
        spec_rest(spec_table_views(self.tables@), self.cur_table as int, self.cur_entry as int)
    }

    /// Whether the tables lie apart in key order: every user key of an
    /// earlier table is below every user key of a later one.
    pub open spec fn ordered(&self) -> bool {
        spec_tables_apart(spec_table_views(self.tables()))
    }

    /// An iterator over tables that lie apart yields sorted entries, and
    /// after a seek none of them is below the key.
    pub proof fn lemma_sorted(&self, key: Seq<u8>)
        requires
            self.wf(),
            self.ordered(),
        ensures
            spec_sorted(self.remaining()),
            spec_sorted(self.rewound()),
            spec_sorted(self.sought(key)),
            spec_not_below(self.sought(key), key),
    {
        let views = spec_table_views(self.tables@);
        assert forall|i: int| 0 <= i < views.len() implies spec_sorted(#[trigger] views[i]) by {
            assert(self.tables@[i].wf());
        }
        lemma_rest_sorted(views, self.cur_table as int, self.cur_entry as int);
        lemma_rest_sorted(views, 0, 0);
        lemma_seek_sorted(self.rewound(), key);
    }

    /// An iterator over `tables`, placed before the first entry.
    pub fn new(tables: Vec<Arc<Sstable>>) -> (it: Self)
        requires
            spec_tables_wf(tables@),
        ensures
            it.wf(),
            it.tables() == tables@,
            it.remaining() == it.rewound(),
    {
        let mut it = ConcatSstableIterator { tables, cur_table: 0, cur_entry: 0 };
        it.settle();
        it
    }

    /// Moves to the next entry of the run.
    fn advance(&mut self)
        requires
            old(self).wf(),
            old(self).remaining().len() > 0,
        ensures
            final(self).wf(),
            final(self).tables() == old(self).tables(),
            final(self).remaining() == old(self).remaining().skip(1),
    {
        proof {
            let views = spec_table_views(self.tables@);
            if self.cur_table >= self.tables@.len() {
                assert(spec_rest(views, self.cur_table as int, self.cur_entry as int).len() == 0);
            }
            lemma_rest_step(views, self.cur_table as int, self.cur_entry as int);
        }
        let in_table = self.tables[self.cur_table].len();
        assert(self.cur_entry < in_table);
        self.cur_entry = self.cur_entry + 1;
        self.settle();
    }

    /// Moves to the first entry of the run.
    fn reset(&mut self)
        requires
            old(self).wf(),
        ensures
            final(self).wf(),
            final(self).tables() == old(self).tables(),
            final(self).remaining() == old(self).rewound(),
    {
        self.cur_table = 0;
        self.cur_entry = 0;
        self.settle();
    }

    /// Moves past the tables that have no entry left.
    fn settle(&mut self)
        requires
            old(self).cur_table <= old(self).tables@.len(),
            old(self).cur_table < old(self).tables@.len() ==> old(self).cur_entry <= (*old(
                self,
            ).tables@[old(self).cur_table as int])@.len(),
            old(self).cur_table == old(self).tables@.len() ==> old(self).cur_entry == 0,
        ensures
            final(self).positioned(),
            final(self).tables() == old(self).tables(),
            final(self).rest() == old(self).rest(),
    {
        let ghost views = spec_table_views(self.tables@);
        while self.cur_table < self.tables.len() && self.cur_entry >= self.tables[self.cur_table].len()
            invariant
                self.tables@ == old(self).tables@,
                views == spec_table_views(self.tables@),
                self.cur_table <= self.tables@.len(),
                self.cur_table < self.tables@.len() ==> self.cur_entry <= (*self.tables@[self.cur_table as int])@.len(),
                self.cur_table == self.tables@.len() ==> self.cur_entry == 0,
                spec_rest(views, self.cur_table as int, self.cur_entry as int) == old(self).rest(),
            decreases self.tables@.len() - self.cur_table,
        {
            proof {
                lemma_rest_table_end(views, self.cur_table as int);
            }
            self.cur_table = self.cur_table + 1;
            self.cur_entry = 0;
        }
    }
}

impl HummockIterator for ConcatSstableIterator {
    open spec fn wf(&self) -> bool {
        &&& self.positioned()
        &&& spec_tables_wf(self.tables())
    }

    open spec fn remaining(&self) -> Seq<EntryView> {
        self.rest()
    }

    open spec fn rewound(&self) -> Seq<EntryView> {
        spec_rest(spec_table_views(self.tables()), 0, 0)
    }

    open spec fn sought(&self, key: Seq<u8>) -> Seq<EntryView> {
        spec_seek(self.rewound(), key)
    }

    proof fn lemma_full_keys(&self) {
        let views = spec_table_views(self.tables@);
        lemma_rest_full_keys(views, self.cur_table as int, self.cur_entry as int);
        lemma_rest_full_keys(views, 0, 0);
        assert forall|key: Seq<u8>| spec_full_keys(#[trigger] self.sought(key)) by {
            lemma_seek_index_bound(self.rewound(), key);
            let k = spec_seek_index(self.rewound(), key) as int;
            assert forall|i: int| 0 <= i < self.sought(key).len() implies is_full_key(
                (#[trigger] self.sought(key)[i]).key,
            ) by {
                assert(self.sought(key)[i] == self.rewound()[k + i]);
            }
        }
    }

    fn is_valid(&self) -> (valid: bool) {
        proof {
            if self.cur_table < self.tables@.len() {
                lemma_rest_step(
                    spec_table_views(self.tables@),
                    self.cur_table as int,
                    self.cur_entry as int,
                );
            }
        }
        self.cur_table < self.tables.len()
    }

    fn key(&self) -> (k: &[u8]) {
        proof {
            if self.cur_table >= self.tables@.len() {
                assert(spec_rest(
                    spec_table_views(self.tables@),
                    self.cur_table as int,
                    self.cur_entry as int,
                ).len() == 0);
            }
            lemma_rest_step(
                spec_table_views(self.tables@),
                self.cur_table as int,
                self.cur_entry as int,
            );
        }
        self.tables[self.cur_table].entry(self.cur_entry).key.as_slice()
    }

    fn value(&self) -> (v: &HummockValue) {
        proof {
            if self.cur_table >= self.tables@.len() {
                assert(spec_rest(
                    spec_table_views(self.tables@),
                    self.cur_table as int,
                    self.cur_entry as int,
                ).len() == 0);
            }
            lemma_rest_step(
                spec_table_views(self.tables@),
                self.cur_table as int,
                self.cur_entry as int,
            );
        }
        &self.tables[self.cur_table].entry(self.cur_entry).value
    }

    fn next(&mut self) {
        self.advance();
    }

    fn rewind(&mut self) {
        self.reset();
    }

    fn seek(&mut self, key: &[u8]) {
        self.reset();
        proof {
            self.lemma_full_keys();
        }
        while self.is_valid() && VersionedComparator::compare_key(self.key(), key)
            == KeyOrder::Less
            invariant
                self.wf(),
                self.tables() == old(self).tables(),
                is_full_key(key@),
                spec_full_keys(self.remaining()),
                spec_seek(self.remaining(), key@) == old(self).sought(key@),
            decreases self.remaining().len(),
        {
            proof {
                lemma_seek_skips(self.remaining(), key@);
            }
            self.advance();
            proof {
                self.lemma_full_keys();
            }
        }
        assert(self.remaining().skip(0) =~= self.remaining());
    }
}

} // verus!

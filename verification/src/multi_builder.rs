//! A builder that cuts a stream of entries into tables of bounded size.

use crate::error::{HummockError, HummockResult};
use crate::key::{
    key_with_epoch, lemma_lex_total, lemma_lex_transitive, lex_lt, spec_full_key, spec_user_key,
};
use crate::memory::MemoryTracker;
use crate::sstable::{
    spec_data_len, spec_meta_of, spec_table_ids, CachePolicy, SstableBuilder,
    SstableBuilderOptions, SstableMeta,
};
use crate::value::{entry_views, Entry, EntryView, HummockValue};
use vstd::prelude::*;

verus! {

/// A finished table that waits to be stored.
#[derive(Debug)]
pub struct SealedSstableBuilder {
    /// The id of the table.
    pub id: u64,
    /// What the table records about itself.
    pub meta: SstableMeta,
    /// The ids of the tables whose keys it holds.
    pub table_ids: Vec<u32>,
    /// The entries of the table, in the order they were added.
    pub data: Vec<Entry>,
    /// Size in bytes of keys and payloads.
    pub data_len: usize,
    /// The unit the table belongs to; always zero.
    pub unit_id: u64,
    /// Whether storing the table fills the block cache.
    pub cache_policy: CachePolicy,
    /// The memory reserved for building the table.
    pub tracker: MemoryTracker,
}

impl View for SealedSstableBuilder {
    type V = Seq<EntryView>;

    /// The entries of the table, in order.
    open spec fn view(&self) -> Seq<EntryView> {
        entry_views(self.data@)
    }
}

impl SealedSstableBuilder {
    /// The table's metadata, size and table ids describe its entries.
    pub open spec fn wf(&self) -> bool {
        &&& spec_meta_of(self.meta, self@)
        &&& self.table_ids@ == spec_table_ids(self@)
        &&& self.data_len == spec_data_len(self@)
        &&& self.unit_id == 0
    }
}

/// Opens the builders of a `CapacitySplitTableBuilder`.
pub trait TableBuilderFactory: Sized {
    /// The factory is in a usable state.
    spec fn wf(&self) -> bool;

    /// How many more builders the factory can open.
    spec fn remaining_opens(&self) -> nat;

    /// The capacity of every builder the factory opens.
    spec fn capacity(&self) -> usize;

    /// The error with which the factory refuses once it can open no more.
    spec fn open_error(&self) -> HummockError;

    /// The id of the builder that is opened after `n` others.
    spec fn id_after(&self, n: nat) -> u64;

    /// Whether this state of the factory can have come about from the
    /// state `before` by opening builders.
    spec fn follows(&self, before: Self) -> bool;

    /// Every state follows itself.
    proof fn lemma_follows_itself(&self)
        ensures
            self.follows(*self),
    ;

    /// What follows a state that follows another, follows that other.
    proof fn lemma_follows_chain(&self, middle: Self, before: Self)
        requires
            self.follows(middle),
            middle.follows(before),
        ensures
            self.follows(before),
    ;

    /// Opens a builder without entries, together with the memory reserved
    /// for it.
    fn open_builder(&mut self) -> (r: HummockResult<(MemoryTracker, SstableBuilder)>)
        requires
            old(self).wf(),
        ensures
            final(self).wf(),
            final(self).capacity() == old(self).capacity(),
            final(self).follows(*old(self)),
            old(self).remaining_opens() > 0 ==> r is Ok && final(self).remaining_opens() == old(
                self,
            ).remaining_opens() - 1,
            old(self).remaining_opens() == 0 ==> r == Err::<(MemoryTracker, SstableBuilder), _>(
                old(self).open_error(),
            ) && final(self).remaining_opens() == 0 && final(self).open_error() == old(
                self,
            ).open_error(),
            r matches Ok(opened) ==> opened.1.wf() && opened.1@.len() == 0
                && opened.1.spec_options().capacity == old(self).capacity() && opened.1.id() == old(
                self,
            ).id_after(0),
            r is Ok ==> forall|n: nat| #[trigger] final(self).id_after(n) == old(self).id_after(n + 1),
            r is Err ==> forall|n: nat| #[trigger] final(self).id_after(n) == old(self).id_after(n),
    ;
}

/// Opens builders with ids counted up from a first id, without reserving
/// memory.
#[derive(Clone, Copy, Debug, PartialEq, Eq, Structural)]
pub struct LocalTableBuilderFactory {
    /// The id of the next builder.
    pub next_id: u64,
    /// The settings of every builder.
    pub options: SstableBuilderOptions,
}

impl LocalTableBuilderFactory {
    /// A factory whose first builder gets the id `next_id`.
    pub fn new(next_id: u64, options: SstableBuilderOptions) -> (f: Self)
        ensures
            f == (LocalTableBuilderFactory { next_id, options }),
    {
        LocalTableBuilderFactory { next_id, options }
    }
}

impl TableBuilderFactory for LocalTableBuilderFactory {
    open spec fn wf(&self) -> bool {
        true
    }

    open spec fn remaining_opens(&self) -> nat {
        (u64::MAX - self.next_id) as nat
    }

    open spec fn capacity(&self) -> usize {
        self.options.capacity
    }

    open spec fn open_error(&self) -> HummockError {
        HummockError::CompactionExecutor
    }

    open spec fn id_after(&self, n: nat) -> u64 {
        (self.next_id + n) as u64
    }

    open spec fn follows(&self, before: Self) -> bool {
        self.options == before.options && self.next_id >= before.next_id
    }

    proof fn lemma_follows_itself(&self) {
    }

    proof fn lemma_follows_chain(&self, middle: Self, before: Self) {
    }

    fn open_builder(&mut self) -> (r: HummockResult<(MemoryTracker, SstableBuilder)>) {
        if self.next_id == u64::MAX {
            return Err(HummockError::CompactionExecutor);
        }
        let id = self.next_id;
        self.next_id = id + 1;
        Ok((MemoryTracker::empty(), SstableBuilder::new(id, self.options)))
    }
}

/// The tables of a builder as plain data: the sealed ones in order, the
/// open one if there is one, and how many more can be opened.
pub struct TablesModel {
    /// The entries of each sealed table, in the order the tables were sealed.
    pub sealed: Seq<Seq<EntryView>>,
    /// The entries of the open table, if one is open.
    pub open: Option<Seq<EntryView>>,
    /// How many more tables can be opened.
    pub remaining: nat,
}

/// The tables after the open one, if any, has been sealed.
pub open spec fn spec_seal(m: TablesModel) -> TablesModel {
    match m.open {
        Some(t) => TablesModel { sealed: m.sealed.push(t), open: None, remaining: m.remaining },
        None => m,
    }
}

/// Whether adding an entry with this `allow_split` seals the open table
/// first: it does when splitting is allowed and the table is full.
pub open spec fn spec_splits(m: TablesModel, capacity: usize, allow_split: bool) -> bool {
    allow_split && m.open is Some && spec_data_len(m.open->0) >= capacity
}

/// Whether an entry can be added: either a table stays open for it, or a
/// new one can be opened.
pub open spec fn spec_add_ok(m: TablesModel, capacity: usize, allow_split: bool) -> bool {
    (m.open is Some && !spec_splits(m, capacity, allow_split)) || m.remaining > 0
}

/// Whether adding an entry opens a table: it does when no table stays
/// open for the entry and one more can be opened.
pub open spec fn spec_opens_table(m: TablesModel, capacity: usize, allow_split: bool) -> bool {
    (m.open is None || spec_splits(m, capacity, allow_split)) && m.remaining > 0
}

/// The tables after an attempt to add an entry. When no table can be
/// opened the entry is lost and no table is open.
pub open spec fn spec_add(m: TablesModel, capacity: usize, entry: EntryView, allow_split: bool)
    -> TablesModel {
    let m1 = if spec_splits(m, capacity, allow_split) {
        spec_seal(m)
    } else {
        m
    };
    match m1.open {
        Some(t) => TablesModel { sealed: m1.sealed, open: Some(t.push(entry)), remaining: m1.remaining },
        None => if m1.remaining > 0 {
            TablesModel {
                sealed: m1.sealed,
                open: Some(seq![entry]),
                remaining: (m1.remaining - 1) as nat,
            }
        } else {
            m1
        },
    }
}

/// The tables after an attempt to add each of `items` in turn, and whether
/// all were added. Nothing is added after the first failure.
pub open spec fn spec_add_all(m: TablesModel, capacity: usize, items: Seq<(EntryView, bool)>) -> (
    TablesModel,
    bool,
)
    decreases items.len(),
{
    if items.len() == 0 {
        (m, true)
    } else {
        let before = spec_add_all(m, capacity, items.drop_last());
        if before.1 {
            (
                spec_add(before.0, capacity, items.last().0, items.last().1),
                spec_add_ok(before.0, capacity, items.last().1),
            )
        } else {
            before
        }
    }
}

/// Once an entry could not be added, further entries change nothing.
pub proof fn lemma_add_all_stays_failed(
    m: TablesModel,
    capacity: usize,
    items: Seq<(EntryView, bool)>,
    k: int,
)
    requires
        0 <= k <= items.len(),
        !spec_add_all(m, capacity, items.subrange(0, k)).1,
    ensures
        spec_add_all(m, capacity, items) == spec_add_all(m, capacity, items.subrange(0, k)),
    decreases items.len() - k,
{
    if k < items.len() {
        assert(items.drop_last().subrange(0, k) =~= items.subrange(0, k));
        lemma_add_all_stays_failed(m, capacity, items.drop_last(), k);
    } else {
        assert(items.subrange(0, k) =~= items);
    }
}

/// All tables of a model, the open one last.
pub open spec fn spec_tables(m: TablesModel) -> Seq<Seq<EntryView>> {
    spec_seal(m).sealed
}

/// No tables, and `remaining` more that can be opened.
pub open spec fn spec_no_tables(remaining: nat) -> TablesModel {
    TablesModel { sealed: Seq::empty(), open: None, remaining }
}

/// The entries of all tables, one table after the other.
pub open spec fn spec_concat(tables: Seq<Seq<EntryView>>) -> Seq<EntryView>
    decreases tables.len(),
{
    if tables.len() == 0 {
        Seq::empty()
    } else {
        spec_concat(tables.drop_last()) + tables.last()
    }
}

/// An entry that is added comes last in the concatenation of the tables.
pub proof fn lemma_add_appends(m: TablesModel, capacity: usize, entry: EntryView, allow_split: bool)
    requires
        spec_add_ok(m, capacity, allow_split),
    ensures
        spec_concat(spec_tables(spec_add(m, capacity, entry, allow_split))) == spec_concat(
            spec_tables(m),
        ).push(entry),
{
    let after = spec_add(m, capacity, entry, allow_split);
    let tables = spec_tables(after);
    if m.open is Some && !spec_splits(m, capacity, allow_split) {
        let t = m.open->0;
        assert(tables.drop_last() =~= m.sealed);
        assert(spec_tables(m).drop_last() =~= m.sealed);
        assert(spec_concat(m.sealed) + t.push(entry) =~= (spec_concat(m.sealed) + t).push(entry));
    } else {
        assert(tables.drop_last() =~= spec_tables(m));
        assert(spec_concat(spec_tables(m)) + seq![entry] =~= spec_concat(spec_tables(m)).push(
            entry,
        ));
    }
}

/// The tables hold, one after the other, what they held before followed
/// by the entries added, in the order they were added.
pub proof fn lemma_add_all_appends(m: TablesModel, capacity: usize, items: Seq<(EntryView, bool)>)
    requires
        spec_add_all(m, capacity, items).1,
    ensures
        spec_concat(spec_tables(spec_add_all(m, capacity, items).0)) == spec_concat(
            spec_tables(m),
        ) + items.map_values(|a: (EntryView, bool)| a.0),
    decreases items.len(),
{
    let f = |a: (EntryView, bool)| a.0;
    if items.len() == 0 {
        assert(spec_concat(spec_tables(m)) + items.map_values(f) =~= spec_concat(spec_tables(m)));
    } else {
        let before = spec_add_all(m, capacity, items.drop_last());
        lemma_add_all_appends(m, capacity, items.drop_last());
        lemma_add_appends(before.0, capacity, items.last().0, items.last().1);
        assert((spec_concat(spec_tables(m)) + items.drop_last().map_values(f)).push(
            items.last().0,
        ) =~= spec_concat(spec_tables(m)) + items.map_values(f));
    }
}

/// Whether the user keys of `items` never descend, and rise strictly at
/// every item that allows a split.
pub open spec fn spec_user_keys_ascend(items: Seq<(EntryView, bool)>) -> bool {
    forall|q: int, r: int|
        0 <= q < r < items.len() ==> {
            &&& !lex_lt(
                spec_user_key((#[trigger] items[r]).0.key),
                spec_user_key((#[trigger] items[q]).0.key),
            )
            &&& items[r].1 ==> lex_lt(spec_user_key(items[q].0.key), spec_user_key(items[r].0.key))
        }
}

/// Whether every entry of an earlier table has a user key below that of
/// every entry of a later table.
pub open spec fn spec_tables_apart(tables: Seq<Seq<EntryView>>) -> bool {
    forall|t1: int, t2: int, x: int, y: int|
        0 <= t1 < t2 < tables.len() && 0 <= x < tables[t1].len() && 0 <= y < tables[t2].len()
            ==> lex_lt(
            spec_user_key((#[trigger] tables[t1][x]).key),
            spec_user_key((#[trigger] tables[t2][y]).key),
        )
}

/// Whether no entry of `tables` has a user key above `user_key`.
pub open spec fn spec_tables_up_to(tables: Seq<Seq<EntryView>>, user_key: Seq<u8>) -> bool {
    forall|t: int, x: int|
        0 <= t < tables.len() && 0 <= x < tables[t].len() ==> !lex_lt(
            user_key,
            spec_user_key((#[trigger] tables[t][x]).key),
        )
}

/// A byte string below one that is not above a third is below the third.
pub proof fn lemma_lex_lt_le(a: Seq<u8>, b: Seq<u8>, c: Seq<u8>)
    requires
        lex_lt(a, b),
        !lex_lt(c, b),
    ensures
        lex_lt(a, c),
{
    lemma_lex_total(b, c);
    if b != c {
        lemma_lex_transitive(a, b, c);
    }
}

/// A byte string not above one that is below a third is below the third.
pub proof fn lemma_lex_le_lt(a: Seq<u8>, b: Seq<u8>, c: Seq<u8>)
    requires
        !lex_lt(b, a),
        lex_lt(b, c),
    ensures
        lex_lt(a, c),
{
    lemma_lex_total(a, b);
    if a != b {
        lemma_lex_transitive(a, b, c);
    }
}

/// A byte string not above one that is not above a third is not above the
/// third.
pub proof fn lemma_lex_le_le(a: Seq<u8>, b: Seq<u8>, c: Seq<u8>)
    requires
        !lex_lt(b, a),
        !lex_lt(c, b),
    ensures
        !lex_lt(c, a),
{
    lemma_lex_total(a, b);
    lemma_lex_total(b, c);
    lemma_lex_total(a, c);
    if a != b && b != c {
        lemma_lex_transitive(a, b, c);
    }
}

/// Tables cut from entries whose user keys ascend, with splits only where
/// the user key rises, lie apart: after all `items` were added to a builder
/// without tables, a table is open, no table is empty, and every user key
/// of an earlier table is below every user key of a later one.
pub proof fn lemma_add_all_apart(remaining: nat, capacity: usize, items: Seq<(EntryView, bool)>)
    requires
        spec_user_keys_ascend(items),
        spec_add_all(spec_no_tables(remaining), capacity, items).1,
    ensures
        ({
            let m = spec_add_all(spec_no_tables(remaining), capacity, items).0;
            &&& items.len() == 0 ==> m == spec_no_tables(remaining)
            &&& items.len() > 0 ==> m.open is Some && m.open->0.len() > 0 && spec_tables_up_to(
                spec_tables(m),
                spec_user_key(items.last().0.key),
            )
            &&& spec_tables_apart(spec_tables(m))
        }),
    decreases items.len(),
{
    let m0 = spec_no_tables(remaining);
    let m = spec_add_all(m0, capacity, items).0;
    if items.len() == 0 {
    } else {
        let rest = items.drop_last();
        let (e, allow_split) = items.last();
        let u = spec_user_key(e.key);
        assert forall|q: int, r: int| 0 <= q < r < rest.len() implies {
            &&& !lex_lt(
                spec_user_key((#[trigger] rest[r]).0.key),
                spec_user_key((#[trigger] rest[q]).0.key),
            )
            &&& rest[r].1 ==> lex_lt(spec_user_key(rest[q].0.key), spec_user_key(rest[r].0.key))
        } by {
            assert(rest[r] == items[r] && rest[q] == items[q]);
        }
        lemma_add_all_apart(remaining, capacity, rest);
        let m1 = spec_add_all(m0, capacity, rest).0;
        let old_tables = spec_tables(m1);
        let tables = spec_tables(m);
        if rest.len() == 0 {
            assert(tables =~= seq![seq![e]]);
            crate::key::lemma_lex_irreflexive(u);
        } else {
            let prev = spec_user_key(rest.last().0.key);
            assert(rest.last() == items[rest.len() - 1]);
            assert(items.last() == items[items.len() - 1]);
            assert(!lex_lt(u, prev));
            let o = m1.open->0;
            assert(old_tables =~= m1.sealed.push(o));
            if spec_splits(m1, capacity, allow_split) {
                assert(lex_lt(prev, u));
                assert(tables =~= old_tables.push(seq![e]));
                crate::key::lemma_lex_irreflexive(u);
                assert forall|t: int, x: int|
                    0 <= t < tables.len() && 0 <= x < tables[t].len() implies !lex_lt(
                    u,
                    spec_user_key((#[trigger] tables[t][x]).key),
                ) by {
                    if t < old_tables.len() {
                        let z = spec_user_key(old_tables[t][x].key);
                        lemma_lex_le_le(z, prev, u);
                    }
                }
                assert forall|t1: int, t2: int, x: int, y: int|
                    0 <= t1 < t2 < tables.len() && 0 <= x < tables[t1].len() && 0 <= y
                        < tables[t2].len() implies lex_lt(
                    spec_user_key((#[trigger] tables[t1][x]).key),
                    spec_user_key((#[trigger] tables[t2][y]).key),
                ) by {
                    if t2 == old_tables.len() {
                        let z = spec_user_key(old_tables[t1][x].key);
                        lemma_lex_le_lt(z, prev, u);
                    } else {
                        assert(lex_lt(
                            spec_user_key(old_tables[t1][x].key),
                            spec_user_key(old_tables[t2][y].key),
                        ));
                    }
                }
            } else {
                assert(tables =~= m1.sealed.push(o.push(e)));
                crate::key::lemma_lex_irreflexive(u);
                assert forall|t: int, x: int|
                    0 <= t < tables.len() && 0 <= x < tables[t].len() implies !lex_lt(
                    u,
                    spec_user_key((#[trigger] tables[t][x]).key),
                ) by {
                    if t < m1.sealed.len() || x < o.len() {
                        let z = spec_user_key(old_tables[t][x].key);
                        lemma_lex_le_le(z, prev, u);
                    }
                }
                assert forall|t1: int, t2: int, x: int, y: int|
                    0 <= t1 < t2 < tables.len() && 0 <= x < tables[t1].len() && 0 <= y
                        < tables[t2].len() implies lex_lt(
                    spec_user_key((#[trigger] tables[t1][x]).key),
                    spec_user_key((#[trigger] tables[t2][y]).key),
                ) by {
                    if t2 == m1.sealed.len() && y == o.len() {
                        let first = spec_user_key(old_tables[t2][0].key);
                        assert(lex_lt(spec_user_key(old_tables[t1][x].key), first));
                        lemma_lex_le_le(first, prev, u);
                        lemma_lex_lt_le(spec_user_key(old_tables[t1][x].key), first, u);
                    } else {
                        assert(lex_lt(
                            spec_user_key(old_tables[t1][x].key),
                            spec_user_key(old_tables[t2][y].key),
                        ));
                    }
                }
            }
        }
    }
}

/// How the ids of the tables and the factory go on when an entry is added:
/// a table that is opened gets the next id of the factory, and the ids that
/// the factory hands out later move up by one.
pub open spec fn spec_ids_after_add<F: TableBuilderFactory>(
    ids_before: Seq<u64>,
    factory_before: F,
    ids_after: Seq<u64>,
    factory_after: F,
    opened: bool,
) -> bool {
    if opened {
        &&& ids_after == ids_before.push(factory_before.id_after(0))
        &&& forall|n: nat| #[trigger] factory_after.id_after(n) == factory_before.id_after(n + 1)
    } else {
        &&& ids_after == ids_before
        &&& forall|n: nat| #[trigger] factory_after.id_after(n) == factory_before.id_after(n)
    }
}

/// How the ids of the tables and the factory have gone on after `opened`
/// tables were opened: the tables got the next ids of the factory in turn,
/// and the ids that the factory hands out later moved up by as many.
pub open spec fn spec_ids_after_opens<F: TableBuilderFactory>(
    ids_before: Seq<u64>,
    factory_before: F,
    ids_after: Seq<u64>,
    factory_after: F,
    opened: int,
) -> bool {
    &&& opened >= 0
    &&& ids_after == ids_before + Seq::new(
        opened as nat,
        |i: int| factory_before.id_after(i as nat),
    )
    &&& forall|n: nat| #[trigger]
        factory_after.id_after(n) == factory_before.id_after((n + opened) as nat)
}

/// Adding one more entry carries the ids on.
pub proof fn lemma_ids_after_add<F: TableBuilderFactory>(
    ids0: Seq<u64>,
    factory0: F,
    ids1: Seq<u64>,
    factory1: F,
    opened: int,
    ids2: Seq<u64>,
    factory2: F,
    opens: bool,
)
    requires
        spec_ids_after_opens(ids0, factory0, ids1, factory1, opened),
        spec_ids_after_add(ids1, factory1, ids2, factory2, opens),
    ensures
        spec_ids_after_opens(
            ids0,
            factory0,
            ids2,
            factory2,
            opened + if opens {
                1int
            } else {
                0int
            },
        ),
{
    if opens {
        assert(factory1.id_after(0) == factory0.id_after((0 + opened) as nat));
        assert(ids2 =~= ids0 + Seq::new(
            (opened + 1) as nat,
            |i: int| factory0.id_after(i as nat),
        ));
        assert forall|n: nat| #[trigger]
            factory2.id_after(n) == factory0.id_after((n + opened + 1) as nat) by {
            assert(factory2.id_after(n) == factory1.id_after(n + 1));
            assert(factory1.id_after(n + 1) == factory0.id_after(((n + 1) + opened) as nat));
        }
    }
}

/// Cuts the entries it is given into tables: a table is sealed, and the
/// next one opened, when it has reached its capacity and the entry at hand
/// allows a split.
pub struct CapacitySplitTableBuilder<F: TableBuilderFactory> {
    builder_factory: F,
    cache_policy: CachePolicy,
    sealed_builders: Vec<SealedSstableBuilder>,
    current_builder: Option<(MemoryTracker, SstableBuilder)>,
}

impl<F: TableBuilderFactory> CapacitySplitTableBuilder<F> {
    /// The sealed tables describe their entries, and the open builder is
    /// one that the factory could have opened.
    pub closed spec fn wf(&self) -> bool {
        &&& self.builder_factory.wf()
        &&& forall|i: int|
            0 <= i < self.sealed_builders@.len() ==> (#[trigger] self.sealed_builders@[i]).wf()
                && self.sealed_builders@[i].cache_policy == self.cache_policy
        &&& self.current_builder matches Some(opened) ==> opened.1.wf()
            && opened.1.spec_options().capacity == self.builder_factory.capacity()
    }

    /// The factory that opens the builders.
    pub closed spec fn factory(&self) -> F {
        self.builder_factory
    }

    /// The cache policy that every table is sealed with.
    pub closed spec fn policy(&self) -> CachePolicy {
        self.cache_policy
    }

    /// The sealed tables, in the order they were sealed.
    pub closed spec fn sealed(&self) -> Seq<SealedSstableBuilder> {
        self.sealed_builders@
    }

    /// The entries of the open table, if one is open.
    pub closed spec fn open_table(&self) -> Option<Seq<EntryView>> {
        match self.current_builder {
            Some(opened) => Some(opened.1@),
            None => None,
        }
    }

    /// The ids of the tables, sealed and open, in the order they were
    /// opened.
    pub closed spec fn table_ids(&self) -> Seq<u64> {
        self.sealed_builders@.map_values(|s: SealedSstableBuilder| s.id) + match self.current_builder {
            Some(opened) => seq![opened.1.id()],
            None => Seq::empty(),
        }
    }

    /// The tables as plain data.
    pub open spec fn model(&self) -> TablesModel {
        TablesModel {
            sealed: self.sealed().map_values(|s: SealedSstableBuilder| s@),
            open: self.open_table(),
            remaining: self.factory().remaining_opens(),
        }
    }

    /// Number of tables, sealed and open.
    pub open spec fn spec_len(&self) -> nat {
        self.sealed().len() + if self.open_table() is Some {
            1nat
        } else {
            0nat
        }
    }

    /// A builder without tables.
    pub fn new(builder_factory: F, cache_policy: CachePolicy) -> (b: Self)
        requires
            builder_factory.wf(),
        ensures
            b.wf(),
            b.factory() == builder_factory,
            b.policy() == cache_policy,
            b.sealed().len() == 0,
            b.open_table() is None,
            b.table_ids().len() == 0,
            b.model() == spec_no_tables(builder_factory.remaining_opens()),
    {
        let b = CapacitySplitTableBuilder {
            builder_factory,
            cache_policy,
            sealed_builders: Vec::new(),
            current_builder: None,
        };
        assert(b.model().sealed =~= Seq::<Seq<EntryView>>::empty());
        b
    }

    /// Number of tables, sealed and open; the largest `usize` if there are
    /// more than that.
    pub fn len(&self) -> (n: usize)
        ensures
            n == if self.spec_len() > usize::MAX {
                usize::MAX as nat
            } else {
                self.spec_len()
            },
    {
        let open: usize = if self.current_builder.is_some() {
            1
        } else {
            0
        };
        self.sealed_builders.len().saturating_add(open)
    }

    /// Whether there is no table at all.
    pub fn is_empty(&self) -> (b: bool)
        ensures
            b == (self.spec_len() == 0),
    {
        self.sealed_builders.len() == 0 && self.current_builder.is_none()
    }

    /// Adds a user key written at `epoch`; a full table may be sealed
    /// before it.
    pub fn add_user_key(&mut self, user_key: Vec<u8>, value: HummockValue, epoch: u64) -> (r:
        HummockResult<()>)
        requires
            old(self).wf(),
            user_key@.len() > 0,
        ensures
            final(self).wf(),
            final(self).factory().capacity() == old(self).factory().capacity(),
            final(self).model() == spec_add(
                old(self).model(),
                old(self).factory().capacity(),
                EntryView { key: spec_full_key(user_key@, epoch), value: value@ },
                true,
            ),
            final(self).policy() == old(self).policy(),
            final(self).factory().follows(old(self).factory()),
            spec_ids_after_add(
                old(self).table_ids(),
                old(self).factory(),
                final(self).table_ids(),
                final(self).factory(),
                spec_opens_table(old(self).model(), old(self).factory().capacity(), true),
            ),
            r is Ok <==> spec_add_ok(old(self).model(), old(self).factory().capacity(), true),
            r is Err ==> r == Err::<(), _>(final(self).factory().open_error()),
    {
        let full_key = key_with_epoch(user_key, epoch);
        self.add_full_key(full_key.as_slice(), value, true)
    }

    /// Adds an entry. If `allow_split` holds and the open table has reached
    /// its capacity, that table is sealed and the entry starts a new one.
    /// Fails, losing the entry, when a table must be opened and the factory
    /// can open no more.
    pub fn add_full_key(&mut self, full_key: &[u8], value: HummockValue, allow_split: bool) -> (r:
        HummockResult<()>)
        requires
            old(self).wf(),
        ensures
            final(self).wf(),
            final(self).factory().capacity() == old(self).factory().capacity(),
            final(self).policy() == old(self).policy(),
            final(self).factory().follows(old(self).factory()),
            spec_ids_after_add(
                old(self).table_ids(),
                old(self).factory(),
                final(self).table_ids(),
                final(self).factory(),
                spec_opens_table(old(self).model(), old(self).factory().capacity(), allow_split),
            ),
            final(self).model() == spec_add(
                old(self).model(),
                old(self).factory().capacity(),
                EntryView { key: full_key@, value: value@ },
                allow_split,
            ),
            r is Ok <==> spec_add_ok(old(self).model(), old(self).factory().capacity(), allow_split),
            r is Err ==> r == Err::<(), _>(final(self).factory().open_error()),
    {
        proof {
            self.builder_factory.lemma_follows_itself();
        }
        let full = match &self.current_builder {
            Some(opened) => opened.1.reach_capacity(),
            None => false,
        };
        if allow_split && full {
            self.seal_current();
        }
        if self.current_builder.is_none() {
            match self.builder_factory.open_builder() {
                Ok(opened) => {
                    self.current_builder = Some(opened);
                },
                Err(e) => {
                    return Err(e);
                },
            }
        }
        let ghost ids_open = self.table_ids();
        let mut opened = self.current_builder.take().unwrap();
        opened.1.add(full_key, value);
        self.current_builder = Some(opened);
        proof {
            assert(self.table_ids() =~= ids_open);
            let m = old(self).model();
            let entry = EntryView { key: full_key@, value: value@ };
            let expected = spec_add(m, old(self).factory().capacity(), entry, allow_split);
            assert(final(self).model().open->0 =~= expected.open->0);
        }
        Ok(())
    }

    /// Seals the open table, if there is one. The next entry then starts a
    /// new table.
    pub fn seal_current(&mut self)
        requires
            old(self).wf(),
        ensures
            final(self).wf(),
            final(self).factory() == old(self).factory(),
            final(self).policy() == old(self).policy(),
            final(self).table_ids() == old(self).table_ids(),
            final(self).model() == spec_seal(old(self).model()),
            final(self).open_table() is None,
            old(self).open_table() is Some ==> final(self).sealed().len() == old(self).sealed().len()
                + 1 && final(self).sealed().subrange(0, old(self).sealed().len() as int) == old(
                self,
            ).sealed() && final(self).sealed().last()@ == old(self).open_table()->0,
            old(self).open_table() is None ==> final(self).sealed() == old(self).sealed(),
    {
        if let Some(opened) = self.current_builder.take() {
            let (tracker, builder) = opened;
            let ghost table = builder@;
            let (id, data, meta, table_ids) = builder.finish();
            let data_len = meta.estimated_size;
            let sealed = SealedSstableBuilder {
                id,
                meta,
                table_ids,
                data,
                data_len,
                unit_id: 0,
                cache_policy: self.cache_policy,
                tracker,
            };
            assert(sealed@ == table);
            self.sealed_builders.push(sealed);
            proof {
                assert(self.table_ids() =~= old(self).table_ids());
                let f = |s: SealedSstableBuilder| s@;
                assert(final(self).sealed().map_values(f) =~= old(self).sealed().map_values(
                    f,
                ).push(table));
                assert(final(self).sealed().subrange(0, old(self).sealed().len() as int) =~= old(
                    self,
                ).sealed());
            }
        }
    }

    /// Seals the open table and hands out all tables, in order.
    pub fn finish(self) -> (tables: Vec<SealedSstableBuilder>)
        requires
            self.wf(),
        ensures
            tables@.map_values(|s: SealedSstableBuilder| s@) == spec_tables(self.model()),
            tables@.map_values(|s: SealedSstableBuilder| s.id) == self.table_ids(),
            forall|i: int|
                0 <= i < tables@.len() ==> (#[trigger] tables@[i]).wf() && tables@[i].cache_policy
                    == self.policy(),
    {
        let mut this = self;
        this.seal_current();
        assert(this.table_ids() =~= this.sealed_builders@.map_values(
            |s: SealedSstableBuilder| s.id,
        ));
        this.sealed_builders
    }

    /// Seals the open table and hands out all tables, in order, together
    /// with the factory.
    pub fn finish_with_factory(self) -> (out: (Vec<SealedSstableBuilder>, F))
        requires
            self.wf(),
        ensures
            out.0@.map_values(|s: SealedSstableBuilder| s@) == spec_tables(self.model()),
            out.0@.map_values(|s: SealedSstableBuilder| s.id) == self.table_ids(),
            forall|i: int|
                0 <= i < out.0@.len() ==> (#[trigger] out.0@[i]).wf() && out.0@[i].cache_policy
                    == self.policy(),
            out.1 == self.factory(),
            out.1.wf(),
    {
        let mut this = self;
        this.seal_current();
        assert(this.table_ids() =~= this.sealed_builders@.map_values(
            |s: SealedSstableBuilder| s.id,
        ));
        (this.sealed_builders, this.builder_factory)
    }
}

} // verus!

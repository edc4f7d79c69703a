//! An iterator that merges several iterators by always yielding the
//! smallest of their current keys.

use crate::iterator::{
    lemma_skip_sorted, spec_full_keys, spec_not_below, spec_same_source, spec_sorted,
    HummockIterator,
};
use crate::key::{
    full_key_lt, is_full_key, lemma_full_key_total, lemma_full_key_transitive, spec_epoch,
    spec_user_key, KeyOrder, VersionedComparator,
};
use crate::value::{EntryView, HummockValue};
use vstd::prelude::*;

verus! {

/// The index, among the first `n` runs, of the first run whose head has
/// the smallest key; `-1` if all of them are empty.
pub open spec fn spec_min_run(runs: Seq<Seq<EntryView>>, n: int) -> int
    decreases n,
{
    if n <= 0 {
        -1
    } else {
        let m = spec_min_run(runs, n - 1);
        if runs[n - 1].len() == 0 {
            m
        } else if m < 0 || full_key_lt(runs[n - 1][0].key, runs[m][0].key) {
            n - 1
        } else {
            m
        }
    }
}

/// Number of entries in all runs together.
pub open spec fn spec_total_len(runs: Seq<Seq<EntryView>>) -> nat
    decreases runs.len(),
{
    if runs.len() == 0 {
        0
    } else {
        spec_total_len(runs.drop_last()) + runs.last().len()
    }
}

/// The runs after the head of run `m` has been taken.
pub open spec fn spec_pop(runs: Seq<Seq<EntryView>>, m: int) -> Seq<Seq<EntryView>> {
    runs.update(m, runs[m].skip(1))
}

/// Taking a head leaves one entry less.
pub proof fn lemma_total_len_pop(runs: Seq<Seq<EntryView>>, m: int)
    requires
        0 <= m < runs.len(),
        runs[m].len() > 0,
    ensures
        spec_total_len(spec_pop(runs, m)) == spec_total_len(runs) - 1,
    decreases runs.len(),
{
    let popped = spec_pop(runs, m);
    if m == runs.len() - 1 {
        assert(popped.drop_last() =~= runs.drop_last());
    } else {
        assert(popped.drop_last() =~= spec_pop(runs.drop_last(), m));
        lemma_total_len_pop(runs.drop_last(), m);
    }
}

/// The smallest head, if there is one, is the head of a run that has one.
pub proof fn lemma_min_run_bounds(runs: Seq<Seq<EntryView>>, n: int)
    requires
        0 <= n <= runs.len(),
    ensures
        -1 <= spec_min_run(runs, n) < n,
        spec_min_run(runs, n) >= 0 ==> runs[spec_min_run(runs, n)].len() > 0,
        spec_min_run(runs, n) < 0 ==> forall|i: int| 0 <= i < n ==> (#[trigger] runs[i]).len() == 0,
    decreases n,
{
    if n > 0 {
        lemma_min_run_bounds(runs, n - 1);
    }
}

/// The entries of all runs, merged by always taking the smallest head, the
/// head of the earlier run if two are equal.
pub open spec fn spec_merged(runs: Seq<Seq<EntryView>>) -> Seq<EntryView>
    decreases spec_total_len(runs),
{
    let m = spec_min_run(runs, runs.len() as int);
    if m < 0 || m >= runs.len() || runs[m].len() == 0 {
        Seq::empty()
    } else {
        proof {
            lemma_total_len_pop(runs, m);
        }
        seq![runs[m][0]] + spec_merged(spec_pop(runs, m))
    }
}

/// Merging runs with full keys gives full keys.
pub proof fn lemma_merged_full_keys(runs: Seq<Seq<EntryView>>)
    requires
        forall|i: int| 0 <= i < runs.len() ==> spec_full_keys(#[trigger] runs[i]),
    ensures
        spec_full_keys(spec_merged(runs)),
    decreases spec_total_len(runs),
{
    let m = spec_min_run(runs, runs.len() as int);
    if !(m < 0 || m >= runs.len() || runs[m].len() == 0) {
        lemma_total_len_pop(runs, m);
        let popped = spec_pop(runs, m);
        assert forall|i: int| 0 <= i < popped.len() implies spec_full_keys(
            #[trigger] popped[i],
        ) by {
            assert(spec_full_keys(runs[i]));
            if i == m {
                assert forall|k: int| 0 <= k < popped[i].len() implies is_full_key(
                    (#[trigger] popped[i][k]).key,
                ) by {
                    assert(popped[i][k] == runs[i][k + 1]);
                }
            }
        }
        lemma_merged_full_keys(popped);
        let rest = spec_merged(popped);
        let all = spec_merged(runs);
        assert forall|k: int| 0 <= k < all.len() implies is_full_key((#[trigger] all[k]).key) by {
            if k > 0 {
                assert(all[k] == rest[k - 1]);
            } else {
                assert(spec_full_keys(runs[m]));
            }
        }
    }
}

/// Whether every run is sorted.
pub open spec fn spec_runs_sorted(runs: Seq<Seq<EntryView>>) -> bool {
    forall|r: int| 0 <= r < runs.len() ==> spec_sorted(#[trigger] runs[r])
}

/// Whether no two runs hold an entry with the same user key and epoch.
pub open spec fn spec_runs_distinct(runs: Seq<Seq<EntryView>>) -> bool {
    forall|r1: int, r2: int, x: int, y: int|
        0 <= r1 < runs.len() && 0 <= r2 < runs.len() && r1 != r2 && 0 <= x < runs[r1].len() && 0
            <= y < runs[r2].len() ==> spec_user_key((#[trigger] runs[r1][x]).key) != spec_user_key(
            (#[trigger] runs[r2][y]).key,
        ) || spec_epoch(runs[r1][x].key) != spec_epoch(runs[r2][y].key)
}

/// Whether no key of any run is below `key`.
pub open spec fn spec_runs_not_below(runs: Seq<Seq<EntryView>>, key: Seq<u8>) -> bool {
    forall|r: int| 0 <= r < runs.len() ==> spec_not_below(#[trigger] runs[r], key)
}

/// No head among the first `n` runs is below the smallest one.
pub proof fn lemma_min_run_is_least(runs: Seq<Seq<EntryView>>, n: int, r: int)
    requires
        0 <= r < n <= runs.len(),
        runs[r].len() > 0,
    ensures
        0 <= spec_min_run(runs, n) < n,
        runs[spec_min_run(runs, n)].len() > 0,
        !full_key_lt(runs[r][0].key, runs[spec_min_run(runs, n)][0].key),
    decreases n,
{
    lemma_min_run_bounds(runs, n);
    lemma_min_run_bounds(runs, n - 1);
    let before = spec_min_run(runs, n - 1);
    let m = spec_min_run(runs, n);
    if r < n - 1 {
        lemma_min_run_is_least(runs, n - 1, r);
        if m != before {
            if full_key_lt(runs[r][0].key, runs[m][0].key) {
                lemma_full_key_transitive(runs[r][0].key, runs[m][0].key, runs[before][0].key);
            }
        }
    } else {
        if m != r {
            assert(!full_key_lt(runs[r][0].key, runs[before][0].key));
        } else {
            crate::key::lemma_full_key_irreflexive(runs[r][0].key);
        }
    }
}

/// Every merged entry is an entry of one of the runs.
pub proof fn lemma_merged_member(runs: Seq<Seq<EntryView>>, i: int) -> (src: (int, int))
    requires
        0 <= i < spec_merged(runs).len(),
    ensures
        0 <= src.0 < runs.len(),
        0 <= src.1 < runs[src.0].len(),
        spec_merged(runs)[i] == runs[src.0][src.1],
    decreases spec_total_len(runs),
{
    let m = spec_min_run(runs, runs.len() as int);
    lemma_total_len_pop(runs, m);
    if i == 0 {
        (m, 0)
    } else {
        let popped = spec_pop(runs, m);
        let src = lemma_merged_member(popped, i - 1);
        if src.0 == m {
            (m, src.1 + 1)
        } else {
            src
        }
    }
}

/// Merging keeps order: the merge of sorted runs that have no key in
/// common is sorted.
pub proof fn lemma_merged_sorted(runs: Seq<Seq<EntryView>>)
    requires
        spec_runs_sorted(runs),
        spec_runs_distinct(runs),
    ensures
        spec_sorted(spec_merged(runs)),
    decreases spec_total_len(runs),
{
    let m = spec_min_run(runs, runs.len() as int);
    lemma_min_run_bounds(runs, runs.len() as int);
    if m >= 0 {
        lemma_total_len_pop(runs, m);
        let popped = spec_pop(runs, m);
        let head = runs[m][0];
        assert forall|r: int| 0 <= r < popped.len() implies spec_sorted(#[trigger] popped[r]) by {
            assert(spec_sorted(runs[r]));
            if r == m {
                lemma_skip_sorted(runs[m], 1);
            }
        }
        assert forall|r1: int, r2: int, x: int, y: int|
            0 <= r1 < popped.len() && 0 <= r2 < popped.len() && r1 != r2 && 0 <= x
                < popped[r1].len() && 0 <= y < popped[r2].len() implies spec_user_key(
            (#[trigger] popped[r1][x]).key,
        ) != spec_user_key((#[trigger] popped[r2][y]).key) || spec_epoch(popped[r1][x].key)
            != spec_epoch(popped[r2][y].key) by {
            let x0 = if r1 == m {
                x + 1
            } else {
                x
            };
            let y0 = if r2 == m {
                y + 1
            } else {
                y
            };
            assert(popped[r1][x] == runs[r1][x0]);
            assert(popped[r2][y] == runs[r2][y0]);
        }
        lemma_merged_sorted(popped);
        let rest = spec_merged(popped);
        let all = spec_merged(runs);
        assert forall|i: int, j: int| 0 <= i < j < all.len() implies full_key_lt(
            (#[trigger] all[i]).key,
            (#[trigger] all[j]).key,
        ) by {
            assert(all[j] == rest[j - 1]);
            if i > 0 {
                assert(all[i] == rest[i - 1]);
            } else {
                let src = lemma_merged_member(popped, j - 1);
                let (r, x) = src;
                if r == m {
                    assert(popped[r][x] == runs[m][x + 1]);
                    assert(spec_sorted(runs[m]));
                } else {
                    assert(popped[r][x] == runs[r][x]);
                    lemma_min_run_is_least(runs, runs.len() as int, r);
                    let first = runs[r][0];
                    if !full_key_lt(head.key, first.key) {
                        lemma_full_key_total(head.key, first.key);
                        assert(spec_user_key(runs[m][0].key) != spec_user_key(runs[r][0].key)
                            || spec_epoch(runs[m][0].key) != spec_epoch(runs[r][0].key));
                    }
                    if x > 0 {
                        assert(spec_sorted(runs[r]));
                        lemma_full_key_transitive(head.key, first.key, runs[r][x].key);
                    }
                }
            }
        }
    }
}

/// The merge of runs of which no key is below `key` has no key below it.
pub proof fn lemma_merged_not_below(runs: Seq<Seq<EntryView>>, key: Seq<u8>)
    requires
        spec_runs_not_below(runs, key),
    ensures
        spec_not_below(spec_merged(runs), key),
{
    let all = spec_merged(runs);
    assert forall|i: int| 0 <= i < all.len() implies !full_key_lt((#[trigger] all[i]).key, key) by {
        let src = lemma_merged_member(runs, i);
        assert(spec_not_below(runs[src.0], key));
    }
}

/// What is left of each iterator.
pub open spec fn spec_runs<I: HummockIterator>(iters: Seq<I>) -> Seq<Seq<EntryView>> {
    iters.map_values(|it: I| it.remaining())
}

/// What each iterator yields after a rewind.
pub open spec fn spec_runs_rewound<I: HummockIterator>(iters: Seq<I>) -> Seq<Seq<EntryView>> {
    iters.map_values(|it: I| it.rewound())
}

/// What each iterator yields after a seek to `key`.
pub open spec fn spec_runs_sought<I: HummockIterator>(iters: Seq<I>, key: Seq<u8>) -> Seq<
    Seq<EntryView>,
> {
    iters.map_values(|it: I| it.sought(key))
}

/// Whether every iterator is usable.
pub open spec fn spec_iters_wf<I: HummockIterator>(iters: Seq<I>) -> bool {
    forall|i: int| 0 <= i < iters.len() ==> (#[trigger] iters[i]).wf()
}

/// Whether two sequences of iterators run over the same entries, one by
/// one.
pub open spec fn spec_same_sources<I: HummockIterator>(a: Seq<I>, b: Seq<I>) -> bool {
    &&& a.len() == b.len()
    &&& forall|i: int| 0 <= i < a.len() ==> spec_same_source(#[trigger] a[i], b[i])
}

/// Merges iterators that are each sorted; nothing is asked of how their
/// keys interleave.
pub struct UnorderedMergeIteratorInner<I: HummockIterator> {
    iters: Vec<I>,
    current: usize,
}

impl<I: HummockIterator> UnorderedMergeIteratorInner<I> {
    /// The merged iterators.
    pub closed spec fn iters(&self) -> Seq<I> {
        self.iters@
    }

    /// The remembered position is that of the smallest head.
    pub closed spec fn positioned(&self) -> bool {
        let m = spec_min_run(spec_runs(self.iters@), self.iters@.len() as int);
        self.current == if m < 0 {
            self.iters@.len() as int
        } else {
            m
        }
    }

    /// An iterator over the merge of `iters`, placed where they stand.
    pub fn new(iters: Vec<I>) -> (it: Self)
        requires
            spec_iters_wf(iters@),
        ensures
            it.wf(),
            it.iters() == iters@,
    {
        let mut it = UnorderedMergeIteratorInner { iters, current: 0 };
        it.find_smallest();
        it
    }

    /// Finds the iterator with the smallest current key.
    fn find_smallest(&mut self)
        requires
            spec_iters_wf(old(self).iters()),
        ensures
            final(self).iters() == old(self).iters(),
            final(self).positioned(),
    {
        let n = self.iters.len();
        let ghost runs = spec_runs(self.iters@);
        let mut best: usize = n;
        let mut i: usize = 0;
        while i < n
            invariant
                n == self.iters@.len(),
                i <= n,
                self.iters() == old(self).iters(),
                spec_iters_wf(self.iters()),
                runs == spec_runs(self.iters@),
                best as int == if spec_min_run(runs, i as int) < 0 {
                    n as int
                } else {
                    spec_min_run(runs, i as int)
                },
            decreases n - i,
        {
            proof {
                lemma_min_run_bounds(runs, i as int);
                self.iters@[i as int].lemma_full_keys();
                if best < n {
                    self.iters@[best as int].lemma_full_keys();
                }
            }
            if self.iters[i].is_valid() {
                if best == n {
                    best = i;
                } else {
                    let o = VersionedComparator::compare_key(
                        self.iters[i].key(),
                        self.iters[best].key(),
                    );
                    if o == KeyOrder::Less {
                        best = i;
                    }
                }
            }
            i += 1;
        }
        self.current = best;
    }
}

impl<I: HummockIterator> HummockIterator for UnorderedMergeIteratorInner<I> {
    open spec fn wf(&self) -> bool {
        &&& spec_iters_wf(self.iters())
        &&& self.positioned()
    }

    open spec fn remaining(&self) -> Seq<EntryView> {
        spec_merged(spec_runs(self.iters()))
    }

    open spec fn rewound(&self) -> Seq<EntryView> {
        spec_merged(spec_runs_rewound(self.iters()))
    }

    open spec fn sought(&self, key: Seq<u8>) -> Seq<EntryView> {
        spec_merged(spec_runs_sought(self.iters(), key))
    }

    proof fn lemma_full_keys(&self) {
        assert forall|i: int| 0 <= i < self.iters().len() implies spec_full_keys(
            #[trigger] spec_runs(self.iters())[i],
        ) by {
            self.iters()[i].lemma_full_keys();
        }
        assert forall|i: int| 0 <= i < self.iters().len() implies spec_full_keys(
            #[trigger] spec_runs_rewound(self.iters())[i],
        ) by {
            self.iters()[i].lemma_full_keys();
        }
        lemma_merged_full_keys(spec_runs(self.iters()));
        lemma_merged_full_keys(spec_runs_rewound(self.iters()));
        assert forall|key: Seq<u8>| spec_full_keys(#[trigger] self.sought(key)) by {
            assert forall|i: int| 0 <= i < self.iters().len() implies spec_full_keys(
                #[trigger] spec_runs_sought(self.iters(), key)[i],
            ) by {
                self.iters()[i].lemma_full_keys();
            }
            lemma_merged_full_keys(spec_runs_sought(self.iters(), key));
        }
    }

    fn is_valid(&self) -> (valid: bool) {
        proof {
            lemma_min_run_bounds(spec_runs(self.iters@), self.iters@.len() as int);
        }
        self.current < self.iters.len()
    }

    fn key(&self) -> (k: &[u8]) {
        proof {
            lemma_min_run_bounds(spec_runs(self.iters@), self.iters@.len() as int);
        }
        self.iters[self.current].key()
    }

    fn value(&self) -> (v: &HummockValue) {
        proof {
            lemma_min_run_bounds(spec_runs(self.iters@), self.iters@.len() as int);
        }
        self.iters[self.current].value()
    }

    fn next(&mut self) {
        let ghost runs = spec_runs(self.iters@);
        let ghost m = self.current as int;
        proof {
            lemma_min_run_bounds(runs, self.iters@.len() as int);
        }
        self.iters[self.current].next();
        proof {
            assert(spec_runs(self.iters@) =~= spec_pop(runs, m));
            assert(spec_merged(runs).skip(1) =~= spec_merged(spec_pop(runs, m)));
            assert(spec_same_sources(old(self).iters(), self.iters()));
        }
        self.find_smallest();
        proof {
            lemma_same_sources(old(self).iters(), self.iters());
        }
    }

    fn rewind(&mut self) {
        let n = self.iters.len();
        let mut i: usize = 0;
        while i < n
            invariant
                n == self.iters@.len(),
                i <= n,
                spec_iters_wf(self.iters()),
                spec_same_sources(old(self).iters(), self.iters()),
                forall|k: int|
                    0 <= k < i ==> (#[trigger] self.iters()[k]).remaining() == old(
                        self,
                    ).iters()[k].rewound(),
            decreases n - i,
        {
            self.iters[i].rewind();
            i += 1;
        }
        proof {
            assert(spec_runs(self.iters@) =~= spec_runs_rewound(old(self).iters()));
        }
        self.find_smallest();
        proof {
            lemma_same_sources(old(self).iters(), self.iters());
        }
    }

    fn seek(&mut self, key: &[u8]) {
        let n = self.iters.len();
        let mut i: usize = 0;
        while i < n
            invariant
                n == self.iters@.len(),
                i <= n,
                is_full_key(key@),
                spec_iters_wf(self.iters()),
                spec_same_sources(old(self).iters(), self.iters()),
                forall|k: int|
                    0 <= k < i ==> (#[trigger] self.iters()[k]).remaining() == old(
                        self,
                    ).iters()[k].sought(key@),
            decreases n - i,
        {
            self.iters[i].seek(key);
            i += 1;
        }
        proof {
            assert(spec_runs(self.iters@) =~= spec_runs_sought(old(self).iters(), key@));
        }
        self.find_smallest();
        proof {
            lemma_same_sources(old(self).iters(), self.iters());
        }
    }
}

/// Iterators that run over the same entries one by one merge to the same
/// entries after a rewind or a seek.
pub proof fn lemma_same_sources<I: HummockIterator>(a: Seq<I>, b: Seq<I>)
    requires
        spec_same_sources(a, b),
    ensures
        spec_runs_rewound(a) == spec_runs_rewound(b),
        forall|key: Seq<u8>| #[trigger] spec_runs_sought(a, key) == spec_runs_sought(b, key),
{
    assert(spec_runs_rewound(a) =~= spec_runs_rewound(b));
    assert forall|key: Seq<u8>| #[trigger]
        spec_runs_sought(a, key) == spec_runs_sought(b, key) by {
        assert(spec_runs_sought(a, key) =~= spec_runs_sought(b, key));
    }
}

} // verus!

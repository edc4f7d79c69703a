//! The retention rules of compaction: which versions of a key survive.
//!
//! Entries arrive in the versioned order. For each user key, versions above
//! the watermark are all kept; of the versions at or below it only the
//! newest can survive; a tombstone at or below the watermark is dropped when
//! tombstones are collected; and a filter may veto any entry.

use crate::buffer::{bytes_mut_as_slice, bytes_mut_view};
use crate::filter::CompactionFilter;
use crate::iterator::{spec_full_keys, spec_sorted};
use crate::key::{
    full_key_lt, get_epoch, is_full_key, lemma_full_key_order_user_keys, lemma_lex_irreflexive,
    lemma_lex_total, lex_lt, spec_epoch, spec_user_key, KeyOrder, VersionedComparator,
};
use crate::multi_builder::spec_user_keys_ascend;
use crate::value::EntryView;
use bytes::BytesMut;
use vstd::prelude::*;

verus! {

/// The rules of one scan.
#[verifier::ext_equal]
pub struct RetentionRule {
    /// The key at which the scan ends; empty if it has no end.
    pub right: Seq<u8>,
    /// Whether tombstones at or below the watermark are dropped.
    pub gc_delete_keys: bool,
    /// The epoch at or below which versions collapse.
    pub watermark: u64,
    /// Whether the filter vetoes the entry with a given key.
    pub deletes: spec_fn(Seq<u8>) -> bool,
}

/// The rules of a scan that ends at `right` and lets `filter` veto entries.
pub open spec fn spec_rule<F: CompactionFilter>(
    right: Seq<u8>,
    gc_delete_keys: bool,
    watermark: u64,
    filter: F,
) -> RetentionRule {
    RetentionRule { right, gc_delete_keys, watermark, deletes: |key: Seq<u8>| filter.deletes(key) }
}

/// What becomes of one entry.
#[derive(Clone, Copy, Debug, PartialEq, Eq, Structural)]
pub enum KeyAction {
    /// The scan ends before this entry.
    Stop,
    /// The entry is dropped.
    Skip,
    /// The entry is written; a new table may start with it only if
    /// `allow_split` holds.
    Add { allow_split: bool },
}

/// What a scan remembers between entries.
pub struct ScanModel {
    /// The first key seen with the current user key; empty before the
    /// first entry.
    pub last_key: Seq<u8>,
    /// Whether a version of the current user key at or below the watermark
    /// has been seen.
    pub seen: bool,
    /// Whether the scan has ended.
    pub stopped: bool,
}

/// The memory of a scan that has seen nothing.
pub open spec fn spec_scan_start() -> ScanModel {
    ScanModel { last_key: Seq::empty(), seen: false, stopped: false }
}

/// Whether `key` starts a user key other than the current one.
pub open spec fn spec_is_new_user_key(s: ScanModel, key: Seq<u8>) -> bool {
    s.last_key.len() == 0 || spec_user_key(key) != spec_user_key(s.last_key)
}

/// Whether the scan ends before an entry with this key: it does at the
/// first new user key that is not below the right end.
pub open spec fn spec_stops(rule: RetentionRule, s: ScanModel, key: Seq<u8>) -> bool {
    s.stopped || (spec_is_new_user_key(s, key) && rule.right.len() > 0 && !full_key_lt(
        key,
        rule.right,
    ))
}

/// Whether an older version at or below the watermark shadows this entry.
pub open spec fn spec_shadowed(s: ScanModel, key: Seq<u8>) -> bool {
    !spec_is_new_user_key(s, key) && s.seen
}

/// Whether an entry that the scan reaches is dropped.
pub open spec fn spec_drops(
    rule: RetentionRule,
    s: ScanModel,
    key: Seq<u8>,
    is_delete: bool,
) -> bool {
    let epoch = spec_epoch(key);
    ||| (epoch <= rule.watermark && rule.gc_delete_keys && is_delete)
    ||| (epoch < rule.watermark && spec_shadowed(s, key))
    ||| (rule.deletes)(key)
}

/// What becomes of an entry.
pub open spec fn spec_action(
    rule: RetentionRule,
    s: ScanModel,
    key: Seq<u8>,
    is_delete: bool,
) -> KeyAction {
    if spec_stops(rule, s, key) {
        KeyAction::Stop
    } else if spec_drops(rule, s, key, is_delete) {
        KeyAction::Skip
    } else {
        KeyAction::Add { allow_split: spec_is_new_user_key(s, key) }
    }
}

/// What the scan remembers after an entry.
pub open spec fn spec_advance(rule: RetentionRule, s: ScanModel, key: Seq<u8>) -> ScanModel {
    if spec_stops(rule, s, key) {
        ScanModel { last_key: s.last_key, seen: s.seen, stopped: true }
    } else {
        ScanModel {
            last_key: if spec_is_new_user_key(s, key) {
                key
            } else {
                s.last_key
            },
            seen: spec_shadowed(s, key) || spec_epoch(key) <= rule.watermark,
            stopped: false,
        }
    }
}

/// What the scan remembers after the first `n` entries of `input`.
pub open spec fn spec_state_after(rule: RetentionRule, input: Seq<EntryView>, n: int)
    -> ScanModel
    decreases n,
{
    if n <= 0 {
        spec_scan_start()
    } else {
        spec_advance(rule, spec_state_after(rule, input, n - 1), input[n - 1].key)
    }
}

/// What becomes of the entry at index `i` of `input`.
pub open spec fn spec_action_at(
    rule: RetentionRule,
    input: Seq<EntryView>,
    i: int,
) -> KeyAction {
    spec_action(rule, spec_state_after(rule, input, i), input[i].key, input[i].value is None)
}

/// The entries written among the first `n` of `input`, in order, each with
/// its `allow_split`.
pub open spec fn spec_added(
    rule: RetentionRule,
    input: Seq<EntryView>,
    n: int,
) -> Seq<(EntryView, bool)>
    decreases n,
{
    if n <= 0 {
        Seq::empty()
    } else {
        let before = spec_added(rule, input, n - 1);
        match spec_action_at(rule, input, n - 1) {
            KeyAction::Add { allow_split } => before.push((input[n - 1], allow_split)),
            _ => before,
        }
    }
}

/// The entries that a scan of `input` writes, in order.
pub open spec fn spec_retained(rule: RetentionRule, input: Seq<EntryView>)
    -> Seq<EntryView> {
    spec_added(rule, input, input.len() as int).map_values(|a: (EntryView, bool)| a.0)
}

/// The index in `input` of the entry written at position `a` among the
/// first `n` entries.
pub open spec fn spec_source(
    rule: RetentionRule,
    input: Seq<EntryView>,
    n: int,
    a: int,
) -> int
    decreases n,
{
    if n <= 0 {
        0
    } else if a < spec_added(rule, input, n - 1).len() {
        spec_source(rule, input, n - 1, a)
    } else {
        n - 1
    }
}

/// Every written entry is an entry of the input that the scan reached and
/// decided to write.
pub proof fn lemma_source(
    rule: RetentionRule,
    input: Seq<EntryView>,
    n: int,
    a: int,
)
    requires
        0 <= a < spec_added(rule, input, n).len(),
    ensures
        ({
            let i = spec_source(rule, input, n, a);
            let added = spec_added(rule, input, n);
            &&& 0 <= i < n
            &&& spec_action_at(rule, input, i) == KeyAction::Add { allow_split: added[a].1 }
            &&& input[i] == added[a].0
            &&& !spec_state_after(rule, input, i).stopped
        }),
    decreases n,
{
    if n > 0 && a < spec_added(rule, input, n - 1).len() {
        lemma_source(rule, input, n - 1, a);
    }
}

/// Written entries keep the order of the input.
pub proof fn lemma_source_increases(
    rule: RetentionRule,
    input: Seq<EntryView>,
    n: int,
    a: int,
    b: int,
)
    requires
        0 <= a < b < spec_added(rule, input, n).len(),
    ensures
        spec_source(rule, input, n, a) < spec_source(rule, input, n, b),
    decreases n,
{
    if n > 0 {
        if b < spec_added(rule, input, n - 1).len() {
            lemma_source_increases(rule, input, n - 1, a, b);
        } else {
            lemma_source(rule, input, n - 1, a);
        }
    }
}

/// An entry that the scan decides to write is among the written entries.
pub proof fn lemma_written_is_added(
    rule: RetentionRule,
    input: Seq<EntryView>,
    n: int,
    i: int,
) -> (a: int)
    requires
        0 <= i < n,
        spec_action_at(rule, input, i) is Add,
    ensures
        0 <= a < spec_added(rule, input, n).len(),
        spec_added(rule, input, n)[a].0 == input[i],
    decreases n,
{
    if i == n - 1 {
        spec_added(rule, input, n - 1).len() as int
    } else {
        lemma_written_is_added(rule, input, n - 1, i)
    }
}

/// A scan without a right end never ends early.
pub proof fn lemma_unbounded_scan_never_stops(
    rule: RetentionRule,
    input: Seq<EntryView>,
    n: int,
)
    requires
        rule.right.len() == 0,
    ensures
        !spec_state_after(rule, input, n).stopped,
    decreases n,
{
    if n > 0 {
        lemma_unbounded_scan_never_stops(rule, input, n - 1);
    }
}

/// In sorted input the entries between two entries of one user key have
/// that user key too.
pub proof fn lemma_sorted_run(input: Seq<EntryView>, i: int, k: int, j: int)
    requires
        spec_sorted(input),
        0 <= i <= k <= j < input.len(),
        spec_user_key(input[i].key) == spec_user_key(input[j].key),
    ensures
        spec_user_key(input[k].key) == spec_user_key(input[i].key),
{
    let (ui, uk) = (spec_user_key(input[i].key), spec_user_key(input[k].key));
    if i < k && k < j {
        lemma_full_key_order_user_keys(input[i].key, input[k].key);
        lemma_full_key_order_user_keys(input[k].key, input[j].key);
        lemma_lex_total(ui, uk);
    }
}

/// In sorted input a later entry of the same user key has an older epoch.
pub proof fn lemma_sorted_epochs(input: Seq<EntryView>, i: int, j: int)
    requires
        spec_sorted(input),
        0 <= i < j < input.len(),
        spec_user_key(input[i].key) == spec_user_key(input[j].key),
    ensures
        spec_epoch(input[i].key) > spec_epoch(input[j].key),
{
    lemma_lex_irreflexive(spec_user_key(input[i].key));
}

/// What a scan of sorted input remembers after an entry: the user key of
/// that entry, and whether that entry is at or below the watermark.
pub proof fn lemma_scan_memory(
    rule: RetentionRule,
    input: Seq<EntryView>,
    n: int,
)
    requires
        spec_sorted(input),
        spec_full_keys(input),
        0 < n <= input.len(),
        !spec_state_after(rule, input, n).stopped,
    ensures
        ({
            let s = spec_state_after(rule, input, n);
            &&& !spec_state_after(rule, input, n - 1).stopped
            &&& s.last_key.len() > 0
            &&& spec_user_key(s.last_key) == spec_user_key(input[n - 1].key)
            &&& s.seen == (spec_epoch(input[n - 1].key) <= rule.watermark)
        }),
    decreases n,
{
    let before = spec_state_after(rule, input, n - 1);
    assert(spec_state_after(rule, input, n) == spec_advance(rule, before, input[n - 1].key));
    assert(is_full_key(input[n - 1].key));
    if n > 1 {
        lemma_scan_memory(rule, input, n - 1);
        if spec_user_key(input[n - 1].key) == spec_user_key(input[n - 2].key) {
            lemma_sorted_epochs(input, n - 2, n - 1);
        }
    } else {
        assert(before == spec_scan_start());
    }
}

/// Whether the entry at index `i` follows an entry of the same user key.
pub open spec fn spec_continues_user_key(input: Seq<EntryView>, i: int) -> bool {
    i > 0 && spec_user_key(input[i].key) == spec_user_key(input[i - 1].key)
}

/// In sorted input the scan treats an entry as shadowed exactly when the
/// entry before it has the same user key and is at or below the watermark.
pub proof fn lemma_action_local(
    rule: RetentionRule,
    input: Seq<EntryView>,
    i: int,
)
    requires
        spec_sorted(input),
        spec_full_keys(input),
        0 <= i < input.len(),
        !spec_state_after(rule, input, i).stopped,
    ensures
        ({
            let s = spec_state_after(rule, input, i);
            &&& spec_is_new_user_key(s, input[i].key) == !spec_continues_user_key(input, i)
            &&& spec_shadowed(s, input[i].key) == (spec_continues_user_key(input, i) && spec_epoch(
                input[i - 1].key,
            ) <= rule.watermark)
        }),
{
    if i > 0 {
        lemma_scan_memory(rule, input, i);
    }
}

/// Order is kept: what a scan of sorted input writes is sorted.
pub proof fn lemma_retained_sorted(
    rule: RetentionRule,
    input: Seq<EntryView>,
)
    requires
        spec_sorted(input),
    ensures
        spec_sorted(spec_retained(rule, input)),
{
    let n = input.len() as int;
    let out = spec_retained(rule, input);
    assert forall|a: int, b: int| 0 <= a < b < out.len() implies full_key_lt(
        (#[trigger] out[a]).key,
        (#[trigger] out[b]).key,
    ) by {
        lemma_source(rule, input, n, a);
        lemma_source(rule, input, n, b);
        lemma_source_increases(rule, input, n, a, b);
    }
}

/// Live versions are kept: an entry above the watermark that the scan
/// reaches and the filter lets pass is written, with its value.
pub proof fn lemma_live_version_retained(
    rule: RetentionRule,
    input: Seq<EntryView>,
    i: int,
)
    requires
        0 <= i < input.len(),
        !spec_state_after(rule, input, i + 1).stopped,
        spec_epoch(input[i].key) > rule.watermark,
        !(rule.deletes)(input[i].key),
    ensures
        spec_retained(rule, input).contains(input[i]),
{
    let n = input.len() as int;
    let a = lemma_written_is_added(rule, input, n, i);
    assert(spec_retained(rule, input)[a] == input[i]);
}

/// Of the versions of a user key at or below the watermark only the newest
/// can be written: a written entry at or below the watermark is at least
/// as new as every such version in sorted input.
pub proof fn lemma_survivor_is_newest(
    rule: RetentionRule,
    input: Seq<EntryView>,
    a: int,
    i: int,
)
    requires
        spec_sorted(input),
        spec_full_keys(input),
        0 <= a < spec_retained(rule, input).len(),
        0 <= i < input.len(),
        spec_user_key(input[i].key) == spec_user_key(spec_retained(rule, input)[a].key),
        spec_epoch(spec_retained(rule, input)[a].key) <= rule.watermark,
        spec_epoch(input[i].key) <= rule.watermark,
    ensures
        spec_epoch(input[i].key) <= spec_epoch(spec_retained(rule, input)[a].key),
{
    let n = input.len() as int;
    let s = spec_source(rule, input, n, a);
    lemma_source(rule, input, n, a);
    if i < s {
        lemma_sorted_run(input, i, s - 1, s);
        lemma_action_local(rule, input, s);
        lemma_sorted_epochs(input, s - 1, s);
        if i < s - 1 {
            lemma_sorted_epochs(input, i, s - 1);
        }
    } else if i > s {
        lemma_sorted_epochs(input, s, i);
    }
}

/// At most one version of a user key at or below the watermark is written.
pub proof fn lemma_one_survivor(
    rule: RetentionRule,
    input: Seq<EntryView>,
    a: int,
    b: int,
)
    requires
        spec_sorted(input),
        spec_full_keys(input),
        0 <= a < spec_retained(rule, input).len(),
        0 <= b < spec_retained(rule, input).len(),
        spec_user_key(spec_retained(rule, input)[a].key) == spec_user_key(
            spec_retained(rule, input)[b].key,
        ),
        spec_epoch(spec_retained(rule, input)[a].key) <= rule.watermark,
        spec_epoch(spec_retained(rule, input)[b].key) <= rule.watermark,
    ensures
        a == b,
{
    let n = input.len() as int;
    if a != b {
        let (lo, hi) = if a < b {
            (a, b)
        } else {
            (b, a)
        };
        lemma_source(rule, input, n, lo);
        lemma_source(rule, input, n, hi);
        lemma_source_increases(rule, input, n, lo, hi);
        let (slo, shi) = (spec_source(rule, input, n, lo), spec_source(rule, input, n, hi));
        lemma_survivor_is_newest(rule, input, hi, slo);
        lemma_sorted_epochs(input, slo, shi);
    }
}

/// Tombstones collapse: when tombstones are collected, a tombstone at or
/// below the watermark in sorted input leaves nothing of its user key at
/// its epoch or older.
pub proof fn lemma_tombstone_collapses(
    rule: RetentionRule,
    input: Seq<EntryView>,
    d: int,
    a: int,
)
    requires
        spec_sorted(input),
        spec_full_keys(input),
        rule.gc_delete_keys,
        0 <= d < input.len(),
        input[d].value is None,
        spec_epoch(input[d].key) <= rule.watermark,
        0 <= a < spec_retained(rule, input).len(),
        spec_user_key(spec_retained(rule, input)[a].key) == spec_user_key(input[d].key),
    ensures
        spec_epoch(spec_retained(rule, input)[a].key) > spec_epoch(input[d].key),
{
    let n = input.len() as int;
    let s = spec_source(rule, input, n, a);
    lemma_source(rule, input, n, a);
    if s < d {
        lemma_sorted_epochs(input, s, d);
    } else if s > d {
        lemma_sorted_run(input, d, s - 1, s);
        lemma_action_local(rule, input, s);
        lemma_sorted_epochs(input, s - 1, s);
        if d < s - 1 {
            lemma_sorted_epochs(input, d, s - 1);
        }
    }
}

/// What a scan of sorted input writes has user keys that never descend,
/// and that rise strictly at every entry that allows a split.
pub proof fn lemma_added_user_keys_ascend(
    rule: RetentionRule,
    input: Seq<EntryView>,
    n: int,
)
    requires
        spec_sorted(input),
        spec_full_keys(input),
        0 <= n <= input.len(),
    ensures
        spec_user_keys_ascend(spec_added(rule, input, n)),
{
    let items = spec_added(rule, input, n);
    assert forall|q: int, r: int| 0 <= q < r < items.len() implies {
        &&& !lex_lt(
            spec_user_key((#[trigger] items[r]).0.key),
            spec_user_key((#[trigger] items[q]).0.key),
        )
        &&& items[r].1 ==> lex_lt(spec_user_key(items[q].0.key), spec_user_key(items[r].0.key))
    } by {
        lemma_source(rule, input, n, q);
        lemma_source(rule, input, n, r);
        lemma_source_increases(rule, input, n, q, r);
        let (sq, sr) = (spec_source(rule, input, n, q), spec_source(rule, input, n, r));
        let (uq, ur) = (spec_user_key(input[sq].key), spec_user_key(input[sr].key));
        lemma_full_key_order_user_keys(input[sq].key, input[sr].key);
        if items[r].1 {
            lemma_action_local(rule, input, sr);
            if uq == ur {
                lemma_sorted_run(input, sq, sr - 1, sr);
            }
            lemma_lex_total(uq, ur);
        }
    }
}

/// A scan whose right end is the first key of a user key writes only
/// entries with user keys below that one.
pub proof fn lemma_scan_within_right(
    rule: RetentionRule,
    input: Seq<EntryView>,
    n: int,
)
    requires
        spec_full_keys(input),
        is_full_key(rule.right),
        spec_epoch(rule.right) == u64::MAX,
        0 < n <= input.len(),
        !spec_state_after(rule, input, n).stopped,
    ensures
        ({
            let s = spec_state_after(rule, input, n);
            &&& s.last_key.len() > 0
            &&& spec_user_key(s.last_key) == spec_user_key(input[n - 1].key)
            &&& lex_lt(spec_user_key(input[n - 1].key), spec_user_key(rule.right))
        }),
    decreases n,
{
    let before = spec_state_after(rule, input, n - 1);
    assert(spec_state_after(rule, input, n) == spec_advance(rule, before, input[n - 1].key));
    assert(is_full_key(input[n - 1].key));
    if n > 1 {
        lemma_scan_within_right(rule, input, n - 1);
    } else {
        assert(before == spec_scan_start());
    }
}

/// Splits lie apart: what a scan writes that ends at the first key of a
/// user key, and what a scan writes whose input starts at or after that
/// key, have no user key in common.
pub proof fn lemma_splits_disjoint(
    rule: RetentionRule,
    input: Seq<EntryView>,
    next_rule: RetentionRule,
    next_input: Seq<EntryView>,
    a: int,
    b: int,
)
    requires
        spec_full_keys(input),
        is_full_key(rule.right),
        spec_epoch(rule.right) == u64::MAX,
        forall|j: int|
            0 <= j < next_input.len() ==> !full_key_lt(
                (#[trigger] next_input[j]).key,
                rule.right,
            ),
        0 <= a < spec_retained(rule, input).len(),
        0 <= b < spec_retained(next_rule, next_input).len(),
    ensures
        spec_user_key(spec_retained(rule, input)[a].key) != spec_user_key(
            spec_retained(next_rule, next_input)[b].key,
        ),
{
    let sa = spec_source(rule, input, input.len() as int, a);
    lemma_source(rule, input, input.len() as int, a);
    assert(!spec_state_after(rule, input, sa + 1).stopped);
    lemma_scan_within_right(rule, input, sa + 1);
    let sb = spec_source(next_rule, next_input, next_input.len() as int, b);
    lemma_source(next_rule, next_input, next_input.len() as int, b);
    lemma_full_key_order_user_keys(next_input[sb].key, rule.right);
}

/// After the scan has ended, no further entry is written.
pub proof fn lemma_added_after_stop(
    rule: RetentionRule,
    input: Seq<EntryView>,
    n: int,
    m: int,
)
    requires
        0 <= n <= m,
        spec_state_after(rule, input, n).stopped || (n < m && spec_action_at(rule, input, n)
            == KeyAction::Stop),
    ensures
        spec_state_after(rule, input, m).stopped || m == n,
        spec_added(rule, input, m) == spec_added(rule, input, n),
    decreases m - n,
{
    if n < m {
        if n < m - 1 || spec_state_after(rule, input, n).stopped {
            lemma_added_after_stop(rule, input, n, m - 1);
        }
        assert(spec_action_at(rule, input, m - 1) == KeyAction::Stop);
    }
}

/// What is written among the first `n` entries stays a prefix of what is
/// written among the first `m`.
pub proof fn lemma_added_prefix(
    rule: RetentionRule,
    input: Seq<EntryView>,
    n: int,
    m: int,
)
    requires
        0 <= n <= m,
    ensures
        spec_added(rule, input, n).len() <= spec_added(rule, input, m).len(),
        spec_added(rule, input, m).subrange(0, spec_added(rule, input, n).len() as int)
            == spec_added(rule, input, n),
    decreases m - n,
{
    if n < m {
        lemma_added_prefix(rule, input, n, m - 1);
        let a = spec_added(rule, input, n);
        let b = spec_added(rule, input, m - 1);
        let c = spec_added(rule, input, m);
        assert(c.subrange(0, a.len() as int) =~= b.subrange(0, a.len() as int));
    } else {
        let a = spec_added(rule, input, n);
        assert(a.subrange(0, a.len() as int) =~= a);
    }
}

/// What a scan remembers between entries.
pub struct ScanState {
    last_key: BytesMut,
    watermark_can_see_last_key: bool,
}

impl View for ScanState {
    type V = ScanModel;

    /// The memory of a scan that has not ended.
    closed spec fn view(&self) -> ScanModel {
        ScanModel {
            last_key: bytes_mut_view(self.last_key),
            seen: self.watermark_can_see_last_key,
            stopped: false,
        }
    }
}

impl ScanState {
    /// The memory of a scan that has seen nothing.
    pub fn new() -> (s: ScanState)
        ensures
            s@ == spec_scan_start(),
    {
        ScanState { last_key: BytesMut::new(), watermark_can_see_last_key: false }
    }

    /// Decides what becomes of the entry with key `iter_key`, and
    /// remembers it unless the scan ends there.
    pub fn observe<F: CompactionFilter>(
        &mut self,
        right: &[u8],
        gc_delete_keys: bool,
        watermark: u64,
        filter: &F,
        iter_key: &[u8],
        is_delete: bool,
    ) -> (action: KeyAction)
        requires
            is_full_key(iter_key@),
            right@.len() == 0 || is_full_key(right@),
            old(self)@.last_key.len() == 0 || is_full_key(old(self)@.last_key),
        ensures
            final(self)@.last_key.len() == 0 || is_full_key(final(self)@.last_key),
            ({
                let rule = spec_rule(right@, gc_delete_keys, watermark, *filter);
                &&& action == spec_action(rule, old(self)@, iter_key@, is_delete)
                &&& action != KeyAction::Stop ==> final(self)@ == spec_advance(
                    rule,
                    old(self)@,
                    iter_key@,
                )
                &&& action == KeyAction::Stop ==> final(self)@ == old(self)@
            }),
    {
        let is_new_user_key = self.last_key.is_empty() || !VersionedComparator::same_user_key(
            iter_key,
            bytes_mut_as_slice(&self.last_key),
        );
        let epoch = get_epoch(iter_key);
        if is_new_user_key {
            if right.len() > 0 && VersionedComparator::compare_key(iter_key, right)
                != KeyOrder::Less {
                return KeyAction::Stop;
            }
            self.last_key.clear();
            self.last_key.extend_from_slice(iter_key);
            self.watermark_can_see_last_key = false;
            assert(bytes_mut_view(self.last_key) =~= iter_key@);
        }
        let mut drop = (epoch <= watermark && gc_delete_keys && is_delete) || (epoch < watermark
            && self.watermark_can_see_last_key);
        if !drop && filter.should_delete(iter_key) {
            drop = true;
        }
        if epoch <= watermark {
            self.watermark_can_see_last_key = true;
        }
        if drop {
            KeyAction::Skip
        } else {
            KeyAction::Add { allow_split: is_new_user_key }
        }
    }
}

} // verus!

//! The client's view of the store: the pinned committed version and the
//! shared buffers of the epochs that are not yet committed.

use crate::epochs::{
    lemma_epochs_between, lemma_epochs_between_unique, lemma_increasing_ascends, spec_ascending,
    spec_epochs_between, spec_lists,
};
use crate::shared_buffer::{SharedBuffer, SharedBufferView};
use crate::task::Level;
use crate::version::{
    push_group_levels, spec_combined_levels, spec_group_index, spec_group_levels, HummockVersion,
};
use std::collections::{BTreeMap, BTreeSet};
use std::sync::Arc;
use tokio::sync::mpsc::UnboundedSender;
use vstd::prelude::*;
use vstd::std_specs::btree::group_btree_axioms;
use vstd::std_specs::iter::IteratorSpec;

verus! {

/// `tokio::sync::mpsc::UnboundedSender`, carried through as it is.
#[verifier::external_type_specification]
#[verifier::external_body]
#[verifier::reject_recursive_types(T)]
pub struct ExUnboundedSender<T>(UnboundedSender<T>);

/// `<UnboundedSender<T> as Clone>::clone` gives another handle on the same
/// channel. Nothing is claimed of the handle.
pub assume_specification<T>[ <UnboundedSender<T> as Clone>::clone ](
    tx: &UnboundedSender<T>,
) -> (other: UnboundedSender<T>)
;

/// `UnboundedSender::send` puts the id on the channel unless the receiving
/// half is closed. Whether it did is not looked at, and nothing is claimed of
/// the call but that it returns without unwinding. `send` itself does not
/// panic: it ends the process if the count of messages overflows, and
/// otherwise queues the message and wakes the receiving task. That the
/// wake-up does not unwind is taken on trust from the runtime that made the
/// receiver's waker.
#[verifier::external_body]
fn post_unpin(tx: &UnboundedSender<u64>, version_id: u64)
    opens_invariants none
    no_unwind
{
    tx.send(version_id).ok();
}

/// A version that is in use. When the value is dropped its id is posted on
/// the unpin channel, so that the manager can be told to release it.
pub struct PinnedVersion {
    version: HummockVersion,
    unpin_worker_tx: UnboundedSender<u64>,
}

impl Drop for PinnedVersion {
    fn drop(&mut self)
        opens_invariants none
        no_unwind
    {
        post_unpin(&self.unpin_worker_tx, self.version.id);
    }
}

impl PinnedVersion {
    /// The version that is pinned.
    pub closed spec fn spec_version(&self) -> HummockVersion {
        self.version
    }

    /// Pins `version`; `unpin_worker_tx` is the channel its id goes to when
    /// the pin is dropped.
    pub fn new(version: HummockVersion, unpin_worker_tx: UnboundedSender<u64>) -> (p: PinnedVersion)
        ensures
            p.spec_version() == version,
    {
        PinnedVersion { version, unpin_worker_tx }
    }

    /// The id of the version.
    pub fn id(&self) -> (id: u64)
        ensures
            id == self.spec_version().id,
    {
        self.version.id
    }

    /// The levels in reading order: of all groups without a group id, else
    /// of the first group with that id.
    pub fn levels(&self, compaction_group_id: Option<u64>) -> (levels: Vec<&Level>)
        requires
            compaction_group_id matches Some(id) ==> spec_group_index(
                self.spec_version().levels@,
                id,
            ) < self.spec_version().levels@.len(),
        ensures
            levels@.map_values(|l: &Level| *l) == match compaction_group_id {
                None => spec_combined_levels(self.spec_version().levels@),
                Some(id) => spec_group_levels(
                    self.spec_version().levels@[spec_group_index(self.spec_version().levels@, id)],
                ),
            },
    {
        match compaction_group_id {
            None => self.version.get_combined_levels(),
            Some(id) => {
                let group = self.version.get_compaction_group_levels(id).unwrap();
                let mut ret: Vec<&Level> = Vec::new();
                assert(ret@.map_values(|l: &Level| *l) =~= Seq::<Level>::empty());
                push_group_levels(&mut ret, group);
                assert(Seq::<Level>::empty() + spec_group_levels(*group) =~= spec_group_levels(
                    *group,
                ));
                ret
            },
        }
    }

    /// The highest epoch whose data is durable in this version.
    pub fn max_committed_epoch(&self) -> (e: u64)
        ensures
            e == self.spec_version().max_committed_epoch,
    {
        self.version.max_committed_epoch
    }

    /// The lowest epoch that can still be read in this version.
    pub fn safe_epoch(&self) -> (e: u64)
        ensures
            e == self.spec_version().safe_epoch,
    {
        self.version.safe_epoch
    }

    /// The version that is pinned.
    pub fn version(&self) -> (v: &HummockVersion)
        ensures
            *v == self.spec_version(),
    {
        &self.version
    }
}

/// `BTreeMap::get_mut` gives the value stored under the key for writing,
/// if there is one: what is written through the reference is what the map
/// holds under the key afterwards, and nothing else in the map changes.
#[verifier::external_body]
fn buffer_mut(buffers: &mut BTreeMap<u64, SharedBuffer>, epoch: u64) -> (b: Option<
    &mut SharedBuffer,
>)
    ensures
        b is Some <==> old(buffers)@.contains_key(epoch),
        b is None ==> final(buffers)@ == old(buffers)@,
        b matches Some(buffer) ==> *buffer == old(buffers)@[epoch] && final(buffers)@ == old(
            buffers,
        )@.insert(epoch, *final(buffer)),
{
    buffers.get_mut(&epoch)
}

/// The epochs of all buffers, oldest first.
fn sorted_epochs(buffers: &BTreeMap<u64, SharedBuffer>) -> (out: Vec<u64>)
    ensures
        spec_ascending(out@),
        forall|e: u64| out@.contains(e) <==> buffers@.contains_key(e),
{
    broadcast use group_btree_axioms;

    let mut out: Vec<u64> = Vec::new();
    let ghost all = buffers.iter().remaining();
    let ghost keys = all.map_values(|kv: (&u64, &SharedBuffer)| *kv.0);
    let ghost mut done: int = 0;
    for kv in it: buffers.iter()
        invariant
            all == it.seq(),
            done == it.index(),
            keys == all.map_values(|kv: (&u64, &SharedBuffer)| *kv.0),
            out@ == keys.subrange(0, done),
    {
        out.push(*kv.0);
        proof {
            assert(keys.subrange(0, done + 1) =~= keys.subrange(0, done).push(keys[done]));
            done = done + 1;
        }
    }
    proof {
        assert(done == all.len());
        assert(out@ =~= keys);
        lemma_increasing_ascends(keys);
        assert(all.unref().to_set() == buffers@.kv_pairs());
        assert forall|e: u64| out@.contains(e) <==> buffers@.contains_key(e) by {
            if out@.contains(e) {
                let i = choose|i: int| 0 <= i < out@.len() && out@[i] == e;
                assert(buffers@.contains_key(*all[i].0));
            }
            if buffers@.contains_key(e) {
                assert(buffers@.kv_pairs().contains((e, buffers@[e])));
                assert(all.unref().to_set().contains((e, buffers@[e])));
                assert(all.unref().contains((e, buffers@[e])));
                let p = choose|p: int|
                    0 <= p < all.unref().len() && all.unref()[p] == (e, buffers@[e]);
                assert(keys[p] == e);
            }
        }
    }
    out
}

/// The epochs of the buffers above `lo` and at most `hi`, oldest first;
/// without `lo`, all epochs up to `hi`.
fn epochs_between(buffers: &BTreeMap<u64, SharedBuffer>, lo: Option<u64>, hi: u64) -> (out: Vec<
    u64,
>)
    ensures
        out@ == spec_epochs_between(
            buffers@.dom(),
            match lo {
                Some(e) => e as int,
                None => -1,
            },
            hi as int,
        ),
{
    let ghost low = match lo {
        Some(e) => e as int,
        None => -1,
    };
    let keys = sorted_epochs(buffers);
    let mut out: Vec<u64> = Vec::new();
    let ghost mut src: Seq<int> = Seq::empty();
    let mut p: usize = 0;
    while p < keys.len()
        invariant
            p <= keys@.len(),
            low == match lo {
                Some(e) => e as int,
                None => -1,
            },
            src.len() == out@.len(),
            forall|i: int|
                0 <= i < out@.len() ==> 0 <= #[trigger] src[i] < p && out@[i] == keys@[src[i]]
                    && low < out@[i] <= hi,
            forall|i: int, j: int| 0 <= i < j < out@.len() ==> src[i] < src[j],
            forall|q: int|
                0 <= q < p && low < (#[trigger] keys@[q]) <= hi ==> out@.contains(keys@[q]),
        decreases keys@.len() - p,
    {
        let epoch = keys[p];
        let above = match lo {
            Some(e) => epoch > e,
            None => true,
        };
        let ghost before = out@;
        let ghost src_before = src;
        if above && epoch <= hi {
            out.push(epoch);
            proof {
                src = src.push(p as int);
                assert forall|i: int| 0 <= i < out@.len() implies 0 <= #[trigger] src[i] < p + 1
                    && out@[i] == keys@[src[i]] && low < out@[i] <= hi by {
                    if i < before.len() {
                        assert(src[i] == src_before[i]);
                        assert(out@[i] == before[i]);
                    }
                }
                assert forall|i: int, j: int| 0 <= i < j < out@.len() implies src[i] < src[j] by {
                    assert(src[i] == src_before[i]);
                    if j < before.len() {
                        assert(src[j] == src_before[j]);
                    }
                }
                assert forall|q: int|
                    0 <= q < p + 1 && low < (#[trigger] keys@[q]) <= hi implies out@.contains(
                    keys@[q],
                ) by {
                    if q < p {
                        let i = choose|i: int| 0 <= i < before.len() && before[i] == keys@[q];
                        assert(out@[i] == keys@[q]);
                    } else {
                        assert(out@[before.len() as int] == keys@[q]);
                    }
                }
            }
        }
        p += 1;
    }
    proof {
        assert forall|i: int, j: int| 0 <= i < j < out@.len() implies out@[i] < out@[j] by {
            assert(src[i] < src[j]);
            assert(keys@[src[i]] < keys@[src[j]]);
        }
        assert forall|e: u64|
            out@.contains(e) <==> buffers@.dom().contains(e) && low < e <= hi by {
            if out@.contains(e) {
                let i = choose|i: int| 0 <= i < out@.len() && out@[i] == e;
                assert(keys@.contains(keys@[src[i]]));
            }
            if buffers@.dom().contains(e) && low < e <= hi {
                assert(keys@.contains(e));
                let q = choose|q: int| 0 <= q < keys@.len() && keys@[q] == e;
                assert(out@.contains(keys@[q]));
            }
        }
        lemma_epochs_between_unique(out@, buffers@.dom(), low, hi as int);
    }
    out
}

/// The shared buffers that a read at `read_epoch` sees when epochs up to
/// `committed` are committed: those of the epochs above `committed` and
/// at most `read_epoch`, newest first.
pub open spec fn spec_visible(buffers: Map<u64, SharedBuffer>, committed: u64, read_epoch: u64)
    -> Seq<SharedBuffer> {
    spec_epochs_between(buffers.dom(), committed as int, read_epoch as int).reverse().map_values(
        |e: u64| buffers[e],
    )
}

/// A read sees the uncommitted epochs up to its own, newest first: the
/// epochs whose buffers are visible strictly descend, each lies above the
/// committed epoch and is at most the read epoch, and no epoch with a
/// buffer in that range is left out.
pub proof fn lemma_visible_descends(buffers: Map<u64, SharedBuffer>, committed: u64, read_epoch: u64)
    ensures
        ({
            let epochs = spec_epochs_between(
                buffers.dom(),
                committed as int,
                read_epoch as int,
            ).reverse();
            &&& spec_visible(buffers, committed, read_epoch).len() == epochs.len()
            &&& forall|i: int|
                0 <= i < epochs.len() ==> spec_visible(buffers, committed, read_epoch)[i]
                    == buffers[#[trigger] epochs[i]] && buffers.contains_key(epochs[i])
                    && committed < epochs[i] <= read_epoch
            &&& forall|i: int, j: int| 0 <= i < j < epochs.len() ==> epochs[i] > epochs[j]
            &&& forall|e: u64|
                buffers.contains_key(e) && committed < e <= read_epoch ==> epochs.contains(e)
        }),
{
    let up = spec_epochs_between(buffers.dom(), committed as int, read_epoch as int);
    let epochs = up.reverse();
    lemma_epochs_between(buffers.dom(), committed as int, read_epoch as int);
    assert forall|i: int| 0 <= i < epochs.len() implies buffers.contains_key(
        #[trigger] epochs[i],
    ) && committed < epochs[i] <= read_epoch by {
        assert(up.contains(up[up.len() - 1 - i]));
    }
    assert forall|e: u64|
        buffers.contains_key(e) && committed < e <= read_epoch implies epochs.contains(e) by {
        assert(up.contains(e));
        let i = choose|i: int| 0 <= i < up.len() && up[i] == e;
        assert(epochs[up.len() - 1 - i] == e);
    }
}

/// What a read works on: the pinned version and the shared buffers it
/// sees.
pub struct ReadVersion {
    /// The shared buffers, newest epoch first.
    pub shared_buffer: Vec<SharedBuffer>,
    /// The version that was pinned at the time of the read.
    pub pinned_version: Arc<PinnedVersion>,
}

/// The pinned version and the shared buffers of the epochs that are not
/// yet committed.
pub struct LocalVersion {
    shared_buffer: BTreeMap<u64, SharedBuffer>,
    pinned_version: Arc<PinnedVersion>,
    /// The ids of all versions that were pinned here.
    pub version_ids_in_use: BTreeSet<u64>,
}

impl LocalVersion {
    /// The shared buffers, by epoch.
    pub closed spec fn buffers(&self) -> Map<u64, SharedBuffer> {
        self.shared_buffer@
    }

    /// The pinned version.
    pub closed spec fn pinned(&self) -> Arc<PinnedVersion> {
        self.pinned_version
    }

    /// The ids of all versions that were pinned here.
    pub closed spec fn ids_in_use(&self) -> Set<u64> {
        self.version_ids_in_use@
    }

    /// A local version that pins `version` and has no shared buffers.
    pub fn new(version: HummockVersion, unpin_worker_tx: UnboundedSender<u64>) -> (v: Self)
        ensures
            v.buffers() == Map::<u64, SharedBuffer>::empty(),
            v.pinned().spec_version() == version,
            v.ids_in_use() == Set::<u64>::empty().insert(version.id),
    {
        broadcast use group_btree_axioms;

        let mut version_ids_in_use: BTreeSet<u64> = BTreeSet::new();
        let _ = version_ids_in_use.insert(version.id);
        LocalVersion {
            shared_buffer: BTreeMap::new(),
            pinned_version: Arc::new(PinnedVersion::new(version, unpin_worker_tx)),
            version_ids_in_use,
        }
    }

    /// The pinned version.
    pub fn pinned_version(&self) -> (p: &Arc<PinnedVersion>)
        ensures
            *p == self.pinned(),
    {
        &self.pinned_version
    }

    /// The shared buffer of `epoch`, if there is one.
    pub fn get_shared_buffer(&self, epoch: u64) -> (b: Option<&SharedBuffer>)
        ensures
            b is Some <==> self.buffers().contains_key(epoch),
            b matches Some(buffer) ==> *buffer == self.buffers()[epoch],
    {
        broadcast use group_btree_axioms;

        self.shared_buffer.get(&epoch)
    }

    /// The shared buffer of `epoch` for writing, if there is one.
    pub fn get_mut_shared_buffer(&mut self, epoch: u64) -> (b: Option<&mut SharedBuffer>)
        ensures
            b is Some <==> old(self).buffers().contains_key(epoch),
            final(self).pinned() == old(self).pinned(),
            final(self).ids_in_use() == old(self).ids_in_use(),
            b is None ==> final(self).buffers() == old(self).buffers(),
            b matches Some(buffer) ==> *buffer == old(self).buffers()[epoch] && final(self).buffers() == old(self).buffers().insert(epoch, *final(buffer)),
    {
        buffer_mut(&mut self.shared_buffer, epoch)
    }

    /// The shared buffers with their epochs, oldest epoch first.
    pub fn iter_shared_buffer(&self) -> (all: Vec<(u64, &SharedBuffer)>)
        ensures
            all@.map_values(|b: (u64, &SharedBuffer)| b.0) == spec_epochs_between(
                self.buffers().dom(),
                -1,
                u64::MAX as int,
            ),
            forall|i: int|
                0 <= i < all@.len() ==> self.buffers().contains_key((#[trigger] all@[i]).0)
                    && *all@[i].1 == self.buffers()[all@[i].0],
    {
        broadcast use group_btree_axioms;

        let epochs = epochs_between(&self.shared_buffer, None, u64::MAX);
        proof {
            lemma_epochs_between(self.shared_buffer@.dom(), -1, u64::MAX as int);
        }
        let mut all: Vec<(u64, &SharedBuffer)> = Vec::new();
        let mut i: usize = 0;
        while i < epochs.len()
            invariant
                i <= epochs@.len(),
                spec_lists(epochs@, self.shared_buffer@.dom(), -1, u64::MAX as int),
                all@.len() == i,
                forall|k: int|
                    0 <= k < i ==> (#[trigger] all@[k]).0 == epochs@[k]
                        && self.shared_buffer@.contains_key(all@[k].0) && *all@[k].1
                        == self.shared_buffer@[all@[k].0],
            decreases epochs@.len() - i,
        {
            assert(epochs@.contains(epochs@[i as int]));
            match self.shared_buffer.get(&epochs[i]) {
                Some(buffer) => {
                    all.push((epochs[i], buffer));
                },
                None => {
                    assert(false);
                },
            }
            i += 1;
        }
        assert(all@.map_values(|b: (u64, &SharedBuffer)| b.0) =~= epochs@);
        all
    }

    /// The shared buffer of `epoch` for writing; it is created, without
    /// writes, if there is none yet.
    pub fn new_shared_buffer(&mut self, epoch: u64) -> (b: &mut SharedBuffer)
        ensures
            final(self).pinned() == old(self).pinned(),
            final(self).ids_in_use() == old(self).ids_in_use(),
            final(self).buffers() == old(self).buffers().insert(epoch, *final(b)),
            old(self).buffers().contains_key(epoch) ==> *b == old(self).buffers()[epoch],
            !old(self).buffers().contains_key(epoch) ==> b@ == (SharedBufferView {
                epoch,
                entries: Seq::empty(),
            }),
    {
        broadcast use group_btree_axioms;

        if !self.shared_buffer.contains_key(&epoch) {
            let _ = self.shared_buffer.insert(epoch, SharedBuffer::new(epoch));
        }
        let ghost with_buffer = self.shared_buffer@;
        let b = buffer_mut(&mut self.shared_buffer, epoch).unwrap();
        proof {
            assert(with_buffer.insert(epoch, *final(b)) =~= old(self).buffers().insert(
                epoch,
                *final(b),
            ));
        }
        b
    }

    /// Pins a new version. If it commits further epochs, the shared buffers
    /// of all epochs that are now committed are dropped and their epochs
    /// returned, oldest first.
    pub fn set_pinned_version(&mut self, new_pinned_version: HummockVersion) -> (cleaned: Vec<u64>)
        ensures
            final(self).pinned().spec_version() == new_pinned_version,
            final(self).ids_in_use() == old(self).ids_in_use().insert(new_pinned_version.id),
            ({
                let committed = new_pinned_version.max_committed_epoch;
                if old(self).pinned().spec_version().max_committed_epoch < committed {
                    &&& cleaned@ == spec_epochs_between(
                        old(self).buffers().dom(),
                        -1,
                        committed as int,
                    )
                    &&& final(self).buffers() == old(self).buffers().restrict(
                        Set::new(|e: u64| e > committed),
                    )
                } else {
                    &&& cleaned@.len() == 0
                    &&& final(self).buffers() == old(self).buffers()
                }
            }),
    {
        broadcast use group_btree_axioms;

        let mut cleaned_epoch: Vec<u64> = Vec::new();
        let committed = new_pinned_version.max_committed_epoch;
        if self.pinned_version.max_committed_epoch() < committed {
            cleaned_epoch = epochs_between(&self.shared_buffer, None, committed);
            proof {
                lemma_epochs_between(self.shared_buffer@.dom(), -1, committed as int);
            }
            let ghost before = self.shared_buffer@;
            let mut i: usize = 0;
            while i < cleaned_epoch.len()
                invariant
                    i <= cleaned_epoch@.len(),
                    self.pinned_version == old(self).pinned_version,
                    self.version_ids_in_use == old(self).version_ids_in_use,
                    spec_lists(cleaned_epoch@, before.dom(), -1, committed as int),
                    forall|e: u64|
                        self.shared_buffer@.contains_key(e) <==> before.contains_key(e)
                            && !cleaned_epoch@.subrange(0, i as int).contains(e),
                    forall|e: u64|
                        self.shared_buffer@.contains_key(e) ==> self.shared_buffer@[e]
                            == before[e],
                decreases cleaned_epoch@.len() - i,
            {
                let ghost removed = cleaned_epoch@.subrange(0, i as int);
                let ghost held = self.shared_buffer@;
                let _ = self.shared_buffer.remove(&cleaned_epoch[i]);
                proof {
                    let now = cleaned_epoch@.subrange(0, i + 1);
                    assert(self.shared_buffer@ == held.remove(cleaned_epoch@[i as int]));
                    assert(now =~= removed.push(cleaned_epoch@[i as int]));
                    let gone = cleaned_epoch@[i as int];
                    assert(now[i as int] == gone);
                    assert forall|e: u64|
                        self.shared_buffer@.contains_key(e) <==> before.contains_key(e)
                            && !now.contains(e) by {
                        assert(held.contains_key(e) <==> before.contains_key(e)
                            && !removed.contains(e));
                        if e != gone {
                            if now.contains(e) {
                                let k = choose|k: int| 0 <= k < now.len() && now[k] == e;
                                assert(removed[k] == e);
                            }
                            if removed.contains(e) {
                                let k = choose|k: int| 0 <= k < removed.len() && removed[k] == e;
                                assert(now[k] == e);
                            }
                        }
                    }
                }
                i += 1;
            }
            proof {
                assert(cleaned_epoch@.subrange(0, i as int) =~= cleaned_epoch@);
                assert(self.shared_buffer@ =~= before.restrict(Set::new(|e: u64| e > committed)));
            }
        }
        let _ = self.version_ids_in_use.insert(new_pinned_version.id);
        let unpin_worker_tx = self.pinned_version.unpin_worker_tx.clone();
        self.pinned_version = Arc::new(PinnedVersion::new(new_pinned_version, unpin_worker_tx));
        cleaned_epoch
    }

    /// What a read at `read_epoch` works on: the pinned version, and copies
    /// of the shared buffers of the epochs above the committed one and at
    /// most `read_epoch`, newest first.
    pub fn read_version(&self, read_epoch: u64) -> (r: ReadVersion)
        ensures
            r.pinned_version == self.pinned(),
            r.shared_buffer@.map_values(|b: SharedBuffer| b@) == spec_visible(
                self.buffers(),
                self.pinned().spec_version().max_committed_epoch,
                read_epoch,
            ).map_values(|b: SharedBuffer| b@),
    {
        broadcast use group_btree_axioms;

        let committed = self.pinned_version.max_committed_epoch();
        let pinned_version = self.pinned_version.clone();
        let epochs = epochs_between(&self.shared_buffer, Some(committed), read_epoch);
        proof {
            lemma_epochs_between(self.shared_buffer@.dom(), committed as int, read_epoch as int);
        }
        let ghost seen = spec_visible(self.shared_buffer@, committed, read_epoch);
        let n = epochs.len();
        let mut shared_buffer: Vec<SharedBuffer> = Vec::new();
        let mut i: usize = 0;
        while i < n
            invariant
                i <= n,
                n == epochs@.len(),
                spec_lists(epochs@, self.shared_buffer@.dom(), committed as int, read_epoch as int),
                seen == epochs@.reverse().map_values(|e: u64| self.shared_buffer@[e]),
                shared_buffer@.len() == i,
                forall|k: int| 0 <= k < i ==> (#[trigger] shared_buffer@[k])@ == seen[k]@,
            decreases n - i,
        {
            let epoch = epochs[n - 1 - i];
            assert(epochs@.contains(epoch));
            match self.shared_buffer.get(&epoch) {
                Some(buffer) => {
                    shared_buffer.push(buffer.clone());
                },
                None => {
                    assert(false);
                },
            }
            i += 1;
        }
        assert(shared_buffer@.map_values(|b: SharedBuffer| b@) =~= seen.map_values(
            |b: SharedBuffer| b@,
        ));
        ReadVersion { shared_buffer, pinned_version }
    }

    /// Drops all shared buffers and returns their epochs, oldest first.
    pub fn clear_shared_buffer(&mut self) -> (cleaned: Vec<u64>)
        ensures
            cleaned@ == spec_epochs_between(old(self).buffers().dom(), -1, u64::MAX as int),
            final(self).buffers() == Map::<u64, SharedBuffer>::empty(),
            final(self).pinned() == old(self).pinned(),
            final(self).ids_in_use() == old(self).ids_in_use(),
    {
        let cleaned_epochs = epochs_between(&self.shared_buffer, None, u64::MAX);
        self.shared_buffer.clear();
        cleaned_epochs
    }
}

} // verus!

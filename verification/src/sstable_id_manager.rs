//! Table ids: a locally held range of fresh ids, and the watermarks that
//! protect tables not yet committed from garbage collection.

use crate::error::{HummockError, HummockResult};
use vstd::prelude::*;

verus! {

/// A registered watermark: the tracker that holds it and the lowest table
/// id it keeps alive.
#[derive(Clone, Copy, Debug, PartialEq, Eq, Structural)]
pub struct Watermark {
    pub tracker_id: u64,
    pub sst_id: u64,
}

/// The smallest table id among the watermarks; the largest `u64` if there
/// is none.
pub open spec fn spec_min_watermark(watermarks: Seq<Watermark>) -> u64
    decreases watermarks.len(),
{
    if watermarks.len() == 0 {
        u64::MAX
    } else {
        let m = spec_min_watermark(watermarks.drop_last());
        if watermarks.last().sst_id < m {
            watermarks.last().sst_id
        } else {
            m
        }
    }
}

/// No watermark is below the smallest one.
pub proof fn lemma_min_watermark_is_lower_bound(watermarks: Seq<Watermark>, i: int)
    requires
        0 <= i < watermarks.len(),
    ensures
        spec_min_watermark(watermarks) <= watermarks[i].sst_id,
    decreases watermarks.len(),
{
    if i < watermarks.len() - 1 {
        lemma_min_watermark_is_lower_bound(watermarks.drop_last(), i);
    }
}

/// The watermarks that are left when a tracker is released.
pub open spec fn spec_without_tracker(watermarks: Seq<Watermark>, tracker_id: u64) -> Seq<
    Watermark,
> {
    watermarks.filter(|w: Watermark| w.tracker_id != tracker_id)
}

/// Hands out fresh table ids from a range reserved in advance, and keeps
/// the watermarks of the tasks in progress.
#[derive(Debug)]
pub struct SstableIdManager {
    next_id: u64,
    end_id: u64,
    watermarks: Vec<Watermark>,
    next_tracker_id: u64,
}

impl SstableIdManager {
    /// The range of ids is not inverted.
    pub closed spec fn wf(&self) -> bool {
        self.next_id <= self.end_id
    }

    /// The next id to hand out.
    pub closed spec fn spec_next_id(&self) -> u64 {
        self.next_id
    }

    /// The end of the reserved range; ids below it can be handed out.
    pub closed spec fn spec_end_id(&self) -> u64 {
        self.end_id
    }

    /// Number of ids that can still be handed out.
    pub open spec fn spec_available(&self) -> nat {
        if self.spec_end_id() >= self.spec_next_id() {
            (self.spec_end_id() - self.spec_next_id()) as nat
        } else {
            0
        }
    }

    /// The registered watermarks, in order of registration.
    pub closed spec fn spec_watermarks(&self) -> Seq<Watermark> {
        self.watermarks@
    }

    /// The tracker id that the next registration gets.
    pub closed spec fn spec_next_tracker_id(&self) -> u64 {
        self.next_tracker_id
    }

    /// A manager that holds the ids from `start_id` up to, not including,
    /// `end_id`; an inverted range holds none.
    pub fn new(start_id: u64, end_id: u64) -> (m: Self)
        ensures
            m.wf(),
            m.spec_next_id() == start_id,
            m.spec_end_id() == if end_id < start_id {
                start_id
            } else {
                end_id
            },
            m.spec_watermarks().len() == 0,
            m.spec_next_tracker_id() == 0,
    {
        let end = if end_id < start_id {
            start_id
        } else {
            end_id
        };
        SstableIdManager { next_id: start_id, end_id: end, watermarks: Vec::new(), next_tracker_id: 0 }
    }

    /// Takes a new range of ids in place of what is left of the old one; an
    /// inverted range holds no ids. The watermarks stay.
    pub fn reserve(&mut self, start_id: u64, end_id: u64)
        ensures
            final(self).wf(),
            final(self).spec_next_id() == start_id,
            final(self).spec_end_id() == if end_id < start_id {
                start_id
            } else {
                end_id
            },
            final(self).spec_watermarks() == old(self).spec_watermarks(),
            final(self).spec_next_tracker_id() == old(self).spec_next_tracker_id(),
    {
        self.next_id = start_id;
        self.end_id = if end_id < start_id {
            start_id
        } else {
            end_id
        };
    }

    /// Number of ids that can still be handed out.
    pub fn available(&self) -> (n: u64)
        requires
            self.wf(),
        ensures
            n == self.spec_available(),
    {
        self.end_id - self.next_id
    }

    /// Hands out the next id; fails when the range is used up.
    pub fn get_new_sst_id(&mut self) -> (r: HummockResult<u64>)
        requires
            old(self).wf(),
        ensures
            final(self).wf(),
            final(self).spec_end_id() == old(self).spec_end_id(),
            final(self).spec_watermarks() == old(self).spec_watermarks(),
            final(self).spec_next_tracker_id() == old(self).spec_next_tracker_id(),
            old(self).spec_available() > 0 ==> r == Ok::<u64, HummockError>(old(self).spec_next_id())
                && final(self).spec_next_id() == old(self).spec_next_id() + 1,
            old(self).spec_available() == 0 ==> r == Err::<u64, _>(
                HummockError::CompactionExecutor,
            ) && *final(self) == *old(self),
    {
        if self.next_id < self.end_id {
            let id = self.next_id;
            self.next_id = self.next_id + 1;
            Ok(id)
        } else {
            Err(HummockError::CompactionExecutor)
        }
    }

    /// Registers a watermark and gives the id of its tracker. Without an
    /// id the watermark is a fresh id, so the registration fails when the
    /// range is used up.
    pub fn add_watermark_sst_id(&mut self, sst_id: Option<u64>) -> (r: HummockResult<u64>)
        requires
            old(self).wf(),
        ensures
            final(self).wf(),
            final(self).spec_end_id() == old(self).spec_end_id(),
            r is Err <==> sst_id is None && old(self).spec_available() == 0,
            r is Err ==> r == Err::<u64, _>(HummockError::CompactionExecutor),
            r is Err ==> *final(self) == *old(self),
            r is Ok ==> final(self).spec_next_tracker_id() == if old(self).spec_next_tracker_id()
                < u64::MAX {
                (old(self).spec_next_tracker_id() + 1) as u64
            } else {
                0
            },
            r matches Ok(tracker_id) ==> {
                let watermark = match sst_id {
                    Some(id) => id,
                    None => old(self).spec_next_id(),
                };
                &&& tracker_id == old(self).spec_next_tracker_id()
                &&& final(self).spec_watermarks() == old(self).spec_watermarks().push(
                    Watermark { tracker_id, sst_id: watermark },
                )
                &&& final(self).spec_next_id() == old(self).spec_next_id() + if sst_id is None {
                    1int
                } else {
                    0int
                }
            },
    {
        let watermark = match sst_id {
            Some(id) => id,
            None => {
                match self.get_new_sst_id() {
                    Ok(id) => id,
                    Err(e) => {
                        return Err(e);
                    },
                }
            },
        };
        let tracker_id = self.next_tracker_id;
        self.next_tracker_id = if tracker_id < u64::MAX {
            tracker_id + 1
        } else {
            0
        };
        self.watermarks.push(Watermark { tracker_id, sst_id: watermark });
        Ok(tracker_id)
    }

    /// Releases the watermarks of a tracker.
    pub fn remove_watermark_sst_id(&mut self, tracker_id: u64)
        requires
            old(self).wf(),
        ensures
            final(self).wf(),
            final(self).spec_next_id() == old(self).spec_next_id(),
            final(self).spec_end_id() == old(self).spec_end_id(),
            final(self).spec_next_tracker_id() == old(self).spec_next_tracker_id(),
            final(self).spec_watermarks() == spec_without_tracker(
                old(self).spec_watermarks(),
                tracker_id,
            ),
    {
        let ghost all = self.watermarks@;
        let ghost keep = |w: Watermark| w.tracker_id != tracker_id;
        let mut kept: Vec<Watermark> = Vec::new();
        let mut i: usize = 0;
        assert(all.subrange(0, 0) =~= Seq::<Watermark>::empty());
        while i < self.watermarks.len()
            invariant
                i <= self.watermarks@.len(),
                all == self.watermarks@,
                keep == |w: Watermark| w.tracker_id != tracker_id,
                kept@ == all.subrange(0, i as int).filter(keep),
            decreases self.watermarks@.len() - i,
        {
            let w = self.watermarks[i];
            proof {
                reveal(Seq::filter);
                assert(all.subrange(0, i + 1).drop_last() =~= all.subrange(0, i as int));
            }
            if w.tracker_id != tracker_id {
                kept.push(w);
            }
            i += 1;
        }
        assert(all.subrange(0, i as int) =~= all);
        self.watermarks = kept;
    }

    /// The lowest table id that a registered watermark keeps alive; the
    /// largest `u64` if nothing is registered.
    pub fn global_watermark_sst_id(&self) -> (id: u64)
        ensures
            id == spec_min_watermark(self.spec_watermarks()),
    {
        let ghost all = self.watermarks@;
        let mut min: u64 = u64::MAX;
        let mut i: usize = 0;
        assert(all.subrange(0, 0) =~= Seq::<Watermark>::empty());
        while i < self.watermarks.len()
            invariant
                i <= self.watermarks@.len(),
                all == self.watermarks@,
                min == spec_min_watermark(all.subrange(0, i as int)),
            decreases self.watermarks@.len() - i,
        {
            proof {
                assert(all.subrange(0, i + 1).drop_last() =~= all.subrange(0, i as int));
            }
            if self.watermarks[i].sst_id < min {
                min = self.watermarks[i].sst_id;
            }
            i += 1;
        }
        assert(all.subrange(0, i as int) =~= all);
        min
    }

    /// Whether garbage collection may delete the table `sst_id`: only a
    /// table below every registered watermark may go.
    pub fn may_delete(&self, sst_id: u64) -> (ok: bool)
        ensures
            ok == (sst_id < spec_min_watermark(self.spec_watermarks())),
            ok ==> forall|i: int|
                0 <= i < self.spec_watermarks().len() ==> sst_id < (
                #[trigger] self.spec_watermarks()[i]).sst_id,
    {
        let min = self.global_watermark_sst_id();
        proof {
            assert forall|i: int| 0 <= i < self.spec_watermarks().len() implies min <= (
            #[trigger] self.spec_watermarks()[i]).sst_id by {
                lemma_min_watermark_is_lower_bound(self.spec_watermarks(), i);
            }
        }
        sst_id < min
    }
}

} // verus!

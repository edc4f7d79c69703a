//! Versions: snapshots of all levels of the store.

use crate::task::Level;
use vstd::prelude::*;

verus! {

/// The levels of one group of tables.
#[derive(Debug)]
pub struct Levels {
    /// The id of the group.
    pub group_id: u64,
    /// The parts of the first level, oldest first; their tables may overlap.
    pub l0_sub_levels: Vec<Level>,
    /// The further levels, in order; their tables do not overlap.
    pub levels: Vec<Level>,
}

/// A snapshot of all levels.
#[derive(Debug)]
pub struct HummockVersion {
    /// The id of the version; later versions have larger ids.
    pub id: u64,
    /// The levels of each group, in a fixed order.
    pub levels: Vec<Levels>,
    /// The highest epoch whose data is durable.
    pub max_committed_epoch: u64,
    /// The lowest epoch that can still be read.
    pub safe_epoch: u64,
}

/// The levels of a group in reading order: the parts of the first level
/// newest first, then the further levels.
pub open spec fn spec_group_levels(group: Levels) -> Seq<Level> {
    group.l0_sub_levels@.reverse() + group.levels@
}

/// The levels of all groups in reading order, group by group.
pub open spec fn spec_combined_levels(groups: Seq<Levels>) -> Seq<Level>
    decreases groups.len(),
{
    if groups.len() == 0 {
        Seq::empty()
    } else {
        spec_combined_levels(groups.drop_last()) + spec_group_levels(groups.last())
    }
}

/// The index of the first group with the given id, or the number of
/// groups if there is none.
pub open spec fn spec_group_index(groups: Seq<Levels>, group_id: u64) -> int
    decreases groups.len(),
{
    if groups.len() == 0 {
        0
    } else if groups[0].group_id == group_id {
        0
    } else {
        1 + spec_group_index(groups.skip(1), group_id)
    }
}

/// The index of a group is within bounds or one past the end; within
/// bounds it points at the first group with that id.
pub proof fn lemma_group_index(groups: Seq<Levels>, group_id: u64)
    ensures
        0 <= spec_group_index(groups, group_id) <= groups.len(),
        spec_group_index(groups, group_id) < groups.len() ==> groups[spec_group_index(
            groups,
            group_id,
        )].group_id == group_id,
        forall|i: int|
            0 <= i < spec_group_index(groups, group_id) ==> (#[trigger] groups[i]).group_id
                != group_id,
    decreases groups.len(),
{
    if groups.len() > 0 && groups[0].group_id != group_id {
        lemma_group_index(groups.skip(1), group_id);
        let k = spec_group_index(groups.skip(1), group_id);
        assert forall|i: int| 0 <= i < k + 1 implies (#[trigger] groups[i]).group_id
            != group_id by {
            if i > 0 {
                assert(groups[i] == groups.skip(1)[i - 1]);
            }
        }
        if k < groups.skip(1).len() {
            assert(groups.skip(1)[k] == groups[k + 1]);
        }
    }
}

/// Appends the levels of a group, in reading order, to `out`.
pub fn push_group_levels<'a>(out: &mut Vec<&'a Level>, group: &'a Levels)
    ensures
        final(out)@.map_values(|l: &Level| *l) == old(out)@.map_values(|l: &Level| *l)
            + spec_group_levels(*group),
{
    let ghost start = out@.map_values(|l: &Level| *l);
    let n = group.l0_sub_levels.len();
    let mut i: usize = 0;
    while i < n
        invariant
            n == group.l0_sub_levels@.len(),
            i <= n,
            out@.map_values(|l: &Level| *l) == start + group.l0_sub_levels@.reverse().subrange(
                0,
                i as int,
            ),
        decreases n - i,
    {
        let ghost before = out@.map_values(|l: &Level| *l);
        let ghost newest_first = group.l0_sub_levels@.reverse();
        out.push(&group.l0_sub_levels[n - 1 - i]);
        assert(out@.map_values(|l: &Level| *l) =~= before.push(
            group.l0_sub_levels@[n - 1 - i],
        ));
        assert(newest_first.subrange(0, i + 1) =~= newest_first.subrange(0, i as int).push(
            group.l0_sub_levels@[n - 1 - i],
        ));
        assert(before.push(group.l0_sub_levels@[n - 1 - i]) =~= start + newest_first.subrange(
            0,
            i + 1,
        ));
        i += 1;
    }
    assert(group.l0_sub_levels@.reverse().subrange(0, i as int)
        =~= group.l0_sub_levels@.reverse());
    assert(start + group.l0_sub_levels@.reverse() + group.levels@.subrange(0, 0) =~= start
        + group.l0_sub_levels@.reverse());
    let mut k: usize = 0;
    while k < group.levels.len()
        invariant
            k <= group.levels@.len(),
            out@.map_values(|l: &Level| *l) == start + group.l0_sub_levels@.reverse()
                + group.levels@.subrange(0, k as int),
        decreases group.levels@.len() - k,
    {
        let ghost before = out@.map_values(|l: &Level| *l);
        out.push(&group.levels[k]);
        assert(out@.map_values(|l: &Level| *l) =~= before.push(group.levels@[k as int]));
        assert(group.levels@.subrange(0, k + 1) =~= group.levels@.subrange(0, k as int).push(
            group.levels@[k as int],
        ));
        assert(before.push(group.levels@[k as int]) =~= start + group.l0_sub_levels@.reverse()
            + group.levels@.subrange(0, k + 1));
        k += 1;
    }
    assert(group.levels@.subrange(0, k as int) =~= group.levels@);
    assert(start + group.l0_sub_levels@.reverse() + group.levels@ =~= start + spec_group_levels(
        *group,
    ));
}

impl HummockVersion {
    /// The levels of all groups in reading order.
    pub fn get_combined_levels(&self) -> (levels: Vec<&Level>)
        ensures
            levels@.map_values(|l: &Level| *l) == spec_combined_levels(self.levels@),
    {
        let mut out: Vec<&Level> = Vec::new();
        let mut i: usize = 0;
        assert(self.levels@.subrange(0, 0) =~= Seq::<Levels>::empty());
        assert(out@.map_values(|l: &Level| *l) =~= Seq::<Level>::empty());
        while i < self.levels.len()
            invariant
                i <= self.levels@.len(),
                out@.map_values(|l: &Level| *l) == spec_combined_levels(
                    self.levels@.subrange(0, i as int),
                ),
            decreases self.levels@.len() - i,
        {
            proof {
                assert(self.levels@.subrange(0, i + 1).drop_last() =~= self.levels@.subrange(
                    0,
                    i as int,
                ));
            }
            push_group_levels(&mut out, &self.levels[i]);
            i += 1;
        }
        assert(self.levels@.subrange(0, i as int) =~= self.levels@);
        out
    }

    /// The first group with the given id, if there is one.
    pub fn get_compaction_group_levels(&self, compaction_group_id: u64) -> (group: Option<&Levels>)
        ensures
            group is Some <==> spec_group_index(self.levels@, compaction_group_id)
                < self.levels@.len(),
            group matches Some(g) ==> *g == self.levels@[spec_group_index(
                self.levels@,
                compaction_group_id,
            )],
    {
        let mut i: usize = 0;
        assert(self.levels@.skip(0) =~= self.levels@);
        while i < self.levels.len()
            invariant
                i <= self.levels@.len(),
                spec_group_index(self.levels@, compaction_group_id) == i + spec_group_index(
                    self.levels@.skip(i as int),
                    compaction_group_id,
                ),
            decreases self.levels@.len() - i,
        {
            assert(self.levels@.skip(i as int)[0] == self.levels@[i as int]);
            if self.levels[i].group_id == compaction_group_id {
                return Some(&self.levels[i]);
            }
            assert(self.levels@.skip(i as int).skip(1) =~= self.levels@.skip(i + 1));
            i += 1;
        }
        None
    }
}

} // verus!

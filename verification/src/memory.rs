//! A byte quota shared by the open table builders.

use vstd::prelude::*;

verus! {

/// A reservation of memory; it counts against its limiter until released.
#[derive(Debug)]
pub struct MemoryTracker {
    quota: u64,
}

impl MemoryTracker {
    /// Number of bytes reserved.
    pub closed spec fn spec_quota(&self) -> u64 {
        self.quota
    }

    /// A reservation of no bytes, which needs no limiter.
    pub fn empty() -> (t: MemoryTracker)
        ensures
            t.spec_quota() == 0,
    {
        MemoryTracker { quota: 0 }
    }

    /// Number of bytes reserved.
    pub fn quota(&self) -> (q: u64)
        ensures
            q == self.spec_quota(),
    {
        self.quota
    }
}

/// A counter of reserved bytes with an upper limit.
#[derive(Debug)]
pub struct MemoryLimiter {
    total: u64,
    used: u64,
}

impl MemoryLimiter {
    /// No more is reserved than the limit allows.
    pub closed spec fn wf(&self) -> bool {
        self.used <= self.total
    }

    /// The limit in bytes.
    pub closed spec fn spec_total(&self) -> u64 {
        self.total
    }

    /// Bytes reserved at present.
    pub closed spec fn spec_used(&self) -> u64 {
        self.used
    }

    /// Bytes that can still be reserved.
    pub open spec fn spec_available(&self) -> int {
        self.spec_total() - self.spec_used()
    }

    /// A limiter of `quota` bytes with nothing reserved.
    pub fn new(quota: u64) -> (l: MemoryLimiter)
        ensures
            l.wf(),
            l.spec_total() == quota,
            l.spec_used() == 0,
    {
        MemoryLimiter { total: quota, used: 0 }
    }

    /// Bytes reserved at present.
    pub fn get_memory_usage(&self) -> (n: u64)
        ensures
            n == self.spec_used(),
    {
        self.used
    }

    /// Bytes that can still be reserved.
    pub fn get_memory_left(&self) -> (n: u64)
        requires
            self.wf(),
        ensures
            n == self.spec_available(),
    {
        self.total - self.used
    }

    /// Reserves `quota` bytes if that many are free, and changes nothing
    /// otherwise.
    pub fn require_memory(&mut self, quota: u64) -> (t: Option<MemoryTracker>)
        requires
            old(self).wf(),
        ensures
            final(self).wf(),
            final(self).spec_total() == old(self).spec_total(),
            t is Some <==> quota <= old(self).spec_available(),
            t matches Some(tracker) ==> tracker.spec_quota() == quota && final(self).spec_used()
                == old(self).spec_used() + quota,
            t is None ==> final(self).spec_used() == old(self).spec_used(),
    {
        if quota <= self.total - self.used {
            self.used = self.used + quota;
            Some(MemoryTracker { quota })
        } else {
            None
        }
    }

    /// Gives back all that was reserved beyond `used`; a mark above what is
    /// reserved changes nothing.
    pub fn release_to(&mut self, used: u64)
        requires
            old(self).wf(),
        ensures
            final(self).wf(),
            final(self).spec_total() == old(self).spec_total(),
            final(self).spec_used() == if used <= old(self).spec_used() {
                used
            } else {
                old(self).spec_used()
            },
    {
        if used <= self.used {
            self.used = used;
        }
    }

    /// Gives back what a tracker had reserved. A tracker that holds more
    /// than is reserved empties the counter.
    pub fn release(&mut self, tracker: MemoryTracker)
        requires
            old(self).wf(),
        ensures
            final(self).wf(),
            final(self).spec_total() == old(self).spec_total(),
            final(self).spec_used() == if tracker.spec_quota() <= old(self).spec_used() {
                old(self).spec_used() - tracker.spec_quota()
            } else {
                0
            },
    {
        if tracker.quota <= self.used {
            self.used = self.used - tracker.quota;
        } else {
            self.used = 0;
        }
    }
}

} // verus!

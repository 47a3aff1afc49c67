//! The progress aggregator: the single consumer of per-file progress
//! units. It counts arrivals toward the total computed by the scan and
//! is complete exactly when the received count reaches that total.

use vstd::prelude::*;

verus! {

/// The aggregator's state: how many units are expected, and how many
/// have arrived so far.
pub struct ProgressAggregator {
    pub total: u64,
    pub received: u64,
}

impl ProgressAggregator {
    /// The running count never exceeds the target.
    pub open spec fn wf(&self) -> bool {
        self.received <= self.total
    }

    /// A fresh aggregator expecting `total` units, none received yet.
    pub fn new(total: u64) -> (a: Self)
        ensures
            a.total == total,
            a.received == 0,
            a.wf(),
    {
        ProgressAggregator { total, received: 0 }
    }

    /// Count one received progress unit.
    pub fn record_unit(&mut self)
        requires
            old(self).wf(),
            old(self).received < old(self).total,
        ensures
            final(self).total == old(self).total,
            final(self).received == old(self).received + 1,
            final(self).wf(),
    {
        self.received = self.received + 1;
    }

    /// The aggregator is done exactly when the received count has
    /// reached the expected total.
    pub fn is_complete(&self) -> (b: bool)
        ensures
            b == (self.received == self.total),
    {
        self.received == self.total
    }
}

} // verus!

//! Operation counters of the tree layer and their read-only
//! snapshots.

use vstd::prelude::*;

verus! {

/// A monotone operation counter.
pub struct Counter {
    /// The number of recorded events.
    pub value: u64,
}

impl Counter {
    /// A counter at zero.
    pub fn new() -> (c: Counter)
        ensures
            c.value == 0,
    {
        Counter { value: 0 }
    }

    /// Record one event.
    pub fn inc(&mut self)
        requires
            old(self).value < u64::MAX,
        ensures
            final(self).value == old(self).value + 1,
    {
        self.value = self.value + 1;
    }

    /// The number of recorded events.
    pub fn get(&self) -> (r: u64)
        ensures
            r == self.value,
    {
        self.value
    }
}

impl Default for Counter {
    /// A counter at zero.
    fn default() -> (c: Self)
        ensures
            c.value == 0,
    {
        Counter { value: 0 }
    }
}

/// A snapshot of one transaction class's counters.
pub struct TxnStats {
    /// Lookups served.
    pub get: u64,
    /// Writes applied.
    pub write: u64,
    /// Pages split.
    pub split_page: u64,
    /// Pages consolidated.
    pub consolidate_page: u64,
}

/// The live counters of one transaction class.
pub struct AtomicTxnStats {
    /// Lookups served.
    pub get: Counter,
    /// Writes applied.
    pub write: Counter,
    /// Pages split.
    pub split_page: Counter,
    /// Pages consolidated.
    pub consolidate_page: Counter,
}

impl AtomicTxnStats {
    /// A read-only copy of the current counts.
    pub fn snapshot(&self) -> (s: TxnStats)
        ensures
            s.get == self.get.value,
            s.write == self.write.value,
            s.split_page == self.split_page.value,
            s.consolidate_page == self.consolidate_page.value,
    {
        TxnStats {
            get: self.get.get(),
            write: self.write.get(),
            split_page: self.split_page.get(),
            consolidate_page: self.consolidate_page.get(),
        }
    }
}

impl Default for AtomicTxnStats {
    /// All counters at zero.
    fn default() -> (s: Self)
        ensures
            s.get.value == 0,
            s.write.value == 0,
            s.split_page.value == 0,
            s.consolidate_page.value == 0,
    {
        AtomicTxnStats {
            get: Counter::new(),
            write: Counter::new(),
            split_page: Counter::new(),
            consolidate_page: Counter::new(),
        }
    }
}

/// A snapshot of both transaction classes.
pub struct Stats {
    /// Counters of committed operations.
    pub success: TxnStats,
    /// Counters of failed operations.
    pub failure: TxnStats,
}

/// The live counters of both transaction classes.
pub struct AtomicStats {
    /// Counters of committed operations.
    pub success: AtomicTxnStats,
    /// Counters of failed operations.
    pub failure: AtomicTxnStats,
}

impl AtomicStats {
    /// A read-only copy of the current counts.
    pub fn snapshot(&self) -> (s: Stats)
        ensures
            s.success.get == self.success.get.value,
            s.success.write == self.success.write.value,
            s.success.split_page == self.success.split_page.value,
            s.success.consolidate_page == self.success.consolidate_page.value,
            s.failure.get == self.failure.get.value,
            s.failure.write == self.failure.write.value,
            s.failure.split_page == self.failure.split_page.value,
            s.failure.consolidate_page == self.failure.consolidate_page.value,
    {
        Stats { success: self.success.snapshot(), failure: self.failure.snapshot() }
    }
}

impl Default for AtomicStats {
    /// All counters at zero.
    fn default() -> (s: Self)
        ensures
            s.success.get.value == 0,
            s.failure.get.value == 0,
    {
        AtomicStats { success: AtomicTxnStats::default(), failure: AtomicTxnStats::default() }
    }
}

} // verus!

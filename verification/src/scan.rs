//! The scan coordinator: bookkeeping for one scan pass over an eagerly
//! discovered file list.
//!
//! The total is fixed before any work starts, so every progress notification
//! carries it. Workers analyze one file each and record one result per file;
//! each record yields the progress pair to emit, whose completed count grows
//! by exactly one per record — progress is monotone however the scheduler
//! interleaves the workers. When nothing was discovered, the scan emits a
//! single `(0, 0)` notification and an empty batch. The unverified shell owns
//! the worker pool and the channels; it drives this type under a lock and
//! never holds that lock across a blocking channel operation.

use vstd::prelude::*;
use crate::outcome::ScanResult;

verus! {

/// Bookkeeping of a scan in flight: how many files it covers and the results
/// recorded so far, in completion order.
pub struct ScanCoordinator {
    total: usize,
    results: Vec<ScanResult>,
}

impl ScanCoordinator {
    /// The number of files this scan covers.
    pub closed spec fn total(self) -> int {
        self.total as int
    }

    /// How many files have completed.
    pub closed spec fn completed(self) -> int {
        self.results@.len() as int
    }

    /// The batch recorded so far. Its order is completion order, which no
    /// consumer may rely on: the aggregator sorts before publication.
    pub closed spec fn batch(self) -> Seq<ScanResult> {
        self.results@
    }

    #[verifier::type_invariant]
    closed spec fn inv(self) -> bool {
        self.results@.len() <= self.total
    }

    /// Begins a scan over `total` files. The second component is present
    /// exactly when there is nothing to scan: it is then the single `(0, 0)`
    /// progress notification the scan emits before its empty batch.
    pub fn start(total: usize) -> (r: (ScanCoordinator, Option<(usize, usize)>))
        ensures
            r.0.total() == total,
            r.0.completed() == 0,
            r.0.batch() == Seq::<ScanResult>::empty(),
            r.1 is Some <==> total == 0,
            total == 0 ==> r.1 == Some((0usize, 0usize)),
    {
        let coordinator = ScanCoordinator { total, results: Vec::new() };
        let notice = if total == 0 {
            Some((0usize, 0usize))
        } else {
            None
        };
        (coordinator, notice)
    }

    /// Records the result of one completed file and returns the progress
    /// pair to emit: the completed count, risen by exactly one, and the
    /// unchanged total.
    pub fn record(&mut self, r: ScanResult) -> (p: (usize, usize))
        requires
            old(self).completed() < old(self).total(),
        ensures
            final(self).total() == old(self).total(),
            final(self).batch() == old(self).batch().push(r),
            final(self).completed() == old(self).completed() + 1,
            p.0 == final(self).completed(),
            p.1 == final(self).total(),
    {
        proof {
            use_type_invariant(&*self);
        }
        let mut results: Vec<ScanResult> = Vec::new();
        std::mem::swap(&mut results, &mut self.results);
        results.push(r);
        let done = results.len();
        self.results = results;
        (done, self.total)
    }

    /// Whether every file of the scan has completed.
    pub fn is_done(&self) -> (b: bool)
        ensures
            b == (self.completed() == self.total()),
    {
        self.results.len() == self.total
    }

    /// The terminal batch: one message, carrying every recorded result, sent
    /// only once all files are done.
    pub fn into_batch(self) -> (batch: Vec<ScanResult>)
        requires
            self.completed() == self.total(),
        ensures
            batch@ == self.batch(),
            batch@.len() == self.total(),
    {
        self.results
    }
}

} // verus!

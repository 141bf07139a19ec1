//! Decisions of the benchmark engine: the failure-sentinel policy for one
//! lookup, the bounded concurrency level, and the per-server work queue that
//! the workers drain.

use vstd::prelude::*;

verus! {

/// Sample value recorded for a lookup that did not complete. It is an
/// out-of-band marker mixed into the numeric sample stream, so failures
/// enter the statistics as this value.
pub const FAILURE_SENTINEL: u64 = u64::MAX;

/// The sample recorded for one lookup: the elapsed time on success, the
/// sentinel on failure.
pub open spec fn spec_sample_of_outcome(outcome: Option<u64>) -> u64 {
    match outcome {
        Some(elapsed) => elapsed,
        None => FAILURE_SENTINEL,
    }
}

/// Folds the outcome of one timed lookup into a raw sample: a successful
/// lookup contributes its elapsed time in microseconds, a failed one the
/// sentinel. No error is propagated.
pub fn sample_of_outcome(outcome: Option<u64>) -> (s: u64)
    ensures
        s == spec_sample_of_outcome(outcome),
{
    match outcome {
        Some(elapsed) => elapsed,
        None => FAILURE_SENTINEL,
    }
}

/// Number of concurrent workers for a run with the given query count.
pub open spec fn spec_concurrency_level(queries: u64) -> u64 {
    if queries < 10 {
        queries
    } else {
        10
    }
}

/// The worker-pool size: the minimum of 10 and the query count. For any
/// query count of at least one it lies between 1 and 10.
pub fn concurrency_level(queries: u64) -> (w: u64)
    ensures
        w == spec_concurrency_level(queries),
        queries >= 1 ==> 1 <= w <= 10,
{
    if queries < 10 {
        queries
    } else {
        10
    }
}

/// The list of test domains still to be benchmarked for the current server.
/// Workers pop one domain at a time until the queue is empty.
pub struct WorkQueue {
    domains: Vec<String>,
}

impl View for WorkQueue {
    type V = Seq<Seq<char>>;

    closed spec fn view(&self) -> Seq<Seq<char>> {
        self.domains.deep_view()
    }
}

impl WorkQueue {
    /// A fresh queue holding the given domains.
    pub fn new(domains: Vec<String>) -> (q: WorkQueue)
        ensures
            q@ == domains.deep_view(),
    {
        WorkQueue { domains }
    }

    /// How many domains are still queued.
    pub fn len(&self) -> (n: usize)
        ensures
            n == self@.len(),
    {
        self.domains.len()
    }

    /// Takes one domain from the queue: the last one if any is left, `None`
    /// once the queue is drained (the popped worker then exits).
    pub fn pop(&mut self) -> (r: Option<String>)
        ensures
            old(self)@.len() == 0 ==> r is None && final(self)@ == old(self)@,
            old(self)@.len() > 0 ==> (r matches Some(d) && d@ == old(self)@.last() && final(self)@
                == old(self)@.drop_last()),
    {
        let r = self.domains.pop();
        proof {
            if old(self)@.len() > 0 {
                assert(self.domains.deep_view() =~= old(self)@.drop_last());
            } else {
                assert(self.domains.deep_view() =~= old(self)@);
            }
        }
        r
    }
}

} // verus!

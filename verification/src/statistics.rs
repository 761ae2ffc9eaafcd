//! Per-relay telemetry counters.
//!
//! One record per known relay URL: completed requests, the successful subset,
//! an ascending log of response-time samples, the administrator-supplied
//! trust level and vendor score, and the number of currently checked-out
//! connections. Every mutation returns the freshly computed weights, so these
//! mutators are the sole path to weight changes.

use vstd::prelude::*;
use crate::duration::Sample;
use crate::errors::SelectorError;
use crate::weights::{
    calculate_weights, samples_sorted, spec_insert_sample, spec_sort_samples, spec_weights_of,
    lemma_sort_samples_of_sorted, lemma_sort_samples_sorted, lemma_sort_samples_contains,
    lemma_insert_sample_sorted, lemma_insert_sample_contains, SCORE_ONE,
};

verus! {

/// Telemetry for one relay.
#[derive(Debug)]
pub struct Statistics {
    /// Total completed requests observed.
    pub requests: u32,
    /// The successful subset of `requests`.
    pub successful_requests: u32,
    /// Response-time samples, kept in ascending order.
    pub response_times: Vec<Sample>,
    /// Administrator-supplied trust, in millionths of one.
    pub trust_level: i64,
    /// Administrator-supplied vendor bias, in millionths of one.
    pub vendor_score: i64,
    /// Currently checked-out connections.
    pub active_connections: u8,
}

impl Statistics {
    /// Counters are consistent: successes never outnumber requests, scores
    /// stay in [0, 1], and the sample log is ascending and well formed.
    pub open spec fn wf(self) -> bool {
        &&& self.successful_requests <= self.requests
        &&& 0 <= self.trust_level <= SCORE_ONE
        &&& 0 <= self.vendor_score <= SCORE_ONE
        &&& samples_sorted(self.response_times@)
        &&& forall|i: int|
            0 <= i < self.response_times@.len() ==> (#[trigger] self.response_times@[i]).wf()
    }

    /// The weights this telemetry yields.
    pub open spec fn spec_weights(self) -> (int, int) {
        spec_weights_of(
            self.response_times@,
            self.successful_requests,
            self.requests,
            self.trust_level,
            self.vendor_score,
            self.active_connections,
        )
    }

    /// A record with nothing observed yet.
    pub fn new() -> (r: Statistics)
        ensures
            r.wf(),
            r.requests == 0,
            r.successful_requests == 0,
            r.response_times@.len() == 0,
            r.trust_level == 0,
            r.vendor_score == 0,
            r.active_connections == 0,
    {
        Statistics {
            requests: 0,
            successful_requests: 0,
            response_times: Vec::new(),
            trust_level: 0,
            vendor_score: 0,
            active_connections: 0,
        }
    }

    /// Recomputes the weights from the current fields. The sample log is
    /// already ascending, so the kernel's sort leaves it unchanged.
    fn recompute(&mut self) -> (r: (i64, i64))
        requires
            old(self).wf(),
        ensures
            final(self).wf(),
            final(self).requests == old(self).requests,
            final(self).successful_requests == old(self).successful_requests,
            final(self).response_times@ == old(self).response_times@,
            final(self).trust_level == old(self).trust_level,
            final(self).vendor_score == old(self).vendor_score,
            final(self).active_connections == old(self).active_connections,
            (r.0 as int, r.1 as int) == old(self).spec_weights(),
            -13_000_000 <= r.0 <= 9_000_000,
            -13_000_000 <= r.1 <= 35_000_000,
    {
        proof {
            lemma_sort_samples_of_sorted(self.response_times@);
        }
        let r = calculate_weights(
            &mut self.response_times,
            self.successful_requests,
            self.requests,
            self.trust_level,
            self.vendor_score,
            self.active_connections,
        );
        r
    }

    /// Appends a response-time sample and returns the updated weights.
    pub fn add_response_time(&mut self, response_time: Sample) -> (r: (i64, i64))
        requires
            old(self).wf(),
            response_time.wf(),
        ensures
            final(self).wf(),
            final(self).requests == old(self).requests,
            final(self).successful_requests == old(self).successful_requests,
            final(self).trust_level == old(self).trust_level,
            final(self).vendor_score == old(self).vendor_score,
            final(self).active_connections == old(self).active_connections,
            final(self).response_times@ == spec_insert_sample(
                response_time,
                old(self).response_times@,
            ),
            (r.0 as int, r.1 as int) == final(self).spec_weights(),
            -13_000_000 <= r.0 <= 9_000_000,
            -13_000_000 <= r.1 <= 35_000_000,
    {
        self.response_times.push(response_time);
        proof {
            let pushed = self.response_times@;
            let sorted0 = old(self).response_times@;
            assert(pushed.drop_last() =~= sorted0);
            assert(pushed.last() == response_time);
            lemma_sort_samples_of_sorted(sorted0);
            assert(spec_sort_samples(pushed) == spec_insert_sample(response_time, sorted0));
            lemma_insert_sample_sorted(response_time, sorted0);
            assert forall|i: int| 0 <= i < pushed.len() implies (#[trigger] pushed[i]).wf() by {
                if i < pushed.len() - 1 {
                    assert(pushed[i] == sorted0[i]);
                }
            }
        }
        let r = calculate_weights(
            &mut self.response_times,
            self.successful_requests,
            self.requests,
            self.trust_level,
            self.vendor_score,
            self.active_connections,
        );
        proof {
            let now = self.response_times@;
            assert forall|i: int| 0 <= i < now.len() implies (#[trigger] now[i]).wf() by {
                assert(now.contains(now[i]));
                lemma_insert_sample_contains(
                    response_time,
                    old(self).response_times@,
                    now[i],
                );
                if now[i] != response_time {
                    let k = choose|k: int|
                        0 <= k < old(self).response_times@.len() && old(
                            self,
                        ).response_times@[k] == now[i];
                }
            }
            lemma_sort_samples_of_sorted(now);
        }
        r
    }

    /// Counts a completed request (and its success) and returns the updated
    /// weights. Counters saturate at their maximum rather than overflow.
    pub fn add_request(&mut self, is_successful: bool) -> (r: (i64, i64))
        requires
            old(self).wf(),
        ensures
            final(self).wf(),
            final(self).requests as int == if old(self).requests == u32::MAX {
                u32::MAX as int
            } else {
                old(self).requests + 1
            },
            final(self).successful_requests as int == if (is_successful
                && old(self).successful_requests < u32::MAX
                && old(self).successful_requests < final(self).requests) {
                old(self).successful_requests + 1
            } else {
                old(self).successful_requests as int
            },
            final(self).response_times@ == old(self).response_times@,
            final(self).trust_level == old(self).trust_level,
            final(self).vendor_score == old(self).vendor_score,
            final(self).active_connections == old(self).active_connections,
            (r.0 as int, r.1 as int) == final(self).spec_weights(),
            -13_000_000 <= r.0 <= 9_000_000,
            -13_000_000 <= r.1 <= 35_000_000,
    {
        if self.requests < u32::MAX {
            self.requests = self.requests + 1;
        }
        if is_successful && self.successful_requests < u32::MAX
            && self.successful_requests < self.requests {
            self.successful_requests = self.successful_requests + 1;
        }
        self.recompute()
    }

    /// Counts a checkout. Fails without any change when the relay already
    /// has the largest representable number of checked-out connections.
    pub fn add_active_connection(&mut self) -> (r: Result<(i64, i64), SelectorError>)
        requires
            old(self).wf(),
        ensures
            final(self).wf(),
            old(self).active_connections == u8::MAX <==> r is Err,
            r is Err ==> *final(self) == *old(self) && r == Err::<(i64, i64), SelectorError>(
                SelectorError::LimitExceeded,
            ),
            r matches Ok(w) ==> {
                &&& final(self).active_connections == old(self).active_connections + 1
                &&& final(self).requests == old(self).requests
                &&& final(self).successful_requests == old(self).successful_requests
                &&& final(self).response_times@ == old(self).response_times@
                &&& final(self).trust_level == old(self).trust_level
                &&& final(self).vendor_score == old(self).vendor_score
                &&& (w.0 as int, w.1 as int) == final(self).spec_weights()
                &&& -13_000_000 <= w.0 <= 9_000_000
                &&& -13_000_000 <= w.1 <= 35_000_000
            },
    {
        if self.active_connections == u8::MAX {
            return Err(SelectorError::LimitExceeded);
        }
        self.active_connections = self.active_connections + 1;
        Ok(self.recompute())
    }

    /// Counts a return. A return with no checked-out connection is kept as a
    /// no-op rather than an underflow.
    pub fn remove_active_connection(&mut self) -> (r: (i64, i64))
        requires
            old(self).wf(),
        ensures
            final(self).wf(),
            final(self).active_connections as int == if old(self).active_connections == 0 {
                0
            } else {
                old(self).active_connections - 1
            },
            final(self).requests == old(self).requests,
            final(self).successful_requests == old(self).successful_requests,
            final(self).response_times@ == old(self).response_times@,
            final(self).trust_level == old(self).trust_level,
            final(self).vendor_score == old(self).vendor_score,
            (r.0 as int, r.1 as int) == final(self).spec_weights(),
            -13_000_000 <= r.0 <= 9_000_000,
            -13_000_000 <= r.1 <= 35_000_000,
    {
        if self.active_connections > 0 {
            self.active_connections = self.active_connections - 1;
        }
        self.recompute()
    }

    /// Replaces the trust level and returns the updated weights.
    pub fn update_trust_level(&mut self, trust_level: i64) -> (r: (i64, i64))
        requires
            old(self).wf(),
            0 <= trust_level <= SCORE_ONE,
        ensures
            final(self).wf(),
            final(self).trust_level == trust_level,
            final(self).requests == old(self).requests,
            final(self).successful_requests == old(self).successful_requests,
            final(self).response_times@ == old(self).response_times@,
            final(self).vendor_score == old(self).vendor_score,
            final(self).active_connections == old(self).active_connections,
            (r.0 as int, r.1 as int) == final(self).spec_weights(),
            -13_000_000 <= r.0 <= 9_000_000,
            -13_000_000 <= r.1 <= 35_000_000,
    {
        self.trust_level = trust_level;
        self.recompute()
    }

    /// Replaces the vendor score and returns the updated weights.
    pub fn update_vendor_score(&mut self, vendor_score: i64) -> (r: (i64, i64))
        requires
            old(self).wf(),
            0 <= vendor_score <= SCORE_ONE,
        ensures
            final(self).wf(),
            final(self).vendor_score == vendor_score,
            final(self).requests == old(self).requests,
            final(self).successful_requests == old(self).successful_requests,
            final(self).response_times@ == old(self).response_times@,
            final(self).trust_level == old(self).trust_level,
            final(self).active_connections == old(self).active_connections,
            (r.0 as int, r.1 as int) == final(self).spec_weights(),
            -13_000_000 <= r.0 <= 9_000_000,
            -13_000_000 <= r.1 <= 35_000_000,
    {
        self.vendor_score = vendor_score;
        self.recompute()
    }
}

} // verus!

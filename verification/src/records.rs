//! The persisted shape of a relay.
//!
//! One record per `(variant, url)` pair: the telemetry counters, the sample
//! log, the configured scores, and the initial weight at save time. Loading
//! adopts the persisted values as they are instead of re-running the weight
//! kernel.

use vstd::prelude::*;
use vstd::string::StringExecFns;
use crate::duration::Sample;
use crate::selector::RelaySelector;
use crate::statistics::Statistics;
use crate::variant::Variant;
use crate::weights::{
    spec_sort_samples, sort_samples, lemma_sort_samples_sorted, lemma_sort_samples_contains,
    SCORE_ONE,
};

verus! {

/// A relay as it is persisted.
#[derive(Debug)]
pub struct RelayRecord {
    /// The relay's URL, the record's key.
    pub url: String,
    /// The variant list the relay was saved from.
    pub variant: Variant,
    /// Total completed requests observed.
    pub requests: u32,
    /// The successful subset of `requests`.
    pub successful_requests: u32,
    /// The response-time sample log.
    pub response_times: Vec<Sample>,
    /// Administrator-supplied trust, in millionths of one.
    pub trust_level: i64,
    /// Administrator-supplied vendor bias, in millionths of one.
    pub vendor_score: i64,
    /// The relay's initial weight at save time, in millionths.
    pub weight: i64,
}

/// Copies a sample log.
fn copy_samples(v: &Vec<Sample>) -> (r: Vec<Sample>)
    ensures
        r@ == v@,
{
    let n = v.len();
    let mut out: Vec<Sample> = Vec::new();
    let mut i: usize = 0;
    while i < n
        invariant
            i <= n,
            n == v@.len(),
            out@ == v@.take(i as int),
        decreases n - i,
    {
        out.push(v[i]);
        proof {
            assert(v@.take(i + 1) =~= v@.take(i as int).push(v@[i as int]));
        }
        i = i + 1;
    }
    proof {
        assert(v@.take(n as int) =~= v@);
    }
    out
}

impl RelayRecord {
    /// Scores are in range and every sample is well formed.
    pub open spec fn wf(self) -> bool {
        &&& 0 <= self.trust_level <= SCORE_ONE
        &&& 0 <= self.vendor_score <= SCORE_ONE
        &&& forall|i: int|
            0 <= i < self.response_times@.len() ==> (#[trigger] self.response_times@[i]).wf()
    }

    /// Materialises the record for a relay from its statistics and the
    /// registry's current initial weight. The registry must know the relay.
    pub fn from_repositories(
        url: &str,
        variant: Variant,
        statistics: &Statistics,
        selector: &RelaySelector,
    ) -> (r: RelayRecord)
        requires
            statistics.wf(),
            selector.initial_weights.wf(),
            selector.initial_weights@.dom().contains(url@),
        ensures
            r.wf(),
            r.url@ == url@,
            r.variant == variant,
            r.requests == statistics.requests,
            r.successful_requests == statistics.successful_requests,
            r.response_times@ == statistics.response_times@,
            r.trust_level == statistics.trust_level,
            r.vendor_score == statistics.vendor_score,
            r.weight == selector.initial_weights@[url@],
    {
        let weight = match selector.initial_weights.get(url) {
            Some(w) => *w,
            None => {
                proof {
                    assert(false);
                }
                0
            },
        };
        RelayRecord {
            url: String::from_str(url),
            variant,
            requests: statistics.requests,
            successful_requests: statistics.successful_requests,
            response_times: copy_samples(&statistics.response_times),
            trust_level: statistics.trust_level,
            vendor_score: statistics.vendor_score,
            weight,
        }
    }

    /// The statistics this record describes: the persisted values adopted
    /// as they are, with the sample log brought into ascending order and no
    /// connection checked out.
    pub fn to_statistics(&self) -> (st: Statistics)
        requires
            self.wf(),
        ensures
            st.wf(),
            st.requests as int == if self.successful_requests > self.requests {
                self.successful_requests as int
            } else {
                self.requests as int
            },
            st.successful_requests == self.successful_requests,
            st.response_times@ == spec_sort_samples(self.response_times@),
            st.trust_level == self.trust_level,
            st.vendor_score == self.vendor_score,
            st.active_connections == 0,
    {
        let requests = if self.successful_requests > self.requests {
            self.successful_requests
        } else {
            self.requests
        };
        let mut times = copy_samples(&self.response_times);
        sort_samples(&mut times);
        proof {
            lemma_sort_samples_sorted(self.response_times@);
            assert forall|i: int| 0 <= i < times@.len() implies (#[trigger] times@[i]).wf() by {
                assert(times@.contains(times@[i]));
                lemma_sort_samples_contains(self.response_times@, times@[i]);
                let k = choose|k: int|
                    0 <= k < self.response_times@.len() && self.response_times@[k] == times@[i];
            }
        }
        Statistics {
            requests,
            successful_requests: self.successful_requests,
            response_times: times,
            trust_level: self.trust_level,
            vendor_score: self.vendor_score,
            active_connections: 0,
        }
    }
}

} // verus!

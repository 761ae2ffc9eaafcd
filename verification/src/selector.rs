//! The relay registry and scheduler.
//!
//! Keeps one statistics record and one pair of weights per known URL, plus
//! one relay list per variant. The lists are re-sorted into the weighted
//! order whenever a checkout, a return or an insert changes a weight;
//! recording telemetry deliberately leaves the order stale until the next
//! such call, which bounds sorting to one pass per pick.

use vstd::prelude::*;
use vstd::string::StringExecFns;
use crate::duration::Sample;
use crate::errors::SelectorError;
use crate::kvmap::UrlMap;
use crate::statistics::Statistics;
use crate::strings::str_eq;
use crate::urlsort::{
    spec_sort_urls, urls_sorted, weighted_sort, lemma_sort_urls_contains, lemma_sort_urls_len,
};
use crate::variant::Variant;
use crate::weights::{CONNECTION_WEIGHT, SCORE_ONE};

verus! {

/// Whether some listed URL reads as `u`.
pub open spec fn spec_list_has(l: Seq<String>, u: Seq<char>) -> bool {
    exists|i: int| 0 <= i < l.len() && (#[trigger] l[i])@ == u
}

/// Decides membership of `url` in a relay list.
pub fn list_contains(l: &Vec<String>, url: &str) -> (r: bool)
    ensures
        r == spec_list_has(l@, url@),
{
    let n = l.len();
    let mut i: usize = 0;
    while i < n
        invariant
            i <= n,
            n == l@.len(),
            forall|j: int| 0 <= j < i ==> (#[trigger] l@[j])@ != url@,
        decreases n - i,
    {
        let hit = str_eq(l[i].as_str(), url);
        if hit {
            return true;
        }
        i = i + 1;
    }
    false
}

/// A statistics record exactly as `insert` creates it.
pub open spec fn stats_is_fresh(st: Statistics, trust_level: i64, vendor_score: i64) -> bool {
    &&& st.requests == 0
    &&& st.successful_requests == 0
    &&& st.response_times@.len() == 0
    &&& st.trust_level == trust_level
    &&& st.vendor_score == vendor_score
    &&& st.active_connections == 0
}

/// The scheduler's registry: per-URL telemetry, per-URL weights, and one
/// ordered relay list per variant.
pub struct RelaySelector {
    /// Telemetry per known URL.
    pub statistics: UrlMap<Statistics>,
    /// Quality weight per known URL, in millionths.
    pub initial_weights: UrlMap<i64>,
    /// Quality-plus-load weight per known URL, in millionths.
    pub current_weights: UrlMap<i64>,
    /// Relays serving arbitrary traffic (and the `Local` alias).
    pub general: Vec<String>,
    /// Relays serving the inbox role.
    pub inbox: Vec<String>,
    /// Relays serving the outbox role.
    pub outbox: Vec<String>,
    /// The persistent store this registry was loaded from.
    pub store_name: String,
}

impl RelaySelector {
    /// The list a variant schedules from. `Local` relays are stored with the
    /// general relays.
    pub open spec fn spec_list(self, v: Variant) -> Seq<String> {
        match v {
            Variant::General => self.general@,
            Variant::Inbox => self.inbox@,
            Variant::Outbox => self.outbox@,
            Variant::Local => self.general@,
        }
    }

    /// Whether `u` appears in any variant list.
    pub open spec fn spec_known(self, u: Seq<char>) -> bool {
        spec_list_has(self.general@, u) || spec_list_has(self.inbox@, u) || spec_list_has(
            self.outbox@,
            u,
        )
    }

    /// The registry invariant.
    ///
    /// The three maps share one key set; every listed URL is a key; every
    /// record is well formed; and every current weight is the initial weight
    /// plus the connection penalty times the checked-out count.
    pub open spec fn wf_basic(self) -> bool {
        &&& self.statistics.wf()
        &&& self.initial_weights.wf()
        &&& self.current_weights.wf()
        &&& self.initial_weights@.dom() == self.statistics@.dom()
        &&& self.current_weights@.dom() == self.statistics@.dom()
        &&& forall|k: Seq<char>|
            #[trigger] self.statistics@.dom().contains(k) ==> self.statistics@[k].wf()
        &&& forall|k: Seq<char>|
            #[trigger] self.statistics@.dom().contains(k) ==> self.current_weights@[k] as int
                == self.initial_weights@[k] as int + self.statistics@[k].active_connections
                * CONNECTION_WEIGHT
        &&& forall|i: int|
            0 <= i < self.general@.len() ==> self.statistics@.dom().contains(
                (#[trigger] self.general@[i])@,
            )
        &&& forall|i: int|
            0 <= i < self.inbox@.len() ==> self.statistics@.dom().contains(
                (#[trigger] self.inbox@[i])@,
            )
        &&& forall|i: int|
            0 <= i < self.outbox@.len() ==> self.statistics@.dom().contains(
                (#[trigger] self.outbox@[i])@,
            )
    }

    /// An empty registry.
    pub fn new() -> (r: RelaySelector)
        ensures
            r.wf_basic(),
            r.statistics@ == Map::<Seq<char>, Statistics>::empty(),
            r.initial_weights@ == Map::<Seq<char>, i64>::empty(),
            r.current_weights@ == Map::<Seq<char>, i64>::empty(),
            r.general@.len() == 0,
            r.inbox@.len() == 0,
            r.outbox@.len() == 0,
            r.store_name@.len() == 0,
    {
        RelaySelector {
            statistics: UrlMap::new(),
            initial_weights: UrlMap::new(),
            current_weights: UrlMap::new(),
            general: Vec::new(),
            inbox: Vec::new(),
            outbox: Vec::new(),
            store_name: String::new(),
        }
    }

    /// Whether the relay with the given URL is listed anywhere.
    pub fn contains(&self, relay: &str) -> (r: bool)
        ensures
            r == self.spec_known(relay@),
    {
        list_contains(&self.general, relay) || list_contains(&self.inbox, relay)
            || list_contains(&self.outbox, relay)
    }

    /// Inserts a relay under a variant with its configured trust level and
    /// vendor score, and re-sorts the variant's list. Inserting a URL that
    /// the variant already lists changes nothing. A fresh statistics record
    /// replaces whatever the URL had, as a new insert starts over.
    pub fn insert(&mut self, relay: &str, variant: Variant, trust_level: i64, vendor_score: i64)
        requires
            old(self).wf_basic(),
            0 <= trust_level <= SCORE_ONE,
            0 <= vendor_score <= SCORE_ONE,
        ensures
            final(self).wf_basic(),
            final(self).store_name == old(self).store_name,
            spec_list_has(old(self).spec_list(variant), relay@) ==> *final(self) == *old(self),
            !spec_list_has(old(self).spec_list(variant), relay@) ==> ({
                &&& final(self).statistics@.dom().contains(relay@)
                &&& stats_is_fresh(final(self).statistics@[relay@], trust_level, vendor_score)
                &&& final(self).statistics@ == old(self).statistics@.insert(
                    relay@,
                    final(self).statistics@[relay@],
                )
                &&& final(self).initial_weights@ == old(self).initial_weights@.insert(
                    relay@,
                    final(self).initial_weights@[relay@],
                )
                &&& final(self).current_weights@ == old(self).current_weights@.insert(
                    relay@,
                    final(self).current_weights@[relay@],
                )
                &&& (
                final(self).initial_weights@[relay@] as int,
                final(self).current_weights@[relay@] as int,
                ) == final(self).statistics@[relay@].spec_weights()
                &&& final(self).spec_list(variant).len() == old(self).spec_list(variant).len() + 1
                &&& forall|u: Seq<char>|
                    spec_list_has(final(self).spec_list(variant), u) <==> (spec_list_has(
                        old(self).spec_list(variant),
                        u,
                    ) || u == relay@)
                &&& urls_sorted(final(self).current_weights@, final(self).spec_list(variant))
                &&& (variant == Variant::General || variant == Variant::Local)
                    ==> final(self).inbox == old(self).inbox
                        && final(self).outbox == old(self).outbox
                &&& variant == Variant::Inbox ==> final(self).general == old(self).general
                    && final(self).outbox == old(self).outbox
                &&& variant == Variant::Outbox ==> final(self).general == old(self).general
                    && final(self).inbox == old(self).inbox
            }),
    {
        let already = match variant {
            Variant::General => list_contains(&self.general, relay),
            Variant::Inbox => list_contains(&self.inbox, relay),
            Variant::Outbox => list_contains(&self.outbox, relay),
            Variant::Local => list_contains(&self.general, relay),
        };
        if already {
            return ;
        }
        let owned = String::from_str(relay);
        let ghost target0 = self.spec_list(variant);
        match variant {
            Variant::General => self.general.push(owned),
            Variant::Inbox => self.inbox.push(owned),
            Variant::Outbox => self.outbox.push(owned),
            Variant::Local => self.general.push(owned),
        }
        let mut st = Statistics::new();
        let _ = st.update_trust_level(trust_level);
        let (iw, cw) = st.update_vendor_score(vendor_score);
        self.statistics.insert(relay, st);
        self.initial_weights.insert(relay, iw);
        self.current_weights.insert(relay, cw);
        proof {
            assert(self.initial_weights@.dom() =~= self.statistics@.dom());
            assert(self.current_weights@.dom() =~= self.statistics@.dom());
        }
        let ghost pushed = self.spec_list(variant);
        proof {
            assert(pushed == target0.push(pushed.last()));
            assert(pushed.last()@ == relay@);
            assert forall|i: int|
                0 <= i < pushed.len() implies self.current_weights@.dom().contains(
                (#[trigger] pushed[i])@,
            ) by {
                if i < pushed.len() - 1 {
                    assert(pushed[i] == target0[i]);
                }
            }
        }
        match variant {
            Variant::General => weighted_sort(&mut self.general, &self.current_weights),
            Variant::Inbox => weighted_sort(&mut self.inbox, &self.current_weights),
            Variant::Outbox => weighted_sort(&mut self.outbox, &self.current_weights),
            Variant::Local => weighted_sort(&mut self.general, &self.current_weights),
        }
        proof {
            let sorted = self.spec_list(variant);
            assert(sorted == spec_sort_urls(self.current_weights@, pushed));
            lemma_sort_urls_len(self.current_weights@, pushed);
            crate::urlsort::lemma_sort_urls_sorted(self.current_weights@, pushed);
            assert forall|u: Seq<char>|
                spec_list_has(sorted, u) <==> (spec_list_has(target0, u) || u == relay@) by {
                if spec_list_has(sorted, u) {
                    let i = choose|i: int| 0 <= i < sorted.len() && (#[trigger] sorted[i])@ == u;
                    assert(sorted.contains(sorted[i]));
                    lemma_sort_urls_contains(self.current_weights@, pushed, sorted[i]);
                    let j = choose|j: int| 0 <= j < pushed.len() && pushed[j] == sorted[i];
                    if j < pushed.len() - 1 {
                        assert(target0[j]@ == u);
                    }
                }
                if spec_list_has(target0, u) {
                    let i = choose|i: int|
                        0 <= i < target0.len() && (#[trigger] target0[i])@ == u;
                    assert(pushed[i] == target0[i]);
                    lemma_sort_urls_contains(self.current_weights@, pushed, pushed[i]);
                    let j = choose|j: int| 0 <= j < sorted.len() && sorted[j] == pushed[i];
                }
                if u == relay@ {
                    assert(pushed.contains(pushed.last()));
                    lemma_sort_urls_contains(self.current_weights@, pushed, pushed.last());
                    let j = choose|j: int|
                        0 <= j < sorted.len() && sorted[j] == pushed.last();
                }
            }
            let dom_now = self.statistics@.dom();
            assert forall|i: int|
                0 <= i < sorted.len() implies dom_now.contains((#[trigger] sorted[i])@) by {
                assert(spec_list_has(sorted, sorted[i]@));
            }
            assert forall|i: int|
                0 <= i < self.general@.len() implies dom_now.contains(
                (#[trigger] self.general@[i])@,
            ) by {
                if variant == Variant::Inbox || variant == Variant::Outbox {
                    assert(self.general@[i] == old(self).general@[i]);
                } else {
                    assert(sorted[i] == self.general@[i]);
                }
            }
            assert forall|i: int|
                0 <= i < self.inbox@.len() implies dom_now.contains((#[trigger] self.inbox@[i])@) by {
                if variant == Variant::Inbox {
                    assert(sorted[i] == self.inbox@[i]);
                } else {
                    assert(self.inbox@[i] == old(self).inbox@[i]);
                }
            }
            assert forall|i: int|
                0 <= i < self.outbox@.len() implies dom_now.contains(
                (#[trigger] self.outbox@[i])@,
            ) by {
                if variant == Variant::Outbox {
                    assert(sorted[i] == self.outbox@[i]);
                } else {
                    assert(self.outbox@[i] == old(self).outbox@[i]);
                }
            }
            assert(self.wf_basic());
        }
    }
}

impl RelaySelector {
    /// Rewriting one URL's statistics and both its weights, consistently,
    /// preserves the registry invariant.
    proof fn lemma_wf_after_stat_write(
        prev: RelaySelector,
        now: RelaySelector,
        u: Seq<char>,
        st: Statistics,
        iw: i64,
        cw: i64,
    )
        requires
            prev.wf_basic(),
            st.wf(),
            cw as int == iw as int + st.active_connections * CONNECTION_WEIGHT,
            now.statistics.wf(),
            now.initial_weights.wf(),
            now.current_weights.wf(),
            now.statistics@ == prev.statistics@.insert(u, st),
            now.initial_weights@ == prev.initial_weights@.insert(u, iw),
            now.current_weights@ == prev.current_weights@.insert(u, cw),
            now.general == prev.general,
            now.inbox == prev.inbox,
            now.outbox == prev.outbox,
        ensures
            now.wf_basic(),
    {
        assert(now.initial_weights@.dom() =~= now.statistics@.dom());
        assert(now.current_weights@.dom() =~= now.statistics@.dom());
        assert forall|k: Seq<char>|
            #[trigger] now.statistics@.dom().contains(k) implies now.statistics@[k].wf()
            && now.current_weights@[k] as int == now.initial_weights@[k] as int
            + now.statistics@[k].active_connections * CONNECTION_WEIGHT by {
            if k != u {
                assert(prev.statistics@.dom().contains(k));
            }
        }
    }

    /// Records a response-time sample for a relay, creating its record if
    /// the URL is new, and rewrites both weight maps. The variant lists are
    /// left as they are: sorting happens at checkout and return.
    pub fn update_weights_with_response_time(&mut self, relay: &str, response_time: Sample)
        requires
            old(self).wf_basic(),
            response_time.wf(),
        ensures
            final(self).wf_basic(),
            final(self).general == old(self).general,
            final(self).inbox == old(self).inbox,
            final(self).outbox == old(self).outbox,
            final(self).store_name == old(self).store_name,
            final(self).statistics@.dom().contains(relay@),
            final(self).statistics@ == old(self).statistics@.insert(
                relay@,
                final(self).statistics@[relay@],
            ),
            final(self).initial_weights@ == old(self).initial_weights@.insert(
                relay@,
                final(self).initial_weights@[relay@],
            ),
            final(self).current_weights@ == old(self).current_weights@.insert(
                relay@,
                final(self).current_weights@[relay@],
            ),
            (
            final(self).initial_weights@[relay@] as int,
            final(self).current_weights@[relay@] as int,
            ) == final(self).statistics@[relay@].spec_weights(),
            old(self).statistics@.dom().contains(relay@) ==> ({
                let prev = old(self).statistics@[relay@];
                let st = final(self).statistics@[relay@];
                &&& st.requests == prev.requests
                &&& st.successful_requests == prev.successful_requests
                &&& st.response_times@ == crate::weights::spec_insert_sample(
                    response_time,
                    prev.response_times@,
                )
                &&& st.trust_level == prev.trust_level
                &&& st.vendor_score == prev.vendor_score
                &&& st.active_connections == prev.active_connections
            }),
            !old(self).statistics@.dom().contains(relay@) ==> ({
                let st = final(self).statistics@[relay@];
                &&& st.requests == 0
                &&& st.successful_requests == 0
                &&& st.response_times@ =~= seq![response_time]
                &&& st.trust_level == 0
                &&& st.vendor_score == 0
                &&& st.active_connections == 0
            }),
    {
        let mut st = match self.statistics.take(relay) {
            Some(s) => s,
            None => Statistics::new(),
        };
        let (iw, cw) = st.add_response_time(response_time);
        let ghost gst = st;
        self.statistics.insert(relay, st);
        self.initial_weights.insert(relay, iw);
        self.current_weights.insert(relay, cw);
        proof {
            assert(self.statistics@ =~= old(self).statistics@.insert(relay@, gst));
            if !old(self).statistics@.dom().contains(relay@) {
                assert(gst.response_times@ =~= seq![response_time]);
            }
            assert(cw as int == iw as int + gst.active_connections * CONNECTION_WEIGHT);
            RelaySelector::lemma_wf_after_stat_write(*old(self), *self, relay@, gst, iw, cw);
        }
    }

    /// Counts a completed request for a relay, creating its record if the
    /// URL is new, and rewrites both weight maps. The variant lists are left
    /// as they are.
    pub fn update_weights_with_request(&mut self, relay: &str, success: bool)
        requires
            old(self).wf_basic(),
        ensures
            final(self).wf_basic(),
            final(self).general == old(self).general,
            final(self).inbox == old(self).inbox,
            final(self).outbox == old(self).outbox,
            final(self).store_name == old(self).store_name,
            final(self).statistics@.dom().contains(relay@),
            final(self).statistics@ == old(self).statistics@.insert(
                relay@,
                final(self).statistics@[relay@],
            ),
            final(self).initial_weights@ == old(self).initial_weights@.insert(
                relay@,
                final(self).initial_weights@[relay@],
            ),
            final(self).current_weights@ == old(self).current_weights@.insert(
                relay@,
                final(self).current_weights@[relay@],
            ),
            (
            final(self).initial_weights@[relay@] as int,
            final(self).current_weights@[relay@] as int,
            ) == final(self).statistics@[relay@].spec_weights(),
            old(self).statistics@.dom().contains(relay@) ==> ({
                let prev = old(self).statistics@[relay@];
                let st = final(self).statistics@[relay@];
                &&& st.requests as int == if prev.requests == u32::MAX {
                    u32::MAX as int
                } else {
                    prev.requests + 1
                }
                &&& st.successful_requests as int == if (success && prev.successful_requests
                    < u32::MAX && prev.successful_requests < st.requests) {
                    prev.successful_requests + 1
                } else {
                    prev.successful_requests as int
                }
                &&& st.response_times@ == prev.response_times@
                &&& st.trust_level == prev.trust_level
                &&& st.vendor_score == prev.vendor_score
                &&& st.active_connections == prev.active_connections
            }),
            !old(self).statistics@.dom().contains(relay@) ==> ({
                let st = final(self).statistics@[relay@];
                &&& st.requests == 1
                &&& st.successful_requests == (if success { 1int } else { 0int })
                &&& st.response_times@.len() == 0
                &&& st.trust_level == 0
                &&& st.vendor_score == 0
                &&& st.active_connections == 0
            }),
    {
        let mut st = match self.statistics.take(relay) {
            Some(s) => s,
            None => Statistics::new(),
        };
        let (iw, cw) = st.add_request(success);
        let ghost gst = st;
        self.statistics.insert(relay, st);
        self.initial_weights.insert(relay, iw);
        self.current_weights.insert(relay, cw);
        proof {
            assert(self.statistics@ =~= old(self).statistics@.insert(relay@, gst));
            assert(cw as int == iw as int + gst.active_connections * CONNECTION_WEIGHT);
            RelaySelector::lemma_wf_after_stat_write(*old(self), *self, relay@, gst, iw, cw);
        }
    }

    /// Replaces a relay's trust level, creating its record if the URL is
    /// new, and rewrites both weight maps.
    pub fn update_weights_with_trust_level(&mut self, relay: &str, trust_level: i64)
        requires
            old(self).wf_basic(),
            0 <= trust_level <= SCORE_ONE,
        ensures
            final(self).wf_basic(),
            final(self).general == old(self).general,
            final(self).inbox == old(self).inbox,
            final(self).outbox == old(self).outbox,
            final(self).store_name == old(self).store_name,
            final(self).statistics@.dom().contains(relay@),
            final(self).statistics@ == old(self).statistics@.insert(
                relay@,
                final(self).statistics@[relay@],
            ),
            final(self).initial_weights@ == old(self).initial_weights@.insert(
                relay@,
                final(self).initial_weights@[relay@],
            ),
            final(self).current_weights@ == old(self).current_weights@.insert(
                relay@,
                final(self).current_weights@[relay@],
            ),
            (
            final(self).initial_weights@[relay@] as int,
            final(self).current_weights@[relay@] as int,
            ) == final(self).statistics@[relay@].spec_weights(),
            final(self).statistics@[relay@].trust_level == trust_level,
            old(self).statistics@.dom().contains(relay@) ==> ({
                let prev = old(self).statistics@[relay@];
                let st = final(self).statistics@[relay@];
                &&& st.requests == prev.requests
                &&& st.successful_requests == prev.successful_requests
                &&& st.response_times@ == prev.response_times@
                &&& st.vendor_score == prev.vendor_score
                &&& st.active_connections == prev.active_connections
            }),
            !old(self).statistics@.dom().contains(relay@) ==> stats_is_fresh(
                final(self).statistics@[relay@],
                trust_level,
                0,
            ),
    {
        let mut st = match self.statistics.take(relay) {
            Some(s) => s,
            None => Statistics::new(),
        };
        let (iw, cw) = st.update_trust_level(trust_level);
        let ghost gst = st;
        self.statistics.insert(relay, st);
        self.initial_weights.insert(relay, iw);
        self.current_weights.insert(relay, cw);
        proof {
            assert(self.statistics@ =~= old(self).statistics@.insert(relay@, gst));
            assert(cw as int == iw as int + gst.active_connections * CONNECTION_WEIGHT);
            RelaySelector::lemma_wf_after_stat_write(*old(self), *self, relay@, gst, iw, cw);
        }
    }

    /// Replaces a relay's vendor score, creating its record if the URL is
    /// new, and rewrites both weight maps.
    pub fn update_weights_with_vendor_score(&mut self, relay: &str, vendor_score: i64)
        requires
            old(self).wf_basic(),
            0 <= vendor_score <= SCORE_ONE,
        ensures
            final(self).wf_basic(),
            final(self).general == old(self).general,
            final(self).inbox == old(self).inbox,
            final(self).outbox == old(self).outbox,
            final(self).store_name == old(self).store_name,
            final(self).statistics@.dom().contains(relay@),
            final(self).statistics@ == old(self).statistics@.insert(
                relay@,
                final(self).statistics@[relay@],
            ),
            final(self).initial_weights@ == old(self).initial_weights@.insert(
                relay@,
                final(self).initial_weights@[relay@],
            ),
            final(self).current_weights@ == old(self).current_weights@.insert(
                relay@,
                final(self).current_weights@[relay@],
            ),
            (
            final(self).initial_weights@[relay@] as int,
            final(self).current_weights@[relay@] as int,
            ) == final(self).statistics@[relay@].spec_weights(),
            final(self).statistics@[relay@].vendor_score == vendor_score,
            old(self).statistics@.dom().contains(relay@) ==> ({
                let prev = old(self).statistics@[relay@];
                let st = final(self).statistics@[relay@];
                &&& st.requests == prev.requests
                &&& st.successful_requests == prev.successful_requests
                &&& st.response_times@ == prev.response_times@
                &&& st.trust_level == prev.trust_level
                &&& st.active_connections == prev.active_connections
            }),
            !old(self).statistics@.dom().contains(relay@) ==> stats_is_fresh(
                final(self).statistics@[relay@],
                0,
                vendor_score,
            ),
    {
        let mut st = match self.statistics.take(relay) {
            Some(s) => s,
            None => Statistics::new(),
        };
        let (iw, cw) = st.update_vendor_score(vendor_score);
        let ghost gst = st;
        self.statistics.insert(relay, st);
        self.initial_weights.insert(relay, iw);
        self.current_weights.insert(relay, cw);
        proof {
            assert(self.statistics@ =~= old(self).statistics@.insert(relay@, gst));
            assert(cw as int == iw as int + gst.active_connections * CONNECTION_WEIGHT);
            RelaySelector::lemma_wf_after_stat_write(*old(self), *self, relay@, gst, iw, cw);
        }
    }

    /// A mutable borrow of a known relay's statistics. Writing through the
    /// borrow bypasses the weight maps, so the registry invariant is the
    /// caller's to re-establish.
    pub fn get_mut_statistics(&mut self, relay: &str) -> (r: &mut Statistics)
        requires
            old(self).statistics.wf(),
            old(self).statistics@.dom().contains(relay@),
        ensures
            *r == old(self).statistics@[relay@],
            final(self).statistics.wf(),
            final(self).statistics@ == old(self).statistics@.insert(relay@, *final(r)),
            final(self).initial_weights == old(self).initial_weights,
            final(self).current_weights == old(self).current_weights,
            final(self).general == old(self).general,
            final(self).inbox == old(self).inbox,
            final(self).outbox == old(self).outbox,
            final(self).store_name == old(self).store_name,
    {
        self.statistics.get_mut(relay)
    }
}

impl RelaySelector {
    /// Returns a checked-out relay: its active-connection count goes down by
    /// one (never below zero), both weights are rewritten, and the variant's
    /// list is re-sorted. Returning a URL the registry does not know is a
    /// soft error and changes nothing.
    pub fn return_relay(&mut self, relay: &str, variant: Variant)
        requires
            old(self).wf_basic(),
        ensures
            final(self).wf_basic(),
            final(self).store_name == old(self).store_name,
            !old(self).statistics@.dom().contains(relay@) ==> *final(self) == *old(self),
            old(self).statistics@.dom().contains(relay@) ==> ({
                let prev = old(self).statistics@[relay@];
                let st = final(self).statistics@[relay@];
                &&& st.requests == prev.requests
                &&& st.successful_requests == prev.successful_requests
                &&& st.response_times@ == prev.response_times@
                &&& st.trust_level == prev.trust_level
                &&& st.vendor_score == prev.vendor_score
                &&& st.active_connections as int == if prev.active_connections == 0 {
                    0
                } else {
                    prev.active_connections - 1
                }
                &&& final(self).statistics@ == old(self).statistics@.insert(relay@, st)
                &&& final(self).initial_weights@ == old(self).initial_weights@.insert(
                    relay@,
                    final(self).initial_weights@[relay@],
                )
                &&& final(self).current_weights@ == old(self).current_weights@.insert(
                    relay@,
                    final(self).current_weights@[relay@],
                )
                &&& (
                final(self).initial_weights@[relay@] as int,
                final(self).current_weights@[relay@] as int,
                ) == st.spec_weights()
                &&& variant == Variant::General ==> final(self).general@ == spec_sort_urls(
                    final(self).current_weights@,
                    old(self).general@,
                ) && final(self).inbox == old(self).inbox && final(self).outbox == old(self).outbox
                &&& variant == Variant::Inbox ==> final(self).inbox@ == spec_sort_urls(
                    final(self).current_weights@,
                    old(self).inbox@,
                ) && final(self).general == old(self).general
                    && final(self).outbox == old(self).outbox
                &&& variant == Variant::Outbox ==> final(self).outbox@ == spec_sort_urls(
                    final(self).current_weights@,
                    old(self).outbox@,
                ) && final(self).general == old(self).general
                    && final(self).inbox == old(self).inbox
                &&& variant == Variant::Local ==> final(self).general == old(self).general
                    && final(self).inbox == old(self).inbox
                    && final(self).outbox == old(self).outbox
            }),
    {
        let known = self.statistics.contains_key(relay);
        if !known {
            return ;
        }
        let mut st = match self.statistics.take(relay) {
            Some(s) => s,
            None => {
                proof {
                    assert(false);
                }
                Statistics::new()
            },
        };
        let (iw, cw) = st.remove_active_connection();
        let ghost gst = st;
        self.statistics.insert(relay, st);
        self.initial_weights.insert(relay, iw);
        self.current_weights.insert(relay, cw);
        proof {
            assert(self.statistics@ =~= old(self).statistics@.insert(relay@, gst));
            assert(cw as int == iw as int + gst.active_connections * CONNECTION_WEIGHT);
            RelaySelector::lemma_wf_after_stat_write(*old(self), *self, relay@, gst, iw, cw);
        }
        let ghost mid = *self;
        match variant {
            Variant::General => weighted_sort(&mut self.general, &self.current_weights),
            Variant::Inbox => weighted_sort(&mut self.inbox, &self.current_weights),
            Variant::Outbox => weighted_sort(&mut self.outbox, &self.current_weights),
            Variant::Local => {},
        }
        proof {
            let d = self.statistics@.dom();
            crate::urlsort::lemma_sort_urls_in_dom(self.current_weights@, mid.general@, d);
            crate::urlsort::lemma_sort_urls_in_dom(self.current_weights@, mid.inbox@, d);
            crate::urlsort::lemma_sort_urls_in_dom(self.current_weights@, mid.outbox@, d);
            assert(self.wf_basic());
        }
    }

    /// Selects the relay of the given rank under the variant's current
    /// order and checks it out: its active-connection count goes up by one,
    /// both weights are rewritten, and the variant's list is re-sorted.
    ///
    /// Fails with `InvalidVariant` for `Local`, with `RankOutOfRange` when
    /// the list is shorter than `rank + 1`, with `NotAllowed` when a
    /// server-side caller selects a relay outside `allow_list`, and with
    /// `LimitExceeded` when the relay's checked-out count is at its
    /// maximum; a failed call changes nothing.
    pub fn get_relay_by_weighted_round_robin(
        &mut self,
        variant: Variant,
        rank: usize,
        is_server_side: bool,
        allow_list: &Vec<String>,
    ) -> (r: Result<String, SelectorError>)
        requires
            old(self).wf_basic(),
        ensures
            final(self).wf_basic(),
            final(self).store_name == old(self).store_name,
            variant == Variant::Local ==> r == Err::<String, SelectorError>(
                SelectorError::InvalidVariant,
            ) && *final(self) == *old(self),
            variant != Variant::Local && rank >= old(self).spec_list(variant).len() ==> r
                == Err::<String, SelectorError>(SelectorError::RankOutOfRange) && *final(self)
                == *old(self),
            variant != Variant::Local && rank < old(self).spec_list(variant).len() ==> ({
                let sel = (old(self).spec_list(variant)[rank as int])@;
                &&& (is_server_side && !spec_list_has(allow_list@, sel)) ==> r == Err::<
                    String,
                    SelectorError,
                >(SelectorError::NotAllowed) && *final(self) == *old(self)
                &&& (!is_server_side || spec_list_has(allow_list@, sel)) ==> ({
                    &&& old(self).statistics@[sel].active_connections == u8::MAX ==> r == Err::<
                        String,
                        SelectorError,
                    >(SelectorError::LimitExceeded) && *final(self) == *old(self)
                    &&& old(self).statistics@[sel].active_connections < u8::MAX ==> ({
                        let prev = old(self).statistics@[sel];
                        let st = final(self).statistics@[sel];
                        &&& r is Ok
                        &&& (r matches Ok(u) ==> u@ == sel)
                        &&& st.requests == prev.requests
                        &&& st.successful_requests == prev.successful_requests
                        &&& st.response_times@ == prev.response_times@
                        &&& st.trust_level == prev.trust_level
                        &&& st.vendor_score == prev.vendor_score
                        &&& st.active_connections == prev.active_connections + 1
                        &&& final(self).statistics@ == old(self).statistics@.insert(sel, st)
                        &&& final(self).initial_weights@ == old(self).initial_weights@.insert(
                            sel,
                            final(self).initial_weights@[sel],
                        )
                        &&& final(self).current_weights@ == old(self).current_weights@.insert(
                            sel,
                            final(self).current_weights@[sel],
                        )
                        &&& (
                        final(self).initial_weights@[sel] as int,
                        final(self).current_weights@[sel] as int,
                        ) == st.spec_weights()
                        &&& variant == Variant::General ==> final(self).general@ == spec_sort_urls(
                            final(self).current_weights@,
                            old(self).general@,
                        ) && final(self).inbox == old(self).inbox
                            && final(self).outbox == old(self).outbox
                        &&& variant == Variant::Inbox ==> final(self).inbox@ == spec_sort_urls(
                            final(self).current_weights@,
                            old(self).inbox@,
                        ) && final(self).general == old(self).general
                            && final(self).outbox == old(self).outbox
                        &&& variant == Variant::Outbox ==> final(self).outbox@ == spec_sort_urls(
                            final(self).current_weights@,
                            old(self).outbox@,
                        ) && final(self).general == old(self).general
                            && final(self).inbox == old(self).inbox
                    })
                })
            }),
    {
        if variant == Variant::Local {
            return Err(SelectorError::InvalidVariant);
        }
        let len = match variant {
            Variant::General => self.general.len(),
            Variant::Inbox => self.inbox.len(),
            Variant::Outbox => self.outbox.len(),
            Variant::Local => 0,
        };
        if rank >= len {
            return Err(SelectorError::RankOutOfRange);
        }
        let selected: String = match variant {
            Variant::General => self.general[rank].clone(),
            Variant::Inbox => self.inbox[rank].clone(),
            Variant::Outbox => self.outbox[rank].clone(),
            Variant::Local => {
                proof {
                    assert(false);
                }
                String::new()
            },
        };
        proof {
            assert(selected@ == (old(self).spec_list(variant)[rank as int])@);
            assert(self.statistics@.dom().contains(selected@));
        }
        let allowed = list_contains(allow_list, selected.as_str());
        if is_server_side && !allowed {
            return Err(SelectorError::NotAllowed);
        }
        let at_limit = match self.statistics.get(selected.as_str()) {
            Some(st) => st.active_connections == u8::MAX,
            None => {
                proof {
                    assert(false);
                }
                false
            },
        };
        if at_limit {
            return Err(SelectorError::LimitExceeded);
        }
        let mut st = match self.statistics.take(selected.as_str()) {
            Some(s) => s,
            None => {
                proof {
                    assert(false);
                }
                Statistics::new()
            },
        };
        let (iw, cw) = match st.add_active_connection() {
            Ok(w) => w,
            Err(_) => {
                proof {
                    assert(false);
                }
                (0, 0)
            },
        };
        let ghost gst = st;
        self.statistics.insert(selected.as_str(), st);
        self.initial_weights.insert(selected.as_str(), iw);
        self.current_weights.insert(selected.as_str(), cw);
        proof {
            assert(self.statistics@ =~= old(self).statistics@.insert(selected@, gst));
            assert(cw as int == iw as int + gst.active_connections * CONNECTION_WEIGHT);
            RelaySelector::lemma_wf_after_stat_write(*old(self), *self, selected@, gst, iw, cw);
        }
        let ghost mid = *self;
        match variant {
            Variant::General => weighted_sort(&mut self.general, &self.current_weights),
            Variant::Inbox => weighted_sort(&mut self.inbox, &self.current_weights),
            Variant::Outbox => weighted_sort(&mut self.outbox, &self.current_weights),
            Variant::Local => {},
        }
        proof {
            let d = self.statistics@.dom();
            crate::urlsort::lemma_sort_urls_in_dom(self.current_weights@, mid.general@, d);
            crate::urlsort::lemma_sort_urls_in_dom(self.current_weights@, mid.inbox@, d);
            crate::urlsort::lemma_sort_urls_in_dom(self.current_weights@, mid.outbox@, d);
            assert(self.wf_basic());
        }
        Ok(selected)
    }
}

/// The statistics a loaded record yields: the persisted fields adopted with
/// the sample log in ascending order and no connection checked out.
pub open spec fn spec_adopted(st: Statistics, rec: crate::records::RelayRecord) -> bool {
    &&& st.requests as int == if rec.successful_requests > rec.requests {
        rec.successful_requests as int
    } else {
        rec.requests as int
    }
    &&& st.successful_requests == rec.successful_requests
    &&& st.response_times@ == crate::weights::spec_sort_samples(rec.response_times@)
    &&& st.trust_level == rec.trust_level
    &&& st.vendor_score == rec.vendor_score
    &&& st.active_connections == 0
}

/// A record carries exactly the registry's data for `u` (under `variant`
/// it was saved from).
pub open spec fn spec_record_matches(
    rec: crate::records::RelayRecord,
    s: RelaySelector,
    u: Seq<char>,
) -> bool {
    &&& rec.url@ == u
    &&& rec.requests == s.statistics@[u].requests
    &&& rec.successful_requests == s.statistics@[u].successful_requests
    &&& rec.response_times@ == s.statistics@[u].response_times@
    &&& rec.trust_level == s.statistics@[u].trust_level
    &&& rec.vendor_score == s.statistics@[u].vendor_score
    &&& rec.weight == s.initial_weights@[u]
}

/// Records that share a URL carry the same data.
pub open spec fn spec_records_agree(recs: Seq<crate::records::RelayRecord>) -> bool {
    forall|i: int, j: int|
        0 <= i < recs.len() && 0 <= j < recs.len() && (#[trigger] recs[i]).url@ == (
        #[trigger] recs[j]).url@ ==> ({
            &&& recs[i].requests == recs[j].requests
            &&& recs[i].successful_requests == recs[j].successful_requests
            &&& recs[i].response_times@ == recs[j].response_times@
            &&& recs[i].trust_level == recs[j].trust_level
            &&& recs[i].vendor_score == recs[j].vendor_score
            &&& recs[i].weight == recs[j].weight
        })
}

/// Whether some record's URL reads as `u`.
pub open spec fn spec_recs_have_url(recs: Seq<crate::records::RelayRecord>, u: Seq<char>) -> bool {
    exists|i: int| 0 <= i < recs.len() && (#[trigger] recs[i]).url@ == u
}

/// Whether some record would land `u` in the list that `v` schedules from.
pub open spec fn spec_recs_have_url_for(
    recs: Seq<crate::records::RelayRecord>,
    u: Seq<char>,
    v: Variant,
) -> bool {
    exists|i: int|
        0 <= i < recs.len() && (#[trigger] recs[i]).url@ == u && ({
            if v == Variant::General {
                recs[i].variant == Variant::General || recs[i].variant == Variant::Local
            } else {
                recs[i].variant == v
            }
        })
}

/// Whether any record lands in the list that `v` schedules from.
pub open spec fn spec_recs_have_any_for(recs: Seq<crate::records::RelayRecord>, v: Variant) -> bool {
    exists|i: int|
        0 <= i < recs.len() && ({
            if v == Variant::General {
                (#[trigger] recs[i]).variant == Variant::General || recs[i].variant
                    == Variant::Local
            } else {
                (#[trigger] recs[i]).variant == v
            }
        })
}

/// Whether loading these records leaves some variant list empty, so the
/// defaults are seeded.
pub open spec fn spec_seeding_occurred(recs: Seq<crate::records::RelayRecord>) -> bool {
    !spec_recs_have_any_for(recs, Variant::General) || !spec_recs_have_any_for(
        recs,
        Variant::Inbox,
    ) || !spec_recs_have_any_for(recs, Variant::Outbox)
}

/// The registry a load builds, given agreeing records: record URLs are the
/// key set (plus the seeded defaults when some list came up empty), every
/// record's data is adopted at its URL with its persisted weight, each list
/// holds the URLs saved under its variant or — when none were — exactly the
/// defaults, sorted, with fresh score-carrying records for defaults the
/// store did not know.
pub open spec fn spec_loaded_registry(
    r: RelaySelector,
    recs: Seq<crate::records::RelayRecord>,
    defaults: Seq<String>,
    trust_levels: Seq<i64>,
    vendor_scores: Seq<i64>,
) -> bool {
    &&& forall|u: Seq<char>|
        #[trigger] r.statistics@.dom().contains(u) <==> (spec_recs_have_url(recs, u) || (
        spec_seeding_occurred(recs) && spec_list_has(defaults, u)))
    &&& forall|i: int|
        0 <= i < recs.len() ==> ({
            let u = (#[trigger] recs[i]).url@;
            &&& spec_adopted(r.statistics@[u], recs[i])
            &&& r.initial_weights@[u] == recs[i].weight
            &&& r.current_weights@[u] == recs[i].weight
        })
    &&& spec_recs_have_any_for(recs, Variant::General) ==> (forall|u: Seq<char>|
        spec_list_has(r.general@, u) <==> spec_recs_have_url_for(recs, u, Variant::General))
    &&& !spec_recs_have_any_for(recs, Variant::General) ==> (forall|u: Seq<char>|
        spec_list_has(r.general@, u) <==> spec_list_has(defaults, u)) && urls_sorted(
        r.current_weights@,
        r.general@,
    )
    &&& spec_recs_have_any_for(recs, Variant::Inbox) ==> (forall|u: Seq<char>|
        spec_list_has(r.inbox@, u) <==> spec_recs_have_url_for(recs, u, Variant::Inbox))
    &&& !spec_recs_have_any_for(recs, Variant::Inbox) ==> (forall|u: Seq<char>|
        spec_list_has(r.inbox@, u) <==> spec_list_has(defaults, u)) && urls_sorted(
        r.current_weights@,
        r.inbox@,
    )
    &&& spec_recs_have_any_for(recs, Variant::Outbox) ==> (forall|u: Seq<char>|
        spec_list_has(r.outbox@, u) <==> spec_recs_have_url_for(recs, u, Variant::Outbox))
    &&& !spec_recs_have_any_for(recs, Variant::Outbox) ==> (forall|u: Seq<char>|
        spec_list_has(r.outbox@, u) <==> spec_list_has(defaults, u)) && urls_sorted(
        r.current_weights@,
        r.outbox@,
    )
    &&& forall|j: int|
        0 <= j < defaults.len() && !spec_recs_have_url(recs, (#[trigger] defaults[j])@)
            && spec_seeding_occurred(recs) ==> ({
            let u = (defaults[j])@;
            &&& stats_is_fresh(r.statistics@[u], trust_levels[j], vendor_scores[j])
            &&& (r.initial_weights@[u] as int, r.current_weights@[u] as int)
                == r.statistics@[u].spec_weights()
        })
}

impl RelaySelector {
    /// Materialises one record per `(variant, url)` pair, in list order:
    /// general relays first, then inbox, then outbox.
    pub fn to_records(&self) -> (r: Vec<crate::records::RelayRecord>)
        requires
            self.wf_basic(),
        ensures
            r@.len() == self.general@.len() + self.inbox@.len() + self.outbox@.len(),
            forall|k: int|
                0 <= k < self.general@.len() ==> spec_record_matches(
                    #[trigger] r@[k],
                    *self,
                    (self.general@[k])@,
                ) && r@[k].variant == Variant::General && r@[k].wf(),
            forall|k: int|
                self.general@.len() <= k < self.general@.len() + self.inbox@.len()
                    ==> spec_record_matches(
                    #[trigger] r@[k],
                    *self,
                    (self.inbox@[k - self.general@.len()])@,
                ) && r@[k].variant == Variant::Inbox && r@[k].wf(),
            forall|k: int|
                self.general@.len() + self.inbox@.len() <= k < r@.len() ==> spec_record_matches(
                    #[trigger] r@[k],
                    *self,
                    (self.outbox@[k - self.general@.len() - self.inbox@.len()])@,
                ) && r@[k].variant == Variant::Outbox && r@[k].wf(),
    {
        let mut out: Vec<crate::records::RelayRecord> = Vec::new();
        let gn = self.general.len();
        let bn = self.inbox.len();
        let on = self.outbox.len();
        let mut i: usize = 0;
        while i < gn
            invariant
                i <= gn,
                gn == self.general@.len(),
                self.wf_basic(),
                out@.len() == i,
                forall|k: int|
                    0 <= k < i ==> spec_record_matches(
                        #[trigger] out@[k],
                        *self,
                        (self.general@[k])@,
                    ) && out@[k].variant == Variant::General && out@[k].wf(),
            decreases gn - i,
        {
            let url = &self.general[i];
            let st = match self.statistics.get(url.as_str()) {
                Some(st) => st,
                None => {
                    proof {
                        assert(false);
                    }
                    return out;
                },
            };
            let rec = crate::records::RelayRecord::from_repositories(
                url.as_str(),
                Variant::General,
                st,
                self,
            );
            out.push(rec);
            i = i + 1;
        }
        let mut i: usize = 0;
        while i < bn
            invariant
                i <= bn,
                gn == self.general@.len(),
                bn == self.inbox@.len(),
                self.wf_basic(),
                out@.len() == gn + i,
                forall|k: int|
                    0 <= k < gn ==> spec_record_matches(
                        #[trigger] out@[k],
                        *self,
                        (self.general@[k])@,
                    ) && out@[k].variant == Variant::General && out@[k].wf(),
                forall|k: int|
                    gn <= k < gn + i ==> spec_record_matches(
                        #[trigger] out@[k],
                        *self,
                        (self.inbox@[k - gn])@,
                    ) && out@[k].variant == Variant::Inbox && out@[k].wf(),
            decreases bn - i,
        {
            let url = &self.inbox[i];
            let st = match self.statistics.get(url.as_str()) {
                Some(st) => st,
                None => {
                    proof {
                        assert(false);
                    }
                    return out;
                },
            };
            let rec = crate::records::RelayRecord::from_repositories(
                url.as_str(),
                Variant::Inbox,
                st,
                self,
            );
            out.push(rec);
            i = i + 1;
        }
        let mut i: usize = 0;
        while i < on
            invariant
                i <= on,
                gn == self.general@.len(),
                bn == self.inbox@.len(),
                on == self.outbox@.len(),
                self.wf_basic(),
                out@.len() == gn + bn + i,
                forall|k: int|
                    0 <= k < gn ==> spec_record_matches(
                        #[trigger] out@[k],
                        *self,
                        (self.general@[k])@,
                    ) && out@[k].variant == Variant::General && out@[k].wf(),
                forall|k: int|
                    gn <= k < gn + bn ==> spec_record_matches(
                        #[trigger] out@[k],
                        *self,
                        (self.inbox@[k - gn])@,
                    ) && out@[k].variant == Variant::Inbox && out@[k].wf(),
                forall|k: int|
                    gn + bn <= k < gn + bn + i ==> spec_record_matches(
                        #[trigger] out@[k],
                        *self,
                        (self.outbox@[k - gn - bn])@,
                    ) && out@[k].variant == Variant::Outbox && out@[k].wf(),
            decreases on - i,
        {
            let url = &self.outbox[i];
            let st = match self.statistics.get(url.as_str()) {
                Some(st) => st,
                None => {
                    proof {
                        assert(false);
                    }
                    return out;
                },
            };
            let rec = crate::records::RelayRecord::from_repositories(
                url.as_str(),
                Variant::Outbox,
                st,
                self,
            );
            out.push(rec);
            i = i + 1;
        }
        out
    }

    /// Loads one record: the URL joins its variant's list, the persisted
    /// statistics replace whatever the registry had, and both weight maps
    /// take the persisted weight.
    pub fn ingest_record(&mut self, rec: &crate::records::RelayRecord)
        requires
            old(self).wf_basic(),
            rec.wf(),
        ensures
            final(self).wf_basic(),
            final(self).store_name == old(self).store_name,
            final(self).statistics@.dom().contains(rec.url@),
            spec_adopted(final(self).statistics@[rec.url@], *rec),
            final(self).statistics@ == old(self).statistics@.insert(
                rec.url@,
                final(self).statistics@[rec.url@],
            ),
            final(self).initial_weights@ == old(self).initial_weights@.insert(
                rec.url@,
                rec.weight,
            ),
            final(self).current_weights@ == old(self).current_weights@.insert(
                rec.url@,
                rec.weight,
            ),
            forall|u: Seq<char>|
                spec_list_has(final(self).spec_list(rec.variant), u) <==> (spec_list_has(
                    old(self).spec_list(rec.variant),
                    u,
                ) || u == rec.url@),
            rec.variant == Variant::General || rec.variant == Variant::Local ==> final(self).inbox
                == old(self).inbox && final(self).outbox == old(self).outbox,
            rec.variant == Variant::Inbox ==> final(self).general == old(self).general
                && final(self).outbox == old(self).outbox,
            rec.variant == Variant::Outbox ==> final(self).general == old(self).general
                && final(self).inbox == old(self).inbox,
    {
        self.insert(rec.url.as_str(), rec.variant, 0, 0);
        let ghost mid = *self;
        let st = rec.to_statistics();
        let ghost gst = st;
        self.statistics.insert(rec.url.as_str(), st);
        self.initial_weights.insert(rec.url.as_str(), rec.weight);
        self.current_weights.insert(rec.url.as_str(), rec.weight);
        proof {
            RelaySelector::lemma_wf_after_stat_write(
                mid,
                *self,
                rec.url@,
                gst,
                rec.weight,
                rec.weight,
            );
            assert(self.statistics@ =~= old(self).statistics@.insert(rec.url@, gst));
            assert(self.initial_weights@ =~= old(self).initial_weights@.insert(
                rec.url@,
                rec.weight,
            ));
            assert(self.current_weights@ =~= old(self).current_weights@.insert(
                rec.url@,
                rec.weight,
            ));
        }
    }

    /// Adds a known relay to a variant's list without touching its
    /// statistics or weights, and re-sorts that list. Listing a URL the
    /// variant already lists changes nothing.
    fn enlist(&mut self, relay: &str, variant: Variant)
        requires
            old(self).wf_basic(),
            old(self).statistics@.dom().contains(relay@),
            variant == Variant::General || variant == Variant::Inbox || variant
                == Variant::Outbox,
        ensures
            final(self).wf_basic(),
            final(self).store_name == old(self).store_name,
            final(self).statistics == old(self).statistics,
            final(self).initial_weights == old(self).initial_weights,
            final(self).current_weights == old(self).current_weights,
            spec_list_has(old(self).spec_list(variant), relay@) ==> *final(self) == *old(self),
            !spec_list_has(old(self).spec_list(variant), relay@) ==> ({
                &&& final(self).spec_list(variant).len() == old(self).spec_list(variant).len() + 1
                &&& forall|u: Seq<char>|
                    spec_list_has(final(self).spec_list(variant), u) <==> (spec_list_has(
                        old(self).spec_list(variant),
                        u,
                    ) || u == relay@)
                &&& urls_sorted(final(self).current_weights@, final(self).spec_list(variant))
                &&& variant == Variant::General ==> final(self).inbox == old(self).inbox
                    && final(self).outbox == old(self).outbox
                &&& variant == Variant::Inbox ==> final(self).general == old(self).general
                    && final(self).outbox == old(self).outbox
                &&& variant == Variant::Outbox ==> final(self).general == old(self).general
                    && final(self).inbox == old(self).inbox
            }),
    {
        let already = match variant {
            Variant::General => list_contains(&self.general, relay),
            Variant::Inbox => list_contains(&self.inbox, relay),
            Variant::Outbox => list_contains(&self.outbox, relay),
            Variant::Local => list_contains(&self.general, relay),
        };
        if already {
            return ;
        }
        let owned = String::from_str(relay);
        let ghost target0 = self.spec_list(variant);
        match variant {
            Variant::General => self.general.push(owned),
            Variant::Inbox => self.inbox.push(owned),
            Variant::Outbox => self.outbox.push(owned),
            Variant::Local => self.general.push(owned),
        }
        let ghost pushed = self.spec_list(variant);
        proof {
            assert(pushed == target0.push(pushed.last()));
            assert(pushed.last()@ == relay@);
            assert forall|i: int|
                0 <= i < pushed.len() implies self.current_weights@.dom().contains(
                (#[trigger] pushed[i])@,
            ) by {
                if i < pushed.len() - 1 {
                    assert(pushed[i] == target0[i]);
                }
            }
        }
        match variant {
            Variant::General => weighted_sort(&mut self.general, &self.current_weights),
            Variant::Inbox => weighted_sort(&mut self.inbox, &self.current_weights),
            Variant::Outbox => weighted_sort(&mut self.outbox, &self.current_weights),
            Variant::Local => weighted_sort(&mut self.general, &self.current_weights),
        }
        proof {
            let sorted = self.spec_list(variant);
            assert(sorted == spec_sort_urls(self.current_weights@, pushed));
            lemma_sort_urls_len(self.current_weights@, pushed);
            crate::urlsort::lemma_sort_urls_sorted(self.current_weights@, pushed);
            assert forall|u: Seq<char>|
                spec_list_has(sorted, u) <==> (spec_list_has(target0, u) || u == relay@) by {
                if spec_list_has(sorted, u) {
                    let i = choose|i: int| 0 <= i < sorted.len() && (#[trigger] sorted[i])@ == u;
                    assert(sorted.contains(sorted[i]));
                    lemma_sort_urls_contains(self.current_weights@, pushed, sorted[i]);
                    let j = choose|j: int| 0 <= j < pushed.len() && pushed[j] == sorted[i];
                    if j < pushed.len() - 1 {
                        assert(target0[j]@ == u);
                    }
                }
                if spec_list_has(target0, u) {
                    let i = choose|i: int|
                        0 <= i < target0.len() && (#[trigger] target0[i])@ == u;
                    assert(pushed[i] == target0[i]);
                    lemma_sort_urls_contains(self.current_weights@, pushed, pushed[i]);
                    let j = choose|j: int| 0 <= j < sorted.len() && sorted[j] == pushed[i];
                }
                if u == relay@ {
                    assert(pushed.contains(pushed.last()));
                    lemma_sort_urls_contains(self.current_weights@, pushed, pushed.last());
                    let j = choose|j: int| 0 <= j < sorted.len() && sorted[j] == pushed.last();
                }
            }
            let dom_now = self.statistics@.dom();
            assert forall|i: int|
                0 <= i < sorted.len() implies dom_now.contains((#[trigger] sorted[i])@) by {
                assert(spec_list_has(sorted, sorted[i]@));
            }
            assert forall|i: int|
                0 <= i < self.general@.len() implies dom_now.contains(
                (#[trigger] self.general@[i])@,
            ) by {
                if variant == Variant::Inbox || variant == Variant::Outbox {
                    assert(self.general@[i] == old(self).general@[i]);
                } else {
                    assert(sorted[i] == self.general@[i]);
                }
            }
            assert forall|i: int|
                0 <= i < self.inbox@.len() implies dom_now.contains(
                (#[trigger] self.inbox@[i])@,
            ) by {
                if variant == Variant::Inbox {
                    assert(sorted[i] == self.inbox@[i]);
                } else {
                    assert(self.inbox@[i] == old(self).inbox@[i]);
                }
            }
            assert forall|i: int|
                0 <= i < self.outbox@.len() implies dom_now.contains(
                (#[trigger] self.outbox@[i])@,
            ) by {
                if variant == Variant::Outbox {
                    assert(sorted[i] == self.outbox@[i]);
                } else {
                    assert(self.outbox@[i] == old(self).outbox@[i]);
                }
            }
            assert(self.wf_basic());
        }
    }

    /// Seeds one relay into a variant's list: a URL the registry already
    /// knows keeps its statistics and weights and is only listed; a new URL
    /// gets a fresh record carrying the supplied configuration scores.
    fn seed_relay(&mut self, relay: &str, variant: Variant, trust_level: i64, vendor_score: i64)
        requires
            old(self).wf_basic(),
            0 <= trust_level <= SCORE_ONE,
            0 <= vendor_score <= SCORE_ONE,
            variant == Variant::General || variant == Variant::Inbox || variant
                == Variant::Outbox,
        ensures
            final(self).wf_basic(),
            final(self).store_name == old(self).store_name,
            final(self).statistics@.dom().contains(relay@),
            old(self).statistics@.dom().contains(relay@)
                ==> final(self).statistics@ == old(self).statistics@
                    && final(self).initial_weights@ == old(self).initial_weights@
                    && final(self).current_weights@ == old(self).current_weights@,
            !old(self).statistics@.dom().contains(relay@) ==> ({
                &&& stats_is_fresh(final(self).statistics@[relay@], trust_level, vendor_score)
                &&& final(self).statistics@ == old(self).statistics@.insert(
                    relay@,
                    final(self).statistics@[relay@],
                )
                &&& final(self).initial_weights@ == old(self).initial_weights@.insert(
                    relay@,
                    final(self).initial_weights@[relay@],
                )
                &&& final(self).current_weights@ == old(self).current_weights@.insert(
                    relay@,
                    final(self).current_weights@[relay@],
                )
                &&& (
                final(self).initial_weights@[relay@] as int,
                final(self).current_weights@[relay@] as int,
                ) == final(self).statistics@[relay@].spec_weights()
            }),
            spec_list_has(old(self).spec_list(variant), relay@)
                ==> final(self).general == old(self).general
                    && final(self).inbox == old(self).inbox
                    && final(self).outbox == old(self).outbox,
            !spec_list_has(old(self).spec_list(variant), relay@) ==> ({
                &&& final(self).spec_list(variant).len() == old(self).spec_list(variant).len() + 1
                &&& forall|u: Seq<char>|
                    spec_list_has(final(self).spec_list(variant), u) <==> (spec_list_has(
                        old(self).spec_list(variant),
                        u,
                    ) || u == relay@)
                &&& urls_sorted(final(self).current_weights@, final(self).spec_list(variant))
                &&& variant == Variant::General ==> final(self).inbox == old(self).inbox
                    && final(self).outbox == old(self).outbox
                &&& variant == Variant::Inbox ==> final(self).general == old(self).general
                    && final(self).outbox == old(self).outbox
                &&& variant == Variant::Outbox ==> final(self).general == old(self).general
                    && final(self).inbox == old(self).inbox
            }),
    {
        let known = self.statistics.contains_key(relay);
        if known {
            self.enlist(relay, variant);
        } else {
            proof {
                if spec_list_has(self.spec_list(variant), relay@) {
                    let i = choose|i: int|
                        0 <= i < self.spec_list(variant).len() && (#[trigger] self.spec_list(
                            variant,
                        )[i])@ == relay@;
                    assert(self.statistics@.dom().contains(relay@));
                }
            }
            self.insert(relay, variant, trust_level, vendor_score);
        }
    }

    /// Seeds every still-empty variant list with the default relays, each
    /// carrying its configured trust level and vendor score. Lists that
    /// already hold a relay are left alone, and a seeded URL the registry
    /// already knows keeps its statistics and weights.
    pub fn populate_defaults(
        &mut self,
        defaults: &Vec<String>,
        trust_levels: &Vec<i64>,
        vendor_scores: &Vec<i64>,
    )
        requires
            old(self).wf_basic(),
            trust_levels@.len() == defaults@.len(),
            vendor_scores@.len() == defaults@.len(),
            forall|k: int| 0 <= k < defaults@.len() ==> 0 <= #[trigger] trust_levels@[k] <= SCORE_ONE,
            forall|k: int| 0 <= k < defaults@.len() ==> 0 <= #[trigger] vendor_scores@[k] <= SCORE_ONE,
            forall|a: int, b: int|
                0 <= a < b < defaults@.len() ==> (#[trigger] defaults@[a])@ != (
                #[trigger] defaults@[b])@,
        ensures
            final(self).wf_basic(),
            final(self).store_name == old(self).store_name,
            defaults@.len() == 0 ==> *final(self) == *old(self),
            old(self).general@.len() > 0 ==> final(self).general == old(self).general,
            old(self).inbox@.len() > 0 ==> final(self).inbox == old(self).inbox,
            old(self).outbox@.len() > 0 ==> final(self).outbox == old(self).outbox,
            old(self).general@.len() == 0 ==> (forall|u: Seq<char>|
                spec_list_has(final(self).general@, u) <==> spec_list_has(defaults@, u))
                && urls_sorted(final(self).current_weights@, final(self).general@),
            old(self).inbox@.len() == 0 ==> (forall|u: Seq<char>|
                spec_list_has(final(self).inbox@, u) <==> spec_list_has(defaults@, u))
                && urls_sorted(final(self).current_weights@, final(self).inbox@),
            old(self).outbox@.len() == 0 ==> (forall|u: Seq<char>|
                spec_list_has(final(self).outbox@, u) <==> spec_list_has(defaults@, u))
                && urls_sorted(final(self).current_weights@, final(self).outbox@),
            forall|u: Seq<char>|
                #[trigger] old(self).statistics@.dom().contains(u) ==> final(self).statistics@.dom().contains(u) && final(self).statistics@[u] == old(self).statistics@[u] && final(self).initial_weights@[u] == old(self).initial_weights@[u] && final(self).current_weights@[u] == old(self).current_weights@[u],
            forall|u: Seq<char>|
                #[trigger] final(self).statistics@.dom().contains(u) <==> (old(self).statistics@.dom().contains(u) || ((old(self).general@.len() == 0 || old(self).inbox@.len() == 0 || old(self).outbox@.len() == 0) && spec_list_has(
                    defaults@,
                    u,
                ))),
            forall|j: int|
                0 <= j < defaults@.len() && !old(self).statistics@.dom().contains(
                    (#[trigger] defaults@[j])@,
                ) && (old(self).general@.len() == 0 || old(self).inbox@.len() == 0 || old(self).outbox@.len() == 0) ==> ({
                    let u = (defaults@[j])@;
                    &&& stats_is_fresh(
                        final(self).statistics@[u],
                        trust_levels@[j],
                        vendor_scores@[j],
                    )
                    &&& (
                    final(self).initial_weights@[u] as int,
                    final(self).current_weights@[u] as int,
                    ) == final(self).statistics@[u].spec_weights()
                }),
    {
        let seed_general = self.general.is_empty();
        let seed_inbox = self.inbox.is_empty();
        let seed_outbox = self.outbox.is_empty();
        let n = defaults.len();
        let ghost base = *self;
        let mut i: usize = 0;
        while i < n
            invariant
                i <= n,
                n == defaults@.len(),
                trust_levels@.len() == n,
                vendor_scores@.len() == n,
                forall|k: int| 0 <= k < n ==> 0 <= #[trigger] trust_levels@[k] <= SCORE_ONE,
                forall|k: int| 0 <= k < n ==> 0 <= #[trigger] vendor_scores@[k] <= SCORE_ONE,
                forall|a: int, b: int|
                    0 <= a < b < n ==> (#[trigger] defaults@[a])@ != (#[trigger] defaults@[b])@,
                self.wf_basic(),
                base == *old(self),
                self.store_name == base.store_name,
                i == 0 ==> *self == base,
                seed_general == (base.general@.len() == 0),
                seed_inbox == (base.inbox@.len() == 0),
                seed_outbox == (base.outbox@.len() == 0),
                !seed_general ==> self.general == base.general,
                !seed_inbox ==> self.inbox == base.inbox,
                !seed_outbox ==> self.outbox == base.outbox,
                seed_general ==> (forall|u: Seq<char>|
                    spec_list_has(self.general@, u) <==> spec_list_has(
                        defaults@.take(i as int),
                        u,
                    )) && urls_sorted(self.current_weights@, self.general@),
                seed_inbox ==> (forall|u: Seq<char>|
                    spec_list_has(self.inbox@, u) <==> spec_list_has(
                        defaults@.take(i as int),
                        u,
                    )) && urls_sorted(self.current_weights@, self.inbox@),
                seed_outbox ==> (forall|u: Seq<char>|
                    spec_list_has(self.outbox@, u) <==> spec_list_has(
                        defaults@.take(i as int),
                        u,
                    )) && urls_sorted(self.current_weights@, self.outbox@),
                forall|u: Seq<char>|
                    #[trigger] base.statistics@.dom().contains(u)
                        ==> self.statistics@.dom().contains(u) && self.statistics@[u]
                        == base.statistics@[u] && self.initial_weights@[u]
                        == base.initial_weights@[u] && self.current_weights@[u]
                        == base.current_weights@[u],
                forall|u: Seq<char>|
                    #[trigger] self.statistics@.dom().contains(u) <==> (
                    base.statistics@.dom().contains(u) || ((seed_general || seed_inbox
                        || seed_outbox) && (exists|j: int|
                        0 <= j < i && (#[trigger] defaults@[j])@ == u))),
                forall|j: int|
                    0 <= j < i && !base.statistics@.dom().contains((#[trigger] defaults@[j])@)
                        && (seed_general || seed_inbox || seed_outbox) ==> ({
                        let u = (defaults@[j])@;
                        &&& stats_is_fresh(
                            self.statistics@[u],
                            trust_levels@[j],
                            vendor_scores@[j],
                        )
                        &&& (
                        self.initial_weights@[u] as int,
                        self.current_weights@[u] as int,
                        ) == self.statistics@[u].spec_weights()
                    }),
            decreases n - i,
        {
            let ghost s0 = *self;
            let ghost du = defaults@[i as int]@;
            proof {
                assert(!spec_list_has(defaults@.take(i as int), du));
            }
            if seed_general {
                self.seed_relay(
                    defaults[i].as_str(),
                    Variant::General,
                    trust_levels[i],
                    vendor_scores[i],
                );
            }
            let ghost s1 = *self;
            if seed_inbox {
                self.seed_relay(
                    defaults[i].as_str(),
                    Variant::Inbox,
                    trust_levels[i],
                    vendor_scores[i],
                );
            }
            let ghost s2 = *self;
            if seed_outbox {
                self.seed_relay(
                    defaults[i].as_str(),
                    Variant::Outbox,
                    trust_levels[i],
                    vendor_scores[i],
                );
            }
            proof {
                assert(defaults@.take(i + 1) =~= defaults@.take(i as int).push(
                    defaults@[i as int],
                ));
                assert((defaults@.take(i + 1)[i as int])@ == du);
                assert(spec_list_has(defaults@.take(i + 1), du));
                if seed_general {
                    assert forall|u: Seq<char>|
                        spec_list_has(self.general@, u) <==> spec_list_has(
                        defaults@.take(i + 1),
                        u,
                    ) by {
                        assert(self.general == s1.general);
                        assert(spec_list_has(s0.general@, u) <==> spec_list_has(
                            defaults@.take(i as int),
                            u,
                        ));
                        assert(spec_list_has(s1.general@, u) <==> (spec_list_has(s0.general@, u)
                            || u == du));
                        if spec_list_has(defaults@.take(i + 1), u) && u != du {
                            let j = choose|j: int|
                                0 <= j < defaults@.take(i + 1).len() && (#[trigger] defaults@.take(
                                    i + 1,
                                )[j])@ == u;
                            assert(defaults@.take(i as int)[j]@ == u);
                        }
                        if spec_list_has(defaults@.take(i as int), u) {
                            let j = choose|j: int|
                                0 <= j < defaults@.take(i as int).len() && (
                                #[trigger] defaults@.take(i as int)[j])@ == u;
                            assert(defaults@.take(i + 1)[j]@ == u);
                        }
                    }
                }
                if seed_inbox {
                    assert forall|u: Seq<char>|
                        spec_list_has(self.inbox@, u) <==> spec_list_has(
                        defaults@.take(i + 1),
                        u,
                    ) by {
                        assert(self.inbox == s2.inbox);
                        assert(s1.inbox == s0.inbox);
                        assert(spec_list_has(s1.inbox@, u) <==> spec_list_has(
                            defaults@.take(i as int),
                            u,
                        ));
                        assert(spec_list_has(s2.inbox@, u) <==> (spec_list_has(s1.inbox@, u) || u
                            == du));
                        if spec_list_has(defaults@.take(i + 1), u) && u != du {
                            let j = choose|j: int|
                                0 <= j < defaults@.take(i + 1).len() && (#[trigger] defaults@.take(
                                    i + 1,
                                )[j])@ == u;
                            assert(defaults@.take(i as int)[j]@ == u);
                        }
                        if spec_list_has(defaults@.take(i as int), u) {
                            let j = choose|j: int|
                                0 <= j < defaults@.take(i as int).len() && (
                                #[trigger] defaults@.take(i as int)[j])@ == u;
                            assert(defaults@.take(i + 1)[j]@ == u);
                        }
                    }
                }
                if seed_outbox {
                    assert forall|u: Seq<char>|
                        spec_list_has(self.outbox@, u) <==> spec_list_has(
                        defaults@.take(i + 1),
                        u,
                    ) by {
                        assert(s1.outbox == s0.outbox);
                        assert(s2.outbox == s1.outbox);
                        assert(spec_list_has(s2.outbox@, u) <==> spec_list_has(
                            defaults@.take(i as int),
                            u,
                        ));
                        assert(spec_list_has(self.outbox@, u) <==> (spec_list_has(
                            s2.outbox@,
                            u,
                        ) || u == du));
                        if spec_list_has(defaults@.take(i + 1), u) && u != du {
                            let j = choose|j: int|
                                0 <= j < defaults@.take(i + 1).len() && (#[trigger] defaults@.take(
                                    i + 1,
                                )[j])@ == u;
                            assert(defaults@.take(i as int)[j]@ == u);
                        }
                        if spec_list_has(defaults@.take(i as int), u) {
                            let j = choose|j: int|
                                0 <= j < defaults@.take(i as int).len() && (
                                #[trigger] defaults@.take(i as int)[j])@ == u;
                            assert(defaults@.take(i + 1)[j]@ == u);
                        }
                    }
                }
                assert forall|u: Seq<char>|
                    #[trigger] self.statistics@.dom().contains(u) <==> (
                base.statistics@.dom().contains(u) || ((seed_general || seed_inbox
                    || seed_outbox) && (exists|j: int|
                    0 <= j < i + 1 && (#[trigger] defaults@[j])@ == u))) by {
                    if self.statistics@.dom().contains(u) {
                        if !s0.statistics@.dom().contains(u) {
                            assert(u == du);
                            assert((defaults@[i as int])@ == u);
                        } else {
                            if !base.statistics@.dom().contains(u) {
                                let j = choose|j: int|
                                    0 <= j < i && (#[trigger] defaults@[j])@ == u;
                            }
                        }
                    }
                    if base.statistics@.dom().contains(u) {
                        assert(s0.statistics@.dom().contains(u));
                    }
                    if (seed_general || seed_inbox || seed_outbox) && (exists|j: int|
                        0 <= j < i + 1 && (#[trigger] defaults@[j])@ == u) {
                        let j = choose|j: int| 0 <= j < i + 1 && (#[trigger] defaults@[j])@ == u;
                        if j < i {
                            assert(s0.statistics@.dom().contains(u));
                        }
                    }
                }
                assert forall|j: int|
                    0 <= j < i + 1 && !base.statistics@.dom().contains(
                        (#[trigger] defaults@[j])@,
                    ) && (seed_general || seed_inbox || seed_outbox) implies ({
                    let u = (defaults@[j])@;
                    &&& stats_is_fresh(
                        self.statistics@[u],
                        trust_levels@[j],
                        vendor_scores@[j],
                    )
                    &&& (
                    self.initial_weights@[u] as int,
                    self.current_weights@[u] as int,
                    ) == self.statistics@[u].spec_weights()
                }) by {
                    let u = (defaults@[j])@;
                    if j < i {
                        assert(u != du);
                        assert(s0.statistics@.dom().contains(u));
                        assert(s1.statistics@.dom().contains(u));
                        assert(s2.statistics@.dom().contains(u));
                    } else {
                        if s0.statistics@.dom().contains(u) {
                            assert(exists|k: int| 0 <= k < i && (#[trigger] defaults@[k])@ == u);
                            let k = choose|k: int| 0 <= k < i && (#[trigger] defaults@[k])@ == u;
                            assert(false);
                        }
                    }
                }
            }
            i = i + 1;
        }
        proof {
            assert(defaults@.take(n as int) =~= defaults@);
        }
    }
}

impl RelaySelector {
    /// Builds a registry from the persisted records: every record is
    /// ingested in order, the store name is remembered, and any variant
    /// list that is still empty afterwards is seeded with the default
    /// relays and their configured scores.
    ///
    /// Whenever the records agree on shared URLs the result is
    /// characterised exactly by `spec_loaded_registry`: the key set is the
    /// records' URL set plus any seeded defaults, every record's data is
    /// adopted at its URL, each list holds the URLs saved under its variant
    /// or — when none were — exactly the defaults, sorted and fresh.
    /// Together with `to_records` this is the persistence round trip.
    pub fn init_from_records(
        store_name: &str,
        records: &Vec<crate::records::RelayRecord>,
        defaults: &Vec<String>,
        default_trust_levels: &Vec<i64>,
        default_vendor_scores: &Vec<i64>,
    ) -> (r: RelaySelector)
        requires
            forall|k: int| 0 <= k < records@.len() ==> (#[trigger] records@[k]).wf(),
            default_trust_levels@.len() == defaults@.len(),
            default_vendor_scores@.len() == defaults@.len(),
            forall|k: int|
                0 <= k < defaults@.len() ==> 0 <= #[trigger] default_trust_levels@[k] <= SCORE_ONE,
            forall|k: int|
                0 <= k < defaults@.len() ==> 0 <= #[trigger] default_vendor_scores@[k]
                    <= SCORE_ONE,
            forall|a: int, b: int|
                0 <= a < b < defaults@.len() ==> (#[trigger] defaults@[a])@ != (
                #[trigger] defaults@[b])@,
        ensures
            r.wf_basic(),
            r.store_name@ == store_name@,
            spec_records_agree(records@) ==> spec_loaded_registry(
                r,
                records@,
                defaults@,
                default_trust_levels@,
                default_vendor_scores@,
            ),
    {
        let mut sel = RelaySelector::new();
        let n = records.len();
        let ghost recs = records@;
        let mut k: usize = 0;
        while k < n
            invariant
                k <= n,
                n == recs.len(),
                recs == records@,
                forall|j: int| 0 <= j < recs.len() ==> (#[trigger] recs[j]).wf(),
                sel.wf_basic(),
                sel.store_name@.len() == 0,
                spec_records_agree(recs) ==> ({
                    &&& forall|u: Seq<char>|
                        #[trigger] sel.statistics@.dom().contains(u) <==> spec_recs_have_url(
                            recs.take(k as int),
                            u,
                        )
                    &&& forall|i: int|
                        0 <= i < k ==> ({
                            let u = (#[trigger] recs[i]).url@;
                            &&& spec_adopted(sel.statistics@[u], recs[i])
                            &&& sel.initial_weights@[u] == recs[i].weight
                            &&& sel.current_weights@[u] == recs[i].weight
                        })
                    &&& forall|u: Seq<char>|
                        spec_list_has(sel.general@, u) <==> spec_recs_have_url_for(
                            recs.take(k as int),
                            u,
                            Variant::General,
                        )
                    &&& forall|u: Seq<char>|
                        spec_list_has(sel.inbox@, u) <==> spec_recs_have_url_for(
                            recs.take(k as int),
                            u,
                            Variant::Inbox,
                        )
                    &&& forall|u: Seq<char>|
                        spec_list_has(sel.outbox@, u) <==> spec_recs_have_url_for(
                            recs.take(k as int),
                            u,
                            Variant::Outbox,
                        )
                }),
                recs.len() == 0 ==> sel.general@.len() == 0 && sel.inbox@.len() == 0
                    && sel.outbox@.len() == 0,
            decreases n - k,
        {
            let ghost before = sel;
            sel.ingest_record(&records[k]);
            proof {
                if spec_records_agree(recs) {
                    let rk = recs[k as int];
                    assert(recs.take(k + 1) =~= recs.take(k as int).push(rk));
                    assert(recs.take(k + 1)[k as int] == rk);
                    assert forall|u: Seq<char>|
                        #[trigger] sel.statistics@.dom().contains(u) <==> spec_recs_have_url(
                        recs.take(k + 1),
                        u,
                    ) by {
                        if sel.statistics@.dom().contains(u) {
                            if u != rk.url@ {
                                assert(before.statistics@.dom().contains(u));
                                let j = choose|j: int|
                                    0 <= j < recs.take(k as int).len() && (#[trigger] recs.take(
                                        k as int,
                                    )[j]).url@ == u;
                                assert((recs.take(k + 1)[j]).url@ == u);
                            }
                        }
                        if spec_recs_have_url(recs.take(k + 1), u) {
                            let j = choose|j: int|
                                0 <= j < recs.take(k + 1).len() && (#[trigger] recs.take(
                                    k + 1,
                                )[j]).url@ == u;
                            if j < k {
                                assert((recs.take(k as int)[j]).url@ == u);
                                assert(before.statistics@.dom().contains(u));
                            }
                        }
                    }
                    assert forall|i: int|
                        0 <= i < k + 1 implies ({
                        let u = (#[trigger] recs[i]).url@;
                        &&& spec_adopted(sel.statistics@[u], recs[i])
                        &&& sel.initial_weights@[u] == recs[i].weight
                        &&& sel.current_weights@[u] == recs[i].weight
                    }) by {
                        let u = recs[i].url@;
                        if i < k {
                            if u == rk.url@ {
                                assert(spec_adopted(sel.statistics@[u], rk));
                                assert(recs[i].requests == rk.requests);
                            } else {
                                assert(sel.statistics@[u] == before.statistics@[u]);
                            }
                        }
                    }
                    assert forall|u: Seq<char>|
                        spec_list_has(sel.general@, u) <==> spec_recs_have_url_for(
                        recs.take(k + 1),
                        u,
                        Variant::General,
                    ) by {
                        RelaySelector::lemma_list_membership_step(
                            before,
                            sel,
                            recs,
                            k as int,
                            u,
                            Variant::General,
                        );
                    }
                    assert forall|u: Seq<char>|
                        spec_list_has(sel.inbox@, u) <==> spec_recs_have_url_for(
                        recs.take(k + 1),
                        u,
                        Variant::Inbox,
                    ) by {
                        RelaySelector::lemma_list_membership_step(
                            before,
                            sel,
                            recs,
                            k as int,
                            u,
                            Variant::Inbox,
                        );
                    }
                    assert forall|u: Seq<char>|
                        spec_list_has(sel.outbox@, u) <==> spec_recs_have_url_for(
                        recs.take(k + 1),
                        u,
                        Variant::Outbox,
                    ) by {
                        RelaySelector::lemma_list_membership_step(
                            before,
                            sel,
                            recs,
                            k as int,
                            u,
                            Variant::Outbox,
                        );
                    }
                }
            }
            k = k + 1;
        }
        proof {
            assert(recs.take(n as int) =~= recs);
        }
        sel.store_name = String::from_str(store_name);
        let ghost loaded = sel;
        proof {
            if spec_records_agree(recs) {
                assert(loaded.general@.len() == 0 <==> !spec_recs_have_any_for(
                    recs,
                    Variant::General,
                )) by {
                    if loaded.general@.len() > 0 {
                        assert(spec_list_has(loaded.general@, (loaded.general@[0])@));
                        assert(spec_recs_have_url_for(recs, (loaded.general@[0])@, Variant::General));
                        let i = choose|i: int|
                            0 <= i < recs.len() && (#[trigger] recs[i]).url@ == (
                            loaded.general@[0])@ && (recs[i].variant == Variant::General
                                || recs[i].variant == Variant::Local);
                    }
                    if spec_recs_have_any_for(recs, Variant::General) {
                        let i = choose|i: int|
                            0 <= i < recs.len() && ((#[trigger] recs[i]).variant
                                == Variant::General || recs[i].variant == Variant::Local);
                        assert(spec_recs_have_url_for(recs, recs[i].url@, Variant::General));
                        assert(spec_list_has(loaded.general@, recs[i].url@));
                    }
                }
                assert(loaded.inbox@.len() == 0 <==> !spec_recs_have_any_for(
                    recs,
                    Variant::Inbox,
                )) by {
                    if loaded.inbox@.len() > 0 {
                        assert(spec_list_has(loaded.inbox@, (loaded.inbox@[0])@));
                        assert(spec_recs_have_url_for(recs, (loaded.inbox@[0])@, Variant::Inbox));
                        let i = choose|i: int|
                            0 <= i < recs.len() && (#[trigger] recs[i]).url@ == (
                            loaded.inbox@[0])@ && recs[i].variant == Variant::Inbox;
                    }
                    if spec_recs_have_any_for(recs, Variant::Inbox) {
                        let i = choose|i: int|
                            0 <= i < recs.len() && (#[trigger] recs[i]).variant == Variant::Inbox;
                        assert(spec_recs_have_url_for(recs, recs[i].url@, Variant::Inbox));
                        assert(spec_list_has(loaded.inbox@, recs[i].url@));
                    }
                }
                assert(loaded.outbox@.len() == 0 <==> !spec_recs_have_any_for(
                    recs,
                    Variant::Outbox,
                )) by {
                    if loaded.outbox@.len() > 0 {
                        assert(spec_list_has(loaded.outbox@, (loaded.outbox@[0])@));
                        assert(spec_recs_have_url_for(recs, (loaded.outbox@[0])@, Variant::Outbox));
                        let i = choose|i: int|
                            0 <= i < recs.len() && (#[trigger] recs[i]).url@ == (
                            loaded.outbox@[0])@ && recs[i].variant == Variant::Outbox;
                    }
                    if spec_recs_have_any_for(recs, Variant::Outbox) {
                        let i = choose|i: int|
                            0 <= i < recs.len() && (#[trigger] recs[i]).variant
                                == Variant::Outbox;
                        assert(spec_recs_have_url_for(recs, recs[i].url@, Variant::Outbox));
                        assert(spec_list_has(loaded.outbox@, recs[i].url@));
                    }
                }
            }
        }
        if sel.general.is_empty() || sel.inbox.is_empty() || sel.outbox.is_empty() {
            sel.populate_defaults(defaults, default_trust_levels, default_vendor_scores);
            proof {
                if spec_records_agree(recs) {
                    assert(spec_seeding_occurred(recs));
                    assert forall|u: Seq<char>|
                        #[trigger] sel.statistics@.dom().contains(u) <==> (spec_recs_have_url(
                        recs,
                        u,
                    ) || (spec_seeding_occurred(recs) && spec_list_has(defaults@, u))) by {
                        assert(sel.statistics@.dom().contains(u) <==> (
                        loaded.statistics@.dom().contains(u) || ((loaded.general@.len() == 0
                            || loaded.inbox@.len() == 0 || loaded.outbox@.len() == 0)
                            && spec_list_has(defaults@, u))));
                        assert(loaded.statistics@.dom().contains(u) <==> spec_recs_have_url(
                            recs,
                            u,
                        ));
                    }
                    assert forall|i: int|
                        0 <= i < recs.len() implies ({
                        let u = (#[trigger] recs[i]).url@;
                        &&& spec_adopted(sel.statistics@[u], recs[i])
                        &&& sel.initial_weights@[u] == recs[i].weight
                        &&& sel.current_weights@[u] == recs[i].weight
                    }) by {
                        let u = recs[i].url@;
                        assert(spec_recs_have_url(recs, u));
                        assert(loaded.statistics@.dom().contains(u));
                        assert(sel.statistics@[u] == loaded.statistics@[u]);
                    }
                    assert forall|j: int|
                        0 <= j < defaults@.len() && !spec_recs_have_url(
                            recs,
                            (#[trigger] defaults@[j])@,
                        ) && spec_seeding_occurred(recs) implies ({
                        let u = (defaults@[j])@;
                        &&& stats_is_fresh(
                            sel.statistics@[u],
                            default_trust_levels@[j],
                            default_vendor_scores@[j],
                        )
                        &&& (
                        sel.initial_weights@[u] as int,
                        sel.current_weights@[u] as int,
                        ) == sel.statistics@[u].spec_weights()
                    }) by {
                        assert(!loaded.statistics@.dom().contains((defaults@[j])@));
                    }
                    assert(spec_loaded_registry(
                        sel,
                        recs,
                        defaults@,
                        default_trust_levels@,
                        default_vendor_scores@,
                    ));
                }
            }
        } else {
            proof {
                if spec_records_agree(recs) {
                    assert(!spec_seeding_occurred(recs));
                    assert(spec_loaded_registry(
                        sel,
                        recs,
                        defaults@,
                        default_trust_levels@,
                        default_vendor_scores@,
                    ));
                }
            }
        }
        sel
    }

    /// One ingested record extends a variant list's membership by its URL
    /// exactly when the record was saved under that list's variant.
    proof fn lemma_list_membership_step(
        before: RelaySelector,
        now: RelaySelector,
        recs: Seq<crate::records::RelayRecord>,
        k: int,
        u: Seq<char>,
        base: Variant,
    )
        requires
            0 <= k < recs.len(),
            base == Variant::General || base == Variant::Inbox || base == Variant::Outbox,
            spec_list_has(before.spec_list(base), u) <==> spec_recs_have_url_for(
                recs.take(k),
                u,
                base,
            ),
            forall|v: Seq<char>|
                spec_list_has(now.spec_list(recs[k].variant), v) <==> (spec_list_has(
                    before.spec_list(recs[k].variant),
                    v,
                ) || v == recs[k].url@),
            (recs[k].variant == Variant::General || recs[k].variant == Variant::Local) ==> now.inbox
                == before.inbox && now.outbox == before.outbox,
            recs[k].variant == Variant::Inbox ==> now.general == before.general && now.outbox
                == before.outbox,
            recs[k].variant == Variant::Outbox ==> now.general == before.general && now.inbox
                == before.inbox,
        ensures
            spec_list_has(now.spec_list(base), u) <==> spec_recs_have_url_for(
                recs.take(k + 1),
                u,
                base,
            ),
    {
        let rk = recs[k];
        assert(recs.take(k + 1) =~= recs.take(k).push(rk));
        assert(recs.take(k + 1)[k] == rk);
        let hits_base = if base == Variant::General {
            rk.variant == Variant::General || rk.variant == Variant::Local
        } else {
            rk.variant == base
        };
        if spec_recs_have_url_for(recs.take(k + 1), u, base) {
            let j = choose|j: int|
                0 <= j < recs.take(k + 1).len() && (#[trigger] recs.take(k + 1)[j]).url@ == u && ({
                    if base == Variant::General {
                        recs.take(k + 1)[j].variant == Variant::General || recs.take(
                            k + 1,
                        )[j].variant == Variant::Local
                    } else {
                        recs.take(k + 1)[j].variant == base
                    }
                });
            if j < k {
                assert(recs.take(k)[j] == recs.take(k + 1)[j]);
                assert(spec_recs_have_url_for(recs.take(k), u, base));
            }
        }
        if spec_recs_have_url_for(recs.take(k), u, base) {
            let j = choose|j: int|
                0 <= j < recs.take(k).len() && (#[trigger] recs.take(k)[j]).url@ == u && ({
                    if base == Variant::General {
                        recs.take(k)[j].variant == Variant::General || recs.take(k)[j].variant
                            == Variant::Local
                    } else {
                        recs.take(k)[j].variant == base
                    }
                });
            assert(recs.take(k + 1)[j] == recs.take(k)[j]);
            assert(spec_recs_have_url_for(recs.take(k + 1), u, base));
        }
        if hits_base {
            assert(now.spec_list(rk.variant) == now.spec_list(base));
            assert(before.spec_list(rk.variant) == before.spec_list(base));
        } else {
            assert(now.spec_list(base) == before.spec_list(base));
        }
    }
}

} // verus!

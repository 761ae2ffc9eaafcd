//! The registry's laws, stated on their own.
//!
//! Each of these restates, as one public fact, a guarantee that the
//! operations' contracts maintain: membership closure, counter
//! consistency, the weight decomposition, the weighted order of a
//! re-sorted list, and the persistence round trip.

use vstd::prelude::*;
use crate::records::RelayRecord;
use crate::selector::{
    spec_adopted, spec_list_has, spec_record_matches, spec_records_agree, spec_recs_have_url,
    spec_recs_have_url_for, RelaySelector,
};
use crate::statistics::Statistics;
use crate::urlsort::{spec_sort_urls, urls_sorted, lemma_sort_urls_sorted};
use crate::variant::Variant;
use crate::weights::{
    samples_sorted, spec_sort_samples, lemma_sort_samples_of_sorted, CONNECTION_WEIGHT,
};

verus! {

/// A URL listed under any variant has a statistics record and both
/// weights.
pub proof fn lemma_listed_urls_have_entries(s: RelaySelector, u: Seq<char>)
    requires
        s.wf_basic(),
        s.spec_known(u),
    ensures
        s.statistics@.dom().contains(u),
        s.initial_weights@.dom().contains(u),
        s.current_weights@.dom().contains(u),
{
    if spec_list_has(s.general@, u) {
        let i = choose|i: int| 0 <= i < s.general@.len() && (#[trigger] s.general@[i])@ == u;
    } else if spec_list_has(s.inbox@, u) {
        let i = choose|i: int| 0 <= i < s.inbox@.len() && (#[trigger] s.inbox@[i])@ == u;
    } else {
        let i = choose|i: int| 0 <= i < s.outbox@.len() && (#[trigger] s.outbox@[i])@ == u;
    }
}

/// Successes never outnumber requests.
pub proof fn lemma_counters_consistent(s: RelaySelector, u: Seq<char>)
    requires
        s.wf_basic(),
        s.statistics@.dom().contains(u),
    ensures
        s.statistics@[u].successful_requests <= s.statistics@[u].requests,
{
}

/// A known URL's current weight is its initial weight plus the connection
/// penalty for each checked-out connection, exactly.
pub proof fn lemma_weight_decomposition(s: RelaySelector, u: Seq<char>)
    requires
        s.wf_basic(),
        s.statistics@.dom().contains(u),
    ensures
        s.current_weights@[u] as int == s.initial_weights@[u] as int
            + s.statistics@[u].active_connections * CONNECTION_WEIGHT,
{
}

/// A list that an operation left as the weighted reordering of its old
/// self stands in the weighted order: descending current weight, ties by
/// ascending URL. Checkout, return and insert leave every list they touch
/// in this shape.
pub proof fn lemma_resorted_list_ordered(w: Map<Seq<char>, i64>, l0: Seq<String>, l: Seq<String>)
    requires
        l == spec_sort_urls(w, l0),
    ensures
        urls_sorted(w, l),
{
    lemma_sort_urls_sorted(w, l0);
}

/// Two statistics records carry the same data.
pub open spec fn spec_stats_equal(a: Statistics, b: Statistics) -> bool {
    &&& a.requests == b.requests
    &&& a.successful_requests == b.successful_requests
    &&& a.response_times@ == b.response_times@
    &&& a.trust_level == b.trust_level
    &&& a.vendor_score == b.vendor_score
    &&& a.active_connections == b.active_connections
}

/// What `to_records` leaves in `recs` for the registry `s`.
pub open spec fn spec_saved_records(recs: Seq<RelayRecord>, s: RelaySelector) -> bool {
    &&& recs.len() == s.general@.len() + s.inbox@.len() + s.outbox@.len()
    &&& forall|k: int|
        0 <= k < s.general@.len() ==> spec_record_matches(#[trigger] recs[k], s, (s.general@[k])@)
            && recs[k].variant == Variant::General
    &&& forall|k: int|
        s.general@.len() <= k < s.general@.len() + s.inbox@.len() ==> spec_record_matches(
            #[trigger] recs[k],
            s,
            (s.inbox@[k - s.general@.len()])@,
        ) && recs[k].variant == Variant::Inbox
    &&& forall|k: int|
        s.general@.len() + s.inbox@.len() <= k < recs.len() ==> spec_record_matches(
            #[trigger] recs[k],
            s,
            (s.outbox@[k - s.general@.len() - s.inbox@.len()])@,
        ) && recs[k].variant == Variant::Outbox
}

/// What `init_from_records` builds from `recs` when no defaults are
/// seeded and the records agree on shared URLs.
pub open spec fn spec_loaded_from(s2: RelaySelector, recs: Seq<RelayRecord>) -> bool {
    &&& forall|u: Seq<char>|
        #[trigger] s2.statistics@.dom().contains(u) <==> spec_recs_have_url(recs, u)
    &&& forall|i: int|
        0 <= i < recs.len() ==> ({
            let u = (#[trigger] recs[i]).url@;
            &&& spec_adopted(s2.statistics@[u], recs[i])
            &&& s2.initial_weights@[u] == recs[i].weight
            &&& s2.current_weights@[u] == recs[i].weight
        })
    &&& forall|u: Seq<char>|
        spec_list_has(s2.general@, u) <==> spec_recs_have_url_for(recs, u, Variant::General)
    &&& forall|u: Seq<char>|
        spec_list_has(s2.inbox@, u) <==> spec_recs_have_url_for(recs, u, Variant::Inbox)
    &&& forall|u: Seq<char>|
        spec_list_has(s2.outbox@, u) <==> spec_recs_have_url_for(recs, u, Variant::Outbox)
}

/// With no defaults to seed, a load is exactly the records: the general
/// characterization reduces to the round trip's hypothesis.
pub proof fn lemma_loaded_with_no_defaults(
    s2: RelaySelector,
    recs: Seq<RelayRecord>,
    defaults: Seq<String>,
    trust_levels: Seq<i64>,
    vendor_scores: Seq<i64>,
)
    requires
        defaults.len() == 0,
        crate::selector::spec_loaded_registry(s2, recs, defaults, trust_levels, vendor_scores),
    ensures
        spec_loaded_from(s2, recs),
{
    assert forall|u: Seq<char>|
        spec_list_has(s2.general@, u) <==> spec_recs_have_url_for(recs, u, Variant::General) by {
        if crate::selector::spec_recs_have_any_for(recs, Variant::General) {
            assert(spec_list_has(s2.general@, u) <==> spec_recs_have_url_for(
                recs,
                u,
                Variant::General,
            ));
        } else {
            assert(spec_list_has(s2.general@, u) <==> spec_list_has(defaults, u));
            if spec_list_has(defaults, u) {
                let i = choose|i: int| 0 <= i < defaults.len() && (#[trigger] defaults[i])@ == u;
            }
            if spec_recs_have_url_for(recs, u, Variant::General) {
                let i = choose|i: int|
                    0 <= i < recs.len() && (#[trigger] recs[i]).url@ == u && (recs[i].variant
                        == Variant::General || recs[i].variant == Variant::Local);
                assert(crate::selector::spec_recs_have_any_for(recs, Variant::General));
            }
        }
    }
    assert forall|u: Seq<char>|
        spec_list_has(s2.inbox@, u) <==> spec_recs_have_url_for(recs, u, Variant::Inbox) by {
        if crate::selector::spec_recs_have_any_for(recs, Variant::Inbox) {
            assert(spec_list_has(s2.inbox@, u) <==> spec_recs_have_url_for(
                recs,
                u,
                Variant::Inbox,
            ));
        } else {
            assert(spec_list_has(s2.inbox@, u) <==> spec_list_has(defaults, u));
            if spec_list_has(defaults, u) {
                let i = choose|i: int| 0 <= i < defaults.len() && (#[trigger] defaults[i])@ == u;
            }
            if spec_recs_have_url_for(recs, u, Variant::Inbox) {
                let i = choose|i: int|
                    0 <= i < recs.len() && (#[trigger] recs[i]).url@ == u && recs[i].variant
                        == Variant::Inbox;
                assert(crate::selector::spec_recs_have_any_for(recs, Variant::Inbox));
            }
        }
    }
    assert forall|u: Seq<char>|
        spec_list_has(s2.outbox@, u) <==> spec_recs_have_url_for(recs, u, Variant::Outbox) by {
        if crate::selector::spec_recs_have_any_for(recs, Variant::Outbox) {
            assert(spec_list_has(s2.outbox@, u) <==> spec_recs_have_url_for(
                recs,
                u,
                Variant::Outbox,
            ));
        } else {
            assert(spec_list_has(s2.outbox@, u) <==> spec_list_has(defaults, u));
            if spec_list_has(defaults, u) {
                let i = choose|i: int| 0 <= i < defaults.len() && (#[trigger] defaults[i])@ == u;
            }
            if spec_recs_have_url_for(recs, u, Variant::Outbox) {
                let i = choose|i: int|
                    0 <= i < recs.len() && (#[trigger] recs[i]).url@ == u && recs[i].variant
                        == Variant::Outbox;
                assert(crate::selector::spec_recs_have_any_for(recs, Variant::Outbox));
            }
        }
    }
    assert forall|u: Seq<char>|
        #[trigger] s2.statistics@.dom().contains(u) <==> spec_recs_have_url(recs, u) by {
        if crate::selector::spec_seeding_occurred(recs) && spec_list_has(defaults, u) {
            let i = choose|i: int| 0 <= i < defaults.len() && (#[trigger] defaults[i])@ == u;
        }
    }
}

/// Every saved record matches the registry at its own URL.
proof fn lemma_saved_records_match(recs: Seq<RelayRecord>, s: RelaySelector, k: int)
    requires
        spec_saved_records(recs, s),
        0 <= k < recs.len(),
    ensures
        spec_record_matches(recs[k], s, recs[k].url@),
        s.spec_known(recs[k].url@),
{
    let g = s.general@.len() as int;
    let b = s.inbox@.len() as int;
    if k < g {
        assert(spec_record_matches(recs[k], s, (s.general@[k])@));
        assert(spec_list_has(s.general@, (s.general@[k])@));
    } else if k < g + b {
        assert(spec_record_matches(recs[k], s, (s.inbox@[k - g])@));
        assert(spec_list_has(s.inbox@, (s.inbox@[k - g])@));
    } else {
        assert(spec_record_matches(recs[k], s, (s.outbox@[k - g - b])@));
        assert(spec_list_has(s.outbox@, (s.outbox@[k - g - b])@));
    }
}

/// Saved records agree on shared URLs: each matches the one registry.
pub proof fn lemma_saved_records_agree(recs: Seq<RelayRecord>, s: RelaySelector)
    requires
        spec_saved_records(recs, s),
    ensures
        spec_records_agree(recs),
{
    assert forall|i: int, j: int|
        0 <= i < recs.len() && 0 <= j < recs.len() && (#[trigger] recs[i]).url@ == (
        #[trigger] recs[j]).url@ implies ({
        &&& recs[i].requests == recs[j].requests
        &&& recs[i].successful_requests == recs[j].successful_requests
        &&& recs[i].response_times@ == recs[j].response_times@
        &&& recs[i].trust_level == recs[j].trust_level
        &&& recs[i].vendor_score == recs[j].vendor_score
        &&& recs[i].weight == recs[j].weight
    }) by {
        lemma_saved_records_match(recs, s, i);
        lemma_saved_records_match(recs, s, j);
    }
}

/// The persistence round trip: saving a registry with no outstanding
/// checkouts and re-initialising from the saved records restores the
/// statistics, both weight maps, and each variant's membership.
pub proof fn lemma_persistence_round_trip(
    s: RelaySelector,
    recs: Seq<RelayRecord>,
    s2: RelaySelector,
)
    requires
        s.wf_basic(),
        s2.wf_basic(),
        forall|u: Seq<char>|
            #[trigger] s.statistics@.dom().contains(u) ==> s.statistics@[u].active_connections
                == 0,
        forall|u: Seq<char>| #[trigger] s.statistics@.dom().contains(u) ==> s.spec_known(u),
        spec_saved_records(recs, s),
        spec_loaded_from(s2, recs),
    ensures
        s2.statistics@.dom() == s.statistics@.dom(),
        forall|u: Seq<char>|
            #[trigger] s.statistics@.dom().contains(u) ==> spec_stats_equal(
                s2.statistics@[u],
                s.statistics@[u],
            ),
        s2.initial_weights@ == s.initial_weights@,
        s2.current_weights@ == s.current_weights@,
        forall|u: Seq<char>| spec_list_has(s2.general@, u) <==> spec_list_has(s.general@, u),
        forall|u: Seq<char>| spec_list_has(s2.inbox@, u) <==> spec_list_has(s.inbox@, u),
        forall|u: Seq<char>| spec_list_has(s2.outbox@, u) <==> spec_list_has(s.outbox@, u),
{
    let g = s.general@.len() as int;
    let b = s.inbox@.len() as int;
    // The saved URLs are exactly the registry's key set.
    assert forall|u: Seq<char>|
        #[trigger] s.statistics@.dom().contains(u) implies spec_recs_have_url(recs, u) by {
        if spec_list_has(s.general@, u) {
            let i = choose|i: int| 0 <= i < s.general@.len() && (#[trigger] s.general@[i])@ == u;
            assert(recs[i].url@ == u);
        } else if spec_list_has(s.inbox@, u) {
            let i = choose|i: int| 0 <= i < s.inbox@.len() && (#[trigger] s.inbox@[i])@ == u;
            assert(recs[g + i].url@ == u);
        } else {
            let i = choose|i: int| 0 <= i < s.outbox@.len() && (#[trigger] s.outbox@[i])@ == u;
            assert(recs[g + b + i].url@ == u);
        }
    }
    assert forall|u: Seq<char>|
        spec_recs_have_url(recs, u) implies s.statistics@.dom().contains(u) by {
        let k = choose|k: int| 0 <= k < recs.len() && (#[trigger] recs[k]).url@ == u;
        lemma_saved_records_match(recs, s, k);
        lemma_listed_urls_have_entries(s, u);
    }
    assert(s2.statistics@.dom() =~= s.statistics@.dom());
    // Each key's data is restored.
    assert forall|u: Seq<char>|
        #[trigger] s.statistics@.dom().contains(u) implies spec_stats_equal(
        s2.statistics@[u],
        s.statistics@[u],
    ) && s2.initial_weights@[u] == s.initial_weights@[u] && s2.current_weights@[u]
        == s.current_weights@[u] by {
        let k = choose|k: int| 0 <= k < recs.len() && (#[trigger] recs[k]).url@ == u;
        lemma_saved_records_match(recs, s, k);
        let st = s.statistics@[u];
        assert(spec_adopted(s2.statistics@[u], recs[k]));
        assert(st.wf());
        assert(samples_sorted(st.response_times@));
        lemma_sort_samples_of_sorted(st.response_times@);
        assert(s2.statistics@[u].response_times@ == spec_sort_samples(recs[k].response_times@));
        assert(recs[k].response_times@ == st.response_times@);
        assert(st.successful_requests <= st.requests);
        assert(st.active_connections == 0);
        assert(s.current_weights@[u] as int == s.initial_weights@[u] as int);
    }
    assert(s2.initial_weights@.dom() =~= s.initial_weights@.dom());
    assert(s2.current_weights@.dom() =~= s.current_weights@.dom());
    assert(s2.initial_weights@ =~= s.initial_weights@);
    assert(s2.current_weights@ =~= s.current_weights@);
    // Memberships are restored.
    assert forall|u: Seq<char>|
        spec_list_has(s2.general@, u) <==> spec_list_has(s.general@, u) by {
        if spec_recs_have_url_for(recs, u, Variant::General) {
            let k = choose|k: int|
                0 <= k < recs.len() && (#[trigger] recs[k]).url@ == u && (recs[k].variant
                    == Variant::General || recs[k].variant == Variant::Local);
            assert(k < g) by {
                if k >= g + b {
                    assert(recs[k].variant == Variant::Outbox);
                } else if k >= g {
                    assert(recs[k].variant == Variant::Inbox);
                }
            }
            assert((s.general@[k])@ == u);
        }
        if spec_list_has(s.general@, u) {
            let i = choose|i: int| 0 <= i < s.general@.len() && (#[trigger] s.general@[i])@ == u;
            assert(recs[i].url@ == u && recs[i].variant == Variant::General);
            assert(spec_recs_have_url_for(recs, u, Variant::General));
        }
    }
    assert forall|u: Seq<char>|
        spec_list_has(s2.inbox@, u) <==> spec_list_has(s.inbox@, u) by {
        if spec_recs_have_url_for(recs, u, Variant::Inbox) {
            let k = choose|k: int|
                0 <= k < recs.len() && (#[trigger] recs[k]).url@ == u && recs[k].variant
                    == Variant::Inbox;
            assert(g <= k < g + b) by {
                if k < g {
                    assert(recs[k].variant == Variant::General);
                } else if k >= g + b {
                    assert(recs[k].variant == Variant::Outbox);
                }
            }
            assert((s.inbox@[k - g])@ == u);
        }
        if spec_list_has(s.inbox@, u) {
            let i = choose|i: int| 0 <= i < s.inbox@.len() && (#[trigger] s.inbox@[i])@ == u;
            assert(recs[g + i].url@ == u && recs[g + i].variant == Variant::Inbox);
            assert(spec_recs_have_url_for(recs, u, Variant::Inbox));
        }
    }
    assert forall|u: Seq<char>|
        spec_list_has(s2.outbox@, u) <==> spec_list_has(s.outbox@, u) by {
        if spec_recs_have_url_for(recs, u, Variant::Outbox) {
            let k = choose|k: int|
                0 <= k < recs.len() && (#[trigger] recs[k]).url@ == u && recs[k].variant
                    == Variant::Outbox;
            assert(k >= g + b) by {
                if k < g {
                    assert(recs[k].variant == Variant::General);
                } else if k < g + b {
                    assert(recs[k].variant == Variant::Inbox);
                }
            }
            assert((s.outbox@[k - g - b])@ == u);
        }
        if spec_list_has(s.outbox@, u) {
            let i = choose|i: int| 0 <= i < s.outbox@.len() && (#[trigger] s.outbox@[i])@ == u;
            assert(recs[g + b + i].url@ == u && recs[g + b + i].variant == Variant::Outbox);
            assert(spec_recs_have_url_for(recs, u, Variant::Outbox));
        }
    }
}

/// One connection event: a checkout (`true`) or a return (`false`).
pub open spec fn spec_conn_step(count: int, checkout: bool) -> int {
    if checkout {
        count + 1
    } else if count == 0 {
        0
    } else {
        count - 1
    }
}

/// The checked-out count after replaying the events over `count`, stepping
/// as `add_active_connection` and `remove_active_connection` do.
pub open spec fn spec_conn_count(count: int, events: Seq<bool>) -> int
    decreases events.len(),
{
    if events.len() == 0 {
        count
    } else {
        spec_conn_count(spec_conn_step(count, events[0]), events.drop_first())
    }
}

/// How many of the events are checkouts.
pub open spec fn spec_checkouts(events: Seq<bool>) -> int
    decreases events.len(),
{
    if events.len() == 0 {
        0
    } else {
        (if events[0] {
            1int
        } else {
            0int
        }) + spec_checkouts(events.drop_first())
    }
}

/// Every return in the events finds a connection to release: replaying
/// from `count`, the count is positive whenever a return comes up.
pub open spec fn spec_returns_covered(count: int, events: Seq<bool>) -> bool
    decreases events.len(),
{
    if events.len() == 0 {
        true
    } else {
        (!events[0] ==> count > 0) && spec_returns_covered(
            spec_conn_step(count, events[0]),
            events.drop_first(),
        )
    }
}

/// While every handle is returned at most once and only after its
/// checkout, the checked-out count is exactly the number of handles not
/// yet returned: checkouts minus returns.
pub proof fn lemma_active_counts_live_handles(count: int, events: Seq<bool>)
    requires
        count >= 0,
        spec_returns_covered(count, events),
    ensures
        spec_conn_count(count, events) == count + spec_checkouts(events) - (events.len()
            - spec_checkouts(events)),
        spec_conn_count(count, events) >= 0,
    decreases events.len(),
{
    if events.len() > 0 {
        lemma_active_counts_live_handles(spec_conn_step(count, events[0]), events.drop_first());
    }
}

} // verus!

//! The public surface: thin verified façades over the scheduler.
//!
//! These mirror the host-facing calls. The host hands in what only it can
//! fetch — the configured trust level and vendor score for a URL that may
//! need inserting, the server allowlist, and response times as whole
//! microseconds — and the façades parse, validate, decide and mutate the
//! registry.

use vstd::prelude::*;
use crate::duration::Sample;
use crate::errors::SelectorError;
use crate::handle::RelayHandle;
use crate::selector::{spec_list_has, stats_is_fresh, RelaySelector};
use crate::urlsort::urls_sorted;
use crate::weights::spec_insert_sample;
use crate::variant::{spec_variant_from_str, Variant};
use crate::weights::SCORE_ONE;

verus! {

/// The variant a host call names: the default when it names none, the
/// parsed variant when the name is good, and nothing when it is not.
pub open spec fn spec_requested_variant(relay_type: Option<&str>) -> Option<Variant> {
    match relay_type {
        None => Some(Variant::General),
        Some(t) => spec_variant_from_str(t@),
    }
}

/// Parses the optional variant name of a host call.
fn parse_variant(relay_type: Option<&str>) -> (r: Option<Variant>)
    ensures
        r == spec_requested_variant(relay_type),
{
    match relay_type {
        None => Some(Variant::General),
        Some(t) => Variant::from_str(t),
    }
}

/// The response-time sample a non-negative microsecond reading denotes.
pub open spec fn spec_sample_of_micros(micros: int) -> Sample {
    Sample { secs: (micros / 1_000_000) as u64, nanos: ((micros % 1_000_000) * 1_000) as u32 }
}

/// Builds the response-time sample a microsecond reading denotes.
fn sample_from_micros(micros: i64) -> (r: Sample)
    requires
        micros >= 0,
    ensures
        r.wf(),
        r == spec_sample_of_micros(micros as int),
        r.secs * 1_000_000 + r.nanos / 1_000 == micros,
{
    let secs = (micros / 1_000_000) as u64;
    let sub = (micros % 1_000_000) as u64;
    let nanos = (sub * 1_000) as u32;
    proof {
        assert(secs * 1_000_000 + sub == micros) by (nonlinear_arith)
            requires
                micros >= 0,
                secs == micros / 1_000_000,
                sub == micros % 1_000_000,
        ;
        assert(nanos / 1_000 == sub) by (nonlinear_arith)
            requires
                sub < 1_000_000,
                nanos == sub * 1_000,
        ;
    }
    Sample { secs, nanos: nanos as u32 }
}

/// Records how long a request to `relay_url` took, as whole microseconds.
/// A URL the registry has not listed yet is first inserted under the named
/// variant with the supplied configuration scores.
///
/// Fails with `InvalidVariant` when the named variant parses to none, and
/// with `InvalidDuration` when the reading is negative (the host encodes a
/// non-finite reading as a negative one).
pub fn record_response_time(
    selector: &mut RelaySelector,
    relay_url: &str,
    response_time_micros: i64,
    relay_type: Option<&str>,
    trust_level: i64,
    vendor_score: i64,
) -> (r: Result<(), SelectorError>)
    requires
        old(selector).wf_basic(),
        0 <= trust_level <= SCORE_ONE,
        0 <= vendor_score <= SCORE_ONE,
    ensures
        final(selector).wf_basic(),
        r == Err::<(), SelectorError>(SelectorError::InvalidVariant) <==> spec_requested_variant(
            relay_type,
        ) is None,
        spec_requested_variant(relay_type) is Some ==> (r == Err::<(), SelectorError>(
            SelectorError::InvalidDuration,
        ) <==> response_time_micros < 0),
        spec_requested_variant(relay_type) is Some && response_time_micros >= 0 ==> r is Ok,
        r is Err ==> *final(selector) == *old(selector),
        r is Ok ==> ({
            &&& final(selector).statistics@.dom().contains(relay_url@)
            &&& final(selector).statistics@[relay_url@].response_times@.len() > 0
            &&& (
            final(selector).initial_weights@[relay_url@] as int,
            final(selector).current_weights@[relay_url@] as int,
            ) == final(selector).statistics@[relay_url@].spec_weights()
            &&& old(selector).spec_known(relay_url@) || spec_list_has(
                final(selector).spec_list(spec_requested_variant(relay_type)->0),
                relay_url@,
            )
        }),
        r is Ok && old(selector).spec_known(relay_url@) ==> ({
            let prev = old(selector).statistics@[relay_url@];
            let st = final(selector).statistics@[relay_url@];
            &&& st.response_times@ == spec_insert_sample(
                spec_sample_of_micros(response_time_micros as int),
                prev.response_times@,
            )
            &&& st.requests == prev.requests
            &&& st.successful_requests == prev.successful_requests
            &&& st.trust_level == prev.trust_level
            &&& st.vendor_score == prev.vendor_score
            &&& st.active_connections == prev.active_connections
        }),
{
    let variant = match parse_variant(relay_type) {
        Some(v) => v,
        None => {
            return Err(SelectorError::InvalidVariant);
        },
    };
    if response_time_micros < 0 {
        return Err(SelectorError::InvalidDuration);
    }
    let sample = sample_from_micros(response_time_micros);
    proof {
        if old(selector).spec_known(relay_url@) {
            crate::laws::lemma_listed_urls_have_entries(*old(selector), relay_url@);
        }
    }
    if !selector.contains(relay_url) {
        selector.insert(relay_url, variant, trust_level, vendor_score);
    }
    let ghost mid = *selector;
    selector.update_weights_with_response_time(relay_url, sample);
    proof {
        if mid.statistics@.dom().contains(relay_url@) {
            crate::weights::lemma_insert_sample_len(
                sample,
                mid.statistics@[relay_url@].response_times@,
            );
        }
    }
    Ok(())
}

/// Records a completed request to `relay_url` and whether it succeeded. A
/// URL the registry has not listed yet is first inserted under the named
/// variant with the supplied configuration scores.
///
/// Fails with `InvalidVariant` exactly when the named variant parses to
/// none.
pub fn record_request(
    selector: &mut RelaySelector,
    relay_url: &str,
    is_success: bool,
    relay_type: Option<&str>,
    trust_level: i64,
    vendor_score: i64,
) -> (r: Result<(), SelectorError>)
    requires
        old(selector).wf_basic(),
        0 <= trust_level <= SCORE_ONE,
        0 <= vendor_score <= SCORE_ONE,
    ensures
        final(selector).wf_basic(),
        r == Err::<(), SelectorError>(SelectorError::InvalidVariant) <==> spec_requested_variant(
            relay_type,
        ) is None,
        spec_requested_variant(relay_type) is Some ==> r is Ok,
        r is Err ==> *final(selector) == *old(selector),
        r is Ok ==> ({
            let st = final(selector).statistics@[relay_url@];
            &&& final(selector).statistics@.dom().contains(relay_url@)
            &&& st.requests > 0
            &&& (
            final(selector).initial_weights@[relay_url@] as int,
            final(selector).current_weights@[relay_url@] as int,
            ) == st.spec_weights()
            &&& old(selector).spec_known(relay_url@) || spec_list_has(
                final(selector).spec_list(spec_requested_variant(relay_type)->0),
                relay_url@,
            )
            &&& !old(selector).spec_known(relay_url@) ==> st.requests == 1
                && st.successful_requests == (if is_success {
                1int
            } else {
                0int
            })
        }),
        r is Ok && old(selector).spec_known(relay_url@) ==> ({
            let prev = old(selector).statistics@[relay_url@];
            let st = final(selector).statistics@[relay_url@];
            &&& st.requests as int == if prev.requests == u32::MAX {
                u32::MAX as int
            } else {
                prev.requests + 1
            }
            &&& st.successful_requests as int == if (is_success && prev.successful_requests
                < u32::MAX && prev.successful_requests < st.requests) {
                prev.successful_requests + 1
            } else {
                prev.successful_requests as int
            }
            &&& st.response_times@ == prev.response_times@
            &&& st.trust_level == prev.trust_level
            &&& st.vendor_score == prev.vendor_score
            &&& st.active_connections == prev.active_connections
        }),
{
    let variant = match parse_variant(relay_type) {
        Some(v) => v,
        None => {
            return Err(SelectorError::InvalidVariant);
        },
    };
    proof {
        if old(selector).spec_known(relay_url@) {
            crate::laws::lemma_listed_urls_have_entries(*old(selector), relay_url@);
        }
    }
    if !selector.contains(relay_url) {
        selector.insert(relay_url, variant, trust_level, vendor_score);
    }
    selector.update_weights_with_request(relay_url, is_success);
    Ok(())
}

/// Adds a relay under the named variant with the supplied configuration
/// scores. Fails with `InvalidVariant` exactly when the named variant
/// parses to none.
pub fn add_relay(
    selector: &mut RelaySelector,
    relay_url: &str,
    relay_type: Option<&str>,
    trust_level: i64,
    vendor_score: i64,
) -> (r: Result<(), SelectorError>)
    requires
        old(selector).wf_basic(),
        0 <= trust_level <= SCORE_ONE,
        0 <= vendor_score <= SCORE_ONE,
    ensures
        final(selector).wf_basic(),
        r == Err::<(), SelectorError>(SelectorError::InvalidVariant) <==> spec_requested_variant(
            relay_type,
        ) is None,
        spec_requested_variant(relay_type) is Some ==> r is Ok,
        r is Err ==> *final(selector) == *old(selector),
        r is Ok ==> ({
            let v = spec_requested_variant(relay_type)->0;
            &&& spec_list_has(final(selector).spec_list(v), relay_url@)
            &&& spec_list_has(old(selector).spec_list(v), relay_url@) ==> *final(selector)
                == *old(selector)
            &&& !spec_list_has(old(selector).spec_list(v), relay_url@) ==> ({
                &&& final(selector).statistics@.dom().contains(relay_url@)
                &&& stats_is_fresh(
                    final(selector).statistics@[relay_url@],
                    trust_level,
                    vendor_score,
                )
                &&& (
                final(selector).initial_weights@[relay_url@] as int,
                final(selector).current_weights@[relay_url@] as int,
                ) == final(selector).statistics@[relay_url@].spec_weights()
                &&& urls_sorted(
                    final(selector).current_weights@,
                    final(selector).spec_list(v),
                )
            })
        }),
{
    let variant = match parse_variant(relay_type) {
        Some(v) => v,
        None => {
            return Err(SelectorError::InvalidVariant);
        },
    };
    selector.insert(relay_url, variant, trust_level, vendor_score);
    Ok(())
}

/// Selects and checks out the relay of the given rank (0, the best, when
/// none is named) under the named variant, returning the handle that will
/// return it. Server-side calls are limited to the allowlist the host
/// fetched; a host whose allowlist fetch failed passes an empty list,
/// which denies.
pub fn get_relay(
    selector: &mut RelaySelector,
    relay_type: &str,
    relay_rank: Option<u8>,
    is_server_side: Option<bool>,
    allow_list: &Vec<String>,
) -> (r: Result<RelayHandle, SelectorError>)
    requires
        old(selector).wf_basic(),
    ensures
        final(selector).wf_basic(),
        r == Err::<RelayHandle, SelectorError>(SelectorError::InvalidVariant) <==> (
        spec_variant_from_str(relay_type@) is None || spec_variant_from_str(relay_type@)
            == Some(Variant::Local)),
        r is Err ==> *final(selector) == *old(selector),
        r matches Ok(h) ==> ({
            let variant = spec_variant_from_str(relay_type@)->0;
            let rank = (match relay_rank {
                Some(k) => k as int,
                None => 0,
            });
            let sel = (old(selector).spec_list(variant)[rank])@;
            &&& h.url@ == sel
            &&& h.variant == variant
            &&& !h.released
            &&& rank < old(selector).spec_list(variant).len()
            &&& final(selector).statistics@[sel].active_connections == old(
                selector,
            ).statistics@[sel].active_connections + 1
        }),
        spec_variant_from_str(relay_type@) is Some && spec_variant_from_str(relay_type@)
            != Some(Variant::Local) ==> ({
            let v = spec_variant_from_str(relay_type@)->0;
            let rank = (match relay_rank {
                Some(k) => k as int,
                None => 0,
            });
            &&& (rank >= old(selector).spec_list(v).len() <==> r == Err::<
                RelayHandle,
                SelectorError,
            >(SelectorError::RankOutOfRange))
            &&& rank < old(selector).spec_list(v).len() ==> ({
                let sel = (old(selector).spec_list(v)[rank])@;
                &&& ((is_server_side == Some(true) && !spec_list_has(allow_list@, sel)) <==> r
                    == Err::<RelayHandle, SelectorError>(SelectorError::NotAllowed))
                &&& (is_server_side != Some(true) || spec_list_has(allow_list@, sel)) ==> ({
                    &&& (r == Err::<RelayHandle, SelectorError>(SelectorError::LimitExceeded)
                        <==> old(selector).statistics@[sel].active_connections == u8::MAX)
                    &&& old(selector).statistics@[sel].active_connections < u8::MAX ==> r is Ok
                })
            })
        }),
{
    let variant = match Variant::from_str(relay_type) {
        Some(v) => v,
        None => {
            return Err(SelectorError::InvalidVariant);
        },
    };
    let rank: usize = match relay_rank {
        Some(k) => k as usize,
        None => 0,
    };
    let server_side = match is_server_side {
        Some(b) => b,
        None => false,
    };
    let url = match selector.get_relay_by_weighted_round_robin(
        variant,
        rank,
        server_side,
        allow_list,
    ) {
        Ok(u) => u,
        Err(e) => {
            return Err(e);
        },
    };
    Ok(RelayHandle::new(url, variant))
}

} // verus!

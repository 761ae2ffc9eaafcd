use relay_selector::api;
use relay_selector::duration::Sample;
use relay_selector::errors::SelectorError;
use relay_selector::latch::InitLatch;
use relay_selector::records::RelayRecord;
use relay_selector::selector::RelaySelector;
use relay_selector::strings::{str_eq, str_lex_leq, str_lex_lt};
use relay_selector::variant::Variant;
use relay_selector::weights::{calculate_weights, log10_micros, median_micros};

// The fixed-point logarithm is exact at powers of ten, interpolates
// in between, and saturates at zero.
#[test]
fn log_values_are_exact_and_monotone() {
    assert_eq!(log10_micros(0), -6_000_000);
    assert_eq!(log10_micros(1), -6_000_000);
    assert_eq!(log10_micros(1_000_000), 0);
    assert_eq!(log10_micros(10_000_000), 1_000_000);
    assert_eq!(log10_micros(100_000_000), 2_000_000);
    // 50 ms: one decade above 10 ms, four ninths of the way to 100 ms.
    assert_eq!(log10_micros(50_000_000), 1_444_444);
    assert!(log10_micros(49_000_000) < log10_micros(50_000_000));
}

#[test]
fn median_of_empty_log_reads_one_millisecond() {
    let v: Vec<Sample> = Vec::new();
    assert_eq!(median_micros(&v), 1_000_000);
}

#[test]
fn median_of_even_log_averages_middle_samples() {
    let v = vec![Sample::from_millis(10), Sample::from_millis(20)];
    assert_eq!(median_micros(&v), 15_000_000);
    let odd = vec![
        Sample::from_millis(10),
        Sample::from_millis(20),
        Sample::from_millis(30),
    ];
    assert_eq!(median_micros(&odd), 20_000_000);
}

// An empty sample log with every request successful gives exactly the
// default weight: median one millisecond, success rate one.
#[test]
fn empty_log_full_success_weighs_one() {
    let mut times: Vec<Sample> = Vec::new();
    let (initial, current) = calculate_weights(&mut times, 1, 1, 0, 0, 0);
    assert_eq!(initial, 1_000_000);
    assert_eq!(current, 1_000_000);
}

// The kernel sorts the sample log and reads the median of the sorted
// order; active connections add exactly one penalty each.
#[test]
fn kernel_sorts_and_adds_penalties() {
    let mut times = vec![
        Sample::from_millis(30),
        Sample::from_millis(10),
        Sample::from_millis(20),
    ];
    let (initial, current) = calculate_weights(&mut times, 2, 2, 100_000, 0, 3);
    assert_eq!(times[0].secs, 0);
    assert_eq!(times[0].nanos, 10_000_000);
    // median 20 ms: log10 = 1_111_111, weight = 1_000_000 - 1_111_111.
    assert_eq!(initial, -111_111 + 100_000);
    assert_eq!(current, initial + 300_000);
}

#[test]
fn variant_names_round_trip() {
    assert_eq!(Variant::from_str("general"), Some(Variant::General));
    assert_eq!(Variant::from_str("inbox"), Some(Variant::Inbox));
    assert_eq!(Variant::from_str("outbox"), Some(Variant::Outbox));
    assert_eq!(Variant::from_str("local"), Some(Variant::Local));
    assert_eq!(Variant::from_str("LOCAL"), None);
    assert_eq!(Variant::from_str(""), None);
    assert_eq!(Variant::Inbox.to_string(), "inbox");
}

#[test]
fn string_order_is_lexicographic() {
    assert!(str_eq("wss://a", "wss://a"));
    assert!(!str_eq("wss://a", "wss://b"));
    assert!(str_lex_lt("wss://a", "wss://b"));
    assert!(!str_lex_lt("wss://b", "wss://a"));
    assert!(str_lex_lt("wss://a", "wss://aa"));
    assert!(str_lex_leq("wss://a", "wss://a"));
}

#[test]
fn error_messages_name_the_failure() {
    assert_eq!(
        SelectorError::InvalidVariant.message(),
        "invalid relay variant"
    );
    assert_eq!(
        SelectorError::InvalidDuration.message(),
        "invalid response time"
    );
    assert_eq!(
        SelectorError::NotInitialized.message(),
        "config provider must be set before use"
    );
    assert_eq!(
        SelectorError::StorageFailure.message(),
        "failed to load persisted relays"
    );
    assert_eq!(
        SelectorError::ConfigFailure.message(),
        "failed to fetch configuration"
    );
}

#[test]
fn facade_rejects_bad_variant_and_duration() {
    let mut sel = RelaySelector::new();
    let r = api::add_relay(&mut sel, "wss://a", Some("sideways"), 0, 0);
    assert_eq!(r, Err(SelectorError::InvalidVariant));
    let r = api::record_response_time(&mut sel, "wss://a", -1, None, 0, 0);
    assert_eq!(r, Err(SelectorError::InvalidDuration));
    let r = api::record_request(&mut sel, "wss://a", true, Some("nope"), 0, 0);
    assert_eq!(r, Err(SelectorError::InvalidVariant));
    assert!(!sel.contains("wss://a"));
}

#[test]
fn facade_records_response_times_in_microseconds() {
    let mut sel = RelaySelector::new();
    // 50 ms, recorded twice, with every request successful.
    api::record_response_time(&mut sel, "wss://a", 50_000, None, 0, 0).unwrap();
    api::record_request(&mut sel, "wss://a", true, None, 0, 0).unwrap();
    let st = sel.statistics.get("wss://a").unwrap();
    assert_eq!(st.response_times.len(), 1);
    assert_eq!(st.response_times[0].nanos, 50_000_000);
    // median 50 ms, success rate 1: weight 1.0 - 1.444444.
    assert_eq!(*sel.initial_weights.get("wss://a").unwrap(), -444_444);
}

// Cold start: an empty store is seeded from the allowlist and rank zero
// serves one of the seeded relays.
#[test]
fn cold_start_seeds_defaults() {
    let records: Vec<RelayRecord> = Vec::new();
    let defaults = vec![String::from("wss://a"), String::from("wss://b")];
    let trusts = vec![0i64, 0i64];
    let vendors = vec![0i64, 0i64];
    let mut sel = RelaySelector::init_from_records(
        "relay_selector_store",
        &records,
        &defaults,
        &trusts,
        &vendors,
    );
    assert!(sel.contains("wss://a"));
    assert!(sel.contains("wss://b"));
    assert_eq!(sel.general.len(), 2);
    assert_eq!(sel.inbox.len(), 2);
    assert_eq!(sel.outbox.len(), 2);
    let allow = Vec::new();
    let h = api::get_relay(&mut sel, "general", None, None, &allow).unwrap();
    assert!(h.url == "wss://a" || h.url == "wss://b");
}

// Persistence round trip: telemetry recorded before a save is intact
// after re-initialising from the saved records.
#[test]
fn persistence_round_trip_restores_statistics() {
    let mut sel = RelaySelector::new();
    sel.insert("wss://u", Variant::General, 0, 0);
    for _ in 0..3 {
        sel.update_weights_with_request("wss://u", true);
    }
    let records = sel.to_records();
    let defaults: Vec<String> = Vec::new();
    let scores: Vec<i64> = Vec::new();
    let sel2 =
        RelaySelector::init_from_records("relay_selector_store", &records, &defaults, &scores, &scores);
    let st = sel2.statistics.get("wss://u").unwrap();
    assert_eq!(st.successful_requests, 3);
    assert_eq!(st.requests, 3);
    assert_eq!(
        sel2.initial_weights.get("wss://u"),
        sel.initial_weights.get("wss://u")
    );
    assert_eq!(
        sel2.current_weights.get("wss://u"),
        sel.current_weights.get("wss://u")
    );
    assert!(sel2.contains("wss://u"));
}

// A URL serving several variants keeps one shared statistics record
// through the round trip.
#[test]
fn round_trip_keeps_multi_variant_membership() {
    let mut sel = RelaySelector::new();
    sel.insert("wss://u", Variant::General, 0, 0);
    sel.insert("wss://u", Variant::Inbox, 0, 0);
    let records = sel.to_records();
    assert_eq!(records.len(), 2);
    let defaults: Vec<String> = Vec::new();
    let scores: Vec<i64> = Vec::new();
    let sel2 = RelaySelector::init_from_records("s", &records, &defaults, &scores, &scores);
    assert_eq!(sel2.general.len(), 1);
    assert_eq!(sel2.inbox.len(), 1);
    assert_eq!(sel2.outbox.len(), 0);
}

// The latch grants exactly one initialization run to racing callers.
#[test]
fn latch_grants_one_run() {
    let mut latch = InitLatch::new();
    let first = latch.begin();
    let second = latch.begin();
    let third = latch.begin();
    assert!(first);
    assert!(!second);
    assert!(!third);
    assert!(!latch.is_ready());
    latch.finish();
    assert!(latch.is_ready());
    assert!(!latch.begin());
}

// A median of zero whole milliseconds saturates the logarithm at -6, so
// the response-time weight peaks at 7.
#[test]
fn sub_millisecond_median_saturates() {
    let mut times = vec![Sample::new(0, 500_000)];
    let (initial, _) = calculate_weights(&mut times, 1, 1, 0, 0, 0);
    assert_eq!(initial, 7_000_000);
}


// Seeded defaults carry their configured trust levels and vendor scores.
#[test]
fn seeding_applies_configured_scores() {
    let records: Vec<RelayRecord> = Vec::new();
    let defaults = vec![String::from("wss://a"), String::from("wss://b")];
    let trusts = vec![300_000i64, 0i64];
    let vendors = vec![200_000i64, 100_000i64];
    let sel = RelaySelector::init_from_records("s", &records, &defaults, &trusts, &vendors);
    let a = sel.statistics.get("wss://a").unwrap();
    assert_eq!(a.trust_level, 300_000);
    assert_eq!(a.vendor_score, 200_000);
    assert_eq!(a.active_connections, 0);
    assert_eq!(a.requests, 0);
    assert_eq!(*sel.initial_weights.get("wss://a").unwrap(), 500_000);
    assert_eq!(*sel.initial_weights.get("wss://b").unwrap(), 100_000);
    // Seeded lists come out in the weighted order: higher score first.
    assert_eq!(sel.general, vec!["wss://a", "wss://b"]);
}

// Seeding a warm store: only the empty lists are seeded, and relays the
// store already knew keep their records.
#[test]
fn seeding_preserves_loaded_records() {
    let mut sel = RelaySelector::new();
    sel.insert("wss://u", Variant::Inbox, 0, 0);
    for _ in 0..3 {
        sel.update_weights_with_request("wss://u", true);
    }
    let records = sel.to_records();
    let defaults = vec![String::from("wss://u"), String::from("wss://d")];
    let trusts = vec![0i64, 0i64];
    let vendors = vec![0i64, 0i64];
    let sel2 = RelaySelector::init_from_records("s", &records, &defaults, &trusts, &vendors);
    // Inbox was loaded from the store; general and outbox were seeded.
    assert_eq!(sel2.inbox, vec!["wss://u"]);
    assert_eq!(sel2.general.len(), 2);
    // The loaded record survives being seeded into the general list.
    assert_eq!(sel2.statistics.get("wss://u").unwrap().successful_requests, 3);
    assert_eq!(sel2.statistics.get("wss://d").unwrap().requests, 0);
}

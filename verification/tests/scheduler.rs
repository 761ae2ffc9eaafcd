use relay_selector::api;
use relay_selector::errors::SelectorError;
use relay_selector::selector::RelaySelector;
use relay_selector::variant::Variant;

fn empty_allow_list() -> Vec<String> {
    Vec::new()
}

#[test]
fn contains_reports_inserted_urls() {
    let mut sel = RelaySelector::new();
    assert!(!sel.contains("wss://a"));
    sel.insert("wss://a", Variant::General, 0, 0);
    assert!(sel.contains("wss://a"));
    assert!(!sel.contains("wss://b"));
}

#[test]
fn insert_is_idempotent_per_variant() {
    let mut sel = RelaySelector::new();
    sel.insert("wss://a", Variant::General, 0, 0);
    sel.insert("wss://a", Variant::General, 0, 0);
    assert_eq!(sel.general.len(), 1);
}

#[test]
fn local_inserts_into_general() {
    let mut sel = RelaySelector::new();
    sel.insert("wss://a", Variant::Local, 0, 0);
    assert_eq!(sel.general.len(), 1);
    assert_eq!(sel.inbox.len(), 0);
    assert_eq!(sel.outbox.len(), 0);
}

#[test]
fn fresh_insert_weight_is_trust_plus_vendor() {
    let mut sel = RelaySelector::new();
    sel.insert("wss://a", Variant::General, 300_000, 200_000);
    assert_eq!(*sel.initial_weights.get("wss://a").unwrap(), 500_000);
    assert_eq!(*sel.current_weights.get("wss://a").unwrap(), 500_000);
}

// A completed successful request on a fresh relay drives the success rate
// to exactly one: the initial weight becomes the full response-time weight
// of the one-millisecond default median.
#[test]
fn first_success_pins_success_rate_at_one() {
    let mut sel = RelaySelector::new();
    sel.insert("wss://a", Variant::General, 0, 0);
    sel.update_weights_with_request("wss://a", true);
    let st = sel.statistics.get("wss://a").unwrap();
    assert_eq!(st.requests, 1);
    assert_eq!(st.successful_requests, 1);
    assert_eq!(*sel.initial_weights.get("wss://a").unwrap(), 1_000_000);
}

#[test]
fn failed_requests_keep_counters_consistent() {
    let mut sel = RelaySelector::new();
    sel.insert("wss://a", Variant::General, 0, 0);
    sel.update_weights_with_request("wss://a", true);
    sel.update_weights_with_request("wss://a", false);
    sel.update_weights_with_request("wss://a", false);
    let st = sel.statistics.get("wss://a").unwrap();
    assert_eq!(st.requests, 3);
    assert_eq!(st.successful_requests, 1);
    assert!(st.successful_requests <= st.requests);
}

// A checkout raises the current weight by exactly one connection penalty
// above the initial weight.
#[test]
fn checkout_adds_connection_penalty() {
    let mut sel = RelaySelector::new();
    sel.insert("wss://a", Variant::General, 0, 0);
    let allow = empty_allow_list();
    let url = sel
        .get_relay_by_weighted_round_robin(Variant::General, 0, false, &allow)
        .unwrap();
    assert_eq!(url, "wss://a");
    let initial = *sel.initial_weights.get("wss://a").unwrap();
    let current = *sel.current_weights.get("wss://a").unwrap();
    assert_eq!(current, initial + 100_000);
}

// With the largest representable number of connections checked out, the
// next checkout fails with the limit error and changes nothing.
#[test]
fn checkout_at_limit_is_refused() {
    let mut sel = RelaySelector::new();
    sel.insert("wss://a", Variant::General, 0, 0);
    let allow = empty_allow_list();
    for _ in 0..255 {
        sel.get_relay_by_weighted_round_robin(Variant::General, 0, false, &allow)
            .unwrap();
    }
    let r = sel.get_relay_by_weighted_round_robin(Variant::General, 0, false, &allow);
    assert_eq!(r, Err(SelectorError::LimitExceeded));
    let st = sel.statistics.get("wss://a").unwrap();
    assert_eq!(st.active_connections, 255);
}

// Returning a relay that has no checked-out connection is a silent no-op.
#[test]
fn return_with_no_checkout_changes_nothing() {
    let mut sel = RelaySelector::new();
    sel.insert("wss://a", Variant::General, 0, 0);
    sel.return_relay("wss://a", Variant::General);
    let st = sel.statistics.get("wss://a").unwrap();
    assert_eq!(st.active_connections, 0);
    assert_eq!(*sel.current_weights.get("wss://a").unwrap(), 0);
}

#[test]
fn return_of_unknown_url_is_soft() {
    let mut sel = RelaySelector::new();
    sel.return_relay("wss://nowhere", Variant::General);
    assert_eq!(sel.general.len(), 0);
}

#[test]
fn rank_out_of_range_is_refused() {
    let mut sel = RelaySelector::new();
    let allow = empty_allow_list();
    let r = sel.get_relay_by_weighted_round_robin(Variant::General, 0, false, &allow);
    assert_eq!(r, Err(SelectorError::RankOutOfRange));
}

#[test]
fn local_variant_cannot_be_selected() {
    let mut sel = RelaySelector::new();
    sel.insert("wss://a", Variant::Local, 0, 0);
    let allow = empty_allow_list();
    let r = sel.get_relay_by_weighted_round_robin(Variant::Local, 0, false, &allow);
    assert_eq!(r, Err(SelectorError::InvalidVariant));
}

// A relay with a record of successes outranks untouched relays once the
// list has been re-sorted, and rank one must name a different relay.
#[test]
fn rank_respects_weights() {
    let mut sel = RelaySelector::new();
    for _ in 0..10 {
        api::record_request(&mut sel, "wss://u2", true, Some("general"), 0, 0).unwrap();
    }
    assert_eq!(sel.statistics.get("wss://u2").unwrap().requests, 10);
    sel.insert("wss://u1", Variant::General, 0, 0);
    sel.insert("wss://u3", Variant::General, 0, 0);
    let allow = empty_allow_list();
    let first = sel
        .get_relay_by_weighted_round_robin(Variant::General, 0, false, &allow)
        .unwrap();
    assert_eq!(first, "wss://u2");
    let second = sel
        .get_relay_by_weighted_round_robin(Variant::General, 1, false, &allow)
        .unwrap();
    assert_ne!(second, "wss://u2");
    assert_eq!(second, "wss://u1");
}

// After both handles from the previous scenario are released, rank zero
// names the well-performing relay again.
#[test]
fn handle_return_restores_ordering() {
    let mut sel = RelaySelector::new();
    for _ in 0..10 {
        api::record_request(&mut sel, "wss://u2", true, Some("general"), 0, 0).unwrap();
    }
    sel.insert("wss://u1", Variant::General, 0, 0);
    sel.insert("wss://u3", Variant::General, 0, 0);
    let allow = empty_allow_list();
    let mut h1 = api::get_relay(&mut sel, "general", Some(0), None, &allow).unwrap();
    assert_eq!(h1.url, "wss://u2");
    let mut h2 = api::get_relay(&mut sel, "general", Some(1), None, &allow).unwrap();
    h1.release(&mut sel);
    h2.release(&mut sel);
    let again = api::get_relay(&mut sel, "general", Some(0), None, &allow).unwrap();
    assert_eq!(again.url, "wss://u2");
}

// Releasing a handle any number of times decrements the active-connection
// count exactly once.
#[test]
fn handle_release_is_idempotent() {
    let mut sel = RelaySelector::new();
    sel.insert("wss://a", Variant::General, 0, 0);
    let allow = empty_allow_list();
    let mut h = api::get_relay(&mut sel, "general", None, None, &allow).unwrap();
    let mut h2 = api::get_relay(&mut sel, "general", None, None, &allow).unwrap();
    assert_eq!(sel.statistics.get("wss://a").unwrap().active_connections, 2);
    h.release(&mut sel);
    h.release(&mut sel);
    h.release(&mut sel);
    assert_eq!(sel.statistics.get("wss://a").unwrap().active_connections, 1);
    h2.release(&mut sel);
    assert_eq!(sel.statistics.get("wss://a").unwrap().active_connections, 0);
}

// A server-side caller may only check out allowlisted relays.
#[test]
fn server_side_denies_non_allowlisted() {
    let mut sel = RelaySelector::new();
    sel.insert("wss://b", Variant::General, 0, 0);
    let allow = vec![String::from("wss://a")];
    let r = sel.get_relay_by_weighted_round_robin(Variant::General, 0, true, &allow);
    assert_eq!(r, Err(SelectorError::NotAllowed));
    let ok = sel.get_relay_by_weighted_round_robin(Variant::General, 0, false, &allow);
    assert_eq!(ok.unwrap(), "wss://b");
}

#[test]
fn server_side_permits_allowlisted() {
    let mut sel = RelaySelector::new();
    sel.insert("wss://a", Variant::General, 0, 0);
    let allow = vec![String::from("wss://a")];
    let r = sel.get_relay_by_weighted_round_robin(Variant::General, 0, true, &allow);
    assert_eq!(r.unwrap(), "wss://a");
}

// Relays with equal weights are listed in ascending URL order.
#[test]
fn equal_weights_tie_break_lexicographically() {
    let mut sel = RelaySelector::new();
    sel.insert("wss://b", Variant::General, 0, 0);
    sel.insert("wss://a", Variant::General, 0, 0);
    assert_eq!(sel.general, vec!["wss://a", "wss://b"]);
}

// The mutable statistics accessor exposes the live record.
#[test]
fn get_mut_statistics_reads_the_record() {
    let mut sel = RelaySelector::new();
    sel.insert("wss://a", Variant::General, 0, 0);
    sel.update_weights_with_request("wss://a", true);
    let st = sel.get_mut_statistics("wss://a");
    assert_eq!(st.requests, 1);
}


// Inserting under the Local alias lands in the general list and re-sorts
// it like any other insert.
#[test]
fn local_insert_resorts_general() {
    let mut sel = RelaySelector::new();
    sel.insert("wss://a", Variant::General, 0, 0);
    sel.insert("wss://zz", Variant::Local, 500_000, 0);
    assert_eq!(sel.general, vec!["wss://zz", "wss://a"]);
}

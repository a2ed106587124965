use tcp_traffic_scan::control::ControlState;

fn state_with_eth0() -> ControlState {
    ControlState::new(vec![String::from("eth0")])
}

#[test]
fn read_shows_default_alone() {
    let mut state = state_with_eth0();
    let reply = state.handle_correction(None, None);
    assert_eq!(reply.status, 200);
    assert_eq!(reply.body, "Default correction factor: 1\n");
}

#[test]
fn read_lists_overrides() {
    let mut state = state_with_eth0();
    let set_reply = state.handle_correction(Some("2"), Some("eth0"));
    assert_eq!(set_reply.status, 200);
    let reply = state.handle_correction(None, None);
    assert_eq!(reply.status, 200);
    assert_eq!(
        reply.body,
        "Default correction factor: 1\n\nPer-interface correction factors:\n  eth0: 2\n"
    );
}

#[test]
fn zero_value_is_bad_request_and_changes_nothing() {
    let mut state = state_with_eth0();
    let reply = state.handle_correction(Some("0"), Some("eth0"));
    assert_eq!(reply.status, 400);
    assert_eq!(reply.body, "Value must be greater than 0\n");
    assert_eq!(state.store.get("eth0"), 1_000_000);
}

#[test]
fn negative_value_is_bad_request() {
    let mut state = state_with_eth0();
    let reply = state.handle_correction(Some("-1.5"), None);
    assert_eq!(reply.status, 400);
    assert_eq!(state.store.get("eth0"), 1_000_000);
}

#[test]
fn malformed_value_is_bad_request() {
    let mut state = state_with_eth0();
    let reply = state.handle_correction(Some("fast"), None);
    assert_eq!(reply.status, 400);
}

#[test]
fn value_without_identifier_sets_default() {
    let mut state = state_with_eth0();
    let reply = state.handle_correction(Some("2.5"), None);
    assert_eq!(reply.status, 200);
    assert_eq!(reply.body, "Default correction factor set to: 2.5\n");
    assert_eq!(state.store.get("eth0"), 2_500_000);
    assert_eq!(state.store.get("eth9"), 2_500_000);
}

#[test]
fn value_with_interface_sets_override() {
    let mut state = state_with_eth0();
    let reply = state.handle_correction(Some("1.5"), Some("eth0"));
    assert_eq!(reply.status, 200);
    assert_eq!(reply.body, "Correction factor for eth0 (eth0) set to: 1.5\n");
    assert_eq!(state.store.get("eth0"), 1_500_000);
}

#[test]
fn wan_alias_reaches_its_interface() {
    let mut state = state_with_eth0();
    let reply = state.handle_correction(Some("1.5"), Some("wan0"));
    assert_eq!(reply.status, 200);
    assert_eq!(reply.body, "Correction factor for wan0 (eth0) set to: 1.5\n");
    assert_eq!(state.store.get("eth0"), 1_500_000);
}

#[test]
fn unknown_alias_is_not_found_and_changes_nothing() {
    let mut state = state_with_eth0();
    let reply = state.handle_correction(Some("1.5"), Some("unknown-alias"));
    assert_eq!(reply.status, 404);
    assert_eq!(reply.body, "Unknown interface or alias: unknown-alias\n");
    assert_eq!(state.store.get("eth0"), 1_000_000);
    assert_eq!(state.store.overrides.entries.len(), 0);
}

#[test]
fn refreshed_alias_table_resolves() {
    let mut state = state_with_eth0();
    assert!(state.needs_alias_refresh("net1"));
    state.replace_aliases(vec![(String::from("net1"), String::from("eth9"))]);
    assert!(!state.needs_alias_refresh("net1"));
    let reply = state.handle_correction(Some("3"), Some("net1"));
    assert_eq!(reply.status, 200);
    assert_eq!(reply.body, "Correction factor for net1 (eth9) set to: 3\n");
    assert_eq!(state.store.get("eth9"), 3_000_000);
}

#[test]
fn alias_refresh_replaces_wholesale() {
    let mut state = state_with_eth0();
    state.replace_aliases(vec![(String::from("net1"), String::from("eth9"))]);
    state.replace_aliases(vec![(String::from("net2"), String::from("eth8"))]);
    assert!(state.needs_alias_refresh("net1"));
    assert!(!state.needs_alias_refresh("net2"));
}

#[test]
fn duplicate_alias_keeps_first_entry() {
    let mut state = state_with_eth0();
    state.replace_aliases(vec![
        (String::from("net1"), String::from("eth9")),
        (String::from("net1"), String::from("eth8")),
    ]);
    let reply = state.handle_correction(Some("2"), Some("net1"));
    assert_eq!(reply.status, 200);
    assert_eq!(reply.body, "Correction factor for net1 (eth9) set to: 2\n");
}

#[test]
fn malformed_value_with_identifier_is_rejected_before_resolution() {
    let mut state = state_with_eth0();
    let reply = state.handle_correction(Some("2..5"), Some("eth0"));
    assert_eq!(reply.status, 400);
    assert_eq!(state.store.get("eth0"), 1_000_000);
}

#[test]
fn configured_interface_needs_no_refresh() {
    let state = state_with_eth0();
    assert!(!state.needs_alias_refresh("eth0"));
    assert!(!state.needs_alias_refresh("wan0"));
    assert!(state.needs_alias_refresh("wan1"));
}

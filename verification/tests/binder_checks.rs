use tcp_traffic_scan::aliases::map_wan_to_interface;
use tcp_traffic_scan::binder::SeenSet;
use tcp_traffic_scan::binder::bound_matches;

#[test]
fn wan_names_map_to_interfaces() {
    assert_eq!(map_wan_to_interface("wan0"), "eth0");
    assert_eq!(map_wan_to_interface("wan1"), "eth1");
    assert_eq!(map_wan_to_interface("eth3"), "eth3");
    assert_eq!(map_wan_to_interface("wan2"), "wan2");
}

#[test]
fn first_sighting_warns_once_per_name() {
    let mut seen = SeenSet::new();
    assert!(seen.first_sighting("eth0"));
    assert!(!seen.first_sighting("eth0"));
    assert!(seen.first_sighting("eth1"));
    assert!(!seen.first_sighting("eth1"));
    assert!(!seen.first_sighting("eth0"));
}

#[test]
fn bound_name_matches_through_nul_padding() {
    assert!(bound_matches("eth0", "eth0"));
    assert!(bound_matches("eth0", "eth0\0\0\0"));
    assert!(bound_matches("eth0", "\0eth0\0"));
}

#[test]
fn bound_name_mismatch_is_detected() {
    assert!(!bound_matches("eth0", "eth1\0"));
    assert!(!bound_matches("eth0", ""));
    assert!(!bound_matches("eth0", "\0\0"));
    assert!(!bound_matches("eth0", "eth00"));
}

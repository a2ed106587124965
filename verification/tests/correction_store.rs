use tcp_traffic_scan::correction::CorrectionStore;
use tcp_traffic_scan::correction::UNIT_MILLIONTHS;

#[test]
fn fresh_store_reads_unit() {
    let store = CorrectionStore::new();
    assert_eq!(store.get("eth0"), UNIT_MILLIONTHS);
    assert_eq!(store.get("anything"), 1_000_000);
}

#[test]
fn override_beats_default() {
    let mut store = CorrectionStore::new();
    store.set("eth0", 2_000_000).unwrap();
    assert_eq!(store.get("eth0"), 2_000_000);
    assert_eq!(store.get("eth1"), 1_000_000);
}

#[test]
fn default_covers_unlisted_interfaces() {
    let mut store = CorrectionStore::new();
    store.set_default(3_500_000).unwrap();
    store.set("eth0", 2_000_000).unwrap();
    assert_eq!(store.get("eth0"), 2_000_000);
    assert_eq!(store.get("eth1"), 3_500_000);
}

#[test]
fn zero_write_is_rejected_and_changes_nothing() {
    let mut store = CorrectionStore::new();
    store.set("eth0", 1_500_000).unwrap();
    assert!(store.set("eth0", 0).is_err());
    assert!(store.set_default(0).is_err());
    assert_eq!(store.get("eth0"), 1_500_000);
    assert_eq!(store.get("eth1"), 1_000_000);
}

#[test]
fn last_write_wins() {
    let mut store = CorrectionStore::new();
    store.set("eth0", 1_500_000).unwrap();
    store.set("eth0", 2_500_000).unwrap();
    assert!(store.set("eth0", 0).is_err());
    assert_eq!(store.get("eth0"), 2_500_000);
    // Still a single entry, replaced in place.
    assert_eq!(store.overrides.entries.len(), 1);
}

#[test]
fn snapshot_is_point_in_time() {
    let mut store = CorrectionStore::new();
    store.set("eth0", 2_000_000).unwrap();
    let snap = store.snapshot();
    store.set("eth0", 9_000_000).unwrap();
    store.set_default(4_000_000).unwrap();
    assert_eq!(snap.get("eth0"), 2_000_000);
    assert_eq!(snap.get("eth1"), 1_000_000);
    assert_eq!(store.get("eth0"), 9_000_000);
}

use tcp_traffic_scan::correction::CorrectionStore;
use tcp_traffic_scan::metrics::MetricsRegistry;
use tcp_traffic_scan::render::render;

#[test]
fn empty_registry_renders_nothing() {
    let registry = MetricsRegistry::new();
    let store = CorrectionStore::new();
    assert_eq!(render(&registry, &store), "");
}

#[test]
fn raw_sample_with_unit_factor() {
    let mut registry = MetricsRegistry::new();
    let store = CorrectionStore::new();
    registry.record("eth0", "93.184.216.34", 26_214_400);
    let expected = "# HELP tcp_traffic_scan_tcp_bandwidth_bps TCP bandwidth estimation in bps\n# TYPE tcp_traffic_scan_tcp_bandwidth_bps gauge\ntcp_traffic_scan_tcp_bandwidth_bps{interface=\"eth0\",server_ip=\"93.184.216.34\"} 26214400\n";
    assert_eq!(render(&registry, &store), expected);
}

#[test]
fn correction_doubles_rendered_value() {
    // A probe with RTT 20 ms and window 65536 bytes stores the raw
    // 26214400 bits/s; a factor of 2.0 for eth0 renders 52428800.
    let mut registry = MetricsRegistry::new();
    let mut store = CorrectionStore::new();
    registry.record("eth0", "93.184.216.34", 26_214_400);
    store.set("eth0", 2_000_000).unwrap();
    let rendered = render(&registry, &store);
    let expected = "# HELP tcp_traffic_scan_tcp_bandwidth_bps TCP bandwidth estimation in bps\n# TYPE tcp_traffic_scan_tcp_bandwidth_bps gauge\ntcp_traffic_scan_tcp_bandwidth_bps{interface=\"eth0\",server_ip=\"93.184.216.34\"} 52428800\n";
    assert_eq!(rendered, expected);
    // The stored raw sample is untouched by the factor.
    assert_eq!(registry.samples[0].bps, 26_214_400);
}

#[test]
fn fractional_correction_renders_exactly() {
    let mut registry = MetricsRegistry::new();
    let mut store = CorrectionStore::new();
    registry.record("eth0", "10.0.0.1", 3);
    store.set("eth0", 1_500_000).unwrap();
    let rendered = render(&registry, &store);
    assert!(rendered.contains("tcp_bandwidth_bps{interface=\"eth0\",server_ip=\"10.0.0.1\"} 4.5\n"));
}

#[test]
fn default_factor_covers_unlisted_interface() {
    let mut registry = MetricsRegistry::new();
    let mut store = CorrectionStore::new();
    registry.record("eth1", "10.0.0.1", 100);
    store.set_default(3_000_000).unwrap();
    store.set("eth0", 2_000_000).unwrap();
    let rendered = render(&registry, &store);
    assert!(rendered.contains("{interface=\"eth1\",server_ip=\"10.0.0.1\"} 300\n"));
}

#[test]
fn averages_render_in_their_own_family() {
    let mut registry = MetricsRegistry::new();
    let mut store = CorrectionStore::new();
    registry.record("eth0", "93.184.216.34", 26_214_400);
    registry.record_average("eth0", 26_214_400);
    store.set("eth0", 2_000_000).unwrap();
    let expected = "# HELP tcp_traffic_scan_tcp_bandwidth_bps TCP bandwidth estimation in bps\n# TYPE tcp_traffic_scan_tcp_bandwidth_bps gauge\ntcp_traffic_scan_tcp_bandwidth_bps{interface=\"eth0\",server_ip=\"93.184.216.34\"} 52428800\n# HELP tcp_traffic_scan_tcp_bandwidth_avg_bps TCP bandwidth average per interface in bps\n# TYPE tcp_traffic_scan_tcp_bandwidth_avg_bps gauge\ntcp_traffic_scan_tcp_bandwidth_avg_bps{interface=\"eth0\"} 52428800\n";
    assert_eq!(render(&registry, &store), expected);
}

#[test]
fn rerendering_after_factor_change_rewrites_history() {
    let mut registry = MetricsRegistry::new();
    let mut store = CorrectionStore::new();
    registry.record("eth0", "10.0.0.1", 1000);
    let before = render(&registry, &store);
    assert!(before.contains("} 1000\n"));
    store.set("eth0", 2_000_000).unwrap();
    let after = render(&registry, &store);
    assert!(after.contains("} 2000\n"));
    assert_eq!(registry.samples[0].bps, 1000);
}

use tcp_traffic_scan::metrics::CycleStats;
use tcp_traffic_scan::metrics::MetricsRegistry;

#[test]
fn sample_is_superseded_not_accumulated() {
    let mut registry = MetricsRegistry::new();
    registry.record("eth0", "10.0.0.1", 1000);
    registry.record("eth0", "10.0.0.1", 2000);
    assert_eq!(registry.samples.len(), 1);
    assert_eq!(registry.samples[0].bps, 2000);
}

#[test]
fn samples_are_keyed_by_interface_and_server() {
    let mut registry = MetricsRegistry::new();
    registry.record("eth0", "10.0.0.1", 1000);
    registry.record("eth0", "10.0.0.2", 2000);
    registry.record("eth1", "10.0.0.1", 3000);
    assert_eq!(registry.samples.len(), 3);
}

#[test]
fn average_is_keyed_by_interface() {
    let mut registry = MetricsRegistry::new();
    registry.record_average("eth0", 1000);
    registry.record_average("eth0", 2000);
    registry.record_average("eth1", 500);
    assert_eq!(registry.averages.entries.len(), 2);
    assert_eq!(registry.averages.get("eth0"), Some(2000));
    assert_eq!(registry.averages.get("eth1"), Some(500));
    assert_eq!(registry.averages.get("eth2"), None);
}

#[test]
fn cycle_average_is_the_mean_of_successes() {
    let mut stats = CycleStats::new();
    stats.push_success(10);
    stats.push_success(20);
    stats.push_success(30);
    assert_eq!(stats.average(), Some(20));
}

#[test]
fn cycle_average_rounds_down() {
    let mut stats = CycleStats::new();
    stats.push_success(10);
    stats.push_success(20);
    stats.push_success(31);
    assert_eq!(stats.average(), Some(20));
}

#[test]
fn cycle_with_no_success_has_no_average() {
    let stats = CycleStats::new();
    assert_eq!(stats.average(), None);
}

#[test]
fn cycle_with_one_success_averages_it() {
    let mut stats = CycleStats::new();
    stats.push_success(26_214_400);
    assert_eq!(stats.average(), Some(26_214_400));
}

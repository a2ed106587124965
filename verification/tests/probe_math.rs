use tcp_traffic_scan::probe::ProbeError;
use tcp_traffic_scan::probe::ProbeResult;
use tcp_traffic_scan::probe::chosen_rtt_micros;
use tcp_traffic_scan::probe::derive_probe_result;
use tcp_traffic_scan::probe::effective_window;
use tcp_traffic_scan::probe::get_tcp_info_rtt;
use tcp_traffic_scan::probe::server_target_with_port;
use tcp_traffic_scan::probe::throughput_bits_per_second;
use tcp_traffic_scan::probe::usable_buffer_bytes;

#[test]
fn throughput_of_window_and_rtt() {
    // 65536 bytes over 20 ms: 65536 * 8 / 0.02 = 26214400 bits/s.
    assert_eq!(throughput_bits_per_second(65536, 20_000), 26_214_400);
}

#[test]
fn throughput_formula_is_exact() {
    // 1000 bytes over 4 ms: 1000 * 8 / 0.004 = 2_000_000 bits/s.
    assert_eq!(throughput_bits_per_second(1000, 4_000), 2_000_000);
    // 1 byte over 1 s.
    assert_eq!(throughput_bits_per_second(1, 1_000_000), 8);
}

#[test]
fn throughput_zero_rtt_is_zero() {
    assert_eq!(throughput_bits_per_second(65536, 0), 0);
    assert_eq!(throughput_bits_per_second(0, 0), 0);
}

#[test]
fn throughput_largest_window() {
    // The product stays within u64 even for the largest window and
    // the smallest positive round-trip time.
    assert_eq!(
        throughput_bits_per_second(u32::MAX, 1),
        (u32::MAX as u64) * 8 * 1_000_000
    );
}

#[test]
fn tcp_info_rtt_reported() {
    assert_eq!(get_tcp_info_rtt(true, 15_000), Some(15_000));
}

#[test]
fn tcp_info_rtt_absent() {
    assert_eq!(get_tcp_info_rtt(true, 0), None);
    assert_eq!(get_tcp_info_rtt(false, 15_000), None);
}

#[test]
fn rtt_prefers_os_report() {
    assert_eq!(chosen_rtt_micros(40_000, Some(15_000)), 15_000);
}

#[test]
fn rtt_falls_back_to_half_handshake() {
    assert_eq!(chosen_rtt_micros(40_000, None), 20_000);
    assert_eq!(chosen_rtt_micros(1, None), 0);
}

#[test]
fn buffer_halved_on_doubling_platform() {
    assert_eq!(usable_buffer_bytes(131_072, true), 65_536);
    assert_eq!(usable_buffer_bytes(131_072, false), 131_072);
}

#[test]
fn buffer_nonpositive_report_is_empty() {
    assert_eq!(usable_buffer_bytes(0, false), 0);
    assert_eq!(usable_buffer_bytes(-5, true), 0);
}

#[test]
fn window_is_minimum_of_buffers() {
    assert_eq!(effective_window(100, Some(50)), 50);
    assert_eq!(effective_window(50, Some(100)), 50);
    assert_eq!(effective_window(70, None), 70);
}

#[test]
fn probe_result_from_raw_readings() {
    let r: ProbeResult = derive_probe_result(40_000, None, 262_144, Some(131_072), true);
    assert_eq!(r.rtt_micros, 20_000);
    assert_eq!(r.window_bytes, 65_536);
    assert_eq!(r.bits_per_second(), 65_536 * 8 * 1_000_000 / 20_000);

    let r2: ProbeResult = derive_probe_result(40_000, Some(10_000), 65_536, None, false);
    assert_eq!(r2.rtt_micros, 10_000);
    assert_eq!(r2.window_bytes, 65_536);
}

#[test]
fn probe_error_texts() {
    assert_eq!(ProbeError::Resolution.describe(), "could not resolve address");
    assert_eq!(ProbeError::Timeout.describe(), "connection timed out");
    assert_eq!(ProbeError::ConnectFailed.describe(), "connection failed");
    assert_eq!(ProbeError::OsQuery(13).describe(), "socket option query failed");
}

#[test]
fn target_gets_default_port() {
    assert_eq!(server_target_with_port("example.com"), "example.com:443");
}

#[test]
fn target_with_port_is_kept() {
    assert_eq!(server_target_with_port("example.com:8080"), "example.com:8080");
    assert_eq!(server_target_with_port("[::1]:443"), "[::1]:443");
}

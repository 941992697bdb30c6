use landiag::metrics::{TestMetrics, update_metrics, isqrt};

#[test]
fn fresh_metrics_are_zeroed() {
    let m = TestMetrics::fresh(1_700_000_000_000);
    assert_eq!(m.packets_sent, 0);
    assert_eq!(m.packets_received, 0);
    assert_eq!(m.latency_micros, 0);
    assert_eq!(m.jitter_micros, 0);
    assert_eq!(m.packet_loss_centi_percent, 0);
    assert_eq!(m.throughput_kbps, 0);
    assert_eq!(m.timestamp, 1_700_000_000_000);
}

#[test]
fn metrics_formulas_exact() {
    let mut m = TestMetrics::fresh(0);
    let latencies: Vec<u32> = vec![1_000, 2_000, 3_000];
    update_metrics(&mut m, 10, 8, &latencies, 42);

    assert_eq!(m.packets_sent, 10);
    assert_eq!(m.packets_received, 8);
    // (10 - 8) / 10 = 20.00%
    assert_eq!(m.packet_loss_centi_percent, 2_000);
    // Mean of 1000, 2000, 3000 microseconds.
    assert_eq!(m.latency_micros, 2_000);
    // Population variance 666666; its integer square root is 816.
    assert_eq!(m.jitter_micros, 816);
    // One kilobit per second per received packet.
    assert_eq!(m.throughput_kbps, 8);
    assert_eq!(m.timestamp, 42);
}

#[test]
fn metrics_with_no_traffic_are_zeroed() {
    let mut m = TestMetrics::fresh(7);
    m.packet_loss_centi_percent = 1234;
    m.latency_micros = 55;
    m.jitter_micros = 5;
    let empty: Vec<u32> = Vec::new();
    update_metrics(&mut m, 0, 0, &empty, 9);
    // Nothing sent: the loss is zero, not a leftover; nothing
    // observed: latency and jitter are zero.
    assert_eq!(m.packet_loss_centi_percent, 0);
    assert_eq!(m.latency_micros, 0);
    assert_eq!(m.jitter_micros, 0);
    assert_eq!(m.packets_sent, 0);
    assert_eq!(m.timestamp, 9);
}

#[test]
fn zero_loss_and_total_loss() {
    let mut m = TestMetrics::fresh(0);
    let latencies: Vec<u32> = vec![500, 500];
    update_metrics(&mut m, 2, 2, &latencies, 1);
    assert_eq!(m.packet_loss_centi_percent, 0);
    assert_eq!(m.jitter_micros, 0);
    assert_eq!(m.latency_micros, 500);

    let none: Vec<u32> = Vec::new();
    update_metrics(&mut m, 150, 0, &none, 2);
    assert_eq!(m.packet_loss_centi_percent, 10_000);
    assert_eq!(m.throughput_kbps, 0);
    // No latencies were observed in this window.
    assert_eq!(m.latency_micros, 0);
    assert_eq!(m.jitter_micros, 0);
}

#[test]
fn integer_square_roots() {
    assert_eq!(isqrt(0), 0);
    assert_eq!(isqrt(1), 1);
    assert_eq!(isqrt(3), 1);
    assert_eq!(isqrt(4), 2);
    assert_eq!(isqrt(15), 3);
    assert_eq!(isqrt(16), 4);
    assert_eq!(isqrt(1_000_000), 1_000);
    assert_eq!(isqrt(u64::MAX), 4_294_967_295);
}

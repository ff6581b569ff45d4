use zenith::runtime_cpu::telemetry::TelemetryCollector;

#[test]
fn test_telemetry_collector() {
    let mut collector = TelemetryCollector::new(1000);

    collector.record_event(1024);
    collector.record_event(2048);
    collector.record_latency(50);
    collector.record_latency(100);

    let snapshot = collector.snapshot();
    assert_eq!(snapshot.events_processed, 2);
    assert_eq!(snapshot.bytes_processed, 3072);
    assert_eq!(snapshot.avg_latency_us, 75);
    assert_eq!(snapshot.max_latency_us, 100);
}

#[test]
fn integration_telemetry_metrics() {
    let mut collector = TelemetryCollector::new(100);
    collector.start();

    let mut i: u64 = 0;
    while i < 10000 {
        collector.record_event(1024);
        collector.record_latency(50);
        i += 1;
    }

    let snapshot = collector.snapshot();
    assert_eq!(snapshot.events_processed, 10000);
    assert_eq!(snapshot.bytes_processed, 10000 * 1024);
    assert_eq!(snapshot.avg_latency_us, 50);

    collector.stop();
}

#[test]
fn snapshot_rates_exact() {
    let mut c = TelemetryCollector::new(10);
    c.record_event(2048);
    let s = c.snapshot_at(2);
    assert_eq!(s.uptime_ms, 2);
    assert_eq!(s.events_per_second, 500);
    assert_eq!(s.throughput_mbps, 0);
    let s0 = c.snapshot_at(0);
    assert_eq!(s0.events_per_second, 0);
}

#[test]
fn reset_clears_counters() {
    let mut c = TelemetryCollector::new(10);
    c.record_event(10);
    c.record_allocation();
    c.record_deallocation();
    c.reset();
    let s = c.snapshot_at(1);
    assert_eq!(s.events_processed, 0);
    assert_eq!(s.bytes_processed, 0);
    assert_eq!(s.allocations, 0);
    assert_eq!(s.deallocations, 0);
}

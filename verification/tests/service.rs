use gguf_switchboard::service::{GpuInfo, HealthResponse, HostInfo, ThroughputQuery, UsageQuery};

#[test]
fn gpu_used_percentage_is_rounded() {
    let g = GpuInfo::new(0, "RTX".into(), 10, 20, 8, 1, 7, 55);
    assert_eq!(g.memory_used_pct, 13);
    let g = GpuInfo::new(1, "RTX".into(), 0, 0, 24564, 12282, 12282, 0);
    assert_eq!(g.memory_used_pct, 50);
    assert_eq!(GpuInfo::new(2, "x".into(), 0, 0, 0, 5, 0, 0).memory_used_pct, 0);
}

#[test]
fn health_and_host_defaults() {
    let h = HealthResponse::ok("1.2.3", Some("m".into()), None);
    assert_eq!(h.status, "ok");
    assert_eq!(h.version, "1.2.3");
    let host = HostInfo::unknown();
    assert_eq!((host.cpu_count, host.memory_used_pct), (0, 0));
}

#[test]
fn query_defaults_and_clamps() {
    assert_eq!(ThroughputQuery { days: None }.window_days(), 90);
    assert_eq!(ThroughputQuery { days: Some(400) }.window_days(), 90);
    assert_eq!(ThroughputQuery { days: Some(-3) }.window_days(), 1);
    assert_eq!(ThroughputQuery { days: Some(7) }.window_days(), 7);
    assert_eq!(UsageQuery { model: None, limit: None }.recent_limit(), 50);
    assert_eq!(UsageQuery { model: None, limit: Some(3) }.recent_limit(), 3);
}

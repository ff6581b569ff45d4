use zenith::runtime_cpu::config::EngineConfig;
use zenith::runtime_cpu::Error;

#[test]
fn test_default_config() {
    let config = EngineConfig::default();
    assert!(config.numa_aware);
    assert!(config.hugepages);
    assert_eq!(config.io_uring_entries, 4096);
}

#[test]
fn test_builder() {
    let config = EngineConfig::builder()
        .numa_aware(false)
        .io_uring_entries(1024)
        .build()
        .unwrap();

    assert!(!config.numa_aware);
    assert_eq!(config.io_uring_entries, 1024);
}

#[test]
fn zero_ring_entries_rejected() {
    let r = EngineConfig::builder().io_uring_entries(0).build();
    assert!(matches!(r, Err(Error::Config(_))));
}

#[test]
fn zero_ring_buffer_rejected() {
    let r = EngineConfig::builder().ring_buffer_size(0).build();
    assert!(matches!(r, Err(Error::Config(_))));
}

#[test]
fn validate_accepts_defaults() {
    let config = EngineConfig::default();
    assert!(config.validate().is_ok());
}

use async_telemetry_broker::config::{Config, ListenAddr, WorkerConfig};
use async_telemetry_broker::time::Duration;

#[test]
fn default_configuration() {
    let config = Config::default();
    assert_eq!(config.listen_addr, ListenAddr::V4 { octets: [0, 0, 0, 0], port: 7777 });
    assert_eq!(config.broadcast_capacity, 1024);
    assert_eq!(config.max_num_connections, 48);
    assert_eq!(config.connection_timeout, Duration::from_secs(30));
    assert_eq!(config.shutdown_timeout, Duration::from_secs(10));
    let workers: Vec<(usize, Duration)> =
        config.workers.iter().map(|worker| (worker.id, worker.processing_delay)).collect();
    assert_eq!(
        workers,
        [
            (1, Duration::from_millis(0)),
            (2, Duration::from_millis(1000)),
            (3, Duration::from_millis(110000)),
        ]
    );
}

#[test]
fn builders_set_one_field_each() {
    let addr = ListenAddr::V6 { segments: [0, 0, 0, 0, 0, 0, 0, 1], port: 9, flowinfo: 0, scope_id: 2 };
    let config = Config::default()
        .with_listen_addr(addr)
        .with_broadcast_capacity(2)
        .with_max_num_connections(5)
        .with_shutdown_timeout(Duration::from_secs(3));
    assert_eq!(config.listen_addr, addr);
    assert_eq!(config.broadcast_capacity, 2);
    assert_eq!(config.max_num_connections, 5);
    assert_eq!(config.shutdown_timeout, Duration::from_secs(3));
    assert_eq!(config.connection_timeout, Duration::from_secs(30));
    assert_eq!(config.workers.len(), 3);
}

#[test]
fn clone_keeps_every_field() {
    let mut config = Config::default().with_broadcast_capacity(16).with_max_num_connections(7);
    config.workers = vec![WorkerConfig { id: 9, processing_delay: Duration::from_millis(500) }];
    let copy = config.clone();
    assert_eq!(copy.listen_addr, config.listen_addr);
    assert_eq!(copy.broadcast_capacity, 16);
    assert_eq!(copy.max_num_connections, 7);
    assert_eq!(copy.connection_timeout, config.connection_timeout);
    assert_eq!(copy.shutdown_timeout, config.shutdown_timeout);
    assert_eq!(copy.workers.len(), 1);
    assert_eq!(copy.workers[0].id, 9);
    assert_eq!(copy.workers[0].processing_delay, Duration::from_millis(500));
}

#[test]
fn durations_agree_with_those_of_std() {
    for millis in [0, 1, 999, 1000, 1001, 110_000, u64::MAX] {
        let ours = Duration::from_millis(millis);
        let theirs = std::time::Duration::from_millis(millis);
        assert_eq!(ours.as_secs(), theirs.as_secs());
        assert_eq!(ours.subsec_nanos(), theirs.subsec_nanos());
        assert_eq!(ours.is_zero(), theirs.is_zero());
    }
    assert_eq!(Duration::from_secs(2), Duration::from_millis(2000));
    assert_eq!(Duration::new(1, 2_500_000_000), Duration::new(3, 500_000_000));
    assert!(Duration::new(0, 0).is_zero());
    assert!(!Duration::new(0, 1).is_zero());
}

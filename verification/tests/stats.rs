use sky_daemon::runtime::stats::{parse_docker_stats, total_traffic, DockerStatsResponse, NetworkStats};

#[test]
fn parse_docker_stats_subtracts_cache_from_memory() {
    let mut raw = DockerStatsResponse::default();
    raw.memory_stats.usage = 1000;
    raw.memory_stats.limit = 2000;
    raw.memory_stats.stats.cache = 300;

    let stats = parse_docker_stats(&raw, 0.0);
    assert_eq!(stats.mem_used_bytes, 700);
    assert_eq!(stats.mem_limit_bytes, 2000);
}

#[test]
fn parse_docker_stats_aggregates_network_across_interfaces() {
    let mut raw = DockerStatsResponse::default();
    raw.networks.push(("eth0".into(), NetworkStats { rx_bytes: 100, tx_bytes: 50 }));
    raw.networks.push(("eth1".into(), NetworkStats { rx_bytes: 200, tx_bytes: 75 }));

    let stats = parse_docker_stats(&raw, 0.0);
    assert_eq!(stats.net_rx_bytes, 300);
    assert_eq!(stats.net_tx_bytes, 125);
}

#[test]
fn a_cache_beyond_the_usage_leaves_nothing_in_use() {
    let mut raw = DockerStatsResponse::default();
    raw.memory_stats.usage = 10;
    raw.memory_stats.stats.cache = 11;
    assert_eq!(parse_docker_stats(&raw, 0.0).mem_used_bytes, 0);
}

#[test]
fn the_percentage_is_passed_through() {
    let raw = DockerStatsResponse::default();
    assert_eq!(parse_docker_stats(&raw, 12.5).cpu_percent, 12.5);
}

#[test]
fn traffic_beyond_the_range_has_no_sum() {
    let full = ("a".to_string(), NetworkStats { rx_bytes: u64::MAX, tx_bytes: 0 });
    let one = ("b".to_string(), NetworkStats { rx_bytes: 1, tx_bytes: 1 });
    assert_eq!(total_traffic(&vec![full.clone()]), Some((u64::MAX, 0)));
    assert_eq!(total_traffic(&vec![full, one]), None);
    assert_eq!(total_traffic(&vec![]), Some((0, 0)));
}

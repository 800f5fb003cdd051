use podkit::config::{aggregate_pod_stats, PodMetricsStrategy};
use podkit::container::{
    calculate_cpu_percentages, find_host_port, get_next_pod_number, remove_container_stats,
    update_container_stats, ContainerInfo, ContainerStats, NetworkCounters, RuntimeSample,
    ServiceStats, StatsEntry,
};
use podkit::store::KvMap;

fn sample(id: &str, cpu: u64, sys: Option<u64>, mem: Option<u64>, lim: Option<u64>, nets: Option<Vec<NetworkCounters>>) -> RuntimeSample {
    RuntimeSample {
        id: String::from(id),
        cpu_total_usage: cpu,
        system_cpu_usage: sys,
        memory_usage: mem,
        memory_limit: lim,
        networks: nets,
    }
}

#[test]
fn first_sample_yields_zero_cpu_and_rates() {
    let mut counters: KvMap<StatsEntry> = KvMap::new();
    let mut services: KvMap<ServiceStats> = KvMap::new();
    let stats = update_container_stats(
        &mut counters,
        &mut services,
        "web",
        "web__0__app__u",
        sample("c1", 1_000, Some(10_000), Some(512), Some(1024), Some(vec![NetworkCounters { rx_bytes: 100, tx_bytes: 50 }])),
        None,
        1_000,
    );
    assert_eq!(stats.cpu_percentage, 0);
    assert_eq!(stats.cpu_percentage_relative, 0);
    assert_eq!(stats.memory_usage, 512);
    assert_eq!(stats.memory_limit, 1024);
    assert_eq!(stats.network_rx_bytes, 100);
    assert_eq!(stats.network_tx_bytes, 50);
    assert_eq!(stats.network_rx_rate, 0);
    assert_eq!(stats.network_tx_rate, 0);
    assert!(counters.get("web__0__app__u").is_some());
}

#[test]
fn second_sample_computes_percentages_and_rates() {
    let mut counters: KvMap<StatsEntry> = KvMap::new();
    let mut services: KvMap<ServiceStats> = KvMap::new();
    let _ = update_container_stats(
        &mut counters,
        &mut services,
        "web",
        "c",
        sample("c1", 1_000, Some(10_000), None, None, Some(vec![NetworkCounters { rx_bytes: 1_000, tx_bytes: 0 }])),
        None,
        0,
    );
    let stats = update_container_stats(
        &mut counters,
        &mut services,
        "web",
        "c",
        sample("c1", 1_500, Some(11_000), None, None, Some(vec![NetworkCounters { rx_bytes: 3_000, tx_bytes: 0 }])),
        Some(2_000_000_000),
        2_000,
    );
    // 500 cpu units over 1000 system units: 50% absolute
    assert_eq!(stats.cpu_percentage, 50);
    // 50% of two allocated cores: 25% of the allocation
    assert_eq!(stats.cpu_percentage_relative, 25);
    // 2000 bytes over two seconds
    assert_eq!(stats.network_rx_rate, 1_000);
}

#[test]
fn remove_container_stats_clears_both_stores() {
    let mut counters: KvMap<StatsEntry> = KvMap::new();
    let mut services: KvMap<ServiceStats> = KvMap::new();
    let _ = update_container_stats(
        &mut counters,
        &mut services,
        "web",
        "c",
        sample("c1", 1, Some(2), None, None, None),
        None,
        0,
    );
    remove_container_stats(&mut counters, &mut services, "web", "c");
    assert!(counters.get("c").is_none());
    assert!(services.get("web").unwrap().get_container_stats("c").is_none());
}

fn stats_with(cpu: u64, rel: u64, mem: u64, lim: u64) -> ContainerStats {
    ContainerStats {
        id: String::from("x"),
        ip_address: String::new(),
        cpu_percentage: cpu,
        cpu_percentage_relative: rel,
        memory_usage: mem,
        memory_limit: lim,
        port_mappings: vec![],
        network_rx_bytes: 0,
        network_tx_bytes: 0,
        network_rx_rate: 0,
        network_tx_rate: 0,
        timestamp_ms: 0,
    }
}

#[test]
fn aggregate_maximum_and_average() {
    let stats = vec![stats_with(10, 20, 100, 1000), stats_with(30, 10, 300, 1000)];
    let max = aggregate_pod_stats(&stats, &PodMetricsStrategy::Maximum);
    assert_eq!(max.cpu_percentage, 30);
    assert_eq!(max.cpu_percentage_relative, 20);
    assert_eq!(max.memory_usage, 300);
    assert_eq!(max.memory_limit, 1000);
    let avg = aggregate_pod_stats(&stats, &PodMetricsStrategy::Average);
    assert_eq!(avg.cpu_percentage, 20);
    assert_eq!(avg.cpu_percentage_relative, 15);
    assert_eq!(avg.memory_usage, 200);
    let empty = aggregate_pod_stats(&vec![], &PodMetricsStrategy::Average);
    assert_eq!(empty.cpu_percentage, 0);
}

#[test]
fn cpu_percentages_clamp() {
    let prev = StatsEntry { timestamp_ms: 0, cpu_total_usage: 0, system_cpu_usage: 0 };
    // more cpu than system time clamps to 100
    let (abs, rel) = calculate_cpu_percentages(Some(&prev), 5_000, 1_000, None);
    assert_eq!(abs, 100);
    assert_eq!(rel, 100);
    // a zero allocation yields zero relative usage
    let (_, rel0) = calculate_cpu_percentages(Some(&prev), 500, 1_000, Some(0));
    assert_eq!(rel0, 0);
    // counters going backwards yield zero
    let prev_high = StatsEntry { timestamp_ms: 0, cpu_total_usage: 9_999, system_cpu_usage: 0 };
    let (abs_b, _) = calculate_cpu_percentages(Some(&prev_high), 5_000, 1_000, None);
    assert_eq!(abs_b, 0);
}

#[test]
fn host_port_lookup() {
    let mut s = stats_with(0, 0, 0, 0);
    s.port_mappings = vec![(8080, 30080), (9090, 30090)];
    assert_eq!(find_host_port(&s, 8080), Some(30080));
    assert_eq!(find_host_port(&s, 9090), Some(30090));
    assert_eq!(find_host_port(&s, 1234), None);
}

#[test]
fn get_next_pod_number_skips_unparseable_names() {
    let containers = vec![
        ContainerInfo {
            id: String::from("a"),
            name: String::from("web__3__app__123e4567-e89b-12d3-a456-426614174000"),
            state: String::from("running"),
            port: 0,
        },
        ContainerInfo {
            id: String::from("b"),
            name: String::from("not a pod name"),
            state: String::from("running"),
            port: 0,
        },
    ];
    assert_eq!(get_next_pod_number(&containers), 4);
    assert_eq!(get_next_pod_number(&vec![]), 0);
}

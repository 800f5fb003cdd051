//! Containers, pods and their sampled statistics.
//!
//! The container engine is an external collaborator: callers hand its
//! sampled counters in as plain values (`RuntimeSample`) and perform the
//! start/stop/inspect effects themselves.  Everything that decides or
//! computes — naming, CPU and network-rate derivation, per-service stat
//! bookkeeping, pod-number allocation — is verified here.

use vstd::prelude::*;

use crate::config::ResourceThresholds;
use crate::limits::LimitValue;
use crate::names::{parse_container_name, runtime_name, spec_parse_container_name};
use crate::store::KvMap;
use crate::text::sep;

verus! {

/// A container as declared in a manifest.
#[derive(Debug)]
pub struct Container {
    pub name: String,
    pub image: String,
    pub command: Option<Vec<String>>,
    pub ports: Option<Vec<ContainerPort>>,
    pub volume_mounts: Option<Vec<VolumeMount>>,
    pub memory_limit: Option<LimitValue>,
    pub cpu_limit: Option<LimitValue>,
    pub network_limit: Option<NetworkLimit>,
    pub resource_thresholds: Option<ResourceThresholds>,
}

/// A mount of a declared volume into a container.
#[derive(Debug)]
pub struct VolumeMount {
    pub name: String,
}

/// Ingress/egress rate and burst limits, as strings such as `"10Mbps"`.
#[derive(Debug)]
pub struct NetworkLimit {
    pub ingress_rate: Option<String>,
    pub egress_rate: Option<String>,
    pub ingress_burst: Option<String>,
    pub egress_burst: Option<String>,
}

#[derive(Debug, Clone, Copy)]
pub struct ContainerPort {
    pub port: u16,
    pub target_port: Option<u16>,
    pub node_port: Option<u16>,
    pub protocol: Option<Protocol>,
}

#[derive(Debug, Clone, Copy)]
pub enum Protocol {
    TCP,
    UDP,
}

/// Why a runtime name could not be generated.  The payload is the
/// exceeded maximum.
#[derive(Debug, Clone, Copy, PartialEq, Eq, Structural)]
pub enum ContainerError {
    ServiceNameTooLong(usize),
    ContainerNameTooLong(usize),
}

/// Longest service name accepted in a runtime name.
pub const MAX_SERVICE_NAME_LENGTH: usize = 60;

/// Longest container name accepted in a runtime name.
pub const MAX_CONTAINER_NAME_LENGTH: usize = 60;

impl Container {
    /// Format the runtime name `"{service}__{pod_number}__{name}__{uuid}"`,
    /// refusing service or container names longer than 60 characters.
    pub fn generate_runtime_name(&self, service_name: &str, pod_number: u8, uuid: &str) -> (r:
        Result<String, ContainerError>)
        ensures
            match r {
                Ok(name) => {
                    &&& service_name@.len() <= MAX_SERVICE_NAME_LENGTH
                    &&& self.name@.len() <= MAX_CONTAINER_NAME_LENGTH
                    &&& name@ == runtime_name(service_name@, pod_number, self.name@, uuid@)
                },
                Err(e) => match e {
                    ContainerError::ServiceNameTooLong(m) => m == MAX_SERVICE_NAME_LENGTH
                        && service_name@.len() > MAX_SERVICE_NAME_LENGTH,
                    ContainerError::ContainerNameTooLong(m) => m == MAX_CONTAINER_NAME_LENGTH
                        && service_name@.len() <= MAX_SERVICE_NAME_LENGTH && self.name@.len()
                        > MAX_CONTAINER_NAME_LENGTH,
                },
            },
    {
        if service_name.unicode_len() > MAX_SERVICE_NAME_LENGTH {
            return Err(ContainerError::ServiceNameTooLong(MAX_SERVICE_NAME_LENGTH));
        }
        if self.name.as_str().unicode_len() > MAX_CONTAINER_NAME_LENGTH {
            return Err(ContainerError::ContainerNameTooLong(MAX_CONTAINER_NAME_LENGTH));
        }
        proof {
            reveal_strlit("__");
            assert("__"@ =~= sep());
        }
        let mut name = String::new();
        name.append(service_name);
        name.append("__");
        let digits = crate::text::u8_to_dec_str(pod_number);
        name.append(digits.as_str());
        name.append("__");
        name.append(self.name.as_str());
        name.append("__");
        name.append(uuid);
        proof {
            assert(name@ =~= runtime_name(service_name@, pod_number, self.name@, uuid@));
        }
        Ok(name)
    }
}

/// A pod network's name: `"{service}__{uuid}"`.
pub fn generate_network_name(service_name: &str, uuid: &str) -> (r: String)
    ensures
        r@ == crate::names::network_name_seq(service_name@, uuid@),
{
    proof {
        reveal_strlit("__");
        assert("__"@ =~= sep());
    }
    let mut name = String::new();
    name.append(service_name);
    name.append("__");
    name.append(uuid);
    proof {
        assert(name@ =~= crate::names::network_name_seq(service_name@, uuid@));
    }
    name
}

/// Last sampled cumulative CPU counters of a container.
#[derive(Debug, Clone, Copy, PartialEq, Eq, Structural)]
pub struct StatsEntry {
    pub timestamp_ms: u64,
    pub cpu_total_usage: u64,
    pub system_cpu_usage: u64,
}

/// A container of a running pod.
#[derive(Debug)]
pub struct ContainerMetadata {
    pub name: String,
    pub network: String,
    pub ip_address: String,
    pub ports: Vec<ContainerPortMetadata>,
    pub status: String,
}

#[derive(Debug, Clone, Copy, PartialEq, Eq, Structural)]
pub struct ContainerPortMetadata {
    pub port: u16,
    pub target_port: Option<u16>,
    pub node_port: Option<u16>,
}

/// A pod: its identity, network and containers.
#[derive(Debug)]
pub struct InstanceMetadata {
    pub uuid: String,
    pub created_at_ms: u64,
    pub network: String,
    pub containers: Vec<ContainerMetadata>,
    pub image_hash: KvMap<String>,
}

/// A container as listed by the runtime.
#[derive(Debug)]
pub struct ContainerInfo {
    pub id: String,
    pub name: String,
    pub state: String,
    pub port: u16,
}

/// Sampled statistics of one container.
#[derive(Debug)]
pub struct ContainerStats {
    pub id: String,
    pub ip_address: String,
    pub cpu_percentage: u64,
    pub cpu_percentage_relative: u64,
    pub memory_usage: u64,
    pub memory_limit: u64,
    pub port_mappings: Vec<(u16, u16)>,
    pub network_rx_bytes: u64,
    pub network_tx_bytes: u64,
    pub network_rx_rate: u64,
    pub network_tx_rate: u64,
    pub timestamp_ms: u64,
}

/// Cumulative counters of one pod network interface.
#[derive(Debug, Clone, Copy)]
pub struct NetworkCounters {
    pub rx_bytes: u64,
    pub tx_bytes: u64,
}

/// One raw sample from the container engine, as plain values.
#[derive(Debug)]
pub struct RuntimeSample {
    pub id: String,
    pub cpu_total_usage: u64,
    pub system_cpu_usage: Option<u64>,
    pub memory_usage: Option<u64>,
    pub memory_limit: Option<u64>,
    pub networks: Option<Vec<NetworkCounters>>,
}

/// The host port mapped to `container_port`, if any: the first mapping
/// for that port wins.
pub open spec fn spec_find_host_port(maps: Seq<(u16, u16)>, container_port: u16) -> Option<u16>
    decreases maps.len(),
{
    if maps.len() == 0 {
        None
    } else if maps[0].0 == container_port {
        Some(maps[0].1)
    } else {
        spec_find_host_port(maps.skip(1), container_port)
    }
}

/// Look up the host port a container port is mapped to.
#[verifier::loop_isolation(false)]
pub fn find_host_port(stats: &ContainerStats, container_port: u16) -> (r: Option<u16>)
    ensures
        r == spec_find_host_port(stats.port_mappings@, container_port),
{
    let n = stats.port_mappings.len();
    let mut i: usize = 0;
    proof {
        assert(stats.port_mappings@.skip(0) =~= stats.port_mappings@);
    }
    while i < n
        invariant
            0 <= i <= n,
            spec_find_host_port(stats.port_mappings@, container_port) == spec_find_host_port(
                stats.port_mappings@.skip(i as int),
                container_port,
            ),
        decreases n - i,
    {
        proof {
            assert(stats.port_mappings@.skip(i as int)[0] == stats.port_mappings@[i as int]);
            assert(stats.port_mappings@.skip(i as int).skip(1) =~= stats.port_mappings@.skip(
                i + 1,
            ));
        }
        if stats.port_mappings[i].0 == container_port {
            return Some(stats.port_mappings[i].1);
        }
        i = i + 1;
    }
    proof {
        assert(stats.port_mappings@.skip(n as int) =~= Seq::<(u16, u16)>::empty());
    }
    None
}

/// Absolute CPU percentage over a sampling window, clamped to `[0, 100]`:
/// `cpu_delta / system_delta * 100`.  The first sample yields zero.
pub open spec fn spec_cpu_absolute(
    previous: Option<StatsEntry>,
    cpu_total: u64,
    system_cpu: u64,
) -> int {
    match previous {
        None => 0,
        Some(p) => if system_cpu > p.system_cpu_usage && cpu_total >= p.cpu_total_usage {
            let v = ((cpu_total - p.cpu_total_usage) * 100) as int / (system_cpu
                - p.system_cpu_usage) as int;
            if v > 100 {
                100
            } else {
                v
            }
        } else {
            0
        },
    }
}

/// CPU percentage relative to the allocation: `absolute / cores`, clamped
/// to `[0, 100]`; without a limit it equals the absolute percentage.
pub open spec fn spec_cpu_relative(absolute: int, nano_cpus: Option<u64>) -> int {
    match nano_cpus {
        None => absolute,
        Some(n) => if n > 0 {
            let v = absolute * 1_000_000_000 / n as int;
            if v > 100 {
                100
            } else {
                v
            }
        } else {
            0
        },
    }
}

/// Derive absolute and relative CPU percentages from cumulative counters.
pub fn calculate_cpu_percentages(
    previous: Option<&StatsEntry>,
    cpu_total: u64,
    system_cpu: u64,
    nano_cpus: Option<u64>,
) -> (r: (u64, u64))
    ensures
        r.0 == spec_cpu_absolute(
            match previous {
                Some(p) => Some(*p),
                None => None,
            },
            cpu_total,
            system_cpu,
        ),
        r.1 == spec_cpu_relative(r.0 as int, nano_cpus),
{
    let absolute: u64 = match previous {
        None => 0,
        Some(p) => {
            if system_cpu > p.system_cpu_usage && cpu_total >= p.cpu_total_usage {
                let cpu_delta: u64 = cpu_total - p.cpu_total_usage;
                let system_delta: u64 = system_cpu - p.system_cpu_usage;
                let wide: u128 = (cpu_delta as u128) * 100;
                let v: u128 = wide / (system_delta as u128);
                if v > 100 {
                    100
                } else {
                    v as u64
                }
            } else {
                0
            }
        },
    };
    let relative: u64 = match nano_cpus {
        None => absolute,
        Some(n) => {
            if n > 0 {
                let v: u64 = absolute * 1_000_000_000 / n;
                if v > 100 {
                    100
                } else {
                    v
                }
            } else {
                0
            }
        },
    };
    (absolute, relative)
}

/// Total received bytes of a sample, saturating at `u64::MAX`.
pub open spec fn spec_rx_total(nets: Seq<NetworkCounters>) -> int
    decreases nets.len(),
{
    if nets.len() == 0 {
        0
    } else {
        spec_rx_total(nets.drop_last()) + nets.last().rx_bytes
    }
}

pub open spec fn spec_tx_total(nets: Seq<NetworkCounters>) -> int
    decreases nets.len(),
{
    if nets.len() == 0 {
        0
    } else {
        spec_tx_total(nets.drop_last()) + nets.last().tx_bytes
    }
}

/// The sampling window in milliseconds: the difference of the
/// timestamps, or one second when the clock went backwards.
pub open spec fn spec_window_ms(now_ms: u64, prev_ms: u64) -> int {
    if now_ms >= prev_ms {
        now_ms - prev_ms
    } else {
        1000
    }
}

/// A transfer rate in bytes per second over a window, zero when the
/// counter went backwards.
pub open spec fn spec_rate(cur: int, prev: u64, window_ms: int) -> int {
    if cur >= prev {
        (cur - prev) * 1000 / window_ms
    } else {
        0
    }
}

pub open spec fn cap_u64(x: int) -> u64 {
    if x > u64::MAX {
        u64::MAX
    } else if x < 0 {
        0
    } else {
        x as u64
    }
}

proof fn lemma_net_totals_nonneg(nets: Seq<NetworkCounters>)
    ensures
        spec_rx_total(nets) >= 0,
        spec_tx_total(nets) >= 0,
    decreases nets.len(),
{
    if nets.len() > 0 {
        lemma_net_totals_nonneg(nets.drop_last());
    }
}

impl ContainerStats {
    /// Fold a sample's network counters into these stats: total rx/tx
    /// bytes, and rates over the window since `previous`.  Without
    /// counters in the sample, nothing changes; without previous stats,
    /// or over an empty window, the rates stay as they are.
    pub fn update_network_stats(
        &mut self,
        stats: &RuntimeSample,
        previous: Option<&ContainerStats>,
    )
        ensures
            match stats.networks {
                None => *final(self) == *old(self),
                Some(nets) => {
                    &&& final(self).network_rx_bytes == cap_u64(spec_rx_total(nets@))
                    &&& final(self).network_tx_bytes == cap_u64(spec_tx_total(nets@))
                    &&& match previous {
                        Some(p) => {
                            let w = spec_window_ms(old(self).timestamp_ms, p.timestamp_ms);
                            if w > 0 {
                                &&& final(self).network_rx_rate == cap_u64(
                                    spec_rate(
                                        cap_u64(spec_rx_total(nets@)) as int,
                                        p.network_rx_bytes,
                                        w,
                                    ),
                                )
                                &&& final(self).network_tx_rate == cap_u64(
                                    spec_rate(
                                        cap_u64(spec_tx_total(nets@)) as int,
                                        p.network_tx_bytes,
                                        w,
                                    ),
                                )
                            } else {
                                &&& final(self).network_rx_rate == old(self).network_rx_rate
                                &&& final(self).network_tx_rate == old(self).network_tx_rate
                            }
                        },
                        None => {
                            &&& final(self).network_rx_rate == old(self).network_rx_rate
                            &&& final(self).network_tx_rate == old(self).network_tx_rate
                        },
                    }
                    &&& final(self).id == old(self).id
                    &&& final(self).ip_address == old(self).ip_address
                    &&& final(self).cpu_percentage == old(self).cpu_percentage
                    &&& final(self).cpu_percentage_relative == old(self).cpu_percentage_relative
                    &&& final(self).memory_usage == old(self).memory_usage
                    &&& final(self).memory_limit == old(self).memory_limit
                    &&& final(self).port_mappings == old(self).port_mappings
                    &&& final(self).timestamp_ms == old(self).timestamp_ms
                },
            },
    {
        let nets = match &stats.networks {
            None => {
                return ;
            },
            Some(nets) => nets,
        };
        let n = nets.len();
        let mut rx: u64 = 0;
        let mut tx: u64 = 0;
        let mut i: usize = 0;
        while i < n
            invariant
                0 <= i <= n,
                n == nets@.len(),
                rx == cap_u64(spec_rx_total(nets@.take(i as int))),
                tx == cap_u64(spec_tx_total(nets@.take(i as int))),
            decreases n - i,
        {
            proof {
                assert(nets@.take(i + 1).drop_last() =~= nets@.take(i as int));
                assert(nets@.take(i + 1).last() == nets@[i as int]);
                lemma_net_totals_nonneg(nets@.take(i as int));
                lemma_net_totals_nonneg(nets@.take(i + 1));
            }
            rx = if u64::MAX - rx >= nets[i].rx_bytes {
                rx + nets[i].rx_bytes
            } else {
                u64::MAX
            };
            tx = if u64::MAX - tx >= nets[i].tx_bytes {
                tx + nets[i].tx_bytes
            } else {
                u64::MAX
            };
            i = i + 1;
        }
        proof {
            assert(nets@.take(n as int) =~= nets@);
        }
        if let Some(prev) = previous {
            let window: u64 = if self.timestamp_ms >= prev.timestamp_ms {
                self.timestamp_ms - prev.timestamp_ms
            } else {
                1000
            };
            if window > 0 {
                self.network_rx_rate = rate_over(rx, prev.network_rx_bytes, window);
                self.network_tx_rate = rate_over(tx, prev.network_tx_bytes, window);
            }
        }
        self.network_rx_bytes = rx;
        self.network_tx_bytes = tx;
    }
}

/// Bytes per second between two counter readings, saturating.
fn rate_over(cur: u64, prev: u64, window_ms: u64) -> (r: u64)
    requires
        window_ms > 0,
    ensures
        r == cap_u64(spec_rate(cur as int, prev, window_ms as int)),
{
    if cur >= prev {
        let wide: u128 = ((cur - prev) as u128) * 1000;
        let v: u128 = wide / (window_ms as u128);
        if v > u64::MAX as u128 {
            u64::MAX
        } else {
            v as u64
        }
    } else {
        0
    }
}

/// The stats of one service's containers.
#[derive(Debug)]
pub struct ServiceStats {
    container_stats: KvMap<ContainerStats>,
}

impl ServiceStats {
    pub closed spec fn wf(&self) -> bool {
        self.container_stats.wf()
    }

    pub closed spec fn stats_map(&self) -> Map<Seq<char>, ContainerStats> {
        self.container_stats@
    }

    pub fn new() -> (r: Self)
        ensures
            r.wf(),
            r.stats_map() =~= Map::<Seq<char>, ContainerStats>::empty(),
    {
        Self { container_stats: KvMap::new() }
    }

    pub fn update_stats(&mut self, container_name: &str, stats: ContainerStats)
        requires
            old(self).wf(),
        ensures
            final(self).wf(),
            final(self).stats_map() =~= old(self).stats_map().insert(container_name@, stats),
    {
        self.container_stats.insert(String::from_str(container_name), stats);
    }

    pub fn remove_container(&mut self, container_name: &str)
        requires
            old(self).wf(),
        ensures
            final(self).wf(),
            final(self).stats_map() =~= old(self).stats_map().remove(container_name@),
    {
        self.container_stats.remove(container_name);
    }

    pub fn get_container_stats(&self, container_name: &str) -> (r: Option<&ContainerStats>)
        requires
            self.wf(),
        ensures
            match r {
                Some(v) => self.stats_map().contains_key(container_name@) && *v
                    == self.stats_map()[container_name@],
                None => !self.stats_map().contains_key(container_name@),
            },
    {
        self.container_stats.get(container_name)
    }
}

/// The stats derived from one sample: CPU percentages against the
/// previous cumulative counters, memory taken as reported, network
/// totals and rates against the previous container stats.
pub open spec fn stats_from_sample(
    r: ContainerStats,
    prev_entry: Option<StatsEntry>,
    prev_cs: Option<ContainerStats>,
    sample: RuntimeSample,
    nano_cpus: Option<u64>,
    now_ms: u64,
) -> bool {
    let sys = match sample.system_cpu_usage {
        Some(v) => v,
        None => 0,
    };
    let abs = spec_cpu_absolute(prev_entry, sample.cpu_total_usage, sys);
    &&& r.id@ == sample.id@
    &&& r.ip_address@ == Seq::<char>::empty()
    &&& r.cpu_percentage == abs
    &&& r.cpu_percentage_relative == spec_cpu_relative(abs, nano_cpus)
    &&& r.memory_usage == match sample.memory_usage {
        Some(v) => v,
        None => 0,
    }
    &&& r.memory_limit == match sample.memory_limit {
        Some(v) => v,
        None => 0,
    }
    &&& r.port_mappings@ =~= Seq::<(u16, u16)>::empty()
    &&& r.timestamp_ms == now_ms
    &&& match sample.networks {
        None => r.network_rx_bytes == 0 && r.network_tx_bytes == 0 && r.network_rx_rate == 0
            && r.network_tx_rate == 0,
        Some(nets) => {
            &&& r.network_rx_bytes == cap_u64(spec_rx_total(nets@))
            &&& r.network_tx_bytes == cap_u64(spec_tx_total(nets@))
            &&& match prev_cs {
                Some(p) => {
                    let w = spec_window_ms(now_ms, p.timestamp_ms);
                    if w > 0 {
                        &&& r.network_rx_rate == cap_u64(
                            spec_rate(cap_u64(spec_rx_total(nets@)) as int, p.network_rx_bytes, w),
                        )
                        &&& r.network_tx_rate == cap_u64(
                            spec_rate(cap_u64(spec_tx_total(nets@)) as int, p.network_tx_bytes, w),
                        )
                    } else {
                        r.network_rx_rate == 0 && r.network_tx_rate == 0
                    }
                },
                None => r.network_rx_rate == 0 && r.network_tx_rate == 0,
            }
        },
    }
}

/// The previous stats of the container within its service, if any.
pub open spec fn prev_container_stats(
    service_stats: Map<Seq<char>, ServiceStats>,
    service_name: Seq<char>,
    container_name: Seq<char>,
) -> Option<ContainerStats> {
    if service_stats.contains_key(service_name) && service_stats[service_name].stats_map().contains_key(
        container_name,
    ) {
        Some(service_stats[service_name].stats_map()[container_name])
    } else {
        None
    }
}

/// Fold one raw sample into the stores: record the cumulative counters,
/// derive the container's stats, and file them under its service.
/// Returns the derived stats.
pub fn update_container_stats(
    container_stats: &mut KvMap<StatsEntry>,
    service_stats: &mut KvMap<ServiceStats>,
    service_name: &str,
    container_name: &str,
    stats: RuntimeSample,
    nano_cpus: Option<u64>,
    now_ms: u64,
) -> (r: ContainerStats)
    requires
        old(container_stats).wf(),
        old(service_stats).wf(),
        forall|k: Seq<char>|
            old(service_stats)@.contains_key(k) ==> (#[trigger] old(service_stats)@[k]).wf(),
    ensures
        final(container_stats).wf(),
        final(service_stats).wf(),
        forall|k: Seq<char>|
            final(service_stats)@.contains_key(k) ==> (#[trigger] final(service_stats)@[k]).wf(),
        stats_from_sample(
            r,
            match old(container_stats)@.contains_key(container_name@) {
                true => Some(old(container_stats)@[container_name@]),
                false => None,
            },
            prev_container_stats(old(service_stats)@, service_name@, container_name@),
            stats,
            nano_cpus,
            now_ms,
        ),
        final(container_stats)@ =~= old(container_stats)@.insert(
            container_name@,
            StatsEntry {
                timestamp_ms: now_ms,
                cpu_total_usage: stats.cpu_total_usage,
                system_cpu_usage: match stats.system_cpu_usage {
                    Some(v) => v,
                    None => 0,
                },
            },
        ),
        final(service_stats)@.contains_key(service_name@),
        final(service_stats)@[service_name@].stats_map().contains_key(container_name@),
        stats_from_sample(
            final(service_stats)@[service_name@].stats_map()[container_name@],
            match old(container_stats)@.contains_key(container_name@) {
                true => Some(old(container_stats)@[container_name@]),
                false => None,
            },
            prev_container_stats(old(service_stats)@, service_name@, container_name@),
            stats,
            nano_cpus,
            now_ms,
        ),
        final(service_stats)@[service_name@].stats_map().remove(container_name@) =~= (
        if old(service_stats)@.contains_key(service_name@) {
            old(service_stats)@[service_name@].stats_map()
        } else {
            Map::<Seq<char>, ContainerStats>::empty()
        }).remove(container_name@),
        final(service_stats)@.remove(service_name@) =~= old(service_stats)@.remove(service_name@),
{
    let system_cpu: u64 = match stats.system_cpu_usage {
        Some(v) => v,
        None => 0,
    };
    let previous_entry: Option<StatsEntry> = match container_stats.get(container_name) {
        Some(e) => Some(*e),
        None => None,
    };
    let (cpu_percentage, cpu_percentage_relative) = calculate_cpu_percentages(
        previous_entry.as_ref(),
        stats.cpu_total_usage,
        system_cpu,
        nano_cpus,
    );
    container_stats.insert(
        String::from_str(container_name),
        StatsEntry {
            timestamp_ms: now_ms,
            cpu_total_usage: stats.cpu_total_usage,
            system_cpu_usage: system_cpu,
        },
    );
    let mut entry: ServiceStats = match service_stats.remove(service_name) {
        Some(e) => e,
        None => ServiceStats::new(),
    };
    let memory_usage: u64 = match stats.memory_usage {
        Some(v) => v,
        None => 0,
    };
    let memory_limit: u64 = match stats.memory_limit {
        Some(v) => v,
        None => 0,
    };
    let mut derived = ContainerStats {
        id: stats.id.clone(),
        ip_address: String::new(),
        cpu_percentage,
        cpu_percentage_relative,
        memory_usage,
        memory_limit,
        port_mappings: Vec::new(),
        network_rx_bytes: 0,
        network_tx_bytes: 0,
        network_rx_rate: 0,
        network_tx_rate: 0,
        timestamp_ms: now_ms,
    };
    derived.update_network_stats(&stats, entry.get_container_stats(container_name));
    let stored = ContainerStats {
        id: stats.id.clone(),
        ip_address: String::new(),
        cpu_percentage: derived.cpu_percentage,
        cpu_percentage_relative: derived.cpu_percentage_relative,
        memory_usage: derived.memory_usage,
        memory_limit: derived.memory_limit,
        port_mappings: Vec::new(),
        network_rx_bytes: derived.network_rx_bytes,
        network_tx_bytes: derived.network_tx_bytes,
        network_rx_rate: derived.network_rx_rate,
        network_tx_rate: derived.network_tx_rate,
        timestamp_ms: derived.timestamp_ms,
    };
    entry.update_stats(container_name, stored);
    service_stats.insert(String::from_str(service_name), entry);
    derived
}

/// Drop a container from the cumulative-counter store and from its
/// service's stats.
pub fn remove_container_stats(
    container_stats: &mut KvMap<StatsEntry>,
    service_stats: &mut KvMap<ServiceStats>,
    service_name: &str,
    container_name: &str,
)
    requires
        old(container_stats).wf(),
        old(service_stats).wf(),
        forall|k: Seq<char>|
            old(service_stats)@.contains_key(k) ==> (#[trigger] old(service_stats)@[k]).wf(),
    ensures
        final(container_stats).wf(),
        final(service_stats).wf(),
        final(container_stats)@ =~= old(container_stats)@.remove(container_name@),
        forall|k: Seq<char>|
            final(service_stats)@.contains_key(k) ==> (#[trigger] final(service_stats)@[k]).wf(),
        old(service_stats)@.contains_key(service_name@) ==> {
            &&& final(service_stats)@.contains_key(service_name@)
            &&& final(service_stats)@[service_name@].stats_map() =~= old(
                service_stats,
            )@[service_name@].stats_map().remove(container_name@)
            &&& final(service_stats)@.remove(service_name@) =~= old(service_stats)@.remove(
                service_name@,
            )
        },
        !old(service_stats)@.contains_key(service_name@) ==> final(service_stats)@ =~= old(
            service_stats,
        )@,
{
    container_stats.remove(container_name);
    let entry = service_stats.remove(service_name);
    match entry {
        Some(mut stats) => {
            stats.remove_container(container_name);
            service_stats.insert(String::from_str(service_name), stats);
            proof {
                assert(final(service_stats)@.remove(service_name@) =~= old(
                    service_stats,
                )@.remove(service_name@));
            }
        },
        None => {
            proof {
                assert(final(service_stats)@ =~= old(service_stats)@);
            }
        },
    }
}

/// Fresh, empty stat stores: the cumulative-counter store and the
/// per-service stats.
pub fn initialize_stats() -> (r: (KvMap<StatsEntry>, KvMap<ServiceStats>))
    ensures
        r.0.wf(),
        r.1.wf(),
        r.0@ =~= Map::<Seq<char>, StatsEntry>::empty(),
        r.1@ =~= Map::<Seq<char>, ServiceStats>::empty(),
{
    (KvMap::new(), KvMap::new())
}

/// The pod number to give the next pod: one past the greatest pod number
/// among the listed containers whose names parse, `0` when none does,
/// saturating at 255.
pub open spec fn spec_next_pod_number(names: Seq<Seq<char>>) -> int
    decreases names.len(),
{
    if names.len() == 0 {
        0
    } else {
        let rest = spec_next_pod_number(names.drop_last());
        match spec_parse_container_name(names.last()) {
            Some(parts) => {
                let here = if parts.1 == 255 {
                    255
                } else {
                    parts.1 + 1
                };
                if here > rest {
                    here as int
                } else {
                    rest
                }
            },
            None => rest,
        }
    }
}

/// Allocate the next pod number from the containers the runtime lists.
#[verifier::loop_isolation(false)]
pub fn get_next_pod_number(containers: &Vec<ContainerInfo>) -> (r: u8)
    ensures
        r == spec_next_pod_number(
            containers@.map_values(|c: ContainerInfo| c.name@),
        ),
{
    let ghost names = containers@.map_values(|c: ContainerInfo| c.name@);
    let n = containers.len();
    let mut next: u8 = 0;
    let mut i: usize = 0;
    while i < n
        invariant
            0 <= i <= n,
            next == spec_next_pod_number(names.take(i as int)),
        decreases n - i,
    {
        proof {
            assert(names.take(i + 1).drop_last() =~= names.take(i as int));
            assert(names.take(i + 1).last() == names[i as int]);
        }
        match parse_container_name(containers[i].name.as_str()) {
            Ok(parts) => {
                let here: u8 = if parts.pod_number == 255 {
                    255
                } else {
                    parts.pod_number + 1
                };
                if here > next {
                    next = here;
                }
            },
            Err(_) => {},
        }
        i = i + 1;
    }
    proof {
        assert(names.take(n as int) =~= names);
    }
    next
}

} // verus!

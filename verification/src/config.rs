//! Service configuration: the validated manifest and its parts.
//!
//! Durations are carried in milliseconds; CPU and memory percentages are
//! integer percents.

use vstd::prelude::*;

use crate::container::{Container, ContainerStats};
use crate::limits::LimitValue;
use crate::scaling::ScalingPolicy;
use crate::store::KvMap;

verus! {

/// Bounds of a rolling update: how many pods may be unavailable and how
/// many extra pods may surge, both absolute counts, and a timeout.
#[derive(Debug)]
pub struct RollingUpdateConfig {
    pub max_unavailable: u8,
    pub max_surge: u8,
    pub timeout_ms: u64,
}

fn default_max_unavailable() -> (r: u8)
    ensures
        r == 1,
{
    1
}

fn default_max_surge() -> (r: u8)
    ensures
        r == 1,
{
    1
}

impl Default for RollingUpdateConfig {
    /// One pod unavailable, one pod of surge, five-minute timeout.
    fn default() -> (r: Self)
        ensures
            r.max_unavailable == 1,
            r.max_surge == 1,
            r.timeout_ms == 300_000,
    {
        Self { max_unavailable: default_max_unavailable(), max_surge: default_max_surge(), timeout_ms: 300_000 }
    }
}

/// Coordination messages between the supervisor and a service's scaling
/// task: a config update or a rolling update suspends scaling until the
/// matching resume or completion.
#[derive(Clone, Copy, PartialEq, Eq, Structural, Debug)]
pub enum ScaleMessage {
    ConfigUpdate,
    Resume,
    RollingUpdate,
    RollingUpdateComplete,
}

#[derive(Clone, Copy, Debug)]
pub enum PullPolicyValue {
    Always,
    Never,
}

#[derive(Debug, Clone, Copy)]
pub struct PortRange {
    pub start: u16,
    pub end: u16,
}

/// Minimum and maximum replica count of a service.
#[derive(Debug, Clone, Copy)]
pub struct InstanceCount {
    pub min: u8,
    pub max: u8,
}

/// Latency-backpressure configuration: scale up when the reported delay
/// stays above `target_ms` for `consecutive_intervals` samples.
#[derive(Debug, Clone, Copy)]
pub struct CoDelConfig {
    pub target_ms: u64,
    pub interval_ms: u64,
    pub consecutive_intervals: u32,
    pub max_scale_step: u32,
    pub scale_cooldown_ms: u64,
    pub overload_status_code: Option<u16>,
}

/// A named volume a service may mount.
#[derive(Debug)]
pub struct NamedVolumeConfig {
    pub name: String,
}

#[derive(Debug)]
pub struct VolumeData {
    pub named_volume: Option<NamedVolumeConfig>,
}

/// A validated service manifest.
#[derive(Debug)]
pub struct ServiceConfig {
    pub name: String,
    pub network: Option<String>,
    pub spec: ServiceSpec,
    pub memory_limit: Option<LimitValue>,
    pub pull_policy: Option<PullPolicyValue>,
    pub cpu_limit: Option<LimitValue>,
    pub resource_thresholds: Option<ResourceThresholds>,
    pub instance_count: InstanceCount,
    pub adopt_orphans: bool,
    pub interval_seconds: Option<u64>,
    pub image_check_interval_ms: Option<u64>,
    pub rolling_update_config: Option<RollingUpdateConfig>,
    pub volumes: Option<KvMap<VolumeData>>,
    pub codel: Option<CoDelConfig>,
    pub scaling_policy: Option<ScalingPolicy>,
}

#[derive(Debug)]
pub struct ServiceSpec {
    pub containers: Vec<Container>,
}

/// A loaded manifest: where it came from and what it declares.
#[derive(Debug)]
pub struct ConfigEntry {
    pub path: String,
    pub config: ServiceConfig,
}

/// How a pod's per-container metrics reduce to one pod-level value.
#[derive(Debug, Clone, Copy, PartialEq, Eq, Structural)]
pub enum PodMetricsStrategy {
    Maximum,
    Average,
}

impl Default for PodMetricsStrategy {
    fn default() -> (r: Self)
        ensures
            r == PodMetricsStrategy::Maximum,
    {
        Self::Maximum
    }
}

/// Scale-up thresholds, in integer percent.
#[derive(Debug, Clone, Copy)]
pub struct ResourceThresholds {
    pub cpu_percentage: Option<u8>,
    pub cpu_percentage_relative: Option<u8>,
    pub memory_percentage: Option<u8>,
    pub metrics_strategy: PodMetricsStrategy,
}

/// Pod-level metrics derived from the pod's container stats.
#[derive(Debug, Clone, Copy, PartialEq, Eq, Structural)]
pub struct PodStats {
    pub cpu_percentage: u64,
    pub cpu_percentage_relative: u64,
    pub memory_usage: u64,
    pub memory_limit: u64,
}

/// Greatest element of a sequence, `0` when it is empty.
pub open spec fn seq_max_u64(s: Seq<u64>) -> int
    decreases s.len(),
{
    if s.len() == 0 {
        0
    } else if s.last() >= seq_max_u64(s.drop_last()) {
        s.last() as int
    } else {
        seq_max_u64(s.drop_last())
    }
}

pub open spec fn seq_sum_u64(s: Seq<u64>) -> int
    decreases s.len(),
{
    if s.len() == 0 {
        0
    } else {
        seq_sum_u64(s.drop_last()) + s.last()
    }
}

pub open spec fn cpu_of(c: ContainerStats) -> u64 {
    c.cpu_percentage
}

pub open spec fn cpu_rel_of(c: ContainerStats) -> u64 {
    c.cpu_percentage_relative
}

pub open spec fn mem_use_of(c: ContainerStats) -> u64 {
    c.memory_usage
}

pub open spec fn mem_limit_of(c: ContainerStats) -> u64 {
    c.memory_limit
}

/// What aggregation yields for one metric: the maximum, or the mean
/// (truncated), `0` over an empty set.
pub open spec fn aggregated(vals: Seq<u64>, strategy: PodMetricsStrategy) -> int {
    match strategy {
        PodMetricsStrategy::Maximum => seq_max_u64(vals),
        PodMetricsStrategy::Average => if vals.len() == 0 {
            0
        } else {
            seq_sum_u64(vals) / vals.len() as int
        },
    }
}

proof fn lemma_seq_sum_bound(s: Seq<u64>)
    ensures
        0 <= seq_sum_u64(s) <= s.len() * u64::MAX,
    decreases s.len(),
{
    if s.len() == 0 {
    } else {
        lemma_seq_sum_bound(s.drop_last());
        assert((s.len() - 1) * u64::MAX + u64::MAX == s.len() * u64::MAX) by (nonlinear_arith);
    }
}

proof fn lemma_avg_fits(s: Seq<u64>)
    requires
        s.len() > 0,
    ensures
        0 <= seq_sum_u64(s) / s.len() as int <= u64::MAX,
{
    lemma_seq_sum_bound(s);
    let n = s.len() as int;
    let total = seq_sum_u64(s);
    assert(total / n <= u64::MAX) by (nonlinear_arith)
        requires
            n > 0,
            total <= n * u64::MAX,
            total >= 0,
    ;
    assert(total / n >= 0) by (nonlinear_arith)
        requires
            n > 0,
            total >= 0,
    ;
}

/// Reduce the stats of a pod's containers to pod-level metrics using the
/// declared strategy: `Maximum` takes each metric's maximum, `Average`
/// the truncated mean.  An empty set of containers yields zeros.
#[verifier::loop_isolation(false)]
pub fn aggregate_pod_stats(container_stats: &Vec<ContainerStats>, strategy: &PodMetricsStrategy) -> (r:
    PodStats)
    ensures
        r.cpu_percentage == aggregated(container_stats@.map_values(|c: ContainerStats| cpu_of(c)), *strategy),
        r.cpu_percentage_relative == aggregated(
            container_stats@.map_values(|c: ContainerStats| cpu_rel_of(c)),
            *strategy,
        ),
        r.memory_usage == aggregated(container_stats@.map_values(|c: ContainerStats| mem_use_of(c)), *strategy),
        r.memory_limit == aggregated(
            container_stats@.map_values(|c: ContainerStats| mem_limit_of(c)),
            *strategy,
        ),
{
    let n = container_stats.len();
    let ghost cpus = container_stats@.map_values(|c: ContainerStats| cpu_of(c));
    let ghost rels = container_stats@.map_values(|c: ContainerStats| cpu_rel_of(c));
    let ghost uses = container_stats@.map_values(|c: ContainerStats| mem_use_of(c));
    let ghost lims = container_stats@.map_values(|c: ContainerStats| mem_limit_of(c));
    match strategy {
        PodMetricsStrategy::Maximum => {
            let mut cpu: u64 = 0;
            let mut rel: u64 = 0;
            let mut mem: u64 = 0;
            let mut lim: u64 = 0;
            let mut i: usize = 0;
            while i < n
                invariant
                    0 <= i <= n,
                    cpu == seq_max_u64(cpus.take(i as int)),
                    rel == seq_max_u64(rels.take(i as int)),
                    mem == seq_max_u64(uses.take(i as int)),
                    lim == seq_max_u64(lims.take(i as int)),
                decreases n - i,
            {
                let s = &container_stats[i];
                proof {
                    assert(cpus.take(i + 1).drop_last() =~= cpus.take(i as int));
                    assert(rels.take(i + 1).drop_last() =~= rels.take(i as int));
                    assert(uses.take(i + 1).drop_last() =~= uses.take(i as int));
                    assert(lims.take(i + 1).drop_last() =~= lims.take(i as int));
                }
                if s.cpu_percentage > cpu {
                    cpu = s.cpu_percentage;
                }
                if s.cpu_percentage_relative > rel {
                    rel = s.cpu_percentage_relative;
                }
                if s.memory_usage > mem {
                    mem = s.memory_usage;
                }
                if s.memory_limit > lim {
                    lim = s.memory_limit;
                }
                i = i + 1;
            }
            proof {
                assert(cpus.take(n as int) =~= cpus);
                assert(rels.take(n as int) =~= rels);
                assert(uses.take(n as int) =~= uses);
                assert(lims.take(n as int) =~= lims);
            }
            PodStats { cpu_percentage: cpu, cpu_percentage_relative: rel, memory_usage: mem, memory_limit: lim }
        },
        PodMetricsStrategy::Average => {
            if n == 0 {
                return PodStats {
                    cpu_percentage: 0,
                    cpu_percentage_relative: 0,
                    memory_usage: 0,
                    memory_limit: 0,
                };
            }
            let mut cpu: u128 = 0;
            let mut rel: u128 = 0;
            let mut mem: u128 = 0;
            let mut lim: u128 = 0;
            let mut i: usize = 0;
            while i < n
                invariant
                    0 <= i <= n,
                    cpu == seq_sum_u64(cpus.take(i as int)),
                    rel == seq_sum_u64(rels.take(i as int)),
                    mem == seq_sum_u64(uses.take(i as int)),
                    lim == seq_sum_u64(lims.take(i as int)),
                decreases n - i,
            {
                let s = &container_stats[i];
                proof {
                    assert(cpus.take(i + 1).drop_last() =~= cpus.take(i as int));
                    assert(rels.take(i + 1).drop_last() =~= rels.take(i as int));
                    assert(uses.take(i + 1).drop_last() =~= uses.take(i as int));
                    assert(lims.take(i + 1).drop_last() =~= lims.take(i as int));
                    lemma_seq_sum_bound(cpus.take(i + 1));
                    lemma_seq_sum_bound(rels.take(i + 1));
                    lemma_seq_sum_bound(uses.take(i + 1));
                    lemma_seq_sum_bound(lims.take(i + 1));
                    assert(cpus.take(i + 1).len() * (u64::MAX as int) <= (u64::MAX as int) * (
                    u64::MAX as int)) by (nonlinear_arith)
                        requires
                            cpus.take(i + 1).len() <= u64::MAX as int,
                    ;
                }
                cpu = cpu + s.cpu_percentage as u128;
                rel = rel + s.cpu_percentage_relative as u128;
                mem = mem + s.memory_usage as u128;
                lim = lim + s.memory_limit as u128;
                i = i + 1;
            }
            proof {
                assert(cpus.take(n as int) =~= cpus);
                assert(rels.take(n as int) =~= rels);
                assert(uses.take(n as int) =~= uses);
                assert(lims.take(n as int) =~= lims);
                lemma_avg_fits(cpus);
                lemma_avg_fits(rels);
                lemma_avg_fits(uses);
                lemma_avg_fits(lims);
            }
            PodStats {
                cpu_percentage: (cpu / n as u128) as u64,
                cpu_percentage_relative: (rel / n as u128) as u64,
                memory_usage: (mem / n as u128) as u64,
                memory_limit: (lim / n as u128) as u64,
            }
        },
    }
}

} // verus!

//! The per-service autoscaler: threshold and CoDel signals, arbitration,
//! cooldown, and suspension during config updates and rolling updates.
//!
//! `evaluate` is a pure decision step: the caller samples pod stats and
//! the clock, performs the decided action, and reports scale messages
//! back through `handle_message`.

use vstd::prelude::*;

use crate::config::{PodStats, ResourceThresholds, ScaleMessage, ServiceConfig};

verus! {

/// Per-service scaling policy: cooldown between actions (seconds) and
/// the scale-down threshold as a percentage of each scale-up threshold.
#[derive(Debug, Clone, Copy)]
pub struct ScalingPolicy {
    pub cooldown_duration_secs: Option<u64>,
    pub scale_down_threshold_percentage: Option<u64>,
}

impl Default for ScalingPolicy {
    /// Sixty seconds of cooldown; scale down below half of each threshold.
    fn default() -> (r: Self)
        ensures
            r.cooldown_duration_secs is None,
            r.scale_down_threshold_percentage is None,
    {
        Self { cooldown_duration_secs: None, scale_down_threshold_percentage: None }
    }
}

impl ScalingPolicy {
    /// The cooldown between scaling actions, in seconds (default 60).
    pub fn get_cooldown_duration(&self) -> (r: u64)
        ensures
            r == spec_cooldown_secs(*self),
    {
        match self.cooldown_duration_secs {
            Some(v) => v,
            None => 60,
        }
    }

    /// The scale-down threshold percentage (default 50).
    pub fn get_scale_down_threshold(&self) -> (r: u64)
        ensures
            r == spec_scale_down_threshold(*self),
    {
        match self.scale_down_threshold_percentage {
            Some(v) => v,
            None => 50,
        }
    }
}

pub open spec fn spec_cooldown_secs(p: ScalingPolicy) -> u64 {
    match p.cooldown_duration_secs {
        Some(v) => v,
        None => 60,
    }
}

pub open spec fn spec_scale_down_threshold(p: ScalingPolicy) -> u64 {
    match p.scale_down_threshold_percentage {
        Some(v) => v,
        None => 50,
    }
}

/// What one autoscaler tick decided.
#[derive(Debug, Clone, Copy, PartialEq, Eq, Structural)]
pub enum ScalingDecision {
    ScaleUp(u32),
    ScaleDown(u32),
    NoChange,
}

/// A pod exceeds some configured threshold.
pub open spec fn pod_exceeds(t: ResourceThresholds, p: PodStats) -> bool {
    ||| (t.cpu_percentage is Some && p.cpu_percentage > t.cpu_percentage->0)
    ||| (t.cpu_percentage_relative is Some && p.cpu_percentage_relative
        > t.cpu_percentage_relative->0)
    ||| (t.memory_percentage is Some && p.memory_limit > 0 && p.memory_usage * 100
        > p.memory_limit * t.memory_percentage->0)
}

/// Scale-down percentages above `10000` (one hundred times a threshold)
/// count as `10000`.
pub open spec fn effective_sdt(sdt: u64) -> u64 {
    if sdt > 10_000 {
        10_000
    } else {
        sdt
    }
}

/// A pod sits below `sdt` percent of every configured threshold; a pod
/// with no memory limit reported counts as below the memory threshold.
pub open spec fn pod_below(t: ResourceThresholds, p: PodStats, sdt: u64) -> bool {
    &&& (t.cpu_percentage is Some ==> p.cpu_percentage * 100 < t.cpu_percentage->0 * effective_sdt(
        sdt,
    ))
    &&& (t.cpu_percentage_relative is Some ==> p.cpu_percentage_relative * 100
        < t.cpu_percentage_relative->0 * effective_sdt(sdt))
    &&& (t.memory_percentage is Some ==> (p.memory_limit == 0 || p.memory_usage * 100 * 100
        < p.memory_limit * t.memory_percentage->0 * effective_sdt(sdt)))
}

proof fn lemma_mul_le(a: int, b: int, ca: int, cb: int)
    requires
        0 <= a <= ca,
        0 <= b <= cb,
    ensures
        a * b <= ca * cb,
{
    assert(a * b <= ca * cb) by (nonlinear_arith)
        requires
            0 <= a <= ca,
            0 <= b <= cb,
    ;
}

/// At least one threshold is configured.
pub open spec fn has_thresholds(t: ResourceThresholds) -> bool {
    ||| t.cpu_percentage is Some
    ||| t.cpu_percentage_relative is Some
    ||| t.memory_percentage is Some
}

/// Some pod exceeds some configured threshold.
pub open spec fn threshold_up_candidate(cfg: ServiceConfig, pods: Seq<PodStats>) -> bool {
    &&& cfg.resource_thresholds is Some
    &&& exists|i: int|
        0 <= i < pods.len() && pod_exceeds(cfg.resource_thresholds->0, #[trigger] pods[i])
}

/// Every pod sits below the scale-down fraction of every configured
/// threshold.
pub open spec fn threshold_down_candidate(cfg: ServiceConfig, pods: Seq<PodStats>, sdt: u64) -> bool {
    &&& cfg.resource_thresholds is Some
    &&& has_thresholds(cfg.resource_thresholds->0)
    &&& forall|i: int|
        0 <= i < pods.len() ==> pod_below(cfg.resource_thresholds->0, #[trigger] pods[i], sdt)
}

/// The per-service autoscaler state.
pub struct UnifiedScalingManager {
    pub service_name: String,
    pub config: ServiceConfig,
    /// When the last scaling action happened; set at construction, so
    /// the first tick always lands inside the cooldown.
    pub last_scale_action_ms: Option<u64>,
    /// Suspended between `ConfigUpdate` and `Resume`.
    pub suspended_for_update: bool,
    /// Suspended between `RollingUpdate` and `RollingUpdateComplete`.
    pub suspended_for_rollout: bool,
    /// Consecutive samples with latency above the CoDel target.
    pub codel_above_intervals: u32,
}

/// The cooldown gate: no action until `cooldown` has elapsed since the
/// last one.
pub open spec fn in_cooldown(last_ms: Option<u64>, now_ms: u64, cooldown_secs: u64) -> bool {
    match last_ms {
        None => false,
        Some(last) => now_ms < last + cooldown_secs * 1000,
    }
}

/// The CoDel signal fires when the count of consecutive over-target
/// samples reaches the configured number.
pub open spec fn codel_up_candidate(cfg: ServiceConfig, count_after: u32) -> bool {
    match cfg.codel {
        Some(c) => count_after >= c.consecutive_intervals,
        None => false,
    }
}

pub open spec fn next_codel_count(prev: u32, above: bool) -> u32 {
    if !above {
        0
    } else if prev == u32::MAX {
        prev
    } else {
        (prev + 1) as u32
    }
}

/// How far a scale-up may step: the CoDel step when CoDel fired, else
/// one pod, capped by the headroom below `max`.
pub open spec fn up_step(cfg: ServiceConfig, codel_fired: bool, headroom: int) -> int {
    let step: int = if codel_fired {
        match cfg.codel {
            Some(c) => if c.max_scale_step >= 1 {
                c.max_scale_step as int
            } else {
                1
            },
            None => 1,
        }
    } else {
        1
    };
    if step > headroom {
        headroom
    } else {
        step
    }
}

impl UnifiedScalingManager {
    /// Start managing a service.  The construction time counts as the
    /// last scaling action, so the first tick yields `NoChange`.
    pub fn new(service_name: String, config: ServiceConfig, now_ms: u64) -> (r: Self)
        ensures
            r.service_name == service_name,
            r.config == config,
            r.last_scale_action_ms == Some(now_ms),
            !r.suspended_for_update,
            !r.suspended_for_rollout,
            r.codel_above_intervals == 0,
    {
        Self {
            service_name,
            config,
            last_scale_action_ms: Some(now_ms),
            suspended_for_update: false,
            suspended_for_rollout: false,
            codel_above_intervals: 0,
        }
    }

    /// React to a coordination message: suspend between `ConfigUpdate`
    /// and `Resume`, and between `RollingUpdate` and
    /// `RollingUpdateComplete`.
    pub fn handle_message(&mut self, message: ScaleMessage)
        ensures
            final(self).suspended_for_update == match message {
                ScaleMessage::ConfigUpdate => true,
                ScaleMessage::Resume => false,
                _ => old(self).suspended_for_update,
            },
            final(self).suspended_for_rollout == match message {
                ScaleMessage::RollingUpdate => true,
                ScaleMessage::RollingUpdateComplete => false,
                _ => old(self).suspended_for_rollout,
            },
            final(self).service_name == old(self).service_name,
            final(self).config == old(self).config,
            final(self).last_scale_action_ms == old(self).last_scale_action_ms,
            final(self).codel_above_intervals == old(self).codel_above_intervals,
    {
        match message {
            ScaleMessage::ConfigUpdate => {
                self.suspended_for_update = true;
            },
            ScaleMessage::Resume => {
                self.suspended_for_update = false;
            },
            ScaleMessage::RollingUpdate => {
                self.suspended_for_rollout = true;
            },
            ScaleMessage::RollingUpdateComplete => {
                self.suspended_for_rollout = false;
            },
        }
    }

    /// One autoscaler tick.
    ///
    /// Signals are evaluated over the given pod stats; a scale-up fires
    /// on any exceeded threshold or a sustained CoDel overload, a
    /// scale-down only when every pod is idle by the scale-down fraction;
    /// both respect the cooldown, suspension, and the `[min, max]`
    /// bounds.  The decision never moves the pod count outside
    /// `min ..= max`.
    pub fn evaluate(
        &mut self,
        now_ms: u64,
        current_instances: usize,
        pod_stats: &Vec<PodStats>,
        latency_above_target: bool,
    ) -> (r: ScalingDecision)
        ensures
            final(self).service_name == old(self).service_name,
            final(self).config == old(self).config,
            final(self).suspended_for_update == old(self).suspended_for_update,
            final(self).suspended_for_rollout == old(self).suspended_for_rollout,
            old(self).suspended_for_update || old(self).suspended_for_rollout ==> r
                == ScalingDecision::NoChange && *final(self) == *old(self),
            !(old(self).suspended_for_update || old(self).suspended_for_rollout) ==> {
                let cfg = old(self).config;
                let count = next_codel_count(old(self).codel_above_intervals, latency_above_target);
                let cd = in_cooldown(
                    old(self).last_scale_action_ms,
                    now_ms,
                    spec_cooldown_secs(spec_policy(cfg)),
                );
                let codel_fired = codel_up_candidate(cfg, count);
                let up = threshold_up_candidate(cfg, pod_stats@) || codel_fired;
                let down = threshold_down_candidate(
                    cfg,
                    pod_stats@,
                    spec_scale_down_threshold(spec_policy(cfg)),
                );
                &&& final(self).codel_above_intervals == count
                &&& r == (if up && !cd && current_instances < cfg.instance_count.max {
                    ScalingDecision::ScaleUp(
                        up_step(
                            cfg,
                            codel_fired,
                            cfg.instance_count.max - current_instances,
                        ) as u32,
                    )
                } else if !up && down && !cd && current_instances
                    > cfg.instance_count.min {
                    ScalingDecision::ScaleDown(1)
                } else {
                    ScalingDecision::NoChange
                })
                &&& final(self).last_scale_action_ms == (if r is NoChange {
                    old(self).last_scale_action_ms
                } else {
                    Some(now_ms)
                })
            },
            match r {
                ScalingDecision::ScaleUp(k) => {
                    &&& 1 <= k
                    &&& current_instances + k <= old(self).config.instance_count.max
                    &&& !in_cooldown(
                        old(self).last_scale_action_ms,
                        now_ms,
                        spec_cooldown_secs(spec_policy(old(self).config)),
                    )
                    &&& threshold_up_candidate(old(self).config, pod_stats@) || codel_up_candidate(
                        old(self).config,
                        next_codel_count(old(self).codel_above_intervals, latency_above_target),
                    )
                    &&& final(self).last_scale_action_ms == Some(now_ms)
                },
                ScalingDecision::ScaleDown(k) => {
                    &&& k == 1
                    &&& current_instances >= 1
                    &&& current_instances - 1 >= old(self).config.instance_count.min
                    &&& !in_cooldown(
                        old(self).last_scale_action_ms,
                        now_ms,
                        spec_cooldown_secs(spec_policy(old(self).config)),
                    )
                    &&& threshold_down_candidate(
                        old(self).config,
                        pod_stats@,
                        spec_scale_down_threshold(spec_policy(old(self).config)),
                    )
                    &&& !threshold_up_candidate(old(self).config, pod_stats@)
                    &&& !codel_up_candidate(
                        old(self).config,
                        next_codel_count(old(self).codel_above_intervals, latency_above_target),
                    )
                    &&& final(self).last_scale_action_ms == Some(now_ms)
                },
                ScalingDecision::NoChange => final(self).last_scale_action_ms == old(
                    self,
                ).last_scale_action_ms,
            },
    {
        if self.suspended_for_update || self.suspended_for_rollout {
            return ScalingDecision::NoChange;
        }
        self.codel_above_intervals = if !latency_above_target {
            0
        } else if self.codel_above_intervals == u32::MAX {
            self.codel_above_intervals
        } else {
            self.codel_above_intervals + 1
        };
        let policy = self.get_policy();
        let cooldown_secs = policy.get_cooldown_duration();
        let in_cd = match self.last_scale_action_ms {
            None => false,
            Some(last) => {
                if cooldown_secs > (u64::MAX - last) / 1000 {
                    // the deadline lies beyond the clock's range
                    true
                } else {
                    now_ms < last + cooldown_secs * 1000
                }
            },
        };
        proof {
            lemma_cooldown_exec(
                old(self).last_scale_action_ms,
                now_ms,
                cooldown_secs,
            );
        }
        let codel_fired = match &self.config.codel {
            Some(c) => self.codel_above_intervals >= c.consecutive_intervals,
            None => false,
        };
        let up = self.threshold_up(pod_stats) || codel_fired;
        let max = self.config.instance_count.max as usize;
        let min = self.config.instance_count.min as usize;
        if up {
            if in_cd || current_instances >= max {
                return ScalingDecision::NoChange;
            }
            let headroom = max - current_instances;
            let mut step: usize = 1;
            if codel_fired {
                if let Some(c) = &self.config.codel {
                    if c.max_scale_step >= 1 {
                        step = c.max_scale_step as usize;
                    }
                }
            }
            if step > headroom {
                step = headroom;
            }
            self.last_scale_action_ms = Some(now_ms);
            return ScalingDecision::ScaleUp(step as u32);
        }
        let down = self.threshold_down(pod_stats, policy.get_scale_down_threshold());
        if down {
            if in_cd || current_instances <= min {
                return ScalingDecision::NoChange;
            }
            self.last_scale_action_ms = Some(now_ms);
            return ScalingDecision::ScaleDown(1);
        }
        ScalingDecision::NoChange
    }

    /// The service's scaling policy, or the default one.
    fn get_policy(&self) -> (r: ScalingPolicy)
        ensures
            r == spec_policy(self.config),
    {
        match &self.config.scaling_policy {
            Some(p) => ScalingPolicy {
                cooldown_duration_secs: p.cooldown_duration_secs,
                scale_down_threshold_percentage: p.scale_down_threshold_percentage,
            },
            None => ScalingPolicy {
                cooldown_duration_secs: None,
                scale_down_threshold_percentage: None,
            },
        }
    }

    /// Does any pod exceed a configured threshold?
    #[verifier::loop_isolation(false)]
    fn threshold_up(&self, pod_stats: &Vec<PodStats>) -> (r: bool)
        ensures
            r == threshold_up_candidate(self.config, pod_stats@),
    {
        let t = match &self.config.resource_thresholds {
            Some(t) => t,
            None => {
                return false;
            },
        };
        let n = pod_stats.len();
        let mut i: usize = 0;
        while i < n
            invariant
                0 <= i <= n,
                forall|j: int| 0 <= j < i ==> !pod_exceeds(self.config.resource_thresholds->0, #[trigger] pod_stats@[j]),
            decreases n - i,
        {
            let p = &pod_stats[i];
            let mut exceeded = false;
            if let Some(cpu) = t.cpu_percentage {
                if p.cpu_percentage > cpu as u64 {
                    exceeded = true;
                }
            }
            if let Some(rel) = t.cpu_percentage_relative {
                if p.cpu_percentage_relative > rel as u64 {
                    exceeded = true;
                }
            }
            if let Some(mem) = t.memory_percentage {
                if p.memory_limit > 0 {
                    proof {
                        lemma_mul_le(
                            p.memory_limit as int,
                            mem as int,
                            u64::MAX as int,
                            u8::MAX as int,
                        );
                    }
                    let lhs: u128 = (p.memory_usage as u128) * 100;
                    let rhs: u128 = (p.memory_limit as u128) * (mem as u128);
                    if lhs > rhs {
                        exceeded = true;
                    }
                }
            }
            if exceeded {
                proof {
                    assert(pod_exceeds(self.config.resource_thresholds->0, pod_stats@[i as int]));
                }
                return true;
            }
            i = i + 1;
        }
        false
    }

    /// Does every pod sit below the scale-down fraction of every
    /// configured threshold?
    #[verifier::loop_isolation(false)]
    fn threshold_down(&self, pod_stats: &Vec<PodStats>, sdt: u64) -> (r: bool)
        ensures
            r == threshold_down_candidate(self.config, pod_stats@, sdt),
    {
        let t = match &self.config.resource_thresholds {
            Some(t) => t,
            None => {
                return false;
            },
        };
        let any = t.cpu_percentage.is_some() || t.cpu_percentage_relative.is_some()
            || t.memory_percentage.is_some();
        if !any {
            return false;
        }
        let s: u64 = if sdt > 10_000 {
            10_000
        } else {
            sdt
        };
        let n = pod_stats.len();
        let mut i: usize = 0;
        while i < n
            invariant
                0 <= i <= n,
                forall|j: int| 0 <= j < i ==> pod_below(self.config.resource_thresholds->0, #[trigger] pod_stats@[j], sdt),
            decreases n - i,
        {
            let p = &pod_stats[i];
            if let Some(cpu) = t.cpu_percentage {
                proof {
                    lemma_mul_le(cpu as int, s as int, u8::MAX as int, 10_000);
                }
                let lhs: u128 = (p.cpu_percentage as u128) * 100;
                let rhs: u128 = (cpu as u128) * (s as u128);
                if lhs >= rhs {
                    return false;
                }
            }
            if let Some(rel) = t.cpu_percentage_relative {
                proof {
                    lemma_mul_le(rel as int, s as int, u8::MAX as int, 10_000);
                }
                let lhs: u128 = (p.cpu_percentage_relative as u128) * 100;
                let rhs: u128 = (rel as u128) * (s as u128);
                if lhs >= rhs {
                    return false;
                }
            }
            if let Some(mem) = t.memory_percentage {
                if p.memory_limit > 0 {
                    proof {
                        lemma_mul_le(
                            p.memory_limit as int,
                            mem as int,
                            u64::MAX as int,
                            u8::MAX as int,
                        );
                        lemma_mul_le(
                            p.memory_limit as int * mem as int,
                            s as int,
                            u64::MAX as int * u8::MAX as int,
                            10_000,
                        );
                    }
                    let lhs: u128 = (p.memory_usage as u128) * 100 * 100;
                    let rhs: u128 = (p.memory_limit as u128) * (mem as u128) * (s as u128);
                    if lhs >= rhs {
                        return false;
                    }
                }
            }
            i = i + 1;
        }
        true
    }
}

/// The policy in force for a service: the declared one, or the default.
pub open spec fn spec_policy(cfg: ServiceConfig) -> ScalingPolicy {
    match cfg.scaling_policy {
        Some(p) => p,
        None => ScalingPolicy { cooldown_duration_secs: None, scale_down_threshold_percentage: None },
    }
}

/// The exec cooldown test computes the same gate as `in_cooldown`, with
/// the overflowing deadline counted as still cooling down.
proof fn lemma_cooldown_exec(last_ms: Option<u64>, now_ms: u64, cooldown_secs: u64)
    ensures
        match last_ms {
            None => !in_cooldown(last_ms, now_ms, cooldown_secs),
            Some(last) => in_cooldown(last_ms, now_ms, cooldown_secs) == if cooldown_secs > (
            u64::MAX - last) / 1000 {
                true
            } else {
                now_ms < last + cooldown_secs * 1000
            },
        },
{
    match last_ms {
        None => {},
        Some(last) => {
            if cooldown_secs > (u64::MAX - last) / 1000 {
                assert(cooldown_secs * 1000 > u64::MAX - last) by (nonlinear_arith)
                    requires
                        cooldown_secs > (u64::MAX - last) / 1000,
                ;
                assert(now_ms < last + cooldown_secs * 1000);
            }
        },
    }
}

} // verus!

use podkit::config::{
    InstanceCount, PodMetricsStrategy, PodStats, ResourceThresholds, ScaleMessage, ServiceConfig,
    ServiceSpec,
};
use podkit::limits::LimitValue;
use podkit::scaling::{ScalingDecision, ScalingPolicy, UnifiedScalingManager};

fn mock_service_config() -> ServiceConfig {
    ServiceConfig {
        name: String::from("test_service"),
        network: Some(String::from("test_network")),
        spec: ServiceSpec { containers: vec![] },
        memory_limit: Some(LimitValue::Number(String::from("1000"))),
        pull_policy: None,
        cpu_limit: Some(LimitValue::Number(String::from("2"))),
        resource_thresholds: Some(ResourceThresholds {
            cpu_percentage: Some(70),
            cpu_percentage_relative: Some(80),
            memory_percentage: Some(75),
            metrics_strategy: PodMetricsStrategy::Maximum,
        }),
        instance_count: InstanceCount { min: 1, max: 10 },
        adopt_orphans: false,
        interval_seconds: Some(30),
        image_check_interval_ms: Some(300_000),
        rolling_update_config: None,
        volumes: None,
        codel: None,
        scaling_policy: Some(ScalingPolicy {
            cooldown_duration_secs: Some(60),
            scale_down_threshold_percentage: Some(50),
        }),
    }
}

#[test]
fn test_scaling_policy_defaults() {
    let policy = ScalingPolicy::default();
    assert_eq!(policy.get_cooldown_duration(), 60);
    assert_eq!(policy.get_scale_down_threshold(), 50);
}

#[test]
fn test_unified_scaling_manager_no_change_on_cooldown() {
    let config = mock_service_config();
    let mut manager = UnifiedScalingManager::new(String::from("test_service"), config, 0);
    let result = manager.evaluate(0, 3, &vec![], false);
    assert!(matches!(result, ScalingDecision::NoChange));
}

#[test]
fn test_unified_scaling_manager_scale_up() {
    let config = mock_service_config();
    let mut manager = UnifiedScalingManager::new(String::from("test_service"), config, 0);
    let pod_stats = vec![PodStats {
        cpu_percentage: 85,
        cpu_percentage_relative: 90,
        memory_usage: 900,
        memory_limit: 1000,
    }];
    // the first tick lands inside the cooldown
    let result = manager.evaluate(0, 3, &pod_stats, false);
    assert!(matches!(result, ScalingDecision::NoChange));
}

#[test]
fn test_unified_scaling_manager_scale_down() {
    let config = mock_service_config();
    let mut manager = UnifiedScalingManager::new(String::from("test_service"), config, 0);
    let pod_stats = vec![PodStats {
        cpu_percentage: 10,
        cpu_percentage_relative: 15,
        memory_usage: 200,
        memory_limit: 1000,
    }];
    let result = manager.evaluate(0, 3, &pod_stats, false);
    assert!(matches!(result, ScalingDecision::NoChange));
}

#[test]
fn test_service_config_instance_count() {
    let config = mock_service_config();
    assert_eq!(config.instance_count.min, 1);
    assert_eq!(config.instance_count.max, 10);
}

#[test]
fn scale_up_on_cpu_until_max() {
    // with a 70% CPU threshold, a pod at 85% for three ticks grows the
    // population one pod per tick, respecting the cooldown
    let mut config = mock_service_config();
    config.instance_count = InstanceCount { min: 1, max: 5 };
    let mut manager = UnifiedScalingManager::new(String::from("web"), config, 0);
    let hot = vec![PodStats {
        cpu_percentage: 85,
        cpu_percentage_relative: 0,
        memory_usage: 0,
        memory_limit: 0,
    }];
    let mut count: usize = 3;
    let mut now: u64 = 61_000;
    for _ in 0..3 {
        match manager.evaluate(now, count, &hot, false) {
            ScalingDecision::ScaleUp(k) => count += k as usize,
            other => panic!("expected a scale-up, got {:?}", other),
        }
        // inside the cooldown nothing happens
        assert!(matches!(
            manager.evaluate(now + 1_000, count, &hot, false),
            ScalingDecision::NoChange
        ));
        now += 61_000;
        if count == 5 {
            break;
        }
    }
    assert_eq!(count, 5);
    // at the maximum the signal changes nothing
    assert!(matches!(
        manager.evaluate(now, count, &hot, false),
        ScalingDecision::NoChange
    ));
}

#[test]
fn scale_down_to_min_when_idle() {
    // three pods at 10% CPU against a 70% threshold and a 50% scale-down
    // fraction shrink one pod per cooldown interval until the minimum
    let mut config = mock_service_config();
    config.instance_count = InstanceCount { min: 1, max: 5 };
    config.resource_thresholds = Some(ResourceThresholds {
        cpu_percentage: Some(70),
        cpu_percentage_relative: None,
        memory_percentage: None,
        metrics_strategy: PodMetricsStrategy::Maximum,
    });
    let mut manager = UnifiedScalingManager::new(String::from("web"), config, 0);
    let idle = vec![
        PodStats { cpu_percentage: 10, cpu_percentage_relative: 0, memory_usage: 0, memory_limit: 0 },
        PodStats { cpu_percentage: 10, cpu_percentage_relative: 0, memory_usage: 0, memory_limit: 0 },
        PodStats { cpu_percentage: 10, cpu_percentage_relative: 0, memory_usage: 0, memory_limit: 0 },
    ];
    let mut count: usize = 3;
    let mut now: u64 = 61_000;
    while count > 1 {
        match manager.evaluate(now, count, &idle, false) {
            ScalingDecision::ScaleDown(k) => count -= k as usize,
            other => panic!("expected a scale-down, got {:?}", other),
        }
        now += 61_000;
    }
    assert_eq!(count, 1);
    assert!(matches!(
        manager.evaluate(now, count, &idle, false),
        ScalingDecision::NoChange
    ));
}

#[test]
fn rolling_update_suspends_scaling() {
    let config = mock_service_config();
    let mut manager = UnifiedScalingManager::new(String::from("web"), config, 0);
    let hot = vec![PodStats {
        cpu_percentage: 95,
        cpu_percentage_relative: 0,
        memory_usage: 0,
        memory_limit: 0,
    }];
    manager.handle_message(ScaleMessage::RollingUpdate);
    assert!(matches!(
        manager.evaluate(120_000, 3, &hot, false),
        ScalingDecision::NoChange
    ));
    manager.handle_message(ScaleMessage::RollingUpdateComplete);
    assert!(matches!(
        manager.evaluate(120_000, 3, &hot, false),
        ScalingDecision::ScaleUp(1)
    ));
}

#[test]
fn min_zero_quiesces_and_min_equals_max_disables_scaling() {
    // min=0 lets the service scale down to zero pods
    let mut config = mock_service_config();
    config.instance_count = InstanceCount { min: 0, max: 3 };
    config.resource_thresholds = Some(ResourceThresholds {
        cpu_percentage: Some(70),
        cpu_percentage_relative: None,
        memory_percentage: None,
        metrics_strategy: PodMetricsStrategy::Maximum,
    });
    let idle = vec![PodStats { cpu_percentage: 1, cpu_percentage_relative: 0, memory_usage: 0, memory_limit: 0 }];
    let mut manager = UnifiedScalingManager::new(String::from("web"), config, 0);
    assert!(matches!(manager.evaluate(61_000, 1, &idle, false), ScalingDecision::ScaleDown(1)));
    assert!(matches!(manager.evaluate(122_000, 0, &vec![], false), ScalingDecision::NoChange));

    // min=max pins the population
    let mut fixed = mock_service_config();
    fixed.instance_count = InstanceCount { min: 3, max: 3 };
    let hot = vec![PodStats { cpu_percentage: 99, cpu_percentage_relative: 0, memory_usage: 0, memory_limit: 0 }];
    let mut pinned = UnifiedScalingManager::new(String::from("web"), fixed, 0);
    assert!(matches!(pinned.evaluate(61_000, 3, &hot, false), ScalingDecision::NoChange));
    let idle3 = vec![PodStats { cpu_percentage: 1, cpu_percentage_relative: 1, memory_usage: 0, memory_limit: 1000 }];
    assert!(matches!(pinned.evaluate(61_000, 3, &idle3, false), ScalingDecision::NoChange));
}

#[test]
fn codel_scale_up_after_consecutive_intervals() {
    let mut config = mock_service_config();
    config.resource_thresholds = None;
    config.codel = Some(podkit::config::CoDelConfig {
        target_ms: 100,
        interval_ms: 1_000,
        consecutive_intervals: 3,
        max_scale_step: 2,
        scale_cooldown_ms: 1_000,
        overload_status_code: None,
    });
    let mut manager = UnifiedScalingManager::new(String::from("web"), config, 0);
    assert!(matches!(
        manager.evaluate(61_000, 3, &vec![], true),
        ScalingDecision::NoChange
    ));
    assert!(matches!(
        manager.evaluate(62_000, 3, &vec![], true),
        ScalingDecision::NoChange
    ));
    // the third consecutive overloaded sample fires a two-pod step
    assert!(matches!(
        manager.evaluate(63_000, 3, &vec![], true),
        ScalingDecision::ScaleUp(2)
    ));
}

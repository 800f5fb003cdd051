use podkit::config::{InstanceCount, ServiceConfig, ServiceSpec};
use podkit::container::{Container, ContainerPort, ContainerPortMetadata};
use podkit::context::{OrchestratorError, RuntimeContext};
use podkit::orphans::plan_orphan_adoption;
use podkit::rolling::{image_updates_needed, swap_pod};
use podkit::store::KvMap;
use podkit::supervisor::{
    add_pod_backends, clean_up, handle_config_update, make_backend_key, register_pod,
    scale_up_needed, stop_service, UpdateDisposition,
};
use podkit::validate::{validate_config, validate_service_name, ValidationError};
use podkit::watcher::{
    apply_config_upsert, get_config_by_path, get_config_by_service, get_relative_config_path,
    is_yaml_path, remove_config_entry, sweep_configs,
};

const UUID_A: &str = "123e4567-e89b-12d3-a456-426614174000";
const UUID_B: &str = "223e4567-e89b-12d3-a456-426614174000";
const UUID_C: &str = "323e4567-e89b-12d3-a456-426614174000";

fn simple_config(name: &str, min: u8, max: u8, node_port: Option<u16>) -> ServiceConfig {
    ServiceConfig {
        name: String::from(name),
        network: None,
        spec: ServiceSpec {
            containers: vec![Container {
                name: String::from("app"),
                image: String::from("example:latest"),
                command: None,
                ports: Some(vec![ContainerPort {
                    port: 8080,
                    target_port: None,
                    node_port,
                    protocol: None,
                }]),
                volume_mounts: None,
                memory_limit: None,
                cpu_limit: None,
                network_limit: None,
                resource_thresholds: None,
            }],
        },
        memory_limit: None,
        pull_policy: None,
        cpu_limit: None,
        resource_thresholds: None,
        instance_count: InstanceCount { min, max },
        adopt_orphans: false,
        interval_seconds: None,
        image_check_interval_ms: None,
        rolling_update_config: None,
        volumes: None,
        codel: None,
        scaling_policy: None,
    }
}

fn started_pod(service: &str, pod_number: u8, uuid: &str, ip: &str) -> Vec<(String, String, Vec<ContainerPortMetadata>)> {
    vec![(
        format!("{}__{}__app__{}", service, pod_number, uuid),
        String::from(ip),
        vec![ContainerPortMetadata { port: 8080, target_port: None, node_port: Some(30080) }],
    )]
}

#[test]
fn service_name_validation() {
    assert!(validate_service_name("web").is_ok());
    assert!(validate_service_name("web-1").is_ok());
    assert_eq!(validate_service_name(""), Err(ValidationError::EmptyServiceName));
    assert_eq!(
        validate_service_name(&"a".repeat(211)),
        Err(ValidationError::ServiceNameTooLong)
    );
    assert_eq!(validate_service_name("Web"), Err(ValidationError::InvalidServiceName));
    assert_eq!(validate_service_name("web_1"), Err(ValidationError::InvalidServiceName));
    assert_eq!(validate_service_name("-web"), Err(ValidationError::InvalidServiceName));
}

#[test]
fn validation_rejects_duplicates_and_conflicts() {
    let store: KvMap<podkit::config::ConfigEntry> = KvMap::new();
    let mut bad = simple_config("web", 2, 1, None);
    assert_eq!(
        validate_config(&bad, &store, None),
        Err(ValidationError::InvalidInstanceCount)
    );
    bad.instance_count = InstanceCount { min: 1, max: 2 };
    assert!(validate_config(&bad, &store, None).is_ok());

    // duplicate container names within a service
    let mut dup = simple_config("web", 1, 2, None);
    let second = Container {
        name: String::from("app"),
        image: String::from("example:latest"),
        command: None,
        ports: None,
        volume_mounts: None,
        memory_limit: None,
        cpu_limit: None,
        network_limit: None,
        resource_thresholds: None,
    };
    dup.spec.containers.push(second);
    assert_eq!(
        validate_config(&dup, &store, None),
        Err(ValidationError::DuplicateContainerName)
    );

    // duplicate node port within a service
    let mut dup_port = simple_config("web", 1, 2, Some(30080));
    dup_port.spec.containers[0]
        .ports
        .as_mut()
        .unwrap()
        .push(ContainerPort { port: 9090, target_port: None, node_port: Some(30080), protocol: None });
    assert_eq!(
        validate_config(&dup_port, &store, None),
        Err(ValidationError::DuplicateNodePort)
    );

    // invalid limits
    let mut bad_mem = simple_config("web", 1, 2, None);
    bad_mem.memory_limit = Some(podkit::limits::LimitValue::Text(String::from("1X")));
    assert_eq!(
        validate_config(&bad_mem, &store, None),
        Err(ValidationError::InvalidMemoryLimit)
    );
    let mut bad_cpu = simple_config("web", 1, 2, None);
    bad_cpu.cpu_limit = Some(podkit::limits::LimitValue::Text(String::from("fast")));
    assert_eq!(
        validate_config(&bad_cpu, &store, None),
        Err(ValidationError::InvalidCpuLimit)
    );
}

#[test]
fn node_port_exclusive_across_services() {
    let mut ctx = RuntimeContext::new();
    let web = simple_config("web", 1, 2, Some(30080));
    assert!(apply_config_upsert(&mut ctx, "web.yaml", String::from("/etc/web.yaml"), web).is_ok());
    // another service claiming the same node port is rejected
    let clash = simple_config("api", 1, 2, Some(30080));
    assert_eq!(
        apply_config_upsert(&mut ctx, "api.yaml", String::from("/etc/api.yaml"), clash),
        Err(ValidationError::NodePortConflict)
    );
    // a different port is fine
    let api = simple_config("api", 1, 2, Some(30081));
    assert!(apply_config_upsert(&mut ctx, "api.yaml", String::from("/etc/api.yaml"), api).is_ok());
    // and a duplicate service name under a new path is rejected
    let dup = simple_config("web", 1, 2, None);
    assert_eq!(
        apply_config_upsert(&mut ctx, "web2.yaml", String::from("/etc/web2.yaml"), dup),
        Err(ValidationError::DuplicateServiceName)
    );
}

#[test]
fn create_service_brings_pods_and_backends() {
    // a manifest with min=2 leads to two pods and a live backend set
    let mut ctx = RuntimeContext::new();
    let web = simple_config("web", 2, 5, Some(30080));
    assert!(apply_config_upsert(&mut ctx, "web.yaml", String::from("/etc/web.yaml"), web).is_ok());
    let cfg = get_config_by_path(&ctx, "web.yaml").expect("config stored");
    assert_eq!(cfg.instance_count.min, 2);
    let need = scale_up_needed(&ctx, "web", cfg);
    assert_eq!(need, 2);

    let hashes_a: KvMap<String> = KvMap::new();
    register_pod(&mut ctx, "web", UUID_A, &started_pod("web", 0, UUID_A, "10.0.0.1"), hashes_a, "running", 1_000)
        .unwrap();
    let hashes_b: KvMap<String> = KvMap::new();
    register_pod(&mut ctx, "web", UUID_B, &started_pod("web", 1, UUID_B, "10.0.0.2"), hashes_b, "running", 1_000)
        .unwrap();
    assert_eq!(ctx.pod_count("web"), 2);

    let pods = ctx.instances.get("web").unwrap();
    let pod_a = pods.get(UUID_A).unwrap();
    assert_eq!(pod_a.network, format!("web__{}", UUID_A));
    assert_eq!(pod_a.containers[0].status, "running");
    assert_eq!(pod_a.containers[0].ip_address, "10.0.0.1");

    // both pods' backends become live
    {
        let pods = ctx.instances.remove("web").unwrap();
        add_pod_backends(&mut ctx.backends, "web", pods.get(UUID_A).unwrap());
        add_pod_backends(&mut ctx.backends, "web", pods.get(UUID_B).unwrap());
        ctx.instances.insert(String::from("web"), pods);
    }
    let key = make_backend_key("web", 30080);
    let set = ctx.backends.get(key.as_str()).unwrap();
    assert_eq!(set.len(), 2);
    assert!(set.contains("10.0.0.1:8080"));
    assert!(set.contains("10.0.0.2:8080"));
}

#[test]
fn backends_follow_pod_lifecycle() {
    let mut ctx = RuntimeContext::new();
    let hashes: KvMap<String> = KvMap::new();
    register_pod(&mut ctx, "web", UUID_A, &started_pod("web", 0, UUID_A, "10.0.0.1"), hashes, "running", 0)
        .unwrap();
    {
        let pods = ctx.instances.remove("web").unwrap();
        let pod = pods.get(UUID_A).unwrap();
        add_pod_backends(&mut ctx.backends, "web", pod);
        let key = make_backend_key("web", 30080);
        let set = ctx.backends.get(key.as_str()).expect("backend set exists");
        assert!(set.contains("10.0.0.1:8080"));
        assert_eq!(set.len(), 1);
        ctx.instances.insert(String::from("web"), pods);
    }
    // cleaning the service up empties its membership again
    let plan = clean_up(&mut ctx, "web");
    assert!(plan.instances.is_some());
    let key = make_backend_key("web", 30080);
    let set = ctx.backends.get(key.as_str()).expect("key survives with empty set");
    assert!(set.is_empty());
    assert_eq!(ctx.pod_count("web"), 0);
}

#[test]
fn delete_service_leaves_no_store_entries() {
    // removing the manifest stops the service: pods gone, backends gone,
    // scaling task absent
    let mut ctx = RuntimeContext::new();
    let web = simple_config("web", 1, 5, Some(30080));
    assert!(apply_config_upsert(&mut ctx, "web.yaml", String::from("/etc/web.yaml"), web).is_ok());
    ctx.scaling_tasks.insert(String::from("web"), 41);
    ctx.image_check_tasks.insert(String::from("web"), 42);
    let hashes: KvMap<String> = KvMap::new();
    register_pod(&mut ctx, "web", UUID_A, &started_pod("web", 0, UUID_A, "10.0.0.1"), hashes, "running", 0)
        .unwrap();
    {
        let pods = ctx.instances.remove("web").unwrap();
        let pod = pods.get(UUID_A).unwrap();
        add_pod_backends(&mut ctx.backends, "web", pod);
        ctx.instances.insert(String::from("web"), pods);
    }

    let name = remove_config_entry(&mut ctx, "web.yaml").expect("entry existed");
    assert_eq!(name, "web");
    let plan = stop_service(&mut ctx, "web");
    assert_eq!(plan.scaling_task, Some(41));
    assert_eq!(plan.image_check_task, Some(42));
    let removed = plan.instances.expect("pods returned for stopping");
    assert_eq!(removed.len(), 1);
    assert!(!ctx.scaling_tasks.contains_key("web"));
    assert!(!ctx.image_check_tasks.contains_key("web"));
    assert!(ctx.instances.get("web").is_none());
    assert!(ctx.service_stats.get("web").is_none());
    let key = make_backend_key("web", 30080);
    assert!(ctx.backends.get(key.as_str()).is_none());
    assert!(get_config_by_service(&ctx, "web").is_none());
}

#[test]
fn sweep_evicts_missing_manifests() {
    let mut ctx = RuntimeContext::new();
    let web = simple_config("web", 1, 5, None);
    let api = simple_config("api", 1, 5, None);
    apply_config_upsert(&mut ctx, "web.yaml", String::from("/etc/web.yaml"), web).unwrap();
    apply_config_upsert(&mut ctx, "api.yaml", String::from("/etc/api.yaml"), api).unwrap();
    let live = vec![String::from("api.yaml")];
    let stopped = sweep_configs(&mut ctx, &live);
    assert_eq!(stopped, vec![String::from("web")]);
    assert!(get_config_by_path(&ctx, "web.yaml").is_none());
    assert!(get_config_by_path(&ctx, "api.yaml").is_some());
}

#[test]
fn config_update_existing_service() {
    let mut ctx = RuntimeContext::new();
    let web = simple_config("web", 1, 5, None);
    apply_config_upsert(&mut ctx, "web.yaml", String::from("/etc/web.yaml"), web).unwrap();
    ctx.scaling_tasks.insert(String::from("web"), 7);
    let mut updated = simple_config("web", 2, 6, None);
    updated.interval_seconds = Some(15);
    let d = handle_config_update(&mut ctx, "web", updated).unwrap();
    assert_eq!(d, UpdateDisposition::ExistingService);
    let cfg = get_config_by_service(&ctx, "web").unwrap();
    assert_eq!(cfg.instance_count.min, 2);
    assert_eq!(cfg.interval_seconds, Some(15));
}

#[test]
fn config_update_new_service() {
    let mut ctx = RuntimeContext::new();
    let web = simple_config("web", 1, 5, None);
    let d = handle_config_update(&mut ctx, "web", web).unwrap();
    assert_eq!(d, UpdateDisposition::NewService);
}

#[test]
fn register_pod_rejects_foreign_names() {
    let mut ctx = RuntimeContext::new();
    let hashes: KvMap<String> = KvMap::new();
    // a name under another service must be refused
    let err = register_pod(&mut ctx, "web", UUID_A, &started_pod("other", 0, UUID_A, "10.0.0.1"), hashes, "running", 0);
    assert_eq!(err, Err(OrchestratorError::InvariantViolation));
    assert_eq!(ctx.pod_count("web"), 0);
    let hashes2: KvMap<String> = KvMap::new();
    let err2 = register_pod(&mut ctx, "web", "not-a-uuid", &vec![], hashes2, "running", 0);
    assert_eq!(err2, Err(OrchestratorError::InvariantViolation));
}

#[test]
fn adopt_orphans_keeps_complete_pods() {
    // two complete pre-existing pods are adopted; a partial one is removed
    let mut config = simple_config("web", 1, 5, None);
    config.adopt_orphans = true;
    let discovered = vec![
        podkit::container::ContainerInfo {
            id: String::from("c1"),
            name: format!("web__0__app__{}", UUID_A),
            state: String::from("running"),
            port: 8080,
        },
        podkit::container::ContainerInfo {
            id: String::from("c2"),
            name: format!("web__1__app__{}", UUID_B),
            state: String::from("running"),
            port: 8080,
        },
        podkit::container::ContainerInfo {
            id: String::from("c3"),
            name: format!("other__0__app__{}", UUID_C),
            state: String::from("running"),
            port: 8080,
        },
    ];
    let plan = plan_orphan_adoption(&config, &discovered);
    assert_eq!(plan.adopt.len(), 2);
    assert_eq!(plan.remove.len(), 0);
    let mut uuids: Vec<String> = plan.adopt.iter().map(|g| g.uuid.clone()).collect();
    uuids.sort();
    assert_eq!(uuids, vec![String::from(UUID_A), String::from(UUID_B)]);

    // adopting registers the pods with status "adopted"
    let mut ctx = RuntimeContext::new();
    for group in &plan.adopt {
        let idx = group.members[0];
        let name = discovered[idx].name.clone();
        let hashes: KvMap<String> = KvMap::new();
        register_pod(
            &mut ctx,
            "web",
            &group.uuid,
            &vec![(name, String::from("10.0.0.9"), vec![])],
            hashes,
            "adopted",
            0,
        )
        .unwrap();
    }
    assert_eq!(ctx.pod_count("web"), 2);
    let pods = ctx.instances.get("web").unwrap();
    assert_eq!(pods.get(UUID_A).unwrap().containers[0].status, "adopted");
}

#[test]
fn discard_orphans_when_adoption_off() {
    let config = simple_config("web", 1, 5, None);
    let discovered = vec![podkit::container::ContainerInfo {
        id: String::from("c1"),
        name: format!("web__0__app__{}", UUID_A),
        state: String::from("running"),
        port: 8080,
    }];
    let plan = plan_orphan_adoption(&config, &discovered);
    assert_eq!(plan.adopt.len(), 0);
    assert_eq!(plan.remove.len(), 1);
    assert_eq!(plan.remove[0].uuid, UUID_A);
}

#[test]
fn rolling_update_replaces_one_pod_keeping_count() {
    let mut ctx = RuntimeContext::new();
    let mut hashes: KvMap<String> = KvMap::new();
    hashes.insert(String::from("app"), String::from("sha256:old"));
    register_pod(&mut ctx, "web", UUID_A, &started_pod("web", 0, UUID_A, "10.0.0.1"), hashes, "running", 0)
        .unwrap();
    {
        let pods = ctx.instances.remove("web").unwrap();
        let pod = pods.get(UUID_A).unwrap();
        add_pod_backends(&mut ctx.backends, "web", pod);
        ctx.instances.insert(String::from("web"), pods);
    }

    // the digest check notices the changed image
    let current = {
        let pods = ctx.instances.get("web").unwrap();
        let changed = image_updates_needed(
            &pods.get(UUID_A).unwrap().image_hash,
            &vec![(String::from("app"), String::from("sha256:new"))],
        );
        assert_eq!(changed, vec![String::from("app")]);
        changed
    };
    let _ = current;

    let mut new_hashes: KvMap<String> = KvMap::new();
    new_hashes.insert(String::from("app"), String::from("sha256:new"));
    let old_pod = swap_pod(
        &mut ctx,
        "web",
        UUID_A,
        UUID_B,
        &started_pod("web", 1, UUID_B, "10.0.0.2"),
        new_hashes,
        1_000,
    )
    .unwrap();
    assert_eq!(old_pod.uuid, UUID_A);
    assert_eq!(ctx.pod_count("web"), 1);
    let pods = ctx.instances.get("web").unwrap();
    assert!(pods.get(UUID_A).is_none());
    let new_pod = pods.get(UUID_B).unwrap();
    assert_eq!(new_pod.image_hash.get("app").unwrap(), "sha256:new");
    // membership swapped to the new pod's address
    let key = make_backend_key("web", 30080);
    let set = ctx.backends.get(key.as_str()).unwrap();
    assert!(set.contains("10.0.0.2:8080"));
    assert!(!set.contains("10.0.0.1:8080"));
}

#[test]
fn swap_pod_fails_without_old_pod() {
    let mut ctx = RuntimeContext::new();
    let hashes: KvMap<String> = KvMap::new();
    let r = swap_pod(&mut ctx, "web", UUID_A, UUID_B, &started_pod("web", 1, UUID_B, "10.0.0.2"), hashes, 0);
    assert!(matches!(r, Err(OrchestratorError::RolloutFailed)));
}

#[test]
fn start_pod_registers_backends_at_once() {
    let mut ctx = RuntimeContext::new();
    let hashes: KvMap<String> = KvMap::new();
    podkit::supervisor::start_pod(
        &mut ctx,
        "web",
        UUID_A,
        &started_pod("web", 0, UUID_A, "10.0.0.1"),
        hashes,
        "running",
        0,
    )
    .unwrap();
    assert_eq!(ctx.pod_count("web"), 1);
    let key = make_backend_key("web", 30080);
    let set = ctx.backends.get(key.as_str()).expect("backend key live");
    assert!(set.contains("10.0.0.1:8080"));
}

#[test]
fn yaml_paths_and_relative_paths() {
    assert!(is_yaml_path("svc.yaml"));
    assert!(is_yaml_path("dir/svc.yml"));
    assert!(!is_yaml_path("svc.json"));
    assert!(!is_yaml_path("yml"));
    assert_eq!(
        get_relative_config_path("/home/user/configs/svc.yaml", "configs"),
        Some(String::from("configs/svc.yaml"))
    );
    assert_eq!(get_relative_config_path("/tmp/other.yaml", "configs"), None);
}

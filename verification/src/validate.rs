//! Manifest validation: service name shape, name and port uniqueness,
//! instance-count bounds, and memory/CPU unit parsing.
//!
//! Validation runs on load, on file change, and on explicit update; a
//! rejected manifest mutates no store.

use vstd::prelude::*;

use crate::config::{ConfigEntry, ServiceConfig};
use crate::container::{Container, ContainerPort};
use crate::limits::{
    parse_cpu_limit, parse_memory_limit, spec_parse_cpu_limit, spec_parse_memory_limit,
};
use crate::store::KvMap;

verus! {

/// Why a manifest was rejected.
#[derive(Debug, Clone, Copy, PartialEq, Eq, Structural)]
pub enum ValidationError {
    EmptyServiceName,
    ServiceNameTooLong,
    InvalidServiceName,
    DuplicateServiceName,
    DuplicateContainerName,
    DuplicateNodePort,
    NodePortConflict,
    InvalidInstanceCount,
    InvalidMemoryLimit,
    InvalidCpuLimit,
}

/// DNS-safe name characters: lowercase letters, digits, hyphens.
pub open spec fn is_dns_char(c: char) -> bool {
    ('a' <= c && c <= 'z') || ('0' <= c && c <= '9') || c == '-'
}

/// A valid service name: nonempty, at most 210 characters, DNS-safe,
/// neither starting nor ending with a hyphen.
pub open spec fn valid_service_name(s: Seq<char>) -> bool {
    &&& 1 <= s.len() <= 210
    &&& forall|i: int| 0 <= i < s.len() ==> is_dns_char(#[trigger] s[i])
    &&& s[0] != '-'
    &&& s[s.len() - 1] != '-'
}

/// Check the shape of a service name.
#[verifier::loop_isolation(false)]
pub fn validate_service_name(name: &str) -> (r: Result<(), ValidationError>)
    ensures
        r is Ok <==> valid_service_name(name@),
        r == Err::<(), ValidationError>(ValidationError::EmptyServiceName) <==> name@.len() == 0,
        r == Err::<(), ValidationError>(ValidationError::ServiceNameTooLong) <==> name@.len()
            > 210,
        match r {
            Ok(_) => true,
            Err(e) => e == ValidationError::EmptyServiceName || e
                == ValidationError::ServiceNameTooLong || e == ValidationError::InvalidServiceName,
        },
{
    let len = name.unicode_len();
    if len == 0 {
        return Err(ValidationError::EmptyServiceName);
    }
    if len > 210 {
        return Err(ValidationError::ServiceNameTooLong);
    }
    if name.get_char(0) == '-' || name.get_char(len - 1) == '-' {
        return Err(ValidationError::InvalidServiceName);
    }
    let mut i: usize = 0;
    while i < len
        invariant
            0 <= i <= len,
            forall|j: int| 0 <= j < i ==> is_dns_char(#[trigger] name@[j]),
        decreases len - i,
    {
        let c = name.get_char(i);
        let ok = (c >= 'a' && c <= 'z') || (c >= '0' && c <= '9') || c == '-';
        if !ok {
            return Err(ValidationError::InvalidServiceName);
        }
        i = i + 1;
    }
    Ok(())
}

/// No two elements are equal.
pub open spec fn distinct_seq<T>(s: Seq<T>) -> bool {
    forall|p: int, q: int| 0 <= p < q < s.len() ==> s[p] != s[q]
}

/// The container names a manifest declares, in order.
pub open spec fn container_names(containers: Seq<Container>) -> Seq<Seq<char>> {
    containers.map_values(|c: Container| c.name@)
}

/// The node ports one container declares, in order.
pub open spec fn container_node_ports(ports: Seq<ContainerPort>) -> Seq<u16>
    decreases ports.len(),
{
    if ports.len() == 0 {
        Seq::empty()
    } else {
        container_node_ports(ports.drop_last()) + match ports.last().node_port {
            Some(p) => seq![p],
            None => Seq::empty(),
        }
    }
}

/// All node ports a manifest declares, container by container.
pub open spec fn config_node_ports(containers: Seq<Container>) -> Seq<u16>
    decreases containers.len(),
{
    if containers.len() == 0 {
        Seq::empty()
    } else {
        config_node_ports(containers.drop_last()) + match containers.last().ports {
            Some(ps) => container_node_ports(ps@),
            None => Seq::empty(),
        }
    }
}

/// Collect the node ports a manifest declares.
#[verifier::loop_isolation(false)]
pub fn collect_node_ports(config: &ServiceConfig) -> (r: Vec<u16>)
    ensures
        r@ =~= config_node_ports(config.spec.containers@),
{
    let containers = &config.spec.containers;
    let n = containers.len();
    let mut out: Vec<u16> = Vec::new();
    let mut i: usize = 0;
    while i < n
        invariant
            0 <= i <= n,
            out@ =~= config_node_ports(containers@.take(i as int)),
        decreases n - i,
    {
        proof {
            assert(containers@.take(i + 1).drop_last() =~= containers@.take(i as int));
            assert(containers@.take(i + 1).last() == containers@[i as int]);
        }
        match &containers[i].ports {
            Some(ports) => {
                let m = ports.len();
                let mut j: usize = 0;
                while j < m
                    invariant
                        0 <= j <= m,
                        m == ports@.len(),
                        out@ =~= config_node_ports(containers@.take(i as int))
                            + container_node_ports(ports@.take(j as int)),
                    decreases m - j,
                {
                    proof {
                        assert(ports@.take(j + 1).drop_last() =~= ports@.take(j as int));
                        assert(ports@.take(j + 1).last() == ports@[j as int]);
                    }
                    if let Some(p) = ports[j].node_port {
                        out.push(p);
                    }
                    j = j + 1;
                }
                proof {
                    assert(ports@.take(m as int) =~= ports@);
                }
            },
            None => {},
        }
        i = i + 1;
    }
    proof {
        assert(containers@.take(n as int) =~= containers@);
    }
    out
}

/// Is some element of `a` also in `b`?
#[verifier::loop_isolation(false)]
fn seqs_intersect(a: &Vec<u16>, b: &Vec<u16>) -> (r: bool)
    ensures
        r == exists|p: u16| a@.contains(p) && b@.contains(p),
{
    let n = a.len();
    let mut i: usize = 0;
    while i < n
        invariant
            0 <= i <= n,
            forall|j: int| 0 <= j < i ==> !b@.contains(#[trigger] a@[j]),
        decreases n - i,
    {
        let m = b.len();
        let mut j: usize = 0;
        while j < m
            invariant
                0 <= j <= m,
                i < n,
                m == b@.len(),
                forall|k: int| 0 <= k < j ==> b@[k] != a@[i as int],
            decreases m - j,
        {
            if a[i] == b[j] {
                proof {
                    assert(a@.contains(a@[i as int]));
                    assert(b@.contains(a@[i as int]));
                }
                return true;
            }
            j = j + 1;
        }
        proof {
            assert(!b@.contains(a@[i as int]));
        }
        i = i + 1;
    }
    proof {
        if exists|p: u16| a@.contains(p) && b@.contains(p) {
            let p = choose|p: u16| a@.contains(p) && b@.contains(p);
            let k = choose|k: int| 0 <= k < a@.len() && a@[k] == p;
            assert(!b@.contains(a@[k]));
        }
    }
    false
}

/// Does the sequence repeat an element?
#[verifier::loop_isolation(false)]
fn has_duplicate_u16(v: &Vec<u16>) -> (r: bool)
    ensures
        r == !distinct_seq(v@),
{
    let n = v.len();
    let mut i: usize = 0;
    while i < n
        invariant
            0 <= i <= n,
            forall|p: int, q: int| 0 <= p < q < i ==> v@[p] != v@[q],
        decreases n - i,
    {
        let mut j: usize = 0;
        while j < i
            invariant
                0 <= j <= i < n,
                forall|p: int| 0 <= p < j ==> v@[p] != v@[i as int],
            decreases i - j,
        {
            if v[j] == v[i] {
                return true;
            }
            j = j + 1;
        }
        i = i + 1;
    }
    proof {
        assert(distinct_seq(v@));
    }
    false
}

/// Does the sequence of names repeat one?
#[verifier::loop_isolation(false)]
fn has_duplicate_name(containers: &Vec<Container>) -> (r: bool)
    ensures
        r == !distinct_seq(container_names(containers@)),
{
    let ghost names = container_names(containers@);
    let n = containers.len();
    let mut i: usize = 0;
    while i < n
        invariant
            0 <= i <= n,
            forall|p: int, q: int| 0 <= p < q < i ==> names[p] != names[q],
        decreases n - i,
    {
        let mut j: usize = 0;
        while j < i
            invariant
                0 <= j <= i < n,
                forall|p: int| 0 <= p < j ==> names[p] != names[i as int],
            decreases i - j,
        {
            if containers[j].name.eq(&containers[i].name) {
                proof {
                    assert(names[j as int] == names[i as int]);
                }
                return true;
            }
            j = j + 1;
        }
        i = i + 1;
    }
    proof {
        assert(distinct_seq(names));
    }
    false
}

/// Another loaded service (by name) declares one of these node ports.
pub open spec fn port_conflict_with(
    store: Map<Seq<char>, ConfigEntry>,
    cfg: ServiceConfig,
) -> bool {
    exists|k: Seq<char>, p: u16|
        store.contains_key(k) && (#[trigger] store[k]).config.name@ != cfg.name@
            && config_node_ports(store[k].config.spec.containers@).contains(p)
            && #[trigger] config_node_ports(cfg.spec.containers@).contains(p)
}

/// Check the manifest's node ports against every other loaded service.
#[verifier::loop_isolation(false)]
pub fn check_port_conflicts(config: &ServiceConfig, store: &KvMap<ConfigEntry>) -> (r: Result<
    (),
    ValidationError,
>)
    requires
        store.wf(),
    ensures
        r is Ok <==> !port_conflict_with(store@, *config),
        r is Err ==> r == Err::<(), ValidationError>(ValidationError::NodePortConflict),
{
    let own_ports = collect_node_ports(config);
    let n = store.len();
    let mut i: usize = 0;
    proof {
        store.lemma_keys();
    }
    while i < n
        invariant
            0 <= i <= n,
            forall|j: int|
                0 <= j < i ==> {
                    let e = store@[#[trigger] store.key_seq()[j]];
                    e.config.name@ != config.name@ ==> !exists|p: u16|
                        config_node_ports(e.config.spec.containers@).contains(p)
                            && config_node_ports(config.spec.containers@).contains(p)
                },
        decreases n - i,
    {
        let entry = store.val_at(i);
        if !entry.config.name.eq(&config.name) {
            let other_ports = collect_node_ports(&entry.config);
            if seqs_intersect(&other_ports, &own_ports) {
                proof {
                    assert(store@.contains_key(store.key_seq()[i as int]));
                }
                return Err(ValidationError::NodePortConflict);
            }
        }
        i = i + 1;
    }
    proof {
        if port_conflict_with(store@, *config) {
            let (k, p) = choose|k: Seq<char>, p: u16|
                store@.contains_key(k) && (#[trigger] store@[k]).config.name@ != config.name@
                    && config_node_ports(store@[k].config.spec.containers@).contains(p)
                    && #[trigger] config_node_ports(config.spec.containers@).contains(p);
            let j = choose|j: int|
                0 <= j < store.key_seq().len() && #[trigger] store.key_seq()[j] == k;
            let e = store@[store.key_seq()[j]];
            assert(e == store@[k]);
            assert(config_node_ports(e.config.spec.containers@).contains(p)
                && config_node_ports(config.spec.containers@).contains(p));
            assert(exists|q: u16|
                config_node_ports(e.config.spec.containers@).contains(q) && config_node_ports(
                    config.spec.containers@,
                ).contains(q));
            assert(false);
        }
    }
    Ok(())
}

/// Another path in the store already declares this service name.
pub open spec fn name_conflict_with(
    store: Map<Seq<char>, ConfigEntry>,
    cfg: ServiceConfig,
) -> bool {
    exists|k: Seq<char>| store.contains_key(k) && (#[trigger] store[k]).config.name@ == cfg.name@
}

/// Check the manifest's service name against every loaded service.
/// An `exclude` equal to the manifest's own name skips the check, as on
/// an update of the same service.
#[verifier::loop_isolation(false)]
pub fn check_service_name_uniqueness(
    config: &ServiceConfig,
    store: &KvMap<ConfigEntry>,
    exclude: Option<&str>,
) -> (r: Result<(), ValidationError>)
    requires
        store.wf(),
    ensures
        r is Ok <==> (match exclude {
            Some(e) => e@ == config.name@,
            None => false,
        } || !name_conflict_with(store@, *config)),
        r is Err ==> r == Err::<(), ValidationError>(ValidationError::DuplicateServiceName),
{
    match exclude {
        Some(e) => {
            if config.name.as_str().unicode_len() == e.unicode_len() {
                let e_string = String::from_str(e);
                if config.name.eq(&e_string) {
                    return Ok(());
                }
            } else {
                proof {
                    assert(e@ != config.name@);
                }
            }
        },
        None => {},
    }
    let n = store.len();
    let mut i: usize = 0;
    proof {
        store.lemma_keys();
    }
    while i < n
        invariant
            0 <= i <= n,
            forall|j: int|
                0 <= j < i ==> store@[#[trigger] store.key_seq()[j]].config.name@ != config.name@,
        decreases n - i,
    {
        let entry = store.val_at(i);
        if entry.config.name.eq(&config.name) {
            proof {
                assert(store@.contains_key(store.key_seq()[i as int]));
            }
            return Err(ValidationError::DuplicateServiceName);
        }
        i = i + 1;
    }
    proof {
        if name_conflict_with(store@, *config) {
            let k = choose|k: Seq<char>|
                store@.contains_key(k) && (#[trigger] store@[k]).config.name@ == config.name@;
            let j = choose|j: int|
                0 <= j < store.key_seq().len() && #[trigger] store.key_seq()[j] == k;
            assert(store@[store.key_seq()[j]].config.name@ == config.name@);
            assert(false);
        }
    }
    Ok(())
}

/// All declared limits parse: the service's and each container's.
pub open spec fn limits_ok(cfg: ServiceConfig) -> bool {
    &&& (cfg.memory_limit matches Some(v) ==> spec_parse_memory_limit(v) is Ok)
    &&& (cfg.cpu_limit matches Some(v) ==> spec_parse_cpu_limit(v) is Ok)
    &&& forall|i: int|
        0 <= i < cfg.spec.containers@.len() ==> container_limits_ok(
            #[trigger] cfg.spec.containers@[i],
        )
}

pub open spec fn container_limits_ok(c: Container) -> bool {
    &&& (c.memory_limit matches Some(v) ==> spec_parse_memory_limit(v) is Ok)
    &&& (c.cpu_limit matches Some(v) ==> spec_parse_cpu_limit(v) is Ok)
}

/// A manifest is valid when its name is well-formed and unused, its
/// container names and node ports are unique, its ports clash with no
/// other service, `min <= max`, and its limits parse.
pub open spec fn config_valid(
    cfg: ServiceConfig,
    store: Map<Seq<char>, ConfigEntry>,
    exclude: Option<Seq<char>>,
) -> bool {
    &&& valid_service_name(cfg.name@)
    &&& (match exclude {
        Some(e) => e == cfg.name@,
        None => false,
    } || !name_conflict_with(store, cfg))
    &&& distinct_seq(container_names(cfg.spec.containers@))
    &&& distinct_seq(config_node_ports(cfg.spec.containers@))
    &&& !port_conflict_with(store, cfg)
    &&& cfg.instance_count.min <= cfg.instance_count.max
    &&& limits_ok(cfg)
}

/// Validate a manifest against the loaded services.
///
/// Returns the first failure in the order: name shape, name uniqueness,
/// container-name uniqueness, node-port uniqueness, port conflicts,
/// instance bounds, memory and CPU units.
#[verifier::loop_isolation(false)]
pub fn validate_config(
    config: &ServiceConfig,
    store: &KvMap<ConfigEntry>,
    exclude: Option<&str>,
) -> (r: Result<(), ValidationError>)
    requires
        store.wf(),
    ensures
        r is Ok <==> config_valid(
            *config,
            store@,
            match exclude {
                Some(e) => Some(e@),
                None => None,
            },
        ),
        match r {
            Ok(_) => true,
            Err(e) => match e {
                ValidationError::EmptyServiceName => config.name@.len() == 0,
                ValidationError::ServiceNameTooLong => config.name@.len() > 210,
                ValidationError::InvalidServiceName => !valid_service_name(config.name@),
                ValidationError::DuplicateServiceName => name_conflict_with(store@, *config),
                ValidationError::DuplicateContainerName => !distinct_seq(
                    container_names(config.spec.containers@),
                ),
                ValidationError::DuplicateNodePort => !distinct_seq(
                    config_node_ports(config.spec.containers@),
                ),
                ValidationError::NodePortConflict => port_conflict_with(store@, *config),
                ValidationError::InvalidInstanceCount => config.instance_count.min
                    > config.instance_count.max,
                ValidationError::InvalidMemoryLimit => !limits_ok(*config),
                ValidationError::InvalidCpuLimit => !limits_ok(*config),
            },
        },
{
    if let Err(e) = validate_service_name(config.name.as_str()) {
        return Err(e);
    }
    if let Err(e) = check_service_name_uniqueness(config, store, exclude) {
        return Err(e);
    }
    if has_duplicate_name(&config.spec.containers) {
        return Err(ValidationError::DuplicateContainerName);
    }
    let ports = collect_node_ports(config);
    if has_duplicate_u16(&ports) {
        return Err(ValidationError::DuplicateNodePort);
    }
    if let Err(e) = check_port_conflicts(config, store) {
        return Err(e);
    }
    if config.instance_count.min > config.instance_count.max {
        return Err(ValidationError::InvalidInstanceCount);
    }
    if let Some(v) = &config.memory_limit {
        if parse_memory_limit(v).is_err() {
            return Err(ValidationError::InvalidMemoryLimit);
        }
    }
    if let Some(v) = &config.cpu_limit {
        if parse_cpu_limit(v).is_err() {
            return Err(ValidationError::InvalidCpuLimit);
        }
    }
    let n = config.spec.containers.len();
    let mut i: usize = 0;
    while i < n
        invariant
            0 <= i <= n,
            forall|j: int|
                0 <= j < i ==> container_limits_ok(#[trigger] config.spec.containers@[j]),
        decreases n - i,
    {
        let c = &config.spec.containers[i];
        if let Some(v) = &c.memory_limit {
            if parse_memory_limit(v).is_err() {
                return Err(ValidationError::InvalidMemoryLimit);
            }
        }
        if let Some(v) = &c.cpu_limit {
            if parse_cpu_limit(v).is_err() {
                return Err(ValidationError::InvalidCpuLimit);
            }
        }
        i = i + 1;
    }
    Ok(())
}

} // verus!

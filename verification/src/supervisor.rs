//! The service supervisor: bringing a service's pods up, registering
//! their load-balancer backends, and tearing everything down again.
//!
//! The callers perform the container engine's effects; each operation
//! here takes the results as plain values and transforms the stores,
//! keeping the context's invariants.

use vstd::prelude::*;

use crate::config::{ConfigEntry, ServiceConfig};
use crate::container::{ContainerMetadata, ContainerPortMetadata, InstanceMetadata};
use crate::context::{
    container_meta_wf, pod_wf, spec_pod_count, BackendSet, OrchestratorError, RuntimeContext,
};
use crate::names::{is_uuid_seq, network_name_seq};
use crate::store::{lemma_remove_keys, remove_keys, KvMap};
use crate::text::dec_digits;
use crate::validate::{config_node_ports, config_valid, ValidationError};

verus! {

/// The load-balancer key of a service's node port:
/// `"{service}_{node_port}"`.
pub open spec fn backend_key_seq(service: Seq<char>, node_port: u16) -> Seq<char> {
    service + seq!['_'] + dec_digits(node_port as nat)
}

/// A backend member: `"{ip}:{port}"`.
pub open spec fn backend_addr_seq(ip: Seq<char>, port: u16) -> Seq<char> {
    ip + seq![':'] + dec_digits(port as nat)
}

/// Format the load-balancer key of a node port.
pub fn make_backend_key(service_name: &str, node_port: u16) -> (r: String)
    ensures
        r@ == backend_key_seq(service_name@, node_port),
{
    proof {
        reveal_strlit("_");
        assert("_"@ =~= seq!['_']);
    }
    let mut s = String::new();
    s.append(service_name);
    s.append("_");
    let digits = crate::text::u16_to_dec_str(node_port);
    s.append(digits.as_str());
    proof {
        assert(s@ =~= backend_key_seq(service_name@, node_port));
    }
    s
}

/// Format a backend member address.
pub fn make_backend_addr(ip: &str, port: u16) -> (r: String)
    ensures
        r@ == backend_addr_seq(ip@, port),
{
    proof {
        reveal_strlit(":");
        assert(":"@ =~= seq![':']);
    }
    let mut s = String::new();
    s.append(ip);
    s.append(":");
    let digits = crate::text::u16_to_dec_str(port);
    s.append(digits.as_str());
    proof {
        assert(s@ =~= backend_addr_seq(ip@, port));
    }
    s
}

fn copy_ports(v: &Vec<ContainerPortMetadata>) -> (r: Vec<ContainerPortMetadata>)
    ensures
        r@ =~= v@,
{
    let mut r: Vec<ContainerPortMetadata> = Vec::new();
    let n = v.len();
    let mut i: usize = 0;
    while i < n
        invariant
            0 <= i <= n,
            n == v@.len(),
            r@ =~= v@.take(i as int),
        decreases n - i,
    {
        r.push(v[i]);
        proof {
            assert(v@.take(i + 1).drop_last() =~= v@.take(i as int));
        }
        i = i + 1;
    }
    proof {
        assert(v@.take(n as int) =~= v@);
    }
    r
}

/// How many pods must still be started to reach the declared minimum.
pub fn scale_up_needed(ctx: &RuntimeContext, service_name: &str, config: &ServiceConfig) -> (r:
    u8)
    requires
        ctx.wf(),
    ensures
        r as int == if spec_pod_count(ctx.instances@, service_name@)
            < config.instance_count.min as nat {
            config.instance_count.min - spec_pod_count(ctx.instances@, service_name@)
        } else {
            0
        },
{
    let current = ctx.pod_count(service_name);
    let target = config.instance_count.min as usize;
    if current < target {
        (target - current) as u8
    } else {
        0
    }
}

/// Record a pod whose containers the runtime reports as started: checks
/// the runtime honoured the naming convention, then files the pod under
/// its service.  `started` holds, per container, its runtime name, its
/// IP address and its ports.
///
/// Succeeds exactly when the uuid is hyphenated and every returned name
/// parses back to this service and uuid; on failure nothing changes.
#[verifier::loop_isolation(false)]
pub fn register_pod(
    ctx: &mut RuntimeContext,
    service_name: &str,
    uuid: &str,
    started: &Vec<(String, String, Vec<ContainerPortMetadata>)>,
    image_hashes: KvMap<String>,
    status: &str,
    now_ms: u64,
) -> (r: Result<(), OrchestratorError>)
    requires
        old(ctx).wf(),
        image_hashes.wf(),
    ensures
        final(ctx).wf(),
        final(ctx).configs == old(ctx).configs,
        final(ctx).scaling_tasks == old(ctx).scaling_tasks,
        final(ctx).image_check_tasks == old(ctx).image_check_tasks,
        final(ctx).backends == old(ctx).backends,
        final(ctx).container_health == old(ctx).container_health,
        final(ctx).container_stats == old(ctx).container_stats,
        final(ctx).service_stats == old(ctx).service_stats,
        match r {
            Ok(()) => {
                &&& is_uuid_seq(uuid@)
                &&& started_names_match(service_name@, uuid@, started@)
                &&& final(ctx).instances@.contains_key(service_name@)
                &&& final(ctx).instances@[service_name@]@.contains_key(uuid@)
                &&& registered_pod_matches(
                    final(ctx).instances@[service_name@]@[uuid@],
                    service_name@,
                    uuid@,
                    started@,
                    image_hashes,
                    status@,
                    now_ms,
                )
                &&& final(ctx).instances@[service_name@]@.remove(uuid@) =~= (
                if old(ctx).instances@.contains_key(service_name@) {
                    old(ctx).instances@[service_name@]@
                } else {
                    Map::<Seq<char>, InstanceMetadata>::empty()
                }).remove(uuid@)
                &&& final(ctx).instances@.remove(service_name@) =~= old(ctx).instances@.remove(
                    service_name@,
                )
                &&& spec_pod_count(final(ctx).instances@, service_name@) == if old(
                    ctx,
                ).instances@.contains_key(service_name@) && old(
                    ctx,
                ).instances@[service_name@]@.contains_key(uuid@) {
                    spec_pod_count(old(ctx).instances@, service_name@)
                } else {
                    spec_pod_count(old(ctx).instances@, service_name@) + 1
                }
            },
            Err(e) => {
                &&& e == OrchestratorError::InvariantViolation
                &&& *final(ctx) == *old(ctx)
                &&& !(is_uuid_seq(uuid@) && started_names_match(service_name@, uuid@, started@))
            },
        },
{
    if !crate::names::is_uuid_str(uuid) {
        return Err(OrchestratorError::InvariantViolation);
    }
    let service_string = String::from_str(service_name);
    let uuid_string = String::from_str(uuid);
    let network = crate::container::generate_network_name(service_name, uuid);
    let mut containers: Vec<ContainerMetadata> = Vec::new();
    let n = started.len();
    let mut i: usize = 0;
    while i < n
        invariant
            0 <= i <= n,
            n == started@.len(),
            service_string@ == service_name@,
            uuid_string@ == uuid@,
            network@ == network_name_seq(service_name@, uuid@),
            containers@.len() == i,
            forall|j: int|
                0 <= j < i ==> started_name_matches(service_name@, uuid@, started@[j].0@),
            forall|j: int|
                0 <= j < i ==> container_matches(
                    #[trigger] containers@[j],
                    service_name@,
                    uuid@,
                    started@[j],
                    status@,
                ),
        decreases n - i,
    {
        let entry = &started[i];
        match crate::names::parse_container_name(entry.0.as_str()) {
            Ok(parts) => {
                if !parts.service_name.eq(&service_string) || !parts.uuid.eq(&uuid_string) {
                    return Err(OrchestratorError::InvariantViolation);
                }
                containers.push(
                    ContainerMetadata {
                        name: entry.0.clone(),
                        network: network.clone(),
                        ip_address: entry.1.clone(),
                        ports: copy_ports(&entry.2),
                        status: String::from_str(status),
                    },
                );
            },
            Err(_) => {
                return Err(OrchestratorError::InvariantViolation);
            },
        }
        i = i + 1;
    }
    let metadata = InstanceMetadata {
        uuid: uuid_string,
        created_at_ms: now_ms,
        network,
        containers,
        image_hash: image_hashes,
    };
    let mut pods: KvMap<InstanceMetadata> = match ctx.instances.remove(service_name) {
        Some(p) => p,
        None => KvMap::new(),
    };
    pods.insert(String::from_str(uuid), metadata);
    ctx.instances.insert(service_string, pods);
    proof {
        assert(pod_wf(service_name@, uuid@, final(ctx).instances@[service_name@]@[uuid@])) by {
            let m = final(ctx).instances@[service_name@]@[uuid@];
            assert forall|k: int| 0 <= k < m.containers@.len() implies container_meta_wf(
                service_name@,
                uuid@,
                #[trigger] m.containers@[k],
            ) by {
                assert(container_matches(
                    m.containers@[k],
                    service_name@,
                    uuid@,
                    started@[k],
                    status@,
                ));
            }
        }
        assert(crate::context::instances_wf(final(ctx).instances)) by {
            assert forall|s: Seq<char>, u: Seq<char>|
                final(ctx).instances@.contains_key(s) && (
                #[trigger] final(ctx).instances@[s])@.contains_key(u) implies pod_wf(
                s,
                u,
                #[trigger] final(ctx).instances@[s]@[u],
            ) by {
                if s == service_name@ {
                    if u != uuid@ {
                        assert(final(ctx).instances@[s]@.remove(uuid@).contains_key(u));
                    }
                } else {
                    assert(old(ctx).instances@.contains_key(s));
                    assert(final(ctx).instances@[s] == old(ctx).instances@[s]);
                }
            }
            assert forall|s: Seq<char>|
                final(ctx).instances@.contains_key(s) implies (
            #[trigger] final(ctx).instances@[s]).wf() by {
                if s != service_name@ {
                    assert(final(ctx).instances@[s] == old(ctx).instances@[s]);
                }
            }
        }
    }
    Ok(())
}

/// The abstract state of the backend store: each key's member set.
pub open spec fn backends_view(b: KvMap<BackendSet>) -> Map<Seq<char>, Set<Seq<char>>> {
    Map::new(|k: Seq<char>| b@.contains_key(k), |k: Seq<char>| b@[k].addr_set())
}

/// Add one member under a key, creating the set if need be.
pub open spec fn view_add(
    m: Map<Seq<char>, Set<Seq<char>>>,
    k: Seq<char>,
    a: Seq<char>,
) -> Map<Seq<char>, Set<Seq<char>>> {
    m.insert(
        k,
        (if m.contains_key(k) {
            m[k]
        } else {
            Set::empty()
        }).insert(a),
    )
}

pub open spec fn view_add_all(
    m: Map<Seq<char>, Set<Seq<char>>>,
    entries: Seq<(Seq<char>, Seq<char>)>,
) -> Map<Seq<char>, Set<Seq<char>>>
    decreases entries.len(),
{
    if entries.len() == 0 {
        m
    } else {
        view_add(view_add_all(m, entries.drop_last()), entries.last().0, entries.last().1)
    }
}

/// Drop one member under a key; an absent key stays absent.
pub open spec fn view_rm(
    m: Map<Seq<char>, Set<Seq<char>>>,
    k: Seq<char>,
    a: Seq<char>,
) -> Map<Seq<char>, Set<Seq<char>>> {
    if m.contains_key(k) {
        m.insert(k, m[k].remove(a))
    } else {
        m
    }
}

pub open spec fn view_rm_all(
    m: Map<Seq<char>, Set<Seq<char>>>,
    entries: Seq<(Seq<char>, Seq<char>)>,
) -> Map<Seq<char>, Set<Seq<char>>>
    decreases entries.len(),
{
    if entries.len() == 0 {
        m
    } else {
        view_rm(view_rm_all(m, entries.drop_last()), entries.last().0, entries.last().1)
    }
}

/// Adding entries only grows the member sets.
pub proof fn lemma_view_add_all_grows(
    m: Map<Seq<char>, Set<Seq<char>>>,
    entries: Seq<(Seq<char>, Seq<char>)>,
    k: Seq<char>,
    a: Seq<char>,
)
    requires
        m.contains_key(k),
        m[k].contains(a),
    ensures
        view_add_all(m, entries).contains_key(k),
        view_add_all(m, entries)[k].contains(a),
    decreases entries.len(),
{
    if entries.len() > 0 {
        lemma_view_add_all_grows(m, entries.drop_last(), k, a);
    }
}

/// Every added entry's member is present afterwards.
pub proof fn lemma_view_add_all_contains(
    m: Map<Seq<char>, Set<Seq<char>>>,
    entries: Seq<(Seq<char>, Seq<char>)>,
    j: int,
)
    requires
        0 <= j < entries.len(),
    ensures
        view_add_all(m, entries).contains_key(entries[j].0),
        view_add_all(m, entries)[entries[j].0].contains(entries[j].1),
    decreases entries.len(),
{
    if j == entries.len() - 1 {
    } else {
        lemma_view_add_all_contains(m, entries.drop_last(), j);
        let mid = view_add_all(m, entries.drop_last());
        assert(entries.drop_last()[j] == entries[j]);
        lemma_view_add_all_grows(mid, Seq::empty(), entries[j].0, entries[j].1);
        let k = entries[j].0;
        let last = entries.last();
        if last.0 == k {
            assert(view_add_all(m, entries)[k] == (if mid.contains_key(k) {
                mid[k]
            } else {
                Set::empty()
            }).insert(last.1));
        }
    }
}

/// A key no entry names keeps its old state, under additions and
/// removals alike.
pub proof fn lemma_view_all_untouched(
    m: Map<Seq<char>, Set<Seq<char>>>,
    entries: Seq<(Seq<char>, Seq<char>)>,
    k: Seq<char>,
)
    requires
        forall|i: int| 0 <= i < entries.len() ==> (#[trigger] entries[i]).0 != k,
    ensures
        view_add_all(m, entries).contains_key(k) == m.contains_key(k),
        m.contains_key(k) ==> view_add_all(m, entries)[k] == m[k],
        view_rm_all(m, entries).contains_key(k) == m.contains_key(k),
        m.contains_key(k) ==> view_rm_all(m, entries)[k] == m[k],
    decreases entries.len(),
{
    if entries.len() > 0 {
        assert(forall|i: int|
            0 <= i < entries.len() - 1 ==> (#[trigger] entries.drop_last()[i]).0 != k);
        lemma_view_all_untouched(m, entries.drop_last(), k);
        assert(entries.last().0 != k);
    }
}

/// After removing entries, each removed member is gone from its key.
pub proof fn lemma_view_rm_all_gone(
    m: Map<Seq<char>, Set<Seq<char>>>,
    entries: Seq<(Seq<char>, Seq<char>)>,
    j: int,
)
    requires
        0 <= j < entries.len(),
    ensures
        view_rm_all(m, entries).contains_key(entries[j].0) ==> !view_rm_all(m, entries)[entries[j].0].contains(
            entries[j].1,
        ),
    decreases entries.len(),
{
    if j == entries.len() - 1 {
    } else {
        lemma_view_rm_all_gone(m, entries.drop_last(), j);
        assert(entries.drop_last()[j] == entries[j]);
    }
}

/// The backend entries a pod contributes: for every container port with
/// a node port, the pair of the service's port key and the container's
/// address.
pub open spec fn port_backend_entries(
    service: Seq<char>,
    ip: Seq<char>,
    ports: Seq<ContainerPortMetadata>,
) -> Seq<(Seq<char>, Seq<char>)>
    decreases ports.len(),
{
    if ports.len() == 0 {
        Seq::empty()
    } else {
        port_backend_entries(service, ip, ports.drop_last()) + match ports.last().node_port {
            Some(np) => seq![(backend_key_seq(service, np), backend_addr_seq(ip, ports.last().port))],
            None => Seq::empty(),
        }
    }
}

pub open spec fn pod_backend_entries(
    service: Seq<char>,
    containers: Seq<ContainerMetadata>,
) -> Seq<(Seq<char>, Seq<char>)>
    decreases containers.len(),
{
    if containers.len() == 0 {
        Seq::empty()
    } else {
        pod_backend_entries(service, containers.drop_last()) + port_backend_entries(
            service,
            containers.last().ip_address@,
            containers.last().ports@,
        )
    }
}

/// Collect a pod's backend entries as strings.
#[verifier::loop_isolation(false)]
fn collect_backend_entries(service_name: &str, pod: &InstanceMetadata) -> (r: Vec<(String, String)>)
    ensures
        r@.map_values(|e: (String, String)| (e.0@, e.1@)) =~= pod_backend_entries(
            service_name@,
            pod.containers@,
        ),
{
    let mut out: Vec<(String, String)> = Vec::new();
    let n = pod.containers.len();
    let mut i: usize = 0;
    while i < n
        invariant
            0 <= i <= n,
            out@.map_values(|e: (String, String)| (e.0@, e.1@)) =~= pod_backend_entries(
                service_name@,
                pod.containers@.take(i as int),
            ),
        decreases n - i,
    {
        proof {
            assert(pod.containers@.take(i + 1).drop_last() =~= pod.containers@.take(i as int));
            assert(pod.containers@.take(i + 1).last() == pod.containers@[i as int]);
        }
        let container = &pod.containers[i];
        let m = container.ports.len();
        let mut j: usize = 0;
        while j < m
            invariant
                0 <= j <= m,
                m == container.ports@.len(),
                out@.map_values(|e: (String, String)| (e.0@, e.1@)) =~= pod_backend_entries(
                    service_name@,
                    pod.containers@.take(i as int),
                ) + port_backend_entries(
                    service_name@,
                    container.ip_address@,
                    container.ports@.take(j as int),
                ),
            decreases m - j,
        {
            proof {
                assert(container.ports@.take(j + 1).drop_last() =~= container.ports@.take(
                    j as int,
                ));
                assert(container.ports@.take(j + 1).last() == container.ports@[j as int]);
            }
            if let Some(np) = container.ports[j].node_port {
                let key = make_backend_key(service_name, np);
                let addr = make_backend_addr(container.ip_address.as_str(), container.ports[j].port);
                let ghost before = out@;
                out.push((key, addr));
                proof {
                    assert(out@.map_values(|e: (String, String)| (e.0@, e.1@)) =~= before.map_values(
                        |e: (String, String)| (e.0@, e.1@),
                    ).push((out@.last().0@, out@.last().1@)));
                }
            }
            j = j + 1;
        }
        proof {
            assert(container.ports@.take(m as int) =~= container.ports@);
        }
        i = i + 1;
    }
    proof {
        assert(pod.containers@.take(n as int) =~= pod.containers@);
    }
    out
}

/// Register a pod's addresses with the load balancer: each container's
/// address joins the member set of each of its node ports.
#[verifier::loop_isolation(false)]
pub fn add_pod_backends(backends: &mut KvMap<BackendSet>, service_name: &str, pod: &InstanceMetadata)
    requires
        old(backends).wf(),
        forall|k: Seq<char>|
            old(backends)@.contains_key(k) ==> (#[trigger] old(backends)@[k]).wf(),
    ensures
        final(backends).wf(),
        forall|k: Seq<char>|
            final(backends)@.contains_key(k) ==> (#[trigger] final(backends)@[k]).wf(),
        backends_view(*final(backends)) =~~= view_add_all(
            backends_view(*old(backends)),
            pod_backend_entries(service_name@, pod.containers@),
        ),
{
    let entries = collect_backend_entries(service_name, pod);
    let ghost entry_views = entries@.map_values(|e: (String, String)| (e.0@, e.1@));
    let n = entries.len();
    let mut i: usize = 0;
    while i < n
        invariant
            0 <= i <= n,
            backends.wf(),
            forall|k: Seq<char>|
                backends@.contains_key(k) ==> (#[trigger] backends@[k]).wf(),
            backends_view(*backends) =~~= view_add_all(
                backends_view(*old(backends)),
                entry_views.take(i as int),
            ),
        decreases n - i,
    {
        proof {
            assert(entry_views.take(i + 1).drop_last() =~= entry_views.take(i as int));
            assert(entry_views.take(i + 1).last() == entry_views[i as int]);
        }
        let ghost before = *backends;
        let mut set: BackendSet = match backends.remove(entries[i].0.as_str()) {
            Some(s) => s,
            None => BackendSet::new(),
        };
        set.insert(entries[i].1.clone());
        backends.insert(entries[i].0.clone(), set);
        proof {
            assert(backends_view(*backends) =~~= view_add(
                backends_view(before),
                entry_views[i as int].0,
                entry_views[i as int].1,
            ));
        }
        i = i + 1;
    }
    proof {
        assert(entry_views.take(n as int) =~= entry_views);
    }
}

/// Withdraw a pod's addresses from the load balancer: each container's
/// address leaves the member set of each of its node ports.
#[verifier::loop_isolation(false)]
pub fn remove_pod_backends(
    backends: &mut KvMap<BackendSet>,
    service_name: &str,
    pod: &InstanceMetadata,
)
    requires
        old(backends).wf(),
        forall|k: Seq<char>|
            old(backends)@.contains_key(k) ==> (#[trigger] old(backends)@[k]).wf(),
    ensures
        final(backends).wf(),
        forall|k: Seq<char>|
            final(backends)@.contains_key(k) ==> (#[trigger] final(backends)@[k]).wf(),
        backends_view(*final(backends)) =~~= view_rm_all(
            backends_view(*old(backends)),
            pod_backend_entries(service_name@, pod.containers@),
        ),
{
    let entries = collect_backend_entries(service_name, pod);
    let ghost entry_views = entries@.map_values(|e: (String, String)| (e.0@, e.1@));
    let n = entries.len();
    let mut i: usize = 0;
    while i < n
        invariant
            0 <= i <= n,
            backends.wf(),
            forall|k: Seq<char>|
                backends@.contains_key(k) ==> (#[trigger] backends@[k]).wf(),
            backends_view(*backends) =~~= view_rm_all(
                backends_view(*old(backends)),
                entry_views.take(i as int),
            ),
        decreases n - i,
    {
        proof {
            assert(entry_views.take(i + 1).drop_last() =~= entry_views.take(i as int));
            assert(entry_views.take(i + 1).last() == entry_views[i as int]);
        }
        let ghost before = *backends;
        match backends.remove(entries[i].0.as_str()) {
            Some(mut set) => {
                set.remove(entries[i].1.as_str());
                backends.insert(entries[i].0.clone(), set);
                proof {
                    assert(backends_view(*backends) =~~= view_rm(
                        backends_view(before),
                        entry_views[i as int].0,
                        entry_views[i as int].1,
                    ));
                }
            },
            None => {
                proof {
                    assert(backends_view(*backends) =~~= view_rm(
                        backends_view(before),
                        entry_views[i as int].0,
                        entry_views[i as int].1,
                    ));
                }
            },
        }
        i = i + 1;
    }
    proof {
        assert(entry_views.take(n as int) =~= entry_views);
    }
}

/// A declared port contributes its pair to the container's entries.
proof fn lemma_port_entries_contains(
    service: Seq<char>,
    ip: Seq<char>,
    ports: Seq<ContainerPortMetadata>,
    pi: int,
)
    requires
        0 <= pi < ports.len(),
        ports[pi].node_port is Some,
    ensures
        port_backend_entries(service, ip, ports).contains(
            (backend_key_seq(service, ports[pi].node_port->0), backend_addr_seq(
                ip,
                ports[pi].port,
            )),
        ),
    decreases ports.len(),
{
    let e = (backend_key_seq(service, ports[pi].node_port->0), backend_addr_seq(
        ip,
        ports[pi].port,
    ));
    if pi == ports.len() - 1 {
        let all = port_backend_entries(service, ip, ports);
        assert(all[all.len() - 1] == e);
    } else {
        assert(ports.drop_last()[pi] == ports[pi]);
        lemma_port_entries_contains(service, ip, ports.drop_last(), pi);
        let pre = port_backend_entries(service, ip, ports.drop_last());
        let j = choose|j: int| 0 <= j < pre.len() && pre[j] == e;
        assert(port_backend_entries(service, ip, ports)[j] == e);
    }
}

/// A declared port of any container contributes its pair to the pod's
/// entries.
proof fn lemma_pod_backend_entries_contains(
    service: Seq<char>,
    containers: Seq<ContainerMetadata>,
    ci: int,
    pi: int,
)
    requires
        0 <= ci < containers.len(),
        0 <= pi < containers[ci].ports@.len(),
        containers[ci].ports@[pi].node_port is Some,
    ensures
        pod_backend_entries(service, containers).contains(
            (backend_key_seq(service, containers[ci].ports@[pi].node_port->0), backend_addr_seq(
                containers[ci].ip_address@,
                containers[ci].ports@[pi].port,
            )),
        ),
    decreases containers.len(),
{
    let e = (backend_key_seq(service, containers[ci].ports@[pi].node_port->0), backend_addr_seq(
        containers[ci].ip_address@,
        containers[ci].ports@[pi].port,
    ));
    if ci == containers.len() - 1 {
        lemma_port_entries_contains(
            service,
            containers[ci].ip_address@,
            containers[ci].ports@,
            pi,
        );
        let tail = port_backend_entries(
            service,
            containers[ci].ip_address@,
            containers[ci].ports@,
        );
        let j = choose|j: int| 0 <= j < tail.len() && tail[j] == e;
        let pre = pod_backend_entries(service, containers.drop_last());
        assert(pod_backend_entries(service, containers)[pre.len() + j] == e);
    } else {
        assert(containers.drop_last()[ci] == containers[ci]);
        lemma_pod_backend_entries_contains(service, containers.drop_last(), ci, pi);
        let pre = pod_backend_entries(service, containers.drop_last());
        let j = choose|j: int| 0 <= j < pre.len() && pre[j] == e;
        assert(pod_backend_entries(service, containers)[j] == e);
    }
}

/// An added entry's member is present after the additions.
proof fn lemma_view_add_all_member(
    m: Map<Seq<char>, Set<Seq<char>>>,
    entries: Seq<(Seq<char>, Seq<char>)>,
    e: (Seq<char>, Seq<char>),
)
    requires
        entries.contains(e),
    ensures
        view_add_all(m, entries).contains_key(e.0),
        view_add_all(m, entries)[e.0].contains(e.1),
{
    let j = choose|j: int| 0 <= j < entries.len() && entries[j] == e;
    lemma_view_add_all_contains(m, entries, j);
}

/// Start one pod: record it under its service and register each of its
/// containers' addresses with the load balancer.  Afterwards every
/// container of the pod has a live backend entry under each of its node
/// ports.  Succeeds exactly as `register_pod` does; on failure nothing
/// changes.
pub fn start_pod(
    ctx: &mut RuntimeContext,
    service_name: &str,
    uuid: &str,
    started: &Vec<(String, String, Vec<ContainerPortMetadata>)>,
    image_hashes: KvMap<String>,
    status: &str,
    now_ms: u64,
) -> (r: Result<(), OrchestratorError>)
    requires
        old(ctx).wf(),
        image_hashes.wf(),
    ensures
        final(ctx).wf(),
        final(ctx).configs == old(ctx).configs,
        final(ctx).scaling_tasks == old(ctx).scaling_tasks,
        final(ctx).image_check_tasks == old(ctx).image_check_tasks,
        final(ctx).container_health == old(ctx).container_health,
        final(ctx).container_stats == old(ctx).container_stats,
        final(ctx).service_stats == old(ctx).service_stats,
        r is Ok <==> is_uuid_seq(uuid@) && started_names_match(service_name@, uuid@, started@),
        match r {
            Ok(()) => {
                &&& final(ctx).instances@.contains_key(service_name@)
                &&& final(ctx).instances@[service_name@]@.contains_key(uuid@)
                &&& registered_pod_matches(
                    final(ctx).instances@[service_name@]@[uuid@],
                    service_name@,
                    uuid@,
                    started@,
                    image_hashes,
                    status@,
                    now_ms,
                )
                &&& final(ctx).instances@.remove(service_name@) =~= old(ctx).instances@.remove(
                    service_name@,
                )
                &&& {
                    let m = final(ctx).instances@[service_name@]@[uuid@];
                    forall|ci: int, pi: int|
                        #![trigger m.containers@[ci].ports@[pi]]
                        0 <= ci < m.containers@.len() && 0 <= pi < m.containers@[ci].ports@.len()
                            && m.containers@[ci].ports@[pi].node_port is Some ==> {
                            let key = backend_key_seq(
                                service_name@,
                                m.containers@[ci].ports@[pi].node_port->0,
                            );
                            let addr = backend_addr_seq(
                                m.containers@[ci].ip_address@,
                                m.containers@[ci].ports@[pi].port,
                            );
                            &&& final(ctx).backends@.contains_key(key)
                            &&& final(ctx).backends@[key].addr_set().contains(addr)
                        }
                }
            },
            Err(e) => e == OrchestratorError::InvariantViolation && *final(ctx) == *old(ctx),
        },
{
    match register_pod(ctx, service_name, uuid, started, image_hashes, status, now_ms) {
        Ok(()) => {},
        Err(e) => {
            return Err(e);
        },
    }
    let ghost ctx1 = *ctx;
    let mut pods = match ctx.instances.remove(service_name) {
        Some(p) => p,
        None => KvMap::new(),
    };
    {
        let pod = match pods.get(uuid) {
            Some(p) => p,
            None => {
                proof {
                    assert(false);
                }
                return Err(OrchestratorError::InvariantViolation);
            },
        };
        add_pod_backends(&mut ctx.backends, service_name, pod);
        proof {
            let m = ctx1.instances@[service_name@]@[uuid@];
            assert(*pod == m);
            let entries = pod_backend_entries(service_name@, m.containers@);
            assert forall|ci: int, pi: int|
                #![trigger m.containers@[ci].ports@[pi]]
                0 <= ci < m.containers@.len() && 0 <= pi < m.containers@[ci].ports@.len()
                    && m.containers@[ci].ports@[pi].node_port is Some implies {
                    let key = backend_key_seq(
                        service_name@,
                        m.containers@[ci].ports@[pi].node_port->0,
                    );
                    let addr = backend_addr_seq(
                        m.containers@[ci].ip_address@,
                        m.containers@[ci].ports@[pi].port,
                    );
                    &&& ctx.backends@.contains_key(key)
                    &&& ctx.backends@[key].addr_set().contains(addr)
                } by {
                let key = backend_key_seq(
                    service_name@,
                    m.containers@[ci].ports@[pi].node_port->0,
                );
                let addr = backend_addr_seq(
                    m.containers@[ci].ip_address@,
                    m.containers@[ci].ports@[pi].port,
                );
                lemma_pod_backend_entries_contains(service_name@, m.containers@, ci, pi);
                lemma_view_add_all_member(
                    backends_view(ctx1.backends),
                    entries,
                    (key, addr),
                );
                assert(backends_view(ctx.backends).contains_key(key));
                assert(backends_view(ctx.backends)[key] == ctx.backends@[key].addr_set());
            }
        }
    }
    ctx.instances.insert(String::from_str(service_name), pods);
    proof {
        assert(final(ctx).instances@ =~= ctx1.instances@);
        assert(crate::context::instances_wf(final(ctx).instances)) by {
            assert forall|s: Seq<char>|
                final(ctx).instances@.contains_key(s) implies (
            #[trigger] final(ctx).instances@[s]).wf() by {
                assert(final(ctx).instances@[s] == ctx1.instances@[s]);
            }
            assert forall|s: Seq<char>, u: Seq<char>|
                final(ctx).instances@.contains_key(s) && (
                #[trigger] final(ctx).instances@[s])@.contains_key(u) implies pod_wf(
                s,
                u,
                #[trigger] final(ctx).instances@[s]@[u],
            ) by {
                assert(final(ctx).instances@[s] == ctx1.instances@[s]);
            }
        }
    }
    Ok(())
}

/// The scaling-task key reserved for a service's updater helper:
/// `"{service}_updater"`.
pub open spec fn updater_key_seq(service: Seq<char>) -> Seq<char> {
    service + seq!['_', 'u', 'p', 'd', 'a', 't', 'e', 'r']
}

/// Format the updater-task key.
pub fn make_updater_key(service_name: &str) -> (r: String)
    ensures
        r@ == updater_key_seq(service_name@),
{
    proof {
        reveal_strlit("_updater");
        assert("_updater"@ =~= seq!['_', 'u', 'p', 'd', 'a', 't', 'e', 'r']);
    }
    let mut s = String::new();
    s.append(service_name);
    s.append("_updater");
    proof {
        assert(s@ =~= updater_key_seq(service_name@));
    }
    s
}

/// A backend key of this service: `"{service}_..."`, with names free of
/// underscores this prefix is unambiguous.
pub open spec fn is_service_backend_key(service: Seq<char>, k: Seq<char>) -> bool {
    &&& k.len() > service.len()
    &&& k.subrange(0, service.len() as int) == service
    &&& k[service.len() as int] == '_'
}

#[verifier::loop_isolation(false)]
fn key_has_service_prefix(key: &str, service_name: &str) -> (r: bool)
    ensures
        r == is_service_backend_key(service_name@, key@),
{
    let klen = key.unicode_len();
    let slen = service_name.unicode_len();
    if klen <= slen {
        proof {
            if is_service_backend_key(service_name@, key@) {
                assert(key@.len() > service_name@.len());
            }
        }
        return false;
    }
    let mut i: usize = 0;
    while i < slen
        invariant
            0 <= i <= slen,
            forall|j: int| 0 <= j < i ==> key@[j] == service_name@[j],
        decreases slen - i,
    {
        if key.get_char(i) != service_name.get_char(i) {
            proof {
                if is_service_backend_key(service_name@, key@) {
                    assert(key@.subrange(0, slen as int)[i as int] == service_name@[i as int]);
                }
            }
            return false;
        }
        i = i + 1;
    }
    let r = key.get_char(slen) == '_';
    proof {
        if r {
            assert(key@.subrange(0, slen as int) =~= service_name@);
        } else {
            if is_service_backend_key(service_name@, key@) {
                assert(key@[slen as int] == '_');
            }
        }
    }
    r
}

/// Drop every backend key of this service.
#[verifier::loop_isolation(false)]
fn remove_service_backends(backends: &mut KvMap<BackendSet>, service_name: &str)
    requires
        old(backends).wf(),
    ensures
        final(backends).wf(),
        forall|k: Seq<char>|
            #[trigger] final(backends)@.contains_key(k) <==> (old(backends)@.contains_key(k)
                && !is_service_backend_key(service_name@, k)),
        forall|k: Seq<char>|
            final(backends)@.contains_key(k) ==> #[trigger] final(backends)@[k] == old(
                backends,
            )@[k],
{
    let mut doomed: Vec<String> = Vec::new();
    let n = backends.len();
    let mut i: usize = 0;
    proof {
        backends.lemma_keys();
    }
    while i < n
        invariant
            0 <= i <= n,
            forall|idx: int|
                0 <= idx < doomed@.len() ==> {
                    &&& is_service_backend_key(service_name@, (#[trigger] doomed@[idx])@)
                    &&& backends@.contains_key(doomed@[idx]@)
                },
            forall|j: int|
                0 <= j < i && is_service_backend_key(
                    service_name@,
                    #[trigger] backends.key_seq()[j],
                ) ==> doomed@.map_values(|s: String| s@).contains(backends.key_seq()[j]),
        decreases n - i,
    {
        let key = backends.key_at(i);
        if key_has_service_prefix(key.as_str(), service_name) {
            let ghost before = doomed@;
            doomed.push(key.clone());
            proof {
                assert(doomed@.map_values(|s: String| s@).last() == backends.key_seq()[i as int]);
                assert forall|j: int|
                    0 <= j < i + 1 && is_service_backend_key(
                        service_name@,
                        #[trigger] backends.key_seq()[j],
                    ) implies doomed@.map_values(|s: String| s@).contains(
                    backends.key_seq()[j],
                ) by {
                    let views = doomed@.map_values(|s: String| s@);
                    let old_views = before.map_values(|s: String| s@);
                    if j < i {
                        let idx = choose|idx: int|
                            0 <= idx < old_views.len() && #[trigger] old_views[idx]
                                == backends.key_seq()[j];
                        assert(views[idx] == backends.key_seq()[j]);
                    } else {
                        assert(views[views.len() - 1] == backends.key_seq()[j]);
                    }
                }
            }
        }
        i = i + 1;
    }
    let ghost doomed_views = doomed@.map_values(|s: String| s@);
    let m = doomed.len();
    let mut p: usize = 0;
    while p < m
        invariant
            0 <= p <= m,
            backends.wf(),
            backends@ =~= remove_keys(old(backends)@, doomed_views.take(p as int)),
        decreases m - p,
    {
        proof {
            assert(doomed_views.take(p + 1).drop_last() =~= doomed_views.take(p as int));
            assert(doomed_views.take(p + 1).last() == doomed_views[p as int]);
        }
        backends.remove(doomed[p].as_str());
        p = p + 1;
    }
    proof {
        assert(doomed_views.take(m as int) =~= doomed_views);
        lemma_remove_keys(old(backends)@, doomed_views);
        assert forall|k: Seq<char>|
            #[trigger] final(backends)@.contains_key(k) <==> (old(backends)@.contains_key(k)
                && !is_service_backend_key(service_name@, k)) by {
            if old(backends)@.contains_key(k) {
                if is_service_backend_key(service_name@, k) {
                    old(backends).lemma_keys();
                    let j = choose|j: int|
                        0 <= j < old(backends).key_seq().len() && #[trigger] old(
                            backends,
                        ).key_seq()[j] == k;
                    assert(doomed_views.contains(k));
                } else {
                    if doomed_views.contains(k) {
                        let idx = choose|idx: int|
                            0 <= idx < doomed_views.len() && doomed_views[idx] == k;
                        assert(is_service_backend_key(service_name@, doomed@[idx]@));
                    }
                }
            }
        }
    }
}

/// Is `name` the runtime name of some container of these pods?
pub open spec fn pods_have_container(pods: KvMap<InstanceMetadata>, name: Seq<char>) -> bool {
    exists|u: Seq<char>, i: int|
        pods@.contains_key(u) && 0 <= i < pods@[u].containers@.len() && (
        #[trigger] pods@[u].containers@[i]).name@ == name
}

/// Collect the runtime names of every container of these pods.
#[verifier::loop_isolation(false)]
fn collect_pod_container_names(pods: &KvMap<InstanceMetadata>) -> (r: Vec<String>)
    requires
        pods.wf(),
    ensures
        forall|idx: int|
            0 <= idx < r@.len() ==> pods_have_container(*pods, (#[trigger] r@[idx])@),
        forall|u: Seq<char>, ci: int|
            pods@.contains_key(u) && 0 <= ci < pods@[u].containers@.len() ==> r@.map_values(
                |s: String| s@,
            ).contains((#[trigger] pods@[u].containers@[ci]).name@),
{
    let mut out: Vec<String> = Vec::new();
    let n = pods.len();
    let mut i: usize = 0;
    proof {
        pods.lemma_keys();
    }
    while i < n
        invariant
            0 <= i <= n,
            forall|idx: int|
                0 <= idx < out@.len() ==> pods_have_container(*pods, (#[trigger] out@[idx])@),
            forall|j: int, ci: int|
                #![trigger pods@[pods.key_seq()[j]].containers@[ci]]
                0 <= j < i && 0 <= ci < pods@[pods.key_seq()[j]].containers@.len()
                    ==> out@.map_values(|s: String| s@).contains(
                    pods@[pods.key_seq()[j]].containers@[ci].name@,
                ),
        decreases n - i,
    {
        let pod = pods.val_at(i);
        let ghost u = pods.key_seq()[i as int];
        let m = pod.containers.len();
        let mut ci: usize = 0;
        while ci < m
            invariant
                0 <= ci <= m,
                i < n,
                m == pods@[u].containers@.len(),
                *pod == pods@[u],
                pods@.contains_key(u),
                forall|idx: int|
                    0 <= idx < out@.len() ==> pods_have_container(*pods, (#[trigger] out@[idx])@),
                forall|j: int, cj: int|
                    #![trigger pods@[pods.key_seq()[j]].containers@[cj]]
                    0 <= j < i && 0 <= cj < pods@[pods.key_seq()[j]].containers@.len()
                        ==> out@.map_values(|s: String| s@).contains(
                        pods@[pods.key_seq()[j]].containers@[cj].name@,
                    ),
                forall|cj: int|
                    0 <= cj < ci ==> out@.map_values(|s: String| s@).contains(
                        (#[trigger] pods@[u].containers@[cj]).name@,
                    ),
            decreases m - ci,
        {
            let ghost before = out@;
            out.push(pod.containers[ci].name.clone());
            proof {
                assert(pods_have_container(*pods, out@.last()@)) by {
                    assert(pods@[u].containers@[ci as int].name@ == out@.last()@);
                }
                assert forall|idx: int|
                    0 <= idx < out@.len() implies pods_have_container(
                    *pods,
                    (#[trigger] out@[idx])@,
                ) by {
                    if idx < before.len() {
                        assert(out@[idx] == before[idx]);
                    }
                }
                let views = out@.map_values(|s: String| s@);
                let old_views = before.map_values(|s: String| s@);
                assert forall|j: int, cj: int|
                    #![trigger pods@[pods.key_seq()[j]].containers@[cj]]
                    0 <= j < i && 0 <= cj < pods@[pods.key_seq()[j]].containers@.len()
                        implies views.contains(pods@[pods.key_seq()[j]].containers@[cj].name@) by {
                    let nm = pods@[pods.key_seq()[j]].containers@[cj].name@;
                    let idx = choose|idx: int|
                        0 <= idx < old_views.len() && old_views[idx] == nm;
                    assert(views[idx] == nm);
                }
                assert forall|cj: int| 0 <= cj < ci + 1 implies views.contains(
                    (#[trigger] pods@[u].containers@[cj]).name@,
                ) by {
                    if cj < ci {
                        let nm = pods@[u].containers@[cj].name@;
                        let idx = choose|idx: int|
                            0 <= idx < old_views.len() && old_views[idx] == nm;
                        assert(views[idx] == nm);
                    } else {
                        assert(views[views.len() - 1] == pods@[u].containers@[cj].name@);
                    }
                }
            }
            ci = ci + 1;
        }
        i = i + 1;
    }
    proof {
        assert forall|u: Seq<char>, ci: int|
            pods@.contains_key(u) && 0 <= ci < pods@[u].containers@.len() implies out@.map_values(
            |s: String| s@,
        ).contains((#[trigger] pods@[u].containers@[ci]).name@) by {
            let j = choose|j: int|
                0 <= j < pods.key_seq().len() && #[trigger] pods.key_seq()[j] == u;
        }
    }
    out
}

/// What `stop_service` hands back: the aborted task ids and the removed
/// pods, whose containers and networks the caller must stop.
pub struct StopPlan {
    pub scaling_task: Option<u64>,
    pub updater_task: Option<u64>,
    pub image_check_task: Option<u64>,
    pub instances: Option<KvMap<InstanceMetadata>>,
}

/// Tear a service out of every store: its scaling, updater and
/// image-check tasks, its load-balancer keys, its pods, their stats and
/// health records, and its service-level stats.  Afterwards the service
/// appears in no store; the returned pods are the caller's to stop.
#[verifier::loop_isolation(false)]
pub fn stop_service(ctx: &mut RuntimeContext, service_name: &str) -> (r: StopPlan)
    requires
        old(ctx).wf(),
    ensures
        final(ctx).wf(),
        final(ctx).configs == old(ctx).configs,
        final(ctx).scaling_tasks@ =~= old(ctx).scaling_tasks@.remove(service_name@).remove(
            updater_key_seq(service_name@),
        ),
        final(ctx).image_check_tasks@ =~= old(ctx).image_check_tasks@.remove(service_name@),
        final(ctx).instances@ =~= old(ctx).instances@.remove(service_name@),
        final(ctx).service_stats@ =~= old(ctx).service_stats@.remove(service_name@),
        !final(ctx).scaling_tasks@.contains_key(service_name@),
        !final(ctx).image_check_tasks@.contains_key(service_name@),
        !final(ctx).instances@.contains_key(service_name@),
        !final(ctx).service_stats@.contains_key(service_name@),
        forall|k: Seq<char>|
            #[trigger] final(ctx).backends@.contains_key(k) <==> (old(ctx).backends@.contains_key(
                k,
            ) && !is_service_backend_key(service_name@, k)),
        forall|k: Seq<char>|
            final(ctx).backends@.contains_key(k) ==> #[trigger] final(ctx).backends@[k] == old(
                ctx,
            ).backends@[k],
        r.instances == (if old(ctx).instances@.contains_key(service_name@) {
            Some(old(ctx).instances@[service_name@])
        } else {
            None::<KvMap<InstanceMetadata>>
        }),
        match r.instances {
            Some(pods) => {
                &&& forall|k: Seq<char>|
                    #[trigger] final(ctx).container_stats@.contains_key(k) <==> (old(
                        ctx,
                    ).container_stats@.contains_key(k) && !pods_have_container(pods, k))
                &&& forall|k: Seq<char>|
                    #[trigger] final(ctx).container_health@.contains_key(k) <==> (old(
                        ctx,
                    ).container_health@.contains_key(k) && !pods_have_container(pods, k))
            },
            None => {
                &&& final(ctx).container_stats@ =~= old(ctx).container_stats@
                &&& final(ctx).container_health@ =~= old(ctx).container_health@
            },
        },
{
    let scaling_task = ctx.scaling_tasks.remove(service_name);
    let updater_key = make_updater_key(service_name);
    let updater_task = ctx.scaling_tasks.remove(updater_key.as_str());
    let image_check_task = ctx.image_check_tasks.remove(service_name);
    remove_service_backends(&mut ctx.backends, service_name);
    let instances = ctx.instances.remove(service_name);
    match &instances {
        Some(pods) => {
            let names = collect_pod_container_names(pods);
            let ghost name_views = names@.map_values(|s: String| s@);
            let ghost stats0 = ctx.container_stats@;
            let ghost health0 = ctx.container_health@;
            let ghost mid = *ctx;
            let m = names.len();
            let mut p: usize = 0;
            while p < m
                invariant
                    0 <= p <= m,
                    ctx.container_stats.wf(),
                    ctx.container_health.wf(),
                    ctx.container_stats@ =~= remove_keys(stats0, name_views.take(p as int)),
                    ctx.container_health@ =~= remove_keys(health0, name_views.take(p as int)),
                    ctx.configs == mid.configs,
                    ctx.instances == mid.instances,
                    ctx.scaling_tasks == mid.scaling_tasks,
                    ctx.image_check_tasks == mid.image_check_tasks,
                    ctx.backends == mid.backends,
                    ctx.service_stats == mid.service_stats,
                decreases m - p,
            {
                proof {
                    assert(name_views.take(p + 1).drop_last() =~= name_views.take(p as int));
                    assert(name_views.take(p + 1).last() == name_views[p as int]);
                }
                ctx.container_stats.remove(names[p].as_str());
                ctx.container_health.remove(names[p].as_str());
                p = p + 1;
            }
            proof {
                assert(name_views.take(m as int) =~= name_views);
                lemma_remove_keys(stats0, name_views);
                lemma_remove_keys(health0, name_views);
                assert forall|k: Seq<char>| name_views.contains(k) <==> pods_have_container(
                    *pods,
                    k,
                ) by {
                    if name_views.contains(k) {
                        let idx = choose|idx: int|
                            0 <= idx < name_views.len() && name_views[idx] == k;
                        assert(pods_have_container(*pods, names@[idx]@));
                    }
                    if pods_have_container(*pods, k) {
                        let (u, ci) = choose|u: Seq<char>, ci: int|
                            pods@.contains_key(u) && 0 <= ci < pods@[u].containers@.len() && (
                            #[trigger] pods@[u].containers@[ci]).name@ == k;
                    }
                }
            }
        },
        None => {},
    }
    ctx.service_stats.remove(service_name);
    proof {
        assert(crate::context::instances_wf(final(ctx).instances)) by {
            assert forall|s: Seq<char>|
                final(ctx).instances@.contains_key(s) implies (
            #[trigger] final(ctx).instances@[s]).wf() by {
                assert(final(ctx).instances@[s] == old(ctx).instances@[s]);
            }
            assert forall|s: Seq<char>, u: Seq<char>|
                final(ctx).instances@.contains_key(s) && (
                #[trigger] final(ctx).instances@[s])@.contains_key(u) implies pod_wf(
                s,
                u,
                #[trigger] final(ctx).instances@[s]@[u],
            ) by {
                assert(final(ctx).instances@[s] == old(ctx).instances@[s]);
            }
        }
        assert forall|k: Seq<char>|
            final(ctx).backends@.contains_key(k) implies (#[trigger] final(ctx).backends@[k]).wf()
            by {
            assert(final(ctx).backends@[k] == old(ctx).backends@[k]);
        }
        assert forall|k: Seq<char>|
            final(ctx).service_stats@.contains_key(k) implies (
        #[trigger] final(ctx).service_stats@[k]).wf() by {
            assert(final(ctx).service_stats@[k] == old(ctx).service_stats@[k]);
        }
    }
    StopPlan { scaling_task, updater_task, image_check_task, instances }
}

/// Membership after removals: an address survives under its key exactly
/// when it was there and no entry removed it; keys themselves survive.
pub proof fn lemma_view_rm_all_membership(
    m: Map<Seq<char>, Set<Seq<char>>>,
    entries: Seq<(Seq<char>, Seq<char>)>,
)
    ensures
        forall|k: Seq<char>|
            #[trigger] view_rm_all(m, entries).contains_key(k) == m.contains_key(k),
        forall|k: Seq<char>, a: Seq<char>|
            view_rm_all(m, entries).contains_key(k) ==> (#[trigger] view_rm_all(m, entries)[k].contains(
                a,
            ) <==> (m[k].contains(a) && !entries.contains((k, a)))),
    decreases entries.len(),
{
    if entries.len() > 0 {
        lemma_view_rm_all_membership(m, entries.drop_last());
        let mid = view_rm_all(m, entries.drop_last());
        let last = entries.last();
        assert forall|k: Seq<char>, a: Seq<char>|
            view_rm_all(m, entries).contains_key(k) implies (#[trigger] view_rm_all(m, entries)[k].contains(
            a,
        ) <==> (m[k].contains(a) && !entries.contains((k, a)))) by {
            assert(entries.contains((k, a)) <==> (entries.drop_last().contains((k, a)) || (k, a)
                == last)) by {
                if entries.contains((k, a)) {
                    let i = choose|i: int| 0 <= i < entries.len() && entries[i] == (k, a);
                    if i < entries.len() - 1 {
                        assert(entries.drop_last()[i] == (k, a));
                    }
                }
                if entries.drop_last().contains((k, a)) {
                    let i = choose|i: int|
                        0 <= i < entries.drop_last().len() && entries.drop_last()[i] == (k, a);
                    assert(entries[i] == (k, a));
                }
                if (k, a) == last {
                    assert(entries[entries.len() - 1] == (k, a));
                }
            }
        }
    }
}

/// What `clean_up` hands back: the aborted scaling task and the removed
/// pods, whose containers the caller must stop and whose networks it
/// must remove.
pub struct CleanupPlan {
    pub scaling_task: Option<u64>,
    pub instances: Option<KvMap<InstanceMetadata>>,
}

/// An address one of these pods contributes under a key.
pub open spec fn pods_backend_entry(
    pods: KvMap<InstanceMetadata>,
    service: Seq<char>,
    k: Seq<char>,
    a: Seq<char>,
) -> bool {
    exists|u: Seq<char>|
        #[trigger] pods@.contains_key(u) && pod_backend_entries(
            service,
            pods@[u].containers@,
        ).contains((k, a))
}

/// Release a service's resources: abort its scaling task, forget its
/// pods, withdraw each pod's addresses from the load balancer, and drop
/// its stats.  The returned pods are the caller's to stop.
#[verifier::loop_isolation(false)]
pub fn clean_up(ctx: &mut RuntimeContext, service_name: &str) -> (r: CleanupPlan)
    requires
        old(ctx).wf(),
    ensures
        final(ctx).wf(),
        final(ctx).configs == old(ctx).configs,
        final(ctx).image_check_tasks == old(ctx).image_check_tasks,
        final(ctx).container_health == old(ctx).container_health,
        final(ctx).scaling_tasks@ =~= old(ctx).scaling_tasks@.remove(service_name@),
        final(ctx).instances@ =~= old(ctx).instances@.remove(service_name@),
        final(ctx).service_stats@ =~= old(ctx).service_stats@.remove(service_name@),
        !final(ctx).instances@.contains_key(service_name@),
        r.instances == (if old(ctx).instances@.contains_key(service_name@) {
            Some(old(ctx).instances@[service_name@])
        } else {
            None::<KvMap<InstanceMetadata>>
        }),
        match r.instances {
            Some(pods) => {
                &&& forall|k: Seq<char>|
                    #[trigger] final(ctx).backends@.contains_key(k)
                        == old(ctx).backends@.contains_key(k)
                &&& forall|k: Seq<char>, a: Seq<char>|
                    final(ctx).backends@.contains_key(k) ==> (
                    #[trigger] final(ctx).backends@[k].addr_set().contains(a)
                        <==> (old(ctx).backends@[k].addr_set().contains(a)
                        && !pods_backend_entry(pods, service_name@, k, a)))
                &&& forall|k: Seq<char>|
                    #[trigger] final(ctx).container_stats@.contains_key(k)
                        <==> (old(ctx).container_stats@.contains_key(k)
                        && !pods_have_container(pods, k))
            },
            None => {
                &&& final(ctx).backends == old(ctx).backends
                &&& final(ctx).container_stats@ =~= old(ctx).container_stats@
            },
        },
{
    let scaling_task = ctx.scaling_tasks.remove(service_name);
    let instances = ctx.instances.remove(service_name);
    match &instances {
        Some(pods) => {
            proof {
                pods.lemma_keys();
            }
            let ghost view0 = backends_view(old(ctx).backends);
            let ghost mid = *ctx;
            let n = pods.len();
            let mut i: usize = 0;
            while i < n
                invariant
                    0 <= i <= n,
                    ctx.backends.wf(),
                    forall|k: Seq<char>|
                        ctx.backends@.contains_key(k) ==> (#[trigger] ctx.backends@[k]).wf(),
                    ctx.configs == mid.configs,
                    ctx.instances == mid.instances,
                    ctx.scaling_tasks == mid.scaling_tasks,
                    ctx.image_check_tasks == mid.image_check_tasks,
                    ctx.container_health == mid.container_health,
                    ctx.container_stats == mid.container_stats,
                    ctx.service_stats == mid.service_stats,
                    forall|k: Seq<char>|
                        #[trigger] ctx.backends@.contains_key(k) == view0.contains_key(k),
                    forall|k: Seq<char>, a: Seq<char>|
                        ctx.backends@.contains_key(k) ==> (#[trigger] ctx.backends@[k].addr_set().contains(
                            a,
                        ) <==> (view0[k].contains(a) && !(exists|j: int|
                            0 <= j < i && pod_backend_entries(
                                service_name@,
                                pods@[#[trigger] pods.key_seq()[j]].containers@,
                            ).contains((k, a))))),
                decreases n - i,
            {
                let pod = pods.val_at(i);
                let ghost before_view = backends_view(ctx.backends);
                let ghost entries = pod_backend_entries(service_name@, pod.containers@);
                remove_pod_backends(&mut ctx.backends, service_name, pod);
                proof {
                    lemma_view_rm_all_membership(before_view, entries);
                    assert forall|k: Seq<char>|
                        #[trigger] ctx.backends@.contains_key(k) == view0.contains_key(k) by {
                        assert(backends_view(ctx.backends).contains_key(k)
                            == ctx.backends@.contains_key(k));
                        assert(view_rm_all(before_view, entries).contains_key(k)
                            == before_view.contains_key(k));
                    }
                    assert forall|k: Seq<char>, a: Seq<char>|
                        ctx.backends@.contains_key(k) implies (#[trigger] ctx.backends@[k].addr_set().contains(
                        a,
                    ) <==> (view0[k].contains(a) && !(exists|j: int|
                        0 <= j < i + 1 && pod_backend_entries(
                            service_name@,
                            pods@[#[trigger] pods.key_seq()[j]].containers@,
                        ).contains((k, a))))) by {
                        assert(backends_view(ctx.backends).contains_key(k));
                        assert(backends_view(ctx.backends)[k] == ctx.backends@[k].addr_set());
                        assert(before_view.contains_key(k));
                        assert(before_view[k].contains(a) <==> (view0[k].contains(a) && !(exists|
                            j: int,
                        |
                            0 <= j < i && pod_backend_entries(
                                service_name@,
                                pods@[#[trigger] pods.key_seq()[j]].containers@,
                            ).contains((k, a)))));
                        if ctx.backends@[k].addr_set().contains(a) {
                            assert(before_view[k].contains(a) && !entries.contains((k, a)));
                            assert forall|j: int|
                                0 <= j < i + 1 implies !pod_backend_entries(
                                service_name@,
                                pods@[#[trigger] pods.key_seq()[j]].containers@,
                            ).contains((k, a)) by {
                                if j == i {
                                    assert(pods@[pods.key_seq()[i as int]] == *pod);
                                }
                            }
                        } else {
                            if view0[k].contains(a) && !(exists|j: int|
                                0 <= j < i + 1 && pod_backend_entries(
                                    service_name@,
                                    pods@[#[trigger] pods.key_seq()[j]].containers@,
                                ).contains((k, a))) {
                                assert(!pod_backend_entries(
                                    service_name@,
                                    pods@[pods.key_seq()[i as int]].containers@,
                                ).contains((k, a)));
                                assert(pods@[pods.key_seq()[i as int]] == *pod);
                                assert(before_view[k].contains(a));
                                assert(ctx.backends@[k].addr_set().contains(a));
                            }
                        }
                    }
                }
                i = i + 1;
            }
            let names = collect_pod_container_names(pods);
            let ghost name_views = names@.map_values(|s: String| s@);
            let ghost stats0 = ctx.container_stats@;
            let ghost mid2 = *ctx;
            let m = names.len();
            let mut p: usize = 0;
            while p < m
                invariant
                    0 <= p <= m,
                    ctx.container_stats.wf(),
                    ctx.container_stats@ =~= remove_keys(stats0, name_views.take(p as int)),
                    ctx.configs == mid2.configs,
                    ctx.instances == mid2.instances,
                    ctx.scaling_tasks == mid2.scaling_tasks,
                    ctx.image_check_tasks == mid2.image_check_tasks,
                    ctx.backends == mid2.backends,
                    ctx.container_health == mid2.container_health,
                    ctx.service_stats == mid2.service_stats,
                decreases m - p,
            {
                proof {
                    assert(name_views.take(p + 1).drop_last() =~= name_views.take(p as int));
                    assert(name_views.take(p + 1).last() == name_views[p as int]);
                }
                ctx.container_stats.remove(names[p].as_str());
                p = p + 1;
            }
            proof {
                assert(name_views.take(m as int) =~= name_views);
                lemma_remove_keys(stats0, name_views);
                assert forall|k: Seq<char>| name_views.contains(k) <==> pods_have_container(
                    *pods,
                    k,
                ) by {
                    if name_views.contains(k) {
                        let idx = choose|idx: int|
                            0 <= idx < name_views.len() && name_views[idx] == k;
                        assert(pods_have_container(*pods, names@[idx]@));
                    }
                    if pods_have_container(*pods, k) {
                        let (u, ci) = choose|u: Seq<char>, ci: int|
                            pods@.contains_key(u) && 0 <= ci < pods@[u].containers@.len() && (
                            #[trigger] pods@[u].containers@[ci]).name@ == k;
                    }
                }
            }
        },
        None => {},
    }
    ctx.service_stats.remove(service_name);
    proof {
        assert(crate::context::instances_wf(final(ctx).instances)) by {
            assert forall|s: Seq<char>|
                final(ctx).instances@.contains_key(s) implies (
            #[trigger] final(ctx).instances@[s]).wf() by {
                assert(final(ctx).instances@[s] == old(ctx).instances@[s]);
            }
            assert forall|s: Seq<char>, u: Seq<char>|
                final(ctx).instances@.contains_key(s) && (
                #[trigger] final(ctx).instances@[s])@.contains_key(u) implies pod_wf(
                s,
                u,
                #[trigger] final(ctx).instances@[s]@[u],
            ) by {
                assert(final(ctx).instances@[s] == old(ctx).instances@[s]);
            }
        }
        assert forall|k: Seq<char>|
            final(ctx).service_stats@.contains_key(k) implies (
        #[trigger] final(ctx).service_stats@[k]).wf() by {
            assert(final(ctx).service_stats@[k] == old(ctx).service_stats@[k]);
        }
        if old(ctx).instances@.contains_key(service_name@) {
            let pods = old(ctx).instances@[service_name@];
            assert forall|k: Seq<char>, a: Seq<char>|
                final(ctx).backends@.contains_key(k) implies (#[trigger] final(ctx).backends@[k].addr_set().contains(a) <==> (old(ctx).backends@[k].addr_set().contains(
                a,
            ) && !pods_backend_entry(pods, service_name@, k, a))) by {
                pods.lemma_keys();
                if pods_backend_entry(pods, service_name@, k, a) {
                    let u = choose|u: Seq<char>|
                        #[trigger] pods@.contains_key(u) && pod_backend_entries(
                            service_name@,
                            pods@[u].containers@,
                        ).contains((k, a));
                    let j = choose|j: int|
                        0 <= j < pods.key_seq().len() && #[trigger] pods.key_seq()[j] == u;
                }
                if exists|j: int|
                    0 <= j < pods.spec_len() && pod_backend_entries(
                        service_name@,
                        pods@[#[trigger] pods.key_seq()[j]].containers@,
                    ).contains((k, a)) {
                    let j = choose|j: int|
                        0 <= j < pods.spec_len() && pod_backend_entries(
                            service_name@,
                            pods@[#[trigger] pods.key_seq()[j]].containers@,
                        ).contains((k, a));
                    assert(pods@.contains_key(pods.key_seq()[j]));
                    assert(pods_backend_entry(pods, service_name@, k, a));
                }
            }
        }
    }
    CleanupPlan { scaling_task, instances }
}

/// Whether a config update found a running service or starts a new one.
#[derive(Debug, Clone, Copy, PartialEq, Eq, Structural)]
pub enum UpdateDisposition {
    /// No scaling task existed: initialise as a new service.
    NewService,
    /// A scaling task exists: the caller brackets the update between
    /// `ConfigUpdate` and `Resume` messages.
    ExistingService,
}

/// Apply an explicit configuration update for a running service.
///
/// Validates the new manifest (the service's own name may stay), then
/// replaces the stored config of the entry whose declared name is
/// `service_name`.  Succeeds exactly when validation passes; on failure
/// nothing changes.
#[verifier::loop_isolation(false)]
pub fn handle_config_update(
    ctx: &mut RuntimeContext,
    service_name: &str,
    config: ServiceConfig,
) -> (r: Result<UpdateDisposition, ValidationError>)
    requires
        old(ctx).wf(),
    ensures
        final(ctx).wf(),
        final(ctx).instances == old(ctx).instances,
        final(ctx).scaling_tasks == old(ctx).scaling_tasks,
        final(ctx).image_check_tasks == old(ctx).image_check_tasks,
        final(ctx).backends == old(ctx).backends,
        final(ctx).container_health == old(ctx).container_health,
        final(ctx).container_stats == old(ctx).container_stats,
        final(ctx).service_stats == old(ctx).service_stats,
        match r {
            Ok(d) => {
                &&& config_valid(config, old(ctx).configs@, Some(service_name@))
                &&& d == (if old(ctx).scaling_tasks@.contains_key(service_name@) {
                    UpdateDisposition::ExistingService
                } else {
                    UpdateDisposition::NewService
                })
                &&& final(ctx).configs@.dom() =~= old(ctx).configs@.dom()
                &&& forall|k: Seq<char>|
                    old(ctx).configs@.contains_key(k) ==> {
                        &&& (#[trigger] final(ctx).configs@[k]).path == old(ctx).configs@[k].path
                        &&& (if old(ctx).configs@[k].config.name@ == service_name@ {
                            final(ctx).configs@[k].config == config
                        } else {
                            final(ctx).configs@[k].config == old(ctx).configs@[k].config
                        })
                    }
            },
            Err(_) => {
                &&& *final(ctx) == *old(ctx)
                &&& !config_valid(config, old(ctx).configs@, Some(service_name@))
            },
        },
{
    if let Err(e) = crate::validate::validate_config(&config, &ctx.configs, Some(service_name)) {
        return Err(e);
    }
    let disposition = if ctx.scaling_tasks.contains_key(service_name) {
        UpdateDisposition::ExistingService
    } else {
        UpdateDisposition::NewService
    };
    let service_string = String::from_str(service_name);
    let n = ctx.configs.len();
    let mut target: Option<usize> = None;
    let mut i: usize = 0;
    proof {
        ctx.configs.lemma_keys();
    }
    while i < n
        invariant
            0 <= i <= n,
            match target {
                Some(t) => t < i && ctx.configs@[ctx.configs.key_seq()[t as int]].config.name@
                    == service_name@,
                None => forall|j: int|
                    0 <= j < i ==> ctx.configs@[#[trigger] ctx.configs.key_seq()[j]].config.name@
                        != service_name@,
            },
            service_string@ == service_name@,
        decreases n - i,
    {
        if target.is_none() {
            let entry = ctx.configs.val_at(i);
            if entry.config.name.eq(&service_string) {
                target = Some(i);
            }
        }
        i = i + 1;
    }
    match target {
        Some(t) => {
            let key = ctx.configs.key_at(t).clone();
            let ghost k0 = ctx.configs.key_seq()[t as int];
            let path = {
                let entry = ctx.configs.val_at(t);
                entry.path.clone()
            };
            proof {
                assert(key@ == k0);
                assert(old(ctx).configs@.contains_key(k0));
                assert(old(ctx).configs@[k0].config.name@ == service_name@);
            }
            ctx.configs.insert(key, ConfigEntry { path, config });
            proof {
                lemma_replace_entry_invariants(
                    old(ctx).configs@,
                    final(ctx).configs@,
                    k0,
                    service_name@,
                    final(ctx).configs@[k0].config,
                );
                assert(final(ctx).configs@.dom() =~= old(ctx).configs@.dom());
            }
            Ok(disposition)
        },
        None => {
            proof {
                assert forall|k: Seq<char>|
                    old(ctx).configs@.contains_key(k) implies (
                #[trigger] old(ctx).configs@[k]).config.name@ != service_name@ by {
                    ctx.configs.lemma_keys();
                    let j = choose|j: int|
                        0 <= j < ctx.configs.key_seq().len() && #[trigger] ctx.configs.key_seq()[j]
                            == k;
                }
            }
            Ok(disposition)
        },
    }
}

/// Replacing the entry whose config carries `service_name` with a
/// validated one keeps the store's name and port invariants.
proof fn lemma_replace_entry_invariants(
    before: Map<Seq<char>, ConfigEntry>,
    after: Map<Seq<char>, ConfigEntry>,
    k0: Seq<char>,
    service_name: Seq<char>,
    new_config: ServiceConfig,
)
    requires
        crate::context::config_names_unique(before),
        crate::context::config_ports_exclusive(before),
        before.contains_key(k0),
        before[k0].config.name@ == service_name,
        config_valid(new_config, before, Some(service_name)),
        after.contains_key(k0),
        after[k0].config == new_config,
        after.dom() =~= before.dom(),
        forall|k: Seq<char>|
            after.contains_key(k) && k != k0 ==> #[trigger] after[k] == before[k],
    ensures
        crate::context::config_names_unique(after),
        crate::context::config_ports_exclusive(after),
{
    assert forall|k: Seq<char>|
        before.contains_key(k) && k != k0 implies (#[trigger] before[k]).config.name@
        != new_config.name@ by {
        if new_config.name@ == service_name {
            assert(before[k].config.name@ != before[k0].config.name@);
        } else {
            assert(!crate::validate::name_conflict_with(before, new_config));
            if before[k].config.name@ == new_config.name@ {
                assert(crate::validate::name_conflict_with(before, new_config));
            }
        }
    }
    assert forall|k1: Seq<char>, k2: Seq<char>|
        after.contains_key(k1) && after.contains_key(k2) && k1 != k2 implies (
    #[trigger] after[k1]).config.name@ != (#[trigger] after[k2]).config.name@ by {
        if k1 == k0 {
            assert(before[k2].config.name@ != new_config.name@);
        } else if k2 == k0 {
            assert(before[k1].config.name@ != new_config.name@);
        } else {
            assert(before[k1].config.name@ != before[k2].config.name@);
        }
    }
    assert forall|k1: Seq<char>, k2: Seq<char>, p: u16|
        after.contains_key(k1) && after.contains_key(k2) && (#[trigger] after[k1]).config.name@
            != (#[trigger] after[k2]).config.name@ implies !(config_node_ports(
        after[k1].config.spec.containers@,
    ).contains(p) && #[trigger] config_node_ports(after[k2].config.spec.containers@).contains(p))
        by {
        if k1 == k0 || k2 == k0 {
            let other = if k1 == k0 {
                k2
            } else {
                k1
            };
            if other != k0 {
                assert(after[other] == before[other]);
                if before[other].config.name@ != new_config.name@ {
                    assert(!crate::validate::port_conflict_with(before, new_config));
                    if config_node_ports(new_config.spec.containers@).contains(p)
                        && config_node_ports(before[other].config.spec.containers@).contains(p) {
                        assert(crate::validate::port_conflict_with(before, new_config));
                    }
                }
            }
        } else {
            assert(after[k1] == before[k1]);
            assert(after[k2] == before[k2]);
        }
    }
}

/// Each started container's runtime name parses to this service and uuid.
pub open spec fn started_names_match(
    service: Seq<char>,
    uuid: Seq<char>,
    started: Seq<(String, String, Vec<ContainerPortMetadata>)>,
) -> bool {
    forall|i: int|
        0 <= i < started.len() ==> started_name_matches(service, uuid, (#[trigger] started[i]).0@)
}

pub open spec fn started_name_matches(service: Seq<char>, uuid: Seq<char>, name: Seq<char>) -> bool {
    match crate::names::spec_parse_container_name(name) {
        Some(parts) => parts.0 == service && parts.3 == uuid,
        None => false,
    }
}

/// A recorded container mirrors what the runtime reported.
pub open spec fn container_matches(
    c: ContainerMetadata,
    service: Seq<char>,
    uuid: Seq<char>,
    entry: (String, String, Vec<ContainerPortMetadata>),
    status: Seq<char>,
) -> bool {
    &&& c.name@ == entry.0@
    &&& c.network@ == network_name_seq(service, uuid)
    &&& c.ip_address@ == entry.1@
    &&& c.ports@ =~= entry.2@
    &&& c.status@ == status
}

/// A recorded pod mirrors the registration inputs.
pub open spec fn registered_pod_matches(
    m: InstanceMetadata,
    service: Seq<char>,
    uuid: Seq<char>,
    started: Seq<(String, String, Vec<ContainerPortMetadata>)>,
    image_hashes: KvMap<String>,
    status: Seq<char>,
    now_ms: u64,
) -> bool {
    &&& m.uuid@ == uuid
    &&& m.created_at_ms == now_ms
    &&& m.network@ == network_name_seq(service, uuid)
    &&& m.image_hash == image_hashes
    &&& m.containers@.len() == started.len()
    &&& forall|i: int|
        0 <= i < started.len() ==> container_matches(
            #[trigger] m.containers@[i],
            service,
            uuid,
            started[i],
            status,
        )
}

} // verus!

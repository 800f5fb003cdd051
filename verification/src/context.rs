//! The runtime context: every process-wide store as one injected value,
//! with the invariants that tie them together.
//!
//! Holding the stores in one structure keeps compound operations
//! serialised per service and lets each mutation state exactly which
//! stores it touches.

use vstd::prelude::*;

use crate::config::ConfigEntry;
use crate::container::{InstanceMetadata, ServiceStats, StatsEntry};
use crate::names::{is_uuid_seq, network_name_seq, spec_parse_container_name};
use crate::store::KvMap;
use crate::validate::{config_node_ports, ValidationError};

verus! {

/// The failure classes of the control plane.
#[derive(Debug, Clone, Copy, PartialEq, Eq, Structural)]
pub enum OrchestratorError {
    /// A manifest was rejected; nothing was mutated.
    Validation(ValidationError),
    /// A runtime operation failed and may succeed on the next tick.
    Transient,
    /// Some containers of a new pod started and some did not.
    PartialPod,
    /// A rolling update was aborted.
    RolloutFailed,
    /// A store held something the runtime contradicts.
    InvariantViolation,
    /// Startup could not initialise the stores.
    Fatal,
}

/// Health of one container.
#[derive(Debug, Clone, Copy, PartialEq, Eq, Structural)]
pub enum HealthState {
    Healthy,
    Unhealthy,
    Failed,
}

/// Health record of one container.
#[derive(Debug)]
pub struct HealthStatus {
    pub state: HealthState,
    pub reason: Option<String>,
    pub since_ms: u64,
}

impl HealthStatus {
    /// Move to a new state for a reason, keeping the time of the change.
    pub fn transition_to(&mut self, state: HealthState, reason: Option<String>, now_ms: u64)
        ensures
            final(self).state == state,
            final(self).reason == reason,
            final(self).since_ms == now_ms,
    {
        self.state = state;
        self.reason = reason;
        self.since_ms = now_ms;
    }
}

/// The load-balancer members of one `"{service}_{node_port}"` key:
/// a set of `"{ip}:{port}"` strings.
#[derive(Debug)]
pub struct BackendSet {
    addrs: Vec<String>,
}

impl BackendSet {
    /// Members are pairwise distinct.
    pub closed spec fn wf(&self) -> bool {
        forall|p: int, q: int|
            0 <= p < q < self.addrs@.len() ==> (#[trigger] self.addrs@[p])@ != (
            #[trigger] self.addrs@[q])@
    }

    /// The member addresses as a set.
    pub closed spec fn addr_set(&self) -> Set<Seq<char>> {
        self.addrs@.map_values(|a: String| a@).to_set()
    }

    pub closed spec fn spec_len(&self) -> nat {
        self.addrs@.len()
    }

    pub fn new() -> (r: Self)
        ensures
            r.wf(),
            r.addr_set() =~= Set::<Seq<char>>::empty(),
            r.spec_len() == 0,
    {
        let r = BackendSet { addrs: Vec::new() };
        proof {
            assert(r.addrs@.map_values(|a: String| a@) =~= Seq::<Seq<char>>::empty());
        }
        r
    }

    pub fn len(&self) -> (r: usize)
        ensures
            r == self.spec_len(),
    {
        self.addrs.len()
    }

    pub fn is_empty(&self) -> (r: bool)
        ensures
            r == (self.spec_len() == 0),
            r == (self.addr_set() =~= Set::<Seq<char>>::empty()),
    {
        proof {
            let views = self.addrs@.map_values(|a: String| a@);
            if self.addrs@.len() > 0 {
                assert(views[0] == self.addrs@[0]@);
                assert(self.addr_set().contains(self.addrs@[0]@));
            }
        }
        self.addrs.len() == 0
    }

    fn find(&self, addr: &str) -> (r: Option<usize>)
        ensures
            match r {
                Some(i) => i < self.addrs@.len() && self.addrs@[i as int]@ == addr@,
                None => forall|i: int|
                    0 <= i < self.addrs@.len() ==> (#[trigger] self.addrs@[i])@ != addr@,
            },
    {
        let addr_string = String::from_str(addr);
        let n = self.addrs.len();
        let mut i: usize = 0;
        while i < n
            invariant
                0 <= i <= n,
                n == self.addrs@.len(),
                addr_string@ == addr@,
                forall|j: int| 0 <= j < i ==> (#[trigger] self.addrs@[j])@ != addr@,
            decreases n - i,
        {
            if self.addrs[i].eq(&addr_string) {
                return Some(i);
            }
            i = i + 1;
        }
        None
    }

    pub fn contains(&self, addr: &str) -> (r: bool)
        ensures
            r == self.addr_set().contains(addr@),
    {
        proof {
            lemma_views_to_set(self.addrs@, addr@);
        }
        match self.find(addr) {
            Some(_) => true,
            None => false,
        }
    }

    /// Add a member; adding one that is present changes nothing.
    pub fn insert(&mut self, addr: String)
        requires
            old(self).wf(),
        ensures
            final(self).wf(),
            final(self).addr_set() =~= old(self).addr_set().insert(addr@),
    {
        proof {
            lemma_views_to_set(self.addrs@, addr@);
        }
        match self.find(addr.as_str()) {
            Some(_) => {
                proof {
                    assert(old(self).addr_set().insert(addr@) =~= old(self).addr_set());
                }
            },
            None => {
                let ghost before = self.addrs@;
                self.addrs.push(addr);
                proof {
                    let views = self.addrs@.map_values(|a: String| a@);
                    let old_views = before.map_values(|a: String| a@);
                    assert(views =~= old_views.push(addr@));
                    assert(views.to_set() =~= old_views.to_set().insert(addr@)) by {
                        assert forall|x: Seq<char>| views.to_set().contains(x) implies
                            old_views.to_set().contains(x) || x == addr@ by {
                            let i = choose|i: int| 0 <= i < views.len() && views[i] == x;
                            if i < old_views.len() {
                                assert(old_views[i] == x);
                            }
                        }
                        assert forall|x: Seq<char>|
                            old_views.to_set().contains(x) || x == addr@ implies views.to_set().contains(
                            x,
                        ) by {
                            if old_views.to_set().contains(x) {
                                let i = choose|i: int|
                                    0 <= i < old_views.len() && old_views[i] == x;
                                assert(views[i] == x);
                            } else {
                                assert(views[views.len() - 1] == x);
                            }
                        }
                    }
                }
            },
        }
    }

    /// Remove a member; removing an absent one changes nothing.
    pub fn remove(&mut self, addr: &str)
        requires
            old(self).wf(),
        ensures
            final(self).wf(),
            final(self).addr_set() =~= old(self).addr_set().remove(addr@),
    {
        proof {
            lemma_views_to_set(self.addrs@, addr@);
        }
        match self.find(addr) {
            Some(i) => {
                let ghost before = self.addrs@;
                self.addrs.remove(i);
                proof {
                    let views = self.addrs@.map_values(|a: String| a@);
                    let old_views = before.map_values(|a: String| a@);
                    assert(views =~= old_views.remove(i as int));
                    assert forall|p: int, q: int|
                        0 <= p < q < self.addrs@.len() implies (#[trigger] self.addrs@[p])@ != (
                        #[trigger] self.addrs@[q])@ by {
                        assert(self.addrs@[p] == before.remove(i as int)[p]);
                        assert(self.addrs@[q] == before.remove(i as int)[q]);
                    }
                    assert(views.to_set() =~= old_views.to_set().remove(addr@)) by {
                        assert forall|x: Seq<char>| views.to_set().contains(x) implies
                            old_views.to_set().contains(x) && x != addr@ by {
                            let j = choose|j: int| 0 <= j < views.len() && views[j] == x;
                            if j < i {
                                assert(old_views[j] == x);
                                assert(before[j]@ != before[i as int]@);
                            } else {
                                assert(old_views[j + 1] == x);
                                assert(before[j + 1]@ != before[i as int]@);
                            }
                        }
                        assert forall|x: Seq<char>|
                            old_views.to_set().contains(x) && x != addr@ implies views.to_set().contains(
                            x,
                        ) by {
                            let j = choose|j: int| 0 <= j < old_views.len() && old_views[j] == x;
                            if j < i {
                                assert(views[j] == x);
                            } else {
                                assert(j != i);
                                assert(views[j - 1] == x);
                            }
                        }
                    }
                }
            },
            None => {
                proof {
                    assert(old(self).addr_set().remove(addr@) =~= old(self).addr_set());
                }
            },
        }
    }

    /// The members, for the caller to walk.
    pub fn addr_at(&self, i: usize) -> (r: &String)
        requires
            i < self.spec_len(),
        ensures
            self.addr_set().contains(r@),
    {
        proof {
            let views = self.addrs@.map_values(|a: String| a@);
            assert(views[i as int] == self.addrs@[i as int]@);
        }
        &self.addrs[i]
    }
}

proof fn lemma_views_to_set(addrs: Seq<String>, x: Seq<char>)
    ensures
        addrs.map_values(|a: String| a@).to_set().contains(x) <==> exists|i: int|
            0 <= i < addrs.len() && (#[trigger] addrs[i])@ == x,
{
    let views = addrs.map_values(|a: String| a@);
    if views.to_set().contains(x) {
        let i = choose|i: int| 0 <= i < views.len() && views[i] == x;
        assert(addrs[i]@ == x);
    }
    if exists|i: int| 0 <= i < addrs.len() && (#[trigger] addrs[i])@ == x {
        let i = choose|i: int| 0 <= i < addrs.len() && (#[trigger] addrs[i])@ == x;
        assert(views[i] == x);
    }
}

/// One pod is well-formed under its service and uuid: the identity is
/// the key, the network is `"{service}__{uuid}"`, and every container's
/// name parses back to this service and uuid.
pub open spec fn pod_wf(service: Seq<char>, uuid: Seq<char>, m: InstanceMetadata) -> bool {
    &&& m.uuid@ == uuid
    &&& is_uuid_seq(uuid)
    &&& m.network@ == network_name_seq(service, uuid)
    &&& m.image_hash.wf()
    &&& forall|i: int|
        0 <= i < m.containers@.len() ==> container_meta_wf(service, uuid, #[trigger] m.containers@[i])
}

pub open spec fn container_meta_wf(
    service: Seq<char>,
    uuid: Seq<char>,
    c: crate::container::ContainerMetadata,
) -> bool {
    &&& c.network@ == network_name_seq(service, uuid)
    &&& match spec_parse_container_name(c.name@) {
        Some(parts) => parts.0 == service && parts.3 == uuid,
        None => false,
    }
}

/// Every pod of every service is well-formed.
pub open spec fn instances_wf(instances: KvMap<KvMap<InstanceMetadata>>) -> bool {
    &&& instances.wf()
    &&& forall|s: Seq<char>|
        instances@.contains_key(s) ==> (#[trigger] instances@[s]).wf()
    &&& forall|s: Seq<char>, u: Seq<char>|
        instances@.contains_key(s) && (#[trigger] instances@[s])@.contains_key(u) ==> pod_wf(
            s,
            u,
            #[trigger] instances@[s]@[u],
        )
}

/// No two loaded manifests declare the same service name.
pub open spec fn config_names_unique(store: Map<Seq<char>, ConfigEntry>) -> bool {
    forall|k1: Seq<char>, k2: Seq<char>|
        store.contains_key(k1) && store.contains_key(k2) && k1 != k2 ==> (
        #[trigger] store[k1]).config.name@ != (#[trigger] store[k2]).config.name@
}

/// No node port is claimed by two services.
pub open spec fn config_ports_exclusive(store: Map<Seq<char>, ConfigEntry>) -> bool {
    forall|k1: Seq<char>, k2: Seq<char>, p: u16|
        store.contains_key(k1) && store.contains_key(k2) && (#[trigger] store[k1]).config.name@
            != (#[trigger] store[k2]).config.name@ ==> !(config_node_ports(
            store[k1].config.spec.containers@,
        ).contains(p) && #[trigger] config_node_ports(store[k2].config.spec.containers@).contains(
            p,
        ))
}

/// The process-wide stores.
#[derive(Debug)]
pub struct RuntimeContext {
    /// `relative_manifest_path -> (path, config)`.
    pub configs: KvMap<ConfigEntry>,
    /// `service_name -> (pod_uuid -> pod)`.
    pub instances: KvMap<KvMap<InstanceMetadata>>,
    /// `service_name -> task id`; `"{service}_updater"` is reserved.
    pub scaling_tasks: KvMap<u64>,
    /// `service_name -> task id`.
    pub image_check_tasks: KvMap<u64>,
    /// `"{service}_{node_port}" -> backends`.
    pub backends: KvMap<BackendSet>,
    /// `container_name -> health`.
    pub container_health: KvMap<HealthStatus>,
    /// `container_name -> last cumulative counters`.
    pub container_stats: KvMap<StatsEntry>,
    /// `service_name -> per-container stats`.
    pub service_stats: KvMap<ServiceStats>,
}

impl RuntimeContext {
    /// All stores are well-formed, manifest names are unique, node ports
    /// are exclusive, and every pod is named by its service and uuid.
    pub open spec fn wf(&self) -> bool {
        &&& self.configs.wf()
        &&& config_names_unique(self.configs@)
        &&& config_ports_exclusive(self.configs@)
        &&& instances_wf(self.instances)
        &&& self.scaling_tasks.wf()
        &&& self.image_check_tasks.wf()
        &&& self.backends.wf()
        &&& forall|k: Seq<char>|
            self.backends@.contains_key(k) ==> (#[trigger] self.backends@[k]).wf()
        &&& self.container_health.wf()
        &&& self.container_stats.wf()
        &&& self.service_stats.wf()
        &&& forall|k: Seq<char>|
            self.service_stats@.contains_key(k) ==> (#[trigger] self.service_stats@[k]).wf()
    }

    /// Fresh, empty stores.
    pub fn new() -> (r: Self)
        ensures
            r.wf(),
            r.configs@ =~= Map::<Seq<char>, ConfigEntry>::empty(),
            r.instances@ =~= Map::<Seq<char>, KvMap<InstanceMetadata>>::empty(),
            r.scaling_tasks@ =~= Map::<Seq<char>, u64>::empty(),
            r.image_check_tasks@ =~= Map::<Seq<char>, u64>::empty(),
            r.backends@ =~= Map::<Seq<char>, BackendSet>::empty(),
            r.container_health@ =~= Map::<Seq<char>, HealthStatus>::empty(),
            r.container_stats@ =~= Map::<Seq<char>, StatsEntry>::empty(),
            r.service_stats@ =~= Map::<Seq<char>, ServiceStats>::empty(),
    {
        RuntimeContext {
            configs: KvMap::new(),
            instances: KvMap::new(),
            scaling_tasks: KvMap::new(),
            image_check_tasks: KvMap::new(),
            backends: KvMap::new(),
            container_health: KvMap::new(),
            container_stats: KvMap::new(),
            service_stats: KvMap::new(),
        }
    }

    /// How many pods a service has.
    pub fn pod_count(&self, service_name: &str) -> (r: usize)
        requires
            self.wf(),
        ensures
            r == spec_pod_count(self.instances@, service_name@),
    {
        match self.instances.get(service_name) {
            Some(pods) => pods.len(),
            None => 0,
        }
    }
}

/// The number of pods a service has in the instance store.
pub open spec fn spec_pod_count(
    instances: Map<Seq<char>, KvMap<InstanceMetadata>>,
    service: Seq<char>,
) -> nat {
    if instances.contains_key(service) {
        instances[service].spec_len()
    } else {
        0
    }
}

/// At most one service claims a node port: two loaded manifests that
/// both declare a port carry the same service name.
pub proof fn lemma_node_port_exclusive(
    store: Map<Seq<char>, ConfigEntry>,
    k1: Seq<char>,
    k2: Seq<char>,
    p: u16,
)
    requires
        config_ports_exclusive(store),
        store.contains_key(k1),
        store.contains_key(k2),
        config_node_ports(store[k1].config.spec.containers@).contains(p),
        config_node_ports(store[k2].config.spec.containers@).contains(p),
    ensures
        store[k1].config.name@ == store[k2].config.name@,
{
}

/// Every pod of a well-formed context is named by its service and uuid:
/// its network is `"{service}__{uuid}"` and each container name parses
/// back to the service and the uuid.
pub proof fn lemma_instance_naming(
    ctx: &RuntimeContext,
    service: Seq<char>,
    uuid: Seq<char>,
)
    requires
        ctx.wf(),
        ctx.instances@.contains_key(service),
        ctx.instances@[service]@.contains_key(uuid),
    ensures
        ctx.instances@[service]@[uuid].network@ == network_name_seq(service, uuid),
        ctx.instances@[service]@[uuid].uuid@ == uuid,
        forall|i: int|
            0 <= i < ctx.instances@[service]@[uuid].containers@.len() ==> container_meta_wf(
                service,
                uuid,
                #[trigger] ctx.instances@[service]@[uuid].containers@[i],
            ),
{
    assert(pod_wf(service, uuid, ctx.instances@[service]@[uuid]));
}

} // verus!

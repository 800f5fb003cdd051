//! Rolling updates: detecting image-digest changes and replacing pods
//! one at a time without changing the pod count.
//!
//! The caller polls the registry for digests, starts each replacement
//! pod, and stops the old one; the swap itself — instance store and
//! load-balancer membership — is a single verified transition here.

use vstd::prelude::*;

use crate::container::{ContainerPortMetadata, InstanceMetadata};
use crate::context::{OrchestratorError, RuntimeContext, spec_pod_count};
use crate::store::KvMap;
use crate::supervisor::{
    add_pod_backends, backends_view, pod_backend_entries, registered_pod_matches,
    remove_pod_backends, view_add_all, view_rm_all,
};

verus! {

/// A container's image digest changed: the fresh digest differs from
/// the recorded one, or none was recorded.
pub open spec fn digest_changed(
    current: Map<Seq<char>, String>,
    name: Seq<char>,
    fresh: Seq<char>,
) -> bool {
    !current.contains_key(name) || current[name]@ != fresh
}

/// Some fetched pair names this container and its digest changed.
pub open spec fn is_changed_name(
    current: Map<Seq<char>, String>,
    fresh: Seq<(String, String)>,
    name: Seq<char>,
) -> bool {
    exists|j: int|
        0 <= j < fresh.len() && name == (#[trigger] fresh[j]).0@ && digest_changed(
            current,
            fresh[j].0@,
            fresh[j].1@,
        )
}

/// The container names whose freshly fetched digest differs from the
/// recorded one.  `fresh` holds `(container_name, digest)` pairs.
#[verifier::loop_isolation(false)]
pub fn image_updates_needed(current: &KvMap<String>, fresh: &Vec<(String, String)>) -> (r: Vec<
    String,
>)
    requires
        current.wf(),
    ensures
        forall|idx: int|
            0 <= idx < r@.len() ==> is_changed_name(current@, fresh@, (#[trigger] r@[idx])@),
        forall|j: int|
            0 <= j < fresh@.len() && digest_changed(
                current@,
                (#[trigger] fresh@[j]).0@,
                fresh@[j].1@,
            ) ==> r@.map_values(|s: String| s@).contains(fresh@[j].0@),
{
    let mut out: Vec<String> = Vec::new();
    let n = fresh.len();
    let mut i: usize = 0;
    while i < n
        invariant
            0 <= i <= n,
            forall|idx: int|
                0 <= idx < out@.len() ==> is_changed_name(current@, fresh@, (#[trigger] out@[idx])@),
            forall|j: int|
                0 <= j < i && digest_changed(
                    current@,
                    (#[trigger] fresh@[j]).0@,
                    fresh@[j].1@,
                ) ==> out@.map_values(|s: String| s@).contains(fresh@[j].0@),
        decreases n - i,
    {
        let changed = match current.get(fresh[i].0.as_str()) {
            Some(d) => !d.eq(&fresh[i].1),
            None => true,
        };
        let ghost before = out@;
        if changed {
            out.push(fresh[i].0.clone());
            proof {
                assert(out@.last()@ == fresh@[i as int].0@);
                assert(is_changed_name(current@, fresh@, out@.last()@));
            }
        }
        proof {
            assert forall|j: int|
                0 <= j < i + 1 && digest_changed(
                    current@,
                    (#[trigger] fresh@[j]).0@,
                    fresh@[j].1@,
                ) implies out@.map_values(|s: String| s@).contains(fresh@[j].0@) by {
                let views = out@.map_values(|s: String| s@);
                if j < i {
                    let old_views = before.map_values(|s: String| s@);
                    let idx = choose|idx: int|
                        0 <= idx < old_views.len() && #[trigger] old_views[idx] == fresh@[j].0@;
                    assert(views[idx] == fresh@[j].0@);
                } else {
                    assert(views[views.len() - 1] == fresh@[j].0@);
                }
            }
            assert forall|idx: int|
                0 <= idx < out@.len() implies is_changed_name(
                current@,
                fresh@,
                (#[trigger] out@[idx])@,
            ) by {
                if idx < before.len() {
                    assert(out@[idx] == before[idx]);
                }
            }
        }
        i = i + 1;
    }
    out
}

/// Replace one pod by another in a single transition: the new pod (whose
/// containers the runtime reports as started) is recorded and its
/// addresses join the load balancer; the old pod leaves the store and
/// the load balancer.  The pod count does not change, so a rollout never
/// moves the population outside the bounds it started within.  The old
/// pod is returned for the caller to stop.  On failure nothing changes.
#[verifier::loop_isolation(false)]
pub fn swap_pod(
    ctx: &mut RuntimeContext,
    service_name: &str,
    old_uuid: &str,
    new_uuid: &str,
    started: &Vec<(String, String, Vec<ContainerPortMetadata>)>,
    image_hashes: KvMap<String>,
    now_ms: u64,
) -> (r: Result<InstanceMetadata, OrchestratorError>)
    requires
        old(ctx).wf(),
        image_hashes.wf(),
    ensures
        final(ctx).wf(),
        final(ctx).configs == old(ctx).configs,
        final(ctx).scaling_tasks == old(ctx).scaling_tasks,
        final(ctx).image_check_tasks == old(ctx).image_check_tasks,
        final(ctx).container_health == old(ctx).container_health,
        final(ctx).container_stats == old(ctx).container_stats,
        final(ctx).service_stats == old(ctx).service_stats,
        r is Ok <==> {
            &&& old_uuid@ != new_uuid@
            &&& old(ctx).instances@.contains_key(service_name@)
            &&& old(ctx).instances@[service_name@]@.contains_key(old_uuid@)
            &&& crate::names::is_uuid_seq(new_uuid@)
            &&& crate::supervisor::started_names_match(service_name@, new_uuid@, started@)
        },
        match r {
            Ok(old_pod) => {
                &&& old(ctx).instances@.contains_key(service_name@)
                &&& old(ctx).instances@[service_name@]@.contains_key(old_uuid@)
                &&& old_pod == old(ctx).instances@[service_name@]@[old_uuid@]
                &&& old_uuid@ != new_uuid@
                &&& final(ctx).instances@.contains_key(service_name@)
                &&& final(ctx).instances@[service_name@]@ =~= old(
                    ctx,
                ).instances@[service_name@]@.insert(
                    new_uuid@,
                    final(ctx).instances@[service_name@]@[new_uuid@],
                ).remove(old_uuid@)
                &&& registered_pod_matches(
                    final(ctx).instances@[service_name@]@[new_uuid@],
                    service_name@,
                    new_uuid@,
                    started@,
                    image_hashes,
                    "running"@,
                    now_ms,
                )
                &&& final(ctx).instances@.remove(service_name@) =~= old(ctx).instances@.remove(
                    service_name@,
                )
                &&& (!old(ctx).instances@[service_name@]@.contains_key(new_uuid@) ==> spec_pod_count(
                    final(ctx).instances@,
                    service_name@,
                ) == spec_pod_count(old(ctx).instances@, service_name@))
                &&& backends_view(final(ctx).backends) =~~= view_rm_all(
                    view_add_all(
                        backends_view(old(ctx).backends),
                        pod_backend_entries(
                            service_name@,
                            final(ctx).instances@[service_name@]@[new_uuid@].containers@,
                        ),
                    ),
                    pod_backend_entries(service_name@, old_pod.containers@),
                )
            },
            Err(_) => *final(ctx) == *old(ctx),
        },
{
    let old_string = String::from_str(old_uuid);
    let new_string = String::from_str(new_uuid);
    if old_string.eq(&new_string) {
        return Err(OrchestratorError::RolloutFailed);
    }
    let old_exists = match ctx.instances.get(service_name) {
        Some(pods) => pods.contains_key(old_uuid),
        None => false,
    };
    if !old_exists {
        return Err(OrchestratorError::RolloutFailed);
    }
    match crate::supervisor::register_pod(
        ctx,
        service_name,
        new_uuid,
        started,
        image_hashes,
        "running",
        now_ms,
    ) {
        Ok(()) => {},
        Err(_) => {
            return Err(OrchestratorError::RolloutFailed);
        },
    }
    let ghost ctx1 = *ctx;
    let ghost orig_pods = old(ctx).instances@[service_name@]@;
    let ghost reg_pods = ctx1.instances@[service_name@]@;
    proof {
        assert(reg_pods.remove(new_uuid@) =~= orig_pods.remove(new_uuid@));
        assert(reg_pods.contains_key(old_uuid@)) by {
            assert(reg_pods.remove(new_uuid@).contains_key(old_uuid@));
        }
    }
    let mut pods = match ctx.instances.remove(service_name) {
        Some(p) => p,
        None => KvMap::new(),
    };
    let old_pod = match pods.remove(old_uuid) {
        Some(p) => p,
        None => {
            // unreachable: the old pod was present and registration
            // only touches the new uuid
            proof {
                assert(false);
            }
            return Err(OrchestratorError::InvariantViolation);
        },
    };
    proof {
        assert(old_pod == orig_pods[old_uuid@]) by {
            assert(reg_pods[old_uuid@] == reg_pods.remove(new_uuid@)[old_uuid@]);
            assert(orig_pods[old_uuid@] == orig_pods.remove(new_uuid@)[old_uuid@]);
        }
    }
    {
        let new_pod = match pods.get(new_uuid) {
            Some(p) => p,
            None => {
                proof {
                    assert(pods@.contains_key(new_uuid@));
                    assert(false);
                }
                return Err(OrchestratorError::InvariantViolation);
            },
        };
        add_pod_backends(&mut ctx.backends, service_name, new_pod);
    }
    remove_pod_backends(&mut ctx.backends, service_name, &old_pod);
    ctx.instances.insert(String::from_str(service_name), pods);
    proof {
        let fin = final(ctx).instances@[service_name@]@;
        assert(fin =~= reg_pods.remove(old_uuid@));
        assert(fin.contains_key(new_uuid@));
        assert(fin[new_uuid@] == reg_pods[new_uuid@]);
        assert(fin =~= orig_pods.insert(new_uuid@, fin[new_uuid@]).remove(old_uuid@)) by {
            assert(reg_pods.remove(old_uuid@) =~= orig_pods.insert(
                new_uuid@,
                reg_pods[new_uuid@],
            ).remove(old_uuid@)) by {
                let lhs = reg_pods.remove(old_uuid@);
                let rhs = orig_pods.insert(new_uuid@, reg_pods[new_uuid@]).remove(old_uuid@);
                assert forall|k: Seq<char>| lhs.contains_key(k) == rhs.contains_key(k) by {
                    if k != new_uuid@ && k != old_uuid@ {
                        assert(reg_pods.remove(new_uuid@).contains_key(k) == orig_pods.remove(
                            new_uuid@,
                        ).contains_key(k));
                    }
                }
                assert forall|k: Seq<char>| lhs.contains_key(k) implies lhs[k] == rhs[k] by {
                    if k != new_uuid@ && k != old_uuid@ {
                        assert(lhs[k] == reg_pods.remove(new_uuid@)[k]);
                        assert(rhs[k] == orig_pods.remove(new_uuid@)[k]);
                    }
                }
            }
        }
        if !orig_pods.contains_key(new_uuid@) {
            assert(spec_pod_count(final(ctx).instances@, service_name@) == spec_pod_count(
                old(ctx).instances@,
                service_name@,
            ));
        }
        assert(crate::context::instances_wf(final(ctx).instances)) by {
            assert forall|s: Seq<char>|
                final(ctx).instances@.contains_key(s) implies (
            #[trigger] final(ctx).instances@[s]).wf() by {
                if s != service_name@ {
                    assert(final(ctx).instances@[s] == ctx1.instances@[s]);
                }
            }
            assert forall|s: Seq<char>, u: Seq<char>|
                final(ctx).instances@.contains_key(s) && (
                #[trigger] final(ctx).instances@[s])@.contains_key(u) implies
                crate::context::pod_wf(s, u, #[trigger] final(ctx).instances@[s]@[u]) by {
                if s == service_name@ {
                    assert(final(ctx).instances@[s]@[u] == reg_pods[u]);
                    assert(crate::context::pod_wf(s, u, ctx1.instances@[s]@[u]));
                } else {
                    assert(final(ctx).instances@[s] == ctx1.instances@[s]);
                    assert(crate::context::pod_wf(s, u, ctx1.instances@[s]@[u]));
                }
            }
        }
        assert(final(ctx).instances@.remove(service_name@) =~= old(ctx).instances@.remove(
            service_name@,
        ));
    }
    Ok(old_pod)
}

/// Digest maps agree with a reference map, pointwise.
pub open spec fn digests_match(h: Map<Seq<char>, String>, d: Map<Seq<char>, Seq<char>>) -> bool {
    &&& forall|k: Seq<char>| h.contains_key(k) <==> d.contains_key(k)
    &&& forall|k: Seq<char>| h.contains_key(k) ==> (#[trigger] h[k])@ == d[k]
}

/// Once a rollout completes — every pod carries the target digests — no
/// two pods of the service have divergent image digests.
pub proof fn lemma_rollout_digest_uniformity(
    pods: KvMap<InstanceMetadata>,
    target: Map<Seq<char>, Seq<char>>,
    u1: Seq<char>,
    u2: Seq<char>,
)
    requires
        forall|u: Seq<char>|
            pods@.contains_key(u) ==> digests_match((#[trigger] pods@[u]).image_hash@, target),
        pods@.contains_key(u1),
        pods@.contains_key(u2),
    ensures
        forall|k: Seq<char>|
            pods@[u1].image_hash@.contains_key(k) <==> pods@[u2].image_hash@.contains_key(k),
        forall|k: Seq<char>|
            pods@[u1].image_hash@.contains_key(k) ==> (#[trigger] pods@[u1].image_hash@[k])@
                == pods@[u2].image_hash@[k]@,
{
    assert(digests_match(pods@[u1].image_hash@, target));
    assert(digests_match(pods@[u2].image_hash@, target));
}

} // verus!

//! The orphan adopter's decisions: group the containers the runtime
//! lists by their pod uuid and decide which pods to adopt and which to
//! remove.
//!
//! The caller lists the containers, then adopts each kept group with
//! `register_pod` (status `"adopted"`) and stops the containers and
//! networks of the others.

use vstd::prelude::*;

use crate::config::ServiceConfig;
use crate::container::ContainerInfo;
use crate::names::spec_parse_container_name;
use crate::store::KvMap;
use crate::supervisor::started_name_matches;

verus! {

/// The containers of one discovered pod, as indices into the listing.
#[derive(Debug)]
pub struct PodGroup {
    pub uuid: String,
    pub members: Vec<usize>,
}

/// What to do with the discovered containers: adopt these groups, stop
/// and remove those.
#[derive(Debug)]
pub struct OrphanPlan {
    pub adopt: Vec<PodGroup>,
    pub remove: Vec<PodGroup>,
}

/// A group is sound for a listing: every member is a listed container of
/// this service whose name carries the group's uuid.
pub open spec fn group_sound(
    service: Seq<char>,
    discovered: Seq<ContainerInfo>,
    g: PodGroup,
) -> bool {
    forall|j: int|
        0 <= j < g.members@.len() ==> {
            &&& (#[trigger] g.members@[j]) < discovered.len()
            &&& started_name_matches(service, g.uuid@, discovered[g.members@[j] as int].name@)
        }
}

/// A listed container belongs to this service: its name parses and
/// names the service.
pub open spec fn listing_matches(service: Seq<char>, name: Seq<char>) -> bool {
    match spec_parse_container_name(name) {
        Some(parts) => parts.0 == service,
        None => false,
    }
}

/// Decide the fate of the discovered containers.
///
/// Containers whose names parse to this service are grouped by pod uuid.
/// With `adopt_orphans` set, groups holding exactly the declared number
/// of containers are adopted and the rest removed; without it, every
/// group is removed.  Every matching container lands in some returned
/// group.
#[verifier::loop_isolation(false)]
pub fn plan_orphan_adoption(config: &ServiceConfig, discovered: &Vec<ContainerInfo>) -> (r:
    OrphanPlan)
    ensures
        forall|gi: int|
            0 <= gi < r.adopt@.len() ==> {
                &&& group_sound(config.name@, discovered@, #[trigger] r.adopt@[gi])
                &&& r.adopt@[gi].members@.len() == config.spec.containers@.len()
            },
        forall|gi: int|
            0 <= gi < r.remove@.len() ==> group_sound(config.name@, discovered@, #[trigger] r.remove@[gi]),
        config.adopt_orphans ==> forall|gi: int|
            0 <= gi < r.remove@.len() ==> (#[trigger] r.remove@[gi]).members@.len()
                != config.spec.containers@.len(),
        !config.adopt_orphans ==> r.adopt@.len() == 0,
        forall|i: int|
            0 <= i < discovered@.len() && listing_matches(
                config.name@,
                (#[trigger] discovered@[i]).name@,
            ) ==> plan_covers(r, i),
{
    let mut groups: KvMap<Vec<usize>> = KvMap::new();
    let n = discovered.len();
    let mut i: usize = 0;
    while i < n
        invariant
            0 <= i <= n,
            groups.wf(),
            forall|u: Seq<char>, j: int|
                #![trigger groups@[u]@[j]]
                groups@.contains_key(u) && 0 <= j < groups@[u]@.len() ==> {
                    &&& groups@[u]@[j] < discovered@.len()
                    &&& started_name_matches(
                        config.name@,
                        u,
                        discovered@[groups@[u]@[j] as int].name@,
                    )
                },
            forall|idx: int|
                0 <= idx < i && listing_matches(
                    config.name@,
                    (#[trigger] discovered@[idx]).name@,
                ) ==> exists|u: Seq<char>|
                    #[trigger] groups@.contains_key(u) && groups@[u]@.contains(idx as usize),
        decreases n - i,
    {
        match crate::names::parse_container_name(discovered[i].name.as_str()) {
            Ok(parts) => {
                if parts.service_name.eq(&config.name) {
                    let ghost before = groups@;
                    let mut members: Vec<usize> = match groups.remove(parts.uuid.as_str()) {
                        Some(m) => m,
                        None => Vec::new(),
                    };
                    members.push(i);
                    groups.insert(parts.uuid, members);
                    proof {
                        let u0 = parts.uuid@;
                        assert(groups@[u0]@.last() == i as usize);
                        assert(groups@[u0]@.contains(i as usize));
                        assert forall|idx: int|
                            0 <= idx < i + 1 && listing_matches(
                                config.name@,
                                (#[trigger] discovered@[idx]).name@,
                            ) implies exists|u: Seq<char>|
                            #[trigger] groups@.contains_key(u) && groups@[u]@.contains(
                                idx as usize,
                            ) by {
                            if idx < i {
                                let u = choose|u: Seq<char>|
                                    #[trigger] before.contains_key(u) && before[u]@.contains(
                                        idx as usize,
                                    );
                                if u == u0 {
                                    let j = choose|j: int|
                                        0 <= j < before[u]@.len() && before[u]@[j]
                                            == idx as usize;
                                    assert(groups@[u0]@[j] == idx as usize);
                                    assert(groups@[u0]@.contains(idx as usize));
                                } else {
                                    assert(groups@.contains_key(u) && groups@[u]@.contains(
                                        idx as usize,
                                    ));
                                }
                            } else {
                                assert(groups@.contains_key(u0) && groups@[u0]@.contains(
                                    i as usize,
                                ));
                            }
                        }
                    }
                }
            },
            Err(_) => {},
        }
        i = i + 1;
    }
    let required = config.spec.containers.len();
    let mut adopt: Vec<PodGroup> = Vec::new();
    let mut remove: Vec<PodGroup> = Vec::new();
    let m = groups.len();
    let mut g: usize = 0;
    proof {
        groups.lemma_keys();
    }
    while g < m
        invariant
            0 <= g <= m,
            forall|gi: int|
                0 <= gi < adopt@.len() ==> {
                    &&& group_sound(config.name@, discovered@, #[trigger] adopt@[gi])
                    &&& adopt@[gi].members@.len() == config.spec.containers@.len()
                },
            forall|gi: int|
                0 <= gi < remove@.len() ==> group_sound(
                    config.name@,
                    discovered@,
                    #[trigger] remove@[gi],
                ),
            config.adopt_orphans ==> forall|gi: int|
                0 <= gi < remove@.len() ==> (#[trigger] remove@[gi]).members@.len()
                    != config.spec.containers@.len(),
            !config.adopt_orphans ==> adopt@.len() == 0,
            forall|j: int, x: usize|
                #![trigger groups@[groups.key_seq()[j]]@.contains(x)]
                0 <= j < g && groups@[groups.key_seq()[j]]@.contains(x)
                    ==> plan_groups_cover(adopt@, remove@, x),
        decreases m - g,
    {
        let key = groups.key_at(g).clone();
        let members = copy_usizes(groups.val_at(g));
        let ghost u = groups.key_seq()[g as int];
        let ghost a0 = adopt@;
        let ghost r0 = remove@;
        let group = PodGroup { uuid: key, members };
        proof {
            assert(group_sound(config.name@, discovered@, group)) by {
                assert(group.uuid@ == u);
                assert(group.members@ =~= groups@[u]@);
            }
        }
        if config.adopt_orphans && group.members.len() == required {
            adopt.push(group);
            proof {
                assert(adopt@.last().members@ =~= groups@[u]@);
            }
        } else {
            remove.push(group);
            proof {
                assert(remove@.last().members@ =~= groups@[u]@);
            }
        }
        proof {
            assert forall|j: int, x: usize|
                #![trigger groups@[groups.key_seq()[j]]@.contains(x)]
                0 <= j < g + 1 && groups@[groups.key_seq()[j]]@.contains(x)
                    implies plan_groups_cover(adopt@, remove@, x) by {
                if j < g {
                    assert(plan_groups_cover(a0, r0, x));
                    if exists|gi: int|
                        0 <= gi < a0.len() && (#[trigger] a0[gi]).members@.contains(x) {
                        let gi = choose|gi: int|
                            0 <= gi < a0.len() && (#[trigger] a0[gi]).members@.contains(x);
                        assert(adopt@[gi].members@.contains(x));
                    } else {
                        let gi = choose|gi: int|
                            0 <= gi < r0.len() && (#[trigger] r0[gi]).members@.contains(x);
                        assert(remove@[gi].members@.contains(x));
                    }
                } else {
                    assert(groups@[u]@.contains(x));
                    if config.adopt_orphans && groups@[u]@.len()
                        == config.spec.containers@.len() {
                        assert(adopt@.last().members@.contains(x));
                        assert(plan_groups_cover(adopt@, remove@, x));
                    } else {
                        assert(remove@.last().members@.contains(x));
                        assert(plan_groups_cover(adopt@, remove@, x));
                    }
                }
            }
        }
        g = g + 1;
    }
    let plan = OrphanPlan { adopt, remove };
    proof {
        assert forall|i2: int|
            0 <= i2 < discovered@.len() && listing_matches(
                config.name@,
                (#[trigger] discovered@[i2]).name@,
            ) implies plan_covers(plan, i2) by {
            let u = choose|u: Seq<char>|
                #[trigger] groups@.contains_key(u) && groups@[u]@.contains(i2 as usize);
            let j = choose|j: int|
                0 <= j < groups.key_seq().len() && #[trigger] groups.key_seq()[j] == u;
            assert(groups@[groups.key_seq()[j]]@.contains(i2 as usize));
        }
    }
    plan
}

/// The plan places the `i`-th listed container in some group.
pub open spec fn plan_covers(r: OrphanPlan, i: int) -> bool {
    plan_groups_cover(r.adopt@, r.remove@, i as usize)
}

pub open spec fn plan_groups_cover(adopt: Seq<PodGroup>, remove: Seq<PodGroup>, x: usize) -> bool {
    ||| exists|gi: int| 0 <= gi < adopt.len() && (#[trigger] adopt[gi]).members@.contains(x)
    ||| exists|gi: int| 0 <= gi < remove.len() && (#[trigger] remove[gi]).members@.contains(x)
}

fn copy_usizes(v: &Vec<usize>) -> (r: Vec<usize>)
    ensures
        r@ =~= v@,
{
    let mut r: Vec<usize> = Vec::new();
    let n = v.len();
    let mut i: usize = 0;
    while i < n
        invariant
            0 <= i <= n,
            n == v@.len(),
            r@ =~= v@.take(i as int),
        decreases n - i,
    {
        r.push(v[i]);
        proof {
            assert(v@.take(i + 1).drop_last() =~= v@.take(i as int));
        }
        i = i + 1;
    }
    proof {
        assert(v@.take(n as int) =~= v@);
    }
    r
}

} // verus!

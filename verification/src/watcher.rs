//! The config watcher's decisions: which filesystem events matter, how a
//! manifest file maps into the config store, and the sweep that evicts
//! entries whose files are gone.
//!
//! The caller watches the directory, debounces raw events, parses the
//! manifest bytes, and performs the stops this module plans.

use vstd::prelude::*;

use crate::config::{ConfigEntry, ServiceConfig};
use crate::context::RuntimeContext;
use crate::store::{lemma_remove_keys, remove_keys, KvMap};
use crate::validate::{config_valid, ValidationError};

verus! {

/// The manifest file extensions the watcher reacts to.
pub open spec fn has_yaml_ext(s: Seq<char>) -> bool {
    ||| (s.len() >= 4 && s.subrange(s.len() - 4, s.len() as int) =~= seq!['.', 'y', 'm', 'l'])
    ||| (s.len() >= 5 && s.subrange(s.len() - 5, s.len() as int) =~= seq![
        '.',
        'y',
        'a',
        'm',
        'l',
    ])
}

/// Does a path name a manifest file (`.yml` or `.yaml`)?
pub fn is_yaml_path(path: &str) -> (r: bool)
    ensures
        r == has_yaml_ext(path@),
{
    let len = path.unicode_len();
    let yml = if len >= 4 {
        path.get_char(len - 4) == '.' && path.get_char(len - 3) == 'y' && path.get_char(len - 2)
            == 'm' && path.get_char(len - 1) == 'l'
    } else {
        false
    };
    let yaml = if len >= 5 {
        path.get_char(len - 5) == '.' && path.get_char(len - 4) == 'y' && path.get_char(len - 3)
            == 'a' && path.get_char(len - 2) == 'm' && path.get_char(len - 1) == 'l'
    } else {
        false
    };
    proof {
        if len >= 4 {
            assert(path@.subrange(len - 4, len as int) =~= seq![
                path@[len - 4],
                path@[len - 3],
                path@[len - 2],
                path@[len - 1],
            ]);
        }
        if len >= 5 {
            assert(path@.subrange(len - 5, len as int) =~= seq![
                path@[len - 5],
                path@[len - 4],
                path@[len - 3],
                path@[len - 2],
                path@[len - 1],
            ]);
        }
    }
    yml || yaml
}

/// The service name the store holds for a manifest path, if any.
pub fn lookup_config_name_at(ctx: &RuntimeContext, rel_path: &str) -> (r: Option<String>)
    requires
        ctx.wf(),
    ensures
        match r {
            Some(name) => ctx.configs@.contains_key(rel_path@) && name@
                == ctx.configs@[rel_path@].config.name@,
            None => !ctx.configs@.contains_key(rel_path@),
        },
{
    match ctx.configs.get(rel_path) {
        Some(entry) => Some(entry.config.name.clone()),
        None => None,
    }
}

/// Load or reload a manifest: validate it against the loaded services
/// (a manifest may keep its own name) and upsert it into the config
/// store, withdrawing the service's scaling task.  Returns the withdrawn
/// task, for the caller to abort.  Succeeds exactly when validation
/// passes; on failure nothing changes.
#[verifier::loop_isolation(false)]
pub fn apply_config_upsert(
    ctx: &mut RuntimeContext,
    rel_path: &str,
    abs_path: String,
    config: ServiceConfig,
) -> (r: Result<Option<u64>, ValidationError>)
    requires
        old(ctx).wf(),
    ensures
        final(ctx).wf(),
        final(ctx).instances == old(ctx).instances,
        final(ctx).image_check_tasks == old(ctx).image_check_tasks,
        final(ctx).backends == old(ctx).backends,
        final(ctx).container_health == old(ctx).container_health,
        final(ctx).container_stats == old(ctx).container_stats,
        final(ctx).service_stats == old(ctx).service_stats,
        r is Ok <==> config_valid(
            config,
            old(ctx).configs@,
            if old(ctx).configs@.contains_key(rel_path@) {
                Some(old(ctx).configs@[rel_path@].config.name@)
            } else {
                None
            },
        ),
        match r {
            Ok(task) => {
                &&& final(ctx).configs@.contains_key(rel_path@)
                &&& final(ctx).configs@[rel_path@].path == abs_path
                &&& final(ctx).configs@[rel_path@].config == config
                &&& final(ctx).configs@.remove(rel_path@) =~= old(ctx).configs@.remove(rel_path@)
                &&& final(ctx).scaling_tasks@ =~= old(ctx).scaling_tasks@.remove(
                    final(ctx).configs@[rel_path@].config.name@,
                )
                &&& task == (if old(ctx).scaling_tasks@.contains_key(
                    final(ctx).configs@[rel_path@].config.name@,
                ) {
                    Some(old(ctx).scaling_tasks@[final(ctx).configs@[rel_path@].config.name@])
                } else {
                    None::<u64>
                })
            },
            Err(_) => *final(ctx) == *old(ctx),
        },
{
    let exclude: Option<String> = lookup_config_name_at(ctx, rel_path);
    let exclude_ref: Option<&str> = match &exclude {
        Some(s) => Some(s.as_str()),
        None => None,
    };
    if let Err(e) = crate::validate::validate_config(&config, &ctx.configs, exclude_ref) {
        return Err(e);
    }
    let ghost before = ctx.configs@;
    let ghost excl: Option<Seq<char>> = match exclude {
        Some(s) => Some(s@),
        None => None,
    };
    let ghost cfg = config;
    let service_name = config.name.clone();
    ctx.configs.insert(String::from_str(rel_path), ConfigEntry { path: abs_path, config });
    proof {
        assert(ctx.configs@[rel_path@].config == cfg);
        lemma_upsert_invariants(before, ctx.configs@, rel_path@, excl, cfg);
    }
    let task = ctx.scaling_tasks.remove(service_name.as_str());
    Ok(task)
}

/// Inserting a validated manifest at its path keeps the store's name
/// and port invariants.  The exclusion, when it names the manifest's own
/// name, is the name stored at this very path.
proof fn lemma_upsert_invariants(
    before: Map<Seq<char>, ConfigEntry>,
    after: Map<Seq<char>, ConfigEntry>,
    path: Seq<char>,
    exclude: Option<Seq<char>>,
    new_config: ServiceConfig,
)
    requires
        crate::context::config_names_unique(before),
        crate::context::config_ports_exclusive(before),
        config_valid(new_config, before, exclude),
        match exclude {
            Some(e) => before.contains_key(path) && before[path].config.name@ == e,
            None => !before.contains_key(path),
        },
        after.contains_key(path),
        after[path].config == new_config,
        forall|k: Seq<char>|
            #[trigger] after.contains_key(k) && k != path ==> before.contains_key(k) && after[k]
                == before[k],
        forall|k: Seq<char>|
            #[trigger] before.contains_key(k) && k != path ==> after.contains_key(k),
    ensures
        crate::context::config_names_unique(after),
        crate::context::config_ports_exclusive(after),
{
    assert forall|k: Seq<char>|
        before.contains_key(k) && k != path implies (#[trigger] before[k]).config.name@
        != new_config.name@ by {
        match exclude {
            Some(e) => {
                if e == new_config.name@ {
                    assert(before[k].config.name@ != before[path].config.name@);
                } else {
                    if before[k].config.name@ == new_config.name@ {
                        assert(crate::validate::name_conflict_with(before, new_config));
                    }
                }
            },
            None => {
                if before[k].config.name@ == new_config.name@ {
                    assert(crate::validate::name_conflict_with(before, new_config));
                }
            },
        }
    }
    assert forall|k1: Seq<char>, k2: Seq<char>|
        after.contains_key(k1) && after.contains_key(k2) && k1 != k2 implies (
    #[trigger] after[k1]).config.name@ != (#[trigger] after[k2]).config.name@ by {
        if k1 == path {
            assert(after[k2] == before[k2]);
        } else if k2 == path {
            assert(after[k1] == before[k1]);
        } else {
            assert(after[k1] == before[k1]);
            assert(after[k2] == before[k2]);
        }
    }
    assert forall|k1: Seq<char>, k2: Seq<char>, p: u16|
        after.contains_key(k1) && after.contains_key(k2) && (#[trigger] after[k1]).config.name@
            != (#[trigger] after[k2]).config.name@ implies !(crate::validate::config_node_ports(
        after[k1].config.spec.containers@,
    ).contains(p) && #[trigger] crate::validate::config_node_ports(
        after[k2].config.spec.containers@,
    ).contains(p)) by {
        if k1 == path || k2 == path {
            let other = if k1 == path {
                k2
            } else {
                k1
            };
            if other != path {
                assert(after[other] == before[other]);
                if before[other].config.name@ != new_config.name@ {
                    if crate::validate::config_node_ports(new_config.spec.containers@).contains(p)
                        && crate::validate::config_node_ports(
                        before[other].config.spec.containers@,
                    ).contains(p) {
                        assert(crate::validate::port_conflict_with(before, new_config));
                    }
                }
            }
        } else {
            assert(after[k1] == before[k1]);
            assert(after[k2] == before[k2]);
        }
    }
}

/// Forget the manifest at a removed path, handing back its service name
/// for the caller to stop.
pub fn remove_config_entry(ctx: &mut RuntimeContext, rel_path: &str) -> (r: Option<String>)
    requires
        old(ctx).wf(),
    ensures
        final(ctx).wf(),
        final(ctx).configs@ =~= old(ctx).configs@.remove(rel_path@),
        final(ctx).instances == old(ctx).instances,
        final(ctx).scaling_tasks == old(ctx).scaling_tasks,
        final(ctx).image_check_tasks == old(ctx).image_check_tasks,
        final(ctx).backends == old(ctx).backends,
        final(ctx).container_health == old(ctx).container_health,
        final(ctx).container_stats == old(ctx).container_stats,
        final(ctx).service_stats == old(ctx).service_stats,
        match r {
            Some(name) => old(ctx).configs@.contains_key(rel_path@) && name@ == old(
                ctx,
            ).configs@[rel_path@].config.name@,
            None => !old(ctx).configs@.contains_key(rel_path@),
        },
{
    let removed = ctx.configs.remove(rel_path);
    proof {
        lemma_restrict_invariants(old(ctx).configs@, final(ctx).configs@);
    }
    match removed {
        Some(entry) => Some(entry.config.name),
        None => None,
    }
}

/// A store that only lost entries keeps the name and port invariants.
proof fn lemma_restrict_invariants(
    before: Map<Seq<char>, ConfigEntry>,
    after: Map<Seq<char>, ConfigEntry>,
)
    requires
        crate::context::config_names_unique(before),
        crate::context::config_ports_exclusive(before),
        forall|k: Seq<char>|
            #[trigger] after.contains_key(k) ==> before.contains_key(k) && after[k] == before[k],
    ensures
        crate::context::config_names_unique(after),
        crate::context::config_ports_exclusive(after),
{
}

/// Does the list of live paths contain this key?
#[verifier::loop_isolation(false)]
fn paths_contain(paths: &Vec<String>, key: &String) -> (r: bool)
    ensures
        r == paths@.map_values(|s: String| s@).contains(key@),
{
    let n = paths.len();
    let mut i: usize = 0;
    while i < n
        invariant
            0 <= i <= n,
            forall|j: int| 0 <= j < i ==> (#[trigger] paths@[j])@ != key@,
        decreases n - i,
    {
        if paths[i].eq(key) {
            proof {
                assert(paths@.map_values(|s: String| s@)[i as int] == key@);
            }
            return true;
        }
        i = i + 1;
    }
    proof {
        let views = paths@.map_values(|s: String| s@);
        if views.contains(key@) {
            let j = choose|j: int| 0 <= j < views.len() && views[j] == key@;
            assert(paths@[j]@ == key@);
        }
    }
    false
}

/// Evict every config entry whose manifest file is gone: only the given
/// paths survive.  Returns the evicted services' names, for the caller
/// to stop.
#[verifier::loop_isolation(false)]
pub fn sweep_configs(ctx: &mut RuntimeContext, live_paths: &Vec<String>) -> (r: Vec<String>)
    requires
        old(ctx).wf(),
    ensures
        final(ctx).wf(),
        final(ctx).instances == old(ctx).instances,
        final(ctx).scaling_tasks == old(ctx).scaling_tasks,
        final(ctx).image_check_tasks == old(ctx).image_check_tasks,
        final(ctx).backends == old(ctx).backends,
        final(ctx).container_health == old(ctx).container_health,
        final(ctx).container_stats == old(ctx).container_stats,
        final(ctx).service_stats == old(ctx).service_stats,
        forall|k: Seq<char>|
            #[trigger] final(ctx).configs@.contains_key(k) <==> (old(ctx).configs@.contains_key(k)
                && live_paths@.map_values(|s: String| s@).contains(k)),
        forall|k: Seq<char>|
            final(ctx).configs@.contains_key(k) ==> #[trigger] final(ctx).configs@[k] == old(
                ctx,
            ).configs@[k],
        forall|idx: int|
            0 <= idx < r@.len() ==> exists|k: Seq<char>|
                old(ctx).configs@.contains_key(k) && !live_paths@.map_values(
                    |s: String| s@,
                ).contains(k) && (#[trigger] r@[idx])@ == old(ctx).configs@[k].config.name@,
        forall|k: Seq<char>|
            old(ctx).configs@.contains_key(k) && !live_paths@.map_values(|s: String| s@).contains(
                k,
            ) ==> r@.map_values(|s: String| s@).contains(
                #[trigger] old(ctx).configs@[k].config.name@,
            ),
{
    let mut dead_keys: Vec<String> = Vec::new();
    let mut names: Vec<String> = Vec::new();
    let ghost live_views = live_paths@.map_values(|s: String| s@);
    let n = ctx.configs.len();
    let mut i: usize = 0;
    proof {
        ctx.configs.lemma_keys();
    }
    while i < n
        invariant
            0 <= i <= n,
            dead_keys@.len() == names@.len(),
            forall|idx: int|
                0 <= idx < dead_keys@.len() ==> {
                    &&& ctx.configs@.contains_key((#[trigger] dead_keys@[idx])@)
                    &&& !live_views.contains(dead_keys@[idx]@)
                    &&& names@[idx]@ == ctx.configs@[dead_keys@[idx]@].config.name@
                },
            forall|j: int|
                0 <= j < i && !live_views.contains(#[trigger] ctx.configs.key_seq()[j])
                    ==> dead_keys@.map_values(|s: String| s@).contains(ctx.configs.key_seq()[j]),
        decreases n - i,
    {
        let key = ctx.configs.key_at(i);
        if !paths_contain(live_paths, key) {
            let ghost before = dead_keys@;
            let name = {
                let entry = ctx.configs.val_at(i);
                entry.config.name.clone()
            };
            dead_keys.push(key.clone());
            names.push(name);
            proof {
                assert forall|j: int|
                    0 <= j < i + 1 && !live_views.contains(#[trigger] ctx.configs.key_seq()[j])
                        implies dead_keys@.map_values(|s: String| s@).contains(
                    ctx.configs.key_seq()[j],
                ) by {
                    let views = dead_keys@.map_values(|s: String| s@);
                    let old_views = before.map_values(|s: String| s@);
                    if j < i {
                        let idx = choose|idx: int|
                            0 <= idx < old_views.len() && #[trigger] old_views[idx]
                                == ctx.configs.key_seq()[j];
                        assert(views[idx] == ctx.configs.key_seq()[j]);
                    } else {
                        assert(views[views.len() - 1] == ctx.configs.key_seq()[j]);
                    }
                }
            }
        }
        i = i + 1;
    }
    let ghost dead_views = dead_keys@.map_values(|s: String| s@);
    let ghost configs0 = ctx.configs@;
    let ghost mid = *ctx;
    let m = dead_keys.len();
    let mut p: usize = 0;
    while p < m
        invariant
            0 <= p <= m,
            ctx.configs.wf(),
            ctx.configs@ =~= remove_keys(configs0, dead_views.take(p as int)),
            ctx.instances == mid.instances,
            ctx.scaling_tasks == mid.scaling_tasks,
            ctx.image_check_tasks == mid.image_check_tasks,
            ctx.backends == mid.backends,
            ctx.container_health == mid.container_health,
            ctx.container_stats == mid.container_stats,
            ctx.service_stats == mid.service_stats,
        decreases m - p,
    {
        proof {
            assert(dead_views.take(p + 1).drop_last() =~= dead_views.take(p as int));
            assert(dead_views.take(p + 1).last() == dead_views[p as int]);
        }
        ctx.configs.remove(dead_keys[p].as_str());
        p = p + 1;
    }
    proof {
        assert(dead_views.take(m as int) =~= dead_views);
        lemma_remove_keys(configs0, dead_views);
        assert forall|k: Seq<char>|
            #[trigger] final(ctx).configs@.contains_key(k) <==> (old(ctx).configs@.contains_key(k)
                && live_views.contains(k)) by {
            if old(ctx).configs@.contains_key(k) {
                old(ctx).configs.lemma_keys();
                let j = choose|j: int|
                    0 <= j < old(ctx).configs.key_seq().len() && #[trigger] old(
                        ctx,
                    ).configs.key_seq()[j] == k;
                if !live_views.contains(k) {
                    assert(dead_views.contains(k));
                } else {
                    if dead_views.contains(k) {
                        let idx = choose|idx: int|
                            0 <= idx < dead_views.len() && dead_views[idx] == k;
                        assert(!live_views.contains(dead_keys@[idx]@));
                    }
                }
            }
        }
        lemma_restrict_invariants(old(ctx).configs@, final(ctx).configs@);
        assert forall|k: Seq<char>|
            old(ctx).configs@.contains_key(k) && !live_views.contains(k) implies r_names_contain(
            names@,
            old(ctx).configs@[k].config.name@,
        ) by {
            old(ctx).configs.lemma_keys();
            let j = choose|j: int|
                0 <= j < old(ctx).configs.key_seq().len() && #[trigger] old(
                    ctx,
                ).configs.key_seq()[j] == k;
            assert(dead_views.contains(k));
            let idx = choose|idx: int| 0 <= idx < dead_views.len() && dead_views[idx] == k;
            assert(names@[idx]@ == old(ctx).configs@[k].config.name@);
            assert(names@.map_values(|s: String| s@)[idx] == old(
                ctx,
            ).configs@[k].config.name@);
        }
        assert forall|idx: int| 0 <= idx < names@.len() implies exists|k: Seq<char>|
            old(ctx).configs@.contains_key(k) && !live_views.contains(k) && (
            #[trigger] names@[idx])@ == old(ctx).configs@[k].config.name@ by {
            let k = dead_keys@[idx]@;
            assert(old(ctx).configs@.contains_key(k) && !live_views.contains(k) && names@[idx]@
                == old(ctx).configs@[k].config.name@);
        }
    }
    names
}

/// The returned names contain this one.
spec fn r_names_contain(names: Seq<String>, name: Seq<char>) -> bool {
    names.map_values(|s: String| s@).contains(name)
}

/// The config loaded from a manifest path.
pub fn get_config_by_path<'a>(ctx: &'a RuntimeContext, path: &str) -> (r: Option<
    &'a ServiceConfig,
>)
    requires
        ctx.wf(),
    ensures
        match r {
            Some(c) => ctx.configs@.contains_key(path@) && *c == ctx.configs@[path@].config,
            None => !ctx.configs@.contains_key(path@),
        },
{
    match ctx.configs.get(path) {
        Some(entry) => Some(&entry.config),
        None => None,
    }
}

/// The config of the service with this name, if one is loaded.
#[verifier::loop_isolation(false)]
pub fn get_config_by_service<'a>(ctx: &'a RuntimeContext, service_name: &str) -> (r: Option<
    &'a ServiceConfig,
>)
    requires
        ctx.wf(),
    ensures
        match r {
            Some(c) => exists|k: Seq<char>|
                #[trigger] ctx.configs@.contains_key(k) && ctx.configs@[k].config == *c
                    && ctx.configs@[k].config.name@ == service_name@,
            None => forall|k: Seq<char>|
                #[trigger] ctx.configs@.contains_key(k) ==> ctx.configs@[k].config.name@
                    != service_name@,
        },
{
    let service_string = String::from_str(service_name);
    let n = ctx.configs.len();
    let mut i: usize = 0;
    proof {
        ctx.configs.lemma_keys();
    }
    while i < n
        invariant
            0 <= i <= n,
            service_string@ == service_name@,
            forall|j: int|
                0 <= j < i ==> ctx.configs@[#[trigger] ctx.configs.key_seq()[j]].config.name@
                    != service_name@,
        decreases n - i,
    {
        let entry = ctx.configs.val_at(i);
        if entry.config.name.eq(&service_string) {
            return Some(&entry.config);
        }
        i = i + 1;
    }
    proof {
        assert forall|k: Seq<char>|
            #[trigger] ctx.configs@.contains_key(k) implies ctx.configs@[k].config.name@
            != service_name@ by {
            let j = choose|j: int|
                0 <= j < ctx.configs.key_seq().len() && #[trigger] ctx.configs.key_seq()[j] == k;
        }
    }
    None
}

/// Is `pat` the subsequence of `s` starting at `i`?
pub open spec fn matches_at(s: Seq<char>, pat: Seq<char>, i: int) -> bool {
    0 <= i && i + pat.len() <= s.len() && s.subrange(i, i + pat.len()) =~= pat
}

/// The first position where `pat` occurs in `s`, or `-1`.
pub open spec fn find_first(s: Seq<char>, pat: Seq<char>) -> int
    decreases s.len(),
{
    if pat.len() <= s.len() && s.take(pat.len() as int) =~= pat {
        0
    } else if s.len() == 0 {
        -1
    } else {
        let rest = find_first(s.skip(1), pat);
        if rest < 0 {
            -1
        } else {
            1 + rest
        }
    }
}

/// Where a path sits relative to the watched directory: everything from
/// the first occurrence of the directory's name onwards.
#[verifier::loop_isolation(false)]
pub fn get_relative_config_path(full_path: &str, config_dir: &str) -> (r: Option<String>)
    ensures
        r is Some <==> find_first(full_path@, config_dir@) >= 0,
        r is Some ==> r->0@ == full_path@.skip(find_first(full_path@, config_dir@)),
{
    let flen = full_path.unicode_len();
    let plen = config_dir.unicode_len();
    if plen > flen {
        proof {
            assert forall|j: int| 0 <= j <= full_path@.len() implies !matches_at(
                full_path@,
                config_dir@,
                j,
            ) by {}
            lemma_find_first_none(full_path@, config_dir@);
        }
        return None;
    }
    if plen == 0 {
        proof {
            assert(full_path@.subrange(0, 0) =~= config_dir@);
            assert(matches_at(full_path@, config_dir@, 0));
            lemma_find_first_at(full_path@, config_dir@, 0);
            assert(full_path@.skip(0) =~= full_path@);
        }
        return Some(String::from_str(full_path));
    }
    let mut i: usize = 0;
    while i <= flen - plen
        invariant
            0 <= i,
            1 <= plen <= flen,
            i <= flen - plen + 1,
            flen == full_path@.len(),
            plen == config_dir@.len(),
            forall|j: int| 0 <= j < i ==> !matches_at(full_path@, config_dir@, j),
        decreases flen - i,
    {
        let mut k: usize = 0;
        let mut hit = true;
        let ghost mut bad: int = 0;
        while k < plen
            invariant
                0 <= k <= plen,
                i + plen <= flen,
                hit ==> forall|t: int| 0 <= t < k ==> full_path@[i + t] == config_dir@[t],
                !hit ==> 0 <= bad < plen && full_path@[i + bad] != config_dir@[bad],
            decreases plen - k,
        {
            if hit && full_path.get_char(i + k) != config_dir.get_char(k) {
                hit = false;
                proof {
                    bad = k as int;
                }
            }
            k = k + 1;
        }
        if hit {
            proof {
                assert(full_path@.subrange(i as int, i + plen) =~= config_dir@);
                assert(matches_at(full_path@, config_dir@, i as int));
                lemma_find_first_at(full_path@, config_dir@, i as int);
            }
            let suffix = full_path.substring_char(i, flen);
            return Some(String::from_str(suffix));
        }
        proof {
            if matches_at(full_path@, config_dir@, i as int) {
                assert(full_path@.subrange(i as int, i + plen)[bad] == config_dir@[bad]);
            }
        }
        i = i + 1;
    }
    proof {
        assert forall|j: int| 0 <= j < full_path@.len() + 1 implies !matches_at(
            full_path@,
            config_dir@,
            j,
        ) by {
            if j < i {
            } else {
                assert(j + config_dir@.len() > full_path@.len());
            }
        }
        lemma_find_first_none(full_path@, config_dir@);
    }
    None
}

/// When a match sits at `i` and none earlier, `find_first` yields `i`.
proof fn lemma_find_first_at(s: Seq<char>, pat: Seq<char>, i: int)
    requires
        matches_at(s, pat, i),
        forall|j: int| 0 <= j < i ==> !matches_at(s, pat, j),
    ensures
        find_first(s, pat) == i,
    decreases i,
{
    if i == 0 {
        assert(s.take(pat.len() as int) =~= s.subrange(0, pat.len() as int));
    } else {
        assert(!matches_at(s, pat, 0));
        assert(!(pat.len() <= s.len() && s.take(pat.len() as int) =~= pat)) by {
            if pat.len() <= s.len() && s.take(pat.len() as int) =~= pat {
                assert(s.subrange(0, pat.len() as int) =~= s.take(pat.len() as int));
            }
        }
        assert(matches_at(s.skip(1), pat, i - 1)) by {
            assert(s.skip(1).subrange(i - 1, i - 1 + pat.len()) =~= s.subrange(i, i + pat.len()));
        }
        assert forall|j: int| 0 <= j < i - 1 implies !matches_at(s.skip(1), pat, j) by {
            if matches_at(s.skip(1), pat, j) {
                assert(s.subrange(j + 1, j + 1 + pat.len()) =~= s.skip(1).subrange(
                    j,
                    j + pat.len(),
                ));
                assert(matches_at(s, pat, j + 1));
            }
        }
        lemma_find_first_at(s.skip(1), pat, i - 1);
    }
}

/// With no match anywhere, `find_first` yields `-1`.
proof fn lemma_find_first_none(s: Seq<char>, pat: Seq<char>)
    requires
        forall|j: int| 0 <= j <= s.len() ==> !matches_at(s, pat, j),
    ensures
        find_first(s, pat) < 0,
    decreases s.len(),
{
    assert(!matches_at(s, pat, 0));
    assert(!(pat.len() <= s.len() && s.take(pat.len() as int) =~= pat)) by {
        if pat.len() <= s.len() && s.take(pat.len() as int) =~= pat {
            assert(s.subrange(0, pat.len() as int) =~= s.take(pat.len() as int));
        }
    }
    if s.len() > 0 {
        assert forall|j: int| 0 <= j <= s.skip(1).len() implies !matches_at(s.skip(1), pat, j) by {
            if matches_at(s.skip(1), pat, j) {
                assert(s.subrange(j + 1, j + 1 + pat.len()) =~= s.skip(1).subrange(
                    j,
                    j + pat.len(),
                ));
                assert(matches_at(s, pat, j + 1));
            }
        }
        lemma_find_first_none(s.skip(1), pat);
    }
}

} // verus!

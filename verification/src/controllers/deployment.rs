//! Updates deployments by scaling the replica sets behind them.
use std::collections::hash_map::DefaultHasher;
use std::hash::{Hash, Hasher};
use vstd::prelude::*;
use vstd::std_specs::hash::DefaultHasherAdditionalSpecFns;
use crate::clock;
use crate::clock::{time_since, to_rfc3339, whole_secs_of};
use crate::controllers::manager::Change;
use crate::order;
use crate::order::stable_order;
use crate::protocol::meta::{ObjectMeta, ObjectMetaView, OwnerReference, OwnerReferenceView, ResourceKind};
use crate::protocol::meta;
use crate::protocol::value::Value;
use crate::protocol::workload::{
    Deployment, DeploymentCondition, DeploymentStatus, DeploymentStrategy, ReplicaSet, ReplicaSetSpec,
    ReplicaSetSpecView, ReplicaSetStatus, ReplicaSetView, RollingUpdateStrategy,
};
use crate::protocol::pod;
use crate::protocol::pod::PodTemplateSpecView;
use crate::random;
use crate::seqs;
use crate::text;
use crate::text::{concat3, str_eq, to_decimal_signed};

verus! {

/// The controller of deployments.
pub struct DeploymentController;

/// Whether the metadata names the deployment among its owners.
pub open spec fn owned_by(child: ObjectMeta, uid: u128) -> bool {
    child.owner_references matches Some(v) && exists|i: int|
        0 <= i < v@.len() && (#[trigger] v@[i]).uid == uid && v@[i].kind == ResourceKind::Deployment
}

/// Whether the replica set runs the deployment's current template.
pub open spec fn is_current(rs: ReplicaSet, d: Deployment) -> bool {
    rs.spec.template.spec.deep_view() == d.spec.template.spec.deep_view()
}

/// The last replica set, below `n`, that runs the current template.
pub open spec fn last_current(d: Deployment, sets: Seq<ReplicaSet>, n: int) -> Option<int>
    decreases n,
{
    if n <= 0 {
        None
    } else if is_current(sets[n - 1], d) {
        Some(n - 1)
    } else {
        last_current(d, sets, n - 1)
    }
}

/// The first replica set, at or after `from`, that runs the current template.
pub open spec fn first_current(d: Deployment, sets: Seq<ReplicaSet>, from: int) -> Option<int>
    decreases sets.len() - from,
{
    if from < 0 || from >= sets.len() {
        None
    } else if is_current(sets[from], d) {
        Some(from)
    } else {
        first_current(d, sets, from + 1)
    }
}

pub open spec fn is_old(d: Deployment, sets: Seq<ReplicaSet>) -> spec_fn(usize) -> bool {
    |i: usize| !is_current(sets[i as int], d)
}

pub open spec fn positions(n: nat) -> Seq<usize> {
    Seq::new(n, |i: int| i as usize)
}

/// The sum of the wanted replicas of the first `n` sets.
pub open spec fn sum_replicas(sets: Seq<ReplicaSet>, n: int) -> int
    decreases n,
{
    if n <= 0 {
        0
    } else {
        sum_replicas(sets, n - 1) + sets[n - 1].spec.replicas
    }
}

pub open spec fn sum_available(sets: Seq<ReplicaSet>, n: int) -> int
    decreases n,
{
    if n <= 0 {
        0
    } else {
        sum_available(sets, n - 1) + sets[n - 1].status.available_replicas
    }
}

pub open spec fn sum_ready(sets: Seq<ReplicaSet>, n: int) -> int
    decreases n,
{
    if n <= 0 {
        0
    } else {
        sum_ready(sets, n - 1) + sets[n - 1].status.ready_replicas
    }
}

pub open spec fn sum_existing(sets: Seq<ReplicaSet>, n: int) -> int
    decreases n,
{
    if n <= 0 {
        0
    } else {
        sum_existing(sets, n - 1) + sets[n - 1].status.replicas
    }
}

pub open spec fn fits(v: int) -> bool {
    i32::MIN <= v <= i32::MAX
}

/// The number of sets without replicas.
pub open spec fn empty_sets(sets: Seq<ReplicaSet>) -> int {
    positions(sets.len()).filter(has_none(sets)).len() as int
}

/// Whether the room above the pods that there are can be counted, as far as it has to be.
pub open spec fn can_scale_up(
    desired: i32,
    strategy: RollingUpdateStrategy,
    new_replicas: i32,
    total: i32,
) -> bool {
    let room = desired + strategy.max_surge - total;
    &&& fits(desired + strategy.max_surge)
    &&& new_replicas < desired ==> fits(room)
    &&& new_replicas < desired && room > 0 ==> fits(new_replicas + room)
}

/// Whether the pods beyond the desired number can be counted, as far as they have to be.
pub open spec fn can_scale_down(desired: i32, strategy: RollingUpdateStrategy, total: i32) -> bool {
    &&& fits(desired - strategy.max_unavailable)
    &&& total > desired ==> fits(total - desired)
}

/// Whether the sets, each with its new number of replicas, are those that give up `count` pods
/// in proportion to what they have, the largest first.
pub open spec fn is_scale_down_plan(old: Seq<ReplicaSet>, count: int, r: Seq<(usize, i32)>) -> bool {
    exists|o: Seq<usize>| #[trigger]
        is_size_order(o, old) && r == cut_list(old, o, count, o.len() as int)
}

/// Whether no running sum over the sets leaves the range of the counters.
pub open spec fn sums_fit(sets: Seq<ReplicaSet>) -> bool {
    forall|n: int|
        0 <= n <= sets.len() ==> fits(#[trigger] sum_replicas(sets, n)) && fits(
            sum_available(sets, n),
        ) && fits(sum_ready(sets, n)) && fits(sum_existing(sets, n))
}

impl DeploymentController {
    /// check if child resource is owned by parent resource
    pub fn is_owned_by(child_meta: &ObjectMeta, parent_meta: &ObjectMeta) -> (r: bool)
        ensures
            r == owned_by(*child_meta, parent_meta.uid),
    {
        match &child_meta.owner_references {
            Some(owners) => {
                for i in 0..owners.len()
                    invariant
                        child_meta.owner_references == Some(*owners),
                        forall|j: int|
                            0 <= j < i ==> !((#[trigger] owners@[j]).uid == parent_meta.uid
                                && owners@[j].kind == ResourceKind::Deployment),
                {
                    if owners[i].uid == parent_meta.uid && owners[i].kind
                        == ResourceKind::Deployment {
                        proof {
                            let v = child_meta.owner_references->0;
                            assert(v@ == owners@);
                            assert(v@[i as int].uid == parent_meta.uid);
                        }
                        return true;
                    }
                }
                false
            },
            None => false,
        }
    }

    /// The replica sets that the deployment owns, by their position.
    pub fn owned_replicasets(d: &Deployment, all: &Vec<ReplicaSet>) -> (r: Vec<usize>)
        ensures
            r@ == positions(all@.len()).filter(
                |i: usize| owned_by(all@[i as int].metadata, d.metadata.uid),
            ),
    {
        let ghost p = |i: usize| owned_by(all@[i as int].metadata, d.metadata.uid);
        let ghost ps = positions(all@.len());
        let mut out: Vec<usize> = Vec::new();
        proof {
            seqs::lemma_filter_none(ps, p);
        }
        for i in 0..all.len()
            invariant
                ps == positions(all@.len()),
                p == (|i: usize| owned_by(all@[i as int].metadata, d.metadata.uid)),
                out@ == ps.take(i as int).filter(p),
        {
            proof {
                seqs::lemma_filter_take(ps, p, i as int);
                assert(ps[i as int] == i);
            }
            if DeploymentController::is_owned_by(&all[i].metadata, &d.metadata) {
                out.push(i);
            }
        }
        out
    }

    /// Check if a ReplicaSet's pod template matches the Deployment's pod template
    pub fn replicaset_matches_deployment(rs: &ReplicaSet, deployment: &Deployment) -> (r: bool)
        ensures
            r == is_current(*rs, *deployment),
    {
        rs.spec.template.spec.same(&deployment.spec.template.spec)
    }

    /// Separate new ReplicaSet (matching current template) from old ones, by their position.
    /// All sets that do not match are old; of several that match the last one is the new one.
    pub fn get_new_and_old_replicasets(d: &Deployment, owned: &Vec<ReplicaSet>) -> (r: (
        Option<usize>,
        Vec<usize>,
    ))
        ensures
            match r.0 {
                Some(i) => last_current(*d, owned@, owned@.len() as int) == Some(i as int),
                None => last_current(*d, owned@, owned@.len() as int) is None,
            },
            r.1@ == positions(owned@.len()).filter(is_old(*d, owned@)),
    {
        let ghost p = is_old(*d, owned@);
        let ghost ps = positions(owned@.len());
        let mut new: Option<usize> = None;
        let mut old: Vec<usize> = Vec::new();
        proof {
            seqs::lemma_filter_none(ps, p);
        }
        for i in 0..owned.len()
            invariant
                ps == positions(owned@.len()),
                p == is_old(*d, owned@),
                match new {
                    Some(k) => last_current(*d, owned@, i as int) == Some(k as int),
                    None => last_current(*d, owned@, i as int) is None,
                },
                old@ == ps.take(i as int).filter(p),
        {
            proof {
                seqs::lemma_filter_take(ps, p, i as int);
                assert(ps[i as int] == i);
            }
            if DeploymentController::replicaset_matches_deployment(&owned[i], d) {
                new = Some(i);
            } else {
                old.push(i);
            }
        }
        (new, old)
    }

    /// The replica set to use when none was found to be the new one: the first that matches,
    /// by its position, or none when one is to be made.
    pub fn find_replicaset(d: &Deployment, owned: &Vec<ReplicaSet>) -> (r: Option<usize>)
        ensures
            match r {
                Some(i) => first_current(*d, owned@, 0) == Some(i as int),
                None => first_current(*d, owned@, 0) is None,
            },
    {
        let mut i: usize = 0;
        while i < owned.len()
            invariant
                i <= owned@.len(),
                first_current(*d, owned@, 0) == first_current(*d, owned@, i as int),
            decreases owned@.len() - i,
        {
            if DeploymentController::replicaset_matches_deployment(&owned[i], d) {
                return Some(i);
            }
            i = i + 1;
        }
        None
    }

    /// Calculate total, available, and ready replica counts
    pub fn calculate_replica(sets: &Vec<ReplicaSet>) -> (r: (i32, i32, i32))
        requires
            sums_fit(sets@),
        ensures
            r.0 == sum_replicas(sets@, sets@.len() as int),
            r.1 == sum_available(sets@, sets@.len() as int),
            r.2 == sum_ready(sets@, sets@.len() as int),
    {
        let mut total: i32 = 0;
        let mut available: i32 = 0;
        let mut ready: i32 = 0;
        for i in 0..sets.len()
            invariant
                sums_fit(sets@),
                total == sum_replicas(sets@, i as int),
                available == sum_available(sets@, i as int),
                ready == sum_ready(sets@, i as int),
        {
            assert(fits(sum_replicas(sets@, i as int + 1)));
            total = total + sets[i].spec.replicas;
            available = available + sets[i].status.available_replicas;
            ready = ready + sets[i].status.ready_replicas;
        }
        (total, available, ready)
    }

    /// Recreate strategy: the old sets to scale down to nothing, by their position, and the
    /// number of replicas that the new set is to be scaled to, when it differs.
    pub fn recreate_update(
        deployment: &Deployment,
        new_replicas: i32,
        old: &Vec<ReplicaSet>,
    ) -> (r: (Vec<usize>, Option<i32>))
        ensures
            r.0@ == positions(old@.len()).filter(has_replicas(old@)),
            r.1 == if new_replicas != deployment.spec.replicas {
                Some(deployment.spec.replicas)
            } else {
                None
            },
    {
        let down = with_replicas(old);
        if new_replicas != deployment.spec.replicas {
            (down, Some(deployment.spec.replicas))
        } else {
            (down, None)
        }
    }

    /// Rolling update, first step: the number of replicas that the new set is scaled up to,
    /// as far as the surge allows.
    pub fn rolling_scale_up(
        desired: i32,
        strategy: RollingUpdateStrategy,
        new_replicas: i32,
        total: i32,
    ) -> (r: Option<i32>)
        requires
            can_scale_up(desired, strategy, new_replicas, total),
        ensures
            match r {
                Some(n) => scale_up(
                    desired as int,
                    strategy.max_surge as int,
                    new_replicas as int,
                    total as int,
                ) == Some(n as int),
                None => scale_up(
                    desired as int,
                    strategy.max_surge as int,
                    new_replicas as int,
                    total as int,
                ) is None,
            },
    {
        if new_replicas < desired {
            let max_total: i32 = desired + strategy.max_surge;
            let room: i32 = max_total - total;
            if room > 0 {
                let wanted: i32 = new_replicas + room;
                if wanted <= desired {
                    return Some(wanted);
                }
                return Some(desired);
            }
        }
        None
    }

    /// Rolling update, second step: the number of pods that the old sets give up, from the
    /// counts after the first step. Enough pods stay available, and no fewer than desired
    /// stay in total.
    pub fn rolling_scale_down(
        desired: i32,
        strategy: RollingUpdateStrategy,
        old: &Vec<ReplicaSet>,
        total: i32,
        available: i32,
    ) -> (r: i32)
        requires
            can_scale_down(desired, strategy, total),
        ensures
            r == if old@.len() == 0 {
                0
            } else {
                scale_down(
                    desired as int,
                    strategy.max_unavailable as int,
                    total as int,
                    available as int,
                )
            },
    {
        if old.len() == 0 {
            return 0;
        }
        let floor: i32 = desired - strategy.max_unavailable;
        let min_available: i32 = if floor > 0 {
            floor
        } else {
            0
        };
        let a: i32 = if available > min_available {
            available - min_available
        } else {
            0
        };
        let b: i32 = if total > desired {
            total - desired
        } else {
            0
        };
        if a <= b {
            a
        } else {
            b
        }
    }

    /// Scale down old ReplicaSets proportionally, the largest first: the sets to scale, by their
    /// position, each with its new number of replicas.
    pub fn scale_down_old_replicasets(old: &Vec<ReplicaSet>, count: i32) -> (r: Vec<(usize, i32)>)
        ensures
            is_scale_down_plan(old@, count as int, r@),
    {
        let active = with_replicas(old);
        let mut keys: Vec<Option<i128>> = Vec::new();
        proof {
            lemma_with_replicas(old@);
        }
        for i in 0..active.len()
            invariant
                active@ == positions(old@.len()).filter(has_replicas(old@)),
                forall|k: int| 0 <= k < active@.len() ==> #[trigger] active@[k] < old@.len(),
                keys@.len() == i,
                forall|k: int|
                    0 <= k < i ==> #[trigger] keys@[k] == Some(
                        (-old@[active@[k] as int].spec.replicas) as i128,
                    ),
        {
            let k: usize = active[i];
            assert(active@[i as int] < old@.len());
            keys.push(Some(-(old[k].spec.replicas as i128)));
        }
        let by_size = stable_order(&keys);
        let mut o: Vec<usize> = Vec::new();
        for i in 0..by_size.len()
            invariant
                by_size@.len() == active@.len(),
                forall|k: int| 0 <= k < by_size@.len() ==> #[trigger] by_size@[k] < active@.len(),
                o@.len() == i,
                forall|k: int| 0 <= k < i ==> #[trigger] o@[k] == active@[by_size@[k] as int],
        {
            assert(by_size@[i as int] < active@.len());
            o.push(active[by_size[i]]);
        }
        proof {
            assert(is_size_order(o@, old@)) by {
                assert(by_size_of(o@, by_size@, keys@, old@));
            }
        }
        let ghost len = o@.len() as int;
        assert(o.len() == o@.len());
        assert(forall|k: int| 0 <= k < o@.len() ==> old@[(#[trigger] o@[k]) as int].spec.replicas > 0);
        let mut total: i128 = 0;
        for i in 0..o.len()
            invariant
                forall|k: int| 0 <= k < o@.len() ==> #[trigger] o@[k] < old@.len(),
                total == sum_of(old@, o@, i as int),
                forall|k: int| 0 <= k < o@.len() ==> old@[(#[trigger] o@[k]) as int].spec.replicas > 0,
                0 <= total <= i * 0x7fff_ffff,
                o@.len() <= usize::MAX,
        {
            assert(o@[i as int] < old@.len());
            assert(old@[o@[i as int] as int].spec.replicas > 0);
            total = total + old[o[i]].spec.replicas as i128;
        }
        let wanted: i128 = if count <= 0 {
            0
        } else if count as i128 <= total {
            count as i128
        } else {
            total
        };
        let mut out: Vec<(usize, i32)> = Vec::new();
        let mut seen: i128 = 0;
        let mut given: i128 = 0;
        proof {
            if total > 0 {
                lemma_share(wanted as int, total as int, 0, 0);
            }
        }
        for i in 0..o.len()
            invariant
                len == o@.len(),
                o@.len() <= usize::MAX,
                forall|k: int| 0 <= k < o@.len() ==> #[trigger] o@[k] < old@.len(),
                forall|k: int| 0 <= k < o@.len() ==> old@[(#[trigger] o@[k]) as int].spec.replicas > 0,
                total == sum_of(old@, o@, len),
                0 <= total <= o@.len() * 0x7fff_ffff,
                wanted == asked(count as int, total as int),
                seen == sum_of(old@, o@, i as int),
                given == share(wanted as int, total as int, seen as int),
                out@ == cut_list(old@, o@, count as int, i as int),
        {
            let k: usize = o[i];
            assert(o@[i as int] < old@.len());
            assert(old@[o@[i as int] as int].spec.replicas > 0);
            let have: i32 = old[k].spec.replicas;
            proof {
                lemma_sum_grows(old@, o@, i + 1, len);
                lemma_sum_grows(old@, o@, 0, i as int);
            }
            seen = seen + have as i128;
            proof {
                let (w, s, t) = (wanted as int, seen as int, total as int);
                lemma_share(w, t, s - have, have as int);
                assert(0 <= w * s <= 0x7fff_ffff * 0x7fff_ffff_0000_0000_0000_0000) by (nonlinear_arith)
                    requires
                        0 <= w <= 0x7fff_ffff,
                        0 <= s <= 0x7fff_ffff_0000_0000_0000_0000,
                ;
            }
            let next: i128 = (wanted * seen + (total - 1)) / total;
            let cut: i128 = next - given;
            if cut > 0 {
                out.push((k, have - cut as i32));
            }
            given = next;
        }
        out
    }

    /// The old sets without replicas that go beyond the history limit, the oldest first, by
    /// their position.
    pub fn clean_old_replicasets(deployment: &Deployment, old: &Vec<ReplicaSet>) -> (r: Vec<usize>)
        requires
            empty_sets(old@) <= i32::MAX,
            fits(empty_sets(old@) - deployment.spec.revision_history_limit),
        ensures
            exists|o: Seq<usize>| #[trigger]
                is_age_order(o, old@) && r@ == if o.len()
                    <= deployment.spec.revision_history_limit {
                    Seq::<usize>::empty()
                } else {
                    o.take(
                        least(
                            o.len() as int,
                            o.len() - deployment.spec.revision_history_limit,
                        ),
                    )
                },
    {
        let limit: i32 = deployment.spec.revision_history_limit;
        let ghost p = has_none(old@);
        let ghost ps = positions(old@.len());
        let mut zero: Vec<usize> = Vec::new();
        let mut keys: Vec<Option<i128>> = Vec::new();
        proof {
            seqs::lemma_filter_none(ps, p);
        }
        for i in 0..old.len()
            invariant
                ps == positions(old@.len()),
                p == has_none(old@),
                zero@ == ps.take(i as int).filter(p),
                zero@.len() == keys@.len(),
                zero@.len() <= i,
                forall|k: int| 0 <= k < zero@.len() ==> #[trigger] zero@[k] < old@.len(),
                forall|k: int|
                    0 <= k < zero@.len() ==> #[trigger] keys@[k]
                        == old@[zero@[k] as int].metadata.creation_timestamp,
        {
            proof {
                seqs::lemma_filter_take(ps, p, i as int);
                assert(ps[i as int] == i);
            }
            if old[i].spec.replicas == 0 {
                zero.push(i);
                keys.push(old[i].metadata.creation_timestamp);
            }
        }
        assert(ps.take(old@.len() as int) =~= ps);
        let by_age = stable_order(&keys);
        let mut o: Vec<usize> = Vec::new();
        for i in 0..by_age.len()
            invariant
                by_age@.len() == zero@.len(),
                forall|k: int| 0 <= k < by_age@.len() ==> #[trigger] by_age@[k] < zero@.len(),
                o@.len() == i,
                forall|k: int| 0 <= k < i ==> #[trigger] o@[k] == zero@[by_age@[k] as int],
        {
            assert(by_age@[i as int] < zero@.len());
            o.push(zero[by_age[i]]);
        }
        assert(is_age_order(o@, old@)) by {
            assert(by_age_of(o@, by_age@, keys@, old@));
        }
        let n: i32 = o.len() as i32;
        let ghost ov = o@;
        if n <= limit {
            return Vec::new();
        }
        let surplus: usize = (n - limit) as usize;
        if surplus < o.len() {
            o.truncate(surplus);
        }
        assert(o@ =~= ov.take(least(ov.len() as int, ov.len() - limit)));
        o
    }

    /// The generation to record as observed, when it is not recorded yet.
    pub fn update_observed_generation(deployment: &Deployment) -> (r: Option<i64>)
        ensures
            ({
                let g: i64 = match deployment.metadata.generation {
                    Some(g) => g,
                    None => 0,
                };
                r == if deployment.status.observed_generation == Some(g) {
                    None
                } else {
                    Some(g)
                }
            }),
    {
        let g: i64 = match deployment.metadata.generation {
            Some(g) => g,
            None => 0,
        };
        match deployment.status.observed_generation {
            Some(o) => if o == g {
                None
            } else {
                Some(g)
            },
            None => Some(g),
        }
    }

    /// Counts one more collision of names.
    pub fn increment_collision_count(deployment: &mut Deployment)
        requires
            old(deployment).status.collision_count < i32::MAX,
        ensures
            *final(deployment) == (Deployment {
                status: DeploymentStatus {
                    collision_count: (old(deployment).status.collision_count + 1) as i32,
                    ..old(deployment).status
                },
                ..*old(deployment)
            }),
    {
        deployment.status.collision_count = deployment.status.collision_count + 1;
    }

    /// Counts one more generation.
    pub fn increment_generation(deployment: &mut Deployment)
        requires
            old(deployment).metadata.generation matches Some(g) ==> g < i64::MAX,
        ensures
            *final(deployment) == (Deployment {
                metadata: ObjectMeta {
                    generation: Some(
                        match old(deployment).metadata.generation {
                            Some(g) => (g + 1) as i64,
                            None => 1,
                        },
                    ),
                    ..old(deployment).metadata
                },
                ..*old(deployment)
            }),
    {
        let g: i64 = match deployment.metadata.generation {
            Some(g) => g + 1,
            None => 1,
        };
        deployment.metadata.generation = Some(g);
    }

    /// Sets the status of the stored deployment from its replica sets. `desired` is the
    /// deployment that the reconciliation started from.
    pub fn update_deployment_status(
        desired: &Deployment,
        owned: &Vec<ReplicaSet>,
        stored: &mut Deployment,
    )
        requires
            sums_fit(owned@),
            fits(desired.spec.replicas - sum_available(owned@, owned@.len() as int)),
        ensures
            ({
                let n = owned@.len() as int;
                let available = sum_available(owned@, n);
                let missing = desired.spec.replicas - available;
                *final(stored) == (Deployment {
                    status: DeploymentStatus {
                        replicas: sum_existing(owned@, n) as i32,
                        ready_replicas: sum_ready(owned@, n) as i32,
                        available_replicas: available as i32,
                        updated_replicas: match last_current(*desired, owned@, n) {
                            Some(i) => owned@[i].status.replicas,
                            None => 0,
                        },
                        unavailable_replicas: if missing > 0 {
                            missing as i32
                        } else {
                            0
                        },
                        ..old(stored).status
                    },
                    ..*old(stored)
                })
            }),
    {
        let mut total: i32 = 0;
        let mut ready: i32 = 0;
        let mut available: i32 = 0;
        let mut updated: i32 = 0;
        for i in 0..owned.len()
            invariant
                sums_fit(owned@),
                *stored == *old(stored),
                total == sum_existing(owned@, i as int),
                ready == sum_ready(owned@, i as int),
                available == sum_available(owned@, i as int),
                updated == match last_current(*desired, owned@, i as int) {
                    Some(k) => owned@[k].status.replicas,
                    None => 0,
                },
        {
            assert(fits(sum_replicas(owned@, i as int + 1)));
            total = total + owned[i].status.replicas;
            ready = ready + owned[i].status.ready_replicas;
            available = available + owned[i].status.available_replicas;
            if DeploymentController::replicaset_matches_deployment(&owned[i], desired) {
                updated = owned[i].status.replicas;
            }
        }
        let missing: i32 = desired.spec.replicas - available;
        stored.status.replicas = total;
        stored.status.ready_replicas = ready;
        stored.status.available_replicas = available;
        stored.status.updated_replicas = updated;
        stored.status.unavailable_replicas = if missing > 0 {
            missing
        } else {
            0
        };
    }
}

pub open spec fn least(a: int, b: int) -> int {
    if a <= b {
        a
    } else {
        b
    }
}

/// The number of replicas that the new set is scaled up to: nothing when it has enough or
/// there is no room.
pub open spec fn scale_up(desired: int, max_surge: int, new_replicas: int, total: int) -> Option<
    int,
> {
    let room = desired + max_surge - total;
    if new_replicas < desired && room > 0 {
        Some(least(new_replicas + room, desired))
    } else {
        None
    }
}

/// The number of pods that the old sets give up.
pub open spec fn scale_down(desired: int, max_unavailable: int, total: int, available: int) -> int {
    let floor = desired - max_unavailable;
    let min_available = if floor > 0 {
        floor
    } else {
        0
    };
    let a = if available > min_available {
        available - min_available
    } else {
        0
    };
    let b = if total > desired {
        total - desired
    } else {
        0
    };
    least(a, b)
}

pub open spec fn has_replicas(sets: Seq<ReplicaSet>) -> spec_fn(usize) -> bool {
    |i: usize| sets[i as int].spec.replicas > 0
}

pub open spec fn has_none(sets: Seq<ReplicaSet>) -> spec_fn(usize) -> bool {
    |i: usize| sets[i as int].spec.replicas == 0
}

/// The sets with replicas, by their position.
fn with_replicas(sets: &Vec<ReplicaSet>) -> (r: Vec<usize>)
    ensures
        r@ == positions(sets@.len()).filter(has_replicas(sets@)),
{
    let ghost p = has_replicas(sets@);
    let ghost ps = positions(sets@.len());
    let mut out: Vec<usize> = Vec::new();
    proof {
        seqs::lemma_filter_none(ps, p);
    }
    for i in 0..sets.len()
        invariant
            ps == positions(sets@.len()),
            p == has_replicas(sets@),
            out@ == ps.take(i as int).filter(p),
    {
        proof {
            seqs::lemma_filter_take(ps, p, i as int);
            assert(ps[i as int] == i);
        }
        if sets[i].spec.replicas > 0 {
            out.push(i);
        }
    }
    out
}

proof fn lemma_with_replicas(sets: Seq<ReplicaSet>)
    ensures
        ({
            let f = positions(sets.len()).filter(has_replicas(sets));
            forall|k: int|
                0 <= k < f.len() ==> (#[trigger] f[k]) < sets.len() && sets[f[k] as int].spec.replicas
                    > 0
        }),
{
    let ps = positions(sets.len());
    let f = ps.filter(has_replicas(sets));
    seqs::lemma_filter_members(ps, has_replicas(sets));
    assert forall|k: int| 0 <= k < f.len() implies (#[trigger] f[k]) < sets.len()
        && sets[f[k] as int].spec.replicas > 0 by {
        assert(f.contains(f[k]));
        assert(has_replicas(sets)(f[k]));
    }
}

/// Whether `o` is `inner` ordered by size through the order `by`.
pub open spec fn by_size_of(
    o: Seq<usize>,
    by: Seq<usize>,
    keys: Seq<Option<i128>>,
    sets: Seq<ReplicaSet>,
) -> bool {
    let inner = positions(sets.len()).filter(has_replicas(sets));
    &&& order::is_order(by, keys)
    &&& keys.len() == inner.len()
    &&& forall|k: int|
        0 <= k < inner.len() ==> #[trigger] keys[k] == Some(
            (-sets[inner[k] as int].spec.replicas) as i128,
        )
    &&& o.len() == inner.len()
    &&& forall|k: int| 0 <= k < o.len() ==> #[trigger] o[k] == inner[by[k] as int]
}

/// Whether `o` holds the sets with replicas, the largest first; sets of one size keep their
/// order.
pub open spec fn is_size_order(o: Seq<usize>, sets: Seq<ReplicaSet>) -> bool {
    exists|by: Seq<usize>, keys: Seq<Option<i128>>| #[trigger] by_size_of(o, by, keys, sets)
}

/// Whether `o` is `inner` ordered by age through the order `by`.
pub open spec fn by_age_of(
    o: Seq<usize>,
    by: Seq<usize>,
    keys: Seq<Option<i128>>,
    sets: Seq<ReplicaSet>,
) -> bool {
    let inner = positions(sets.len()).filter(has_none(sets));
    &&& order::is_order(by, keys)
    &&& keys.len() == inner.len()
    &&& forall|k: int|
        0 <= k < inner.len() ==> #[trigger] keys[k]
            == sets[inner[k] as int].metadata.creation_timestamp
    &&& o.len() == inner.len()
    &&& forall|k: int| 0 <= k < o.len() ==> #[trigger] o[k] == inner[by[k] as int]
}

/// Whether `o` holds the sets without replicas, the oldest first; sets of one age keep their
/// order.
pub open spec fn is_age_order(o: Seq<usize>, sets: Seq<ReplicaSet>) -> bool {
    exists|by: Seq<usize>, keys: Seq<Option<i128>>| #[trigger] by_age_of(o, by, keys, sets)
}

/// The sum of what the first `n` sets of an order have.
pub open spec fn sum_of(sets: Seq<ReplicaSet>, o: Seq<usize>, n: int) -> int
    decreases n,
{
    if n <= 0 {
        0
    } else {
        sum_of(sets, o, n - 1) + sets[o[n - 1] as int].spec.replicas
    }
}

/// What sets that have `total` pods give up when they are asked for `count`.
pub open spec fn asked(count: int, total: int) -> int {
    if count <= 0 {
        0
    } else {
        least(count, total)
    }
}

/// The share of `count` that falls to `part` of `total`, rounded up.
pub open spec fn share(count: int, total: int, part: int) -> int {
    if total <= 0 {
        0
    } else {
        (count * part + (total - 1)) / total
    }
}

/// What the set at a place of the order gives up: the sets up to it give up the share of what
/// they have together, and those before it gave theirs.
pub open spec fn cut(sets: Seq<ReplicaSet>, o: Seq<usize>, count: int, k: int) -> int {
    let total = sum_of(sets, o, o.len() as int);
    let wanted = asked(count, total);
    share(wanted, total, sum_of(sets, o, k + 1)) - share(wanted, total, sum_of(sets, o, k))
}

/// The sets that give up pods, among the first `n` of the order, each with what it keeps.
pub open spec fn cut_list(sets: Seq<ReplicaSet>, o: Seq<usize>, count: int, n: int) -> Seq<
    (usize, i32),
>
    decreases n,
{
    if n <= 0 {
        Seq::empty()
    } else {
        let rest = cut_list(sets, o, count, n - 1);
        let have = sets[o[n - 1] as int].spec.replicas;
        let less = cut(sets, o, count, n - 1);
        if less > 0 {
            rest.push((o[n - 1], (have - less) as i32))
        } else {
            rest
        }
    }
}

proof fn lemma_sum_grows(sets: Seq<ReplicaSet>, o: Seq<usize>, m: int, n: int)
    requires
        0 <= m <= n <= o.len(),
        forall|k: int| 0 <= k < o.len() ==> sets[(#[trigger] o[k]) as int].spec.replicas > 0,
    ensures
        0 <= sum_of(sets, o, m) <= sum_of(sets, o, n) <= n * 0x7fff_ffff,
    decreases n,
{
    if n > 0 {
        assert(sets[o[n - 1] as int].spec.replicas > 0);
        if m < n {
            lemma_sum_grows(sets, o, m, n - 1);
        } else {
            lemma_sum_grows(sets, o, n - 1, n - 1);
        }
    }
}

/// A share grows with its part by no more than the part does, and by its proportion of the count,
/// up to less than one.
proof fn lemma_share(count: int, total: int, part: int, more: int)
    requires
        0 <= count <= total,
        0 < total,
        0 <= part,
        0 <= more,
    ensures
        0 <= share(count, total, part) <= share(count, total, part + more),
        share(count, total, part + more) - share(count, total, part) <= more,
        -total < (share(count, total, part + more) - share(count, total, part)) * total - count
            * more < total,
        share(count, total, 0) == 0,
        share(count, total, total) == count,
{
    let a = count * part + (total - 1);
    let b = count * (part + more) + (total - 1);
    assert(b == a + count * more) by (nonlinear_arith)
        requires
            a == count * part + (total - 1),
            b == count * (part + more) + (total - 1),
    ;
    assert(0 <= count * part) by (nonlinear_arith)
        requires
            0 <= count,
            0 <= part,
    ;
    assert(0 <= count * more <= total * more) by (nonlinear_arith)
        requires
            0 <= count <= total,
            0 <= more,
    ;
    vstd::arithmetic::div_mod::lemma_fundamental_div_mod(a, total);
    vstd::arithmetic::div_mod::lemma_fundamental_div_mod(b, total);
    vstd::arithmetic::div_mod::lemma_mod_bound(a, total);
    vstd::arithmetic::div_mod::lemma_mod_bound(b, total);
    let x = a / total;
    let y = b / total;
    let d = y - x;
    assert(d * total == total * y - total * x) by (nonlinear_arith)
        requires
            d == y - x,
    ;
    assert(x >= 0) by (nonlinear_arith)
        requires
            a == total * x + a % total,
            a >= 0,
            a % total < total,
            total > 0,
    ;
    assert(d >= 0) by (nonlinear_arith)
        requires
            -total < d * total,
            total > 0,
    ;
    assert(d <= more) by (nonlinear_arith)
        requires
            d * total < total * more + total,
            total > 0,
    ;
    let c0 = total - 1;
    assert(count * 0 == 0);
    vstd::arithmetic::div_mod::lemma_small_mod(c0 as nat, total as nat);
    vstd::arithmetic::div_mod::lemma_fundamental_div_mod(c0, total);
    assert(c0 / total == 0) by (nonlinear_arith)
        requires
            c0 == total * (c0 / total) + c0,
            total > 0,
    ;
    vstd::arithmetic::div_mod::lemma_fundamental_div_mod_converse(
        count * total + c0,
        total,
        count,
        c0,
    );
}

/// What the reconciliation of a deployment starts with.
#[derive(Debug, Clone, Copy, PartialEq, Eq, Structural)]
pub enum DeploymentStep {
    /// The deployment is being deleted; the garbage collector handles its replica sets.
    Leave,
    Recreate,
    Roll,
}

/// What becomes of a wish to make the replica set of the current template.
#[derive(Debug)]
pub enum NewReplicaSet {
    /// The set of that name already runs the template.
    Existing,
    /// The set to store.
    Insert(ReplicaSet),
    /// The name is taken: the deployment counts a collision, and the reconciliation fails with
    /// the message.
    Collision(String),
}

/// The number of characters of a template's hash in a name.
pub const HASH_LENGTH: usize = 10;

/// The hexadecimal text of a number, without leading zeros.
pub open spec fn lower_hex(v: nat) -> Seq<char>
    decreases v,
{
    if v < 16 {
        seq![random::hex_digit(v as int)]
    } else {
        lower_hex(v / 16).push(random::hex_digit((v % 16) as int))
    }
}

/// The first characters of a text.
pub open spec fn at_most(s: Seq<char>, n: int) -> Seq<char> {
    s.take(least(s.len() as int, n))
}

/// The writes that hashing a text makes.
pub uninterp spec fn text_writes(s: Seq<char>) -> Seq<Seq<u8>>;

/// `str::hash` into a `DefaultHasher`: the writes depend on the text alone.
#[verifier::external_body]
fn hash_text(s: &str, hasher: &mut DefaultHasher)
    ensures
        final(hasher)@ == old(hasher)@ + text_writes(s@),
{
    s.hash(hasher);
}

/// The four bytes of a number, the lowest first.
pub open spec fn low_first(v: i32) -> Seq<u8> {
    seq![
        (v as int % 256) as u8,
        (v as int / 256 % 256) as u8,
        (v as int / 65536 % 256) as u8,
        (v as int / 16777216 % 256) as u8,
    ]
}

/// `i32::hash` into a `DefaultHasher`: one write of the number's four bytes, in the order of
/// the machine.
#[verifier::external_body]
fn hash_count(v: i32, hasher: &mut DefaultHasher)
    ensures
        final(hasher)@ == old(hasher)@.push(low_first(v)) || final(hasher)@ == old(hasher)@.push(
            low_first(v).reverse(),
        ),
{
    v.hash(hasher);
}

/// The name part that a hash becomes.
pub open spec fn hash_name(hash: u64) -> Seq<char> {
    at_most(lower_hex(hash as nat), HASH_LENGTH as int)
}

/// Whether `r` is the name part of a template, given as text, after `count` collisions. With
/// collisions it depends on the order in which the machine keeps the bytes of a number.
pub open spec fn is_hash(r: Seq<char>, template: Seq<char>, count: i32) -> bool {
    let writes = text_writes(template);
    if count > 0 {
        r == hash_name(DefaultHasher::spec_finish(writes.push(low_first(count)))) || r == hash_name(
            DefaultHasher::spec_finish(writes.push(low_first(count).reverse())),
        )
    } else {
        r == hash_name(DefaultHasher::spec_finish(writes))
    }
}

fn push_lower_hex(out: &mut String, v: u64)
    ensures
        final(out)@ == old(out)@ + lower_hex(v as nat),
    decreases v,
{
    if v >= 16 {
        push_lower_hex(out, v / 16);
    }
    let ghost before = out@;
    random::push_hex(out, (v % 16) as u128, 1);
    proof {
        reveal_with_fuel(random::hex_text, 2);
        assert(out@ =~= old(out)@ + lower_hex(v as nat));
    }
}

/// The first ten hexadecimal digits of a hash.
pub fn hash_text_of(hash: u64) -> (r: String)
    ensures
        r@ == hash_name(hash),
{
    let mut s = String::new();
    push_lower_hex(&mut s, hash);
    assert(s@ =~= lower_hex(hash as nat));
    let v = text::chars_of(s.as_str());
    let n: usize = if v.len() <= HASH_LENGTH {
        v.len()
    } else {
        HASH_LENGTH
    };
    let r = text::string_of(&v, 0, n);
    assert(r@ =~= at_most(lower_hex(hash as nat), HASH_LENGTH as int));
    r
}

/// The metadata of the replica set of a deployment's current template.
pub open spec fn set_meta(d: Deployment, name: Seq<char>) -> ObjectMetaView {
    ObjectMetaView {
        labels: d.spec.selector.match_labels@,
        owner_references: Some(
            seq![
                OwnerReferenceView {
                    api_version: d.api_version@,
                    kind: ResourceKind::Deployment,
                    name: d.metadata.name@,
                    uid: d.metadata.uid,
                    controller: true,
                    block_owner_deletion: Some(true),
                },
            ],
        ),
        ..meta::bare_meta(name, d.metadata.namespace@, 0)
    }
}

/// The template with the selector's labels.
pub open spec fn labelled(d: Deployment) -> PodTemplateSpecView {
    let t = d.spec.template.deep_view();
    PodTemplateSpecView {
        metadata: ObjectMetaView {
            labels: t.metadata.labels.union_prefer_right(d.spec.selector.match_labels@),
            ..t.metadata
        },
        ..t
    }
}

/// The replica set of a deployment's current template, without pods yet.
pub open spec fn set_view(d: Deployment, name: Seq<char>) -> ReplicaSetView {
    ReplicaSetView {
        api_version: "v1"@,
        kind: "ReplicaSet"@,
        metadata: set_meta(d, name),
        spec: ReplicaSetSpecView {
            replicas: 0,
            selector: d.spec.selector.deep_view(),
            template: labelled(d),
        },
        status: ReplicaSetStatus {
            replicas: 0,
            fully_labeled_replicas: 0,
            ready_replicas: 0,
            available_replicas: 0,
        },
    }
}

/// The type of the condition that tells whether an update makes progress.
pub open spec fn progressing() -> Seq<char> {
    "Progressing"@
}

/// The position of the first condition of a type, or the number of conditions.
pub open spec fn condition_at(conditions: Seq<DeploymentCondition>, kind: Seq<char>, from: int) -> int
    decreases conditions.len() - from,
{
    if from < 0 || from >= conditions.len() {
        conditions.len() as int
    } else if conditions[from].condition_type@ == kind {
        from
    } else {
        condition_at(conditions, kind, from + 1)
    }
}

fn find_condition(conditions: &Vec<DeploymentCondition>, kind: &str) -> (r: usize)
    ensures
        r == condition_at(conditions@, kind@, 0),
        r <= conditions@.len(),
        r < conditions@.len() ==> conditions@[r as int].condition_type@ == kind@,
{
    let mut i: usize = 0;
    while i < conditions.len()
        invariant
            i <= conditions@.len(),
            condition_at(conditions@, kind@, 0) == condition_at(conditions@, kind@, i as int),
        decreases conditions@.len() - i,
    {
        if str_eq(conditions[i].condition_type.as_str(), kind) {
            return i;
        }
        i = i + 1;
    }
    i
}

/// The time since which the deployment is said to make progress.
pub open spec fn progress_since(d: Deployment) -> Option<Seq<char>> {
    let i = condition_at(d.status.conditions@, progressing(), 0);
    if i < d.status.conditions@.len() && d.status.conditions@[i].status@ == "True"@ {
        Some(d.status.conditions@[i].last_transition_time@)
    } else {
        None
    }
}

/// Whether `c` says that the update took longer than its deadline.
pub open spec fn is_overdue(c: DeploymentCondition, deadline: i64, now: Seq<char>) -> bool {
    &&& c.condition_type@ == progressing()
    &&& c.status@ == "False"@
    &&& text::opt_text(c.reason) == Some("ProgressDeadlineExceeded"@)
    &&& text::opt_text(c.message) == Some(
        "ReplicaSet update exceeded "@ + text::decimal_int(deadline as int) + "s"@,
    )
    &&& c.last_transition_time@ == now
    &&& text::opt_text(c.last_update_time) == Some(now)
}

/// What a change of a deployment asks for.
#[derive(Debug, Clone, Copy, PartialEq, Eq, Structural)]
pub struct DeploymentCall {
    /// Whether the deployment counts one more generation.
    pub increment_generation: bool,
    /// Whether the deployment is reconciled.
    pub reconcile: bool,
}

/// The position of the first reference to a controlling deployment, or the number of
/// references.
pub open spec fn controller_at(owners: Seq<OwnerReference>, from: int) -> int
    decreases owners.len() - from,
{
    if from < 0 || from >= owners.len() {
        owners.len() as int
    } else if owners[from].kind == ResourceKind::Deployment && owners[from].controller {
        from
    } else {
        controller_at(owners, from + 1)
    }
}

/// The name of the deployment that controls an object.
pub open spec fn controller_of(m: ObjectMeta) -> Option<Seq<char>> {
    match m.owner_references {
        Some(v) => {
            let i = controller_at(v@, 0);
            if i < v@.len() {
                Some(v@[i].name@)
            } else {
                None
            }
        },
        None => None,
    }
}

impl DeploymentController {
    /// What the reconciliation of a deployment starts with.
    pub fn reconcile_deployment(deployment: &Deployment) -> (r: DeploymentStep)
        ensures
            r == match deployment.metadata.deletion_timestamp {
                Some(_) => DeploymentStep::Leave,
                None => match deployment.spec.strategy {
                    DeploymentStrategy::Recreate => DeploymentStep::Recreate,
                    DeploymentStrategy::RollingUpdate { .. } => DeploymentStep::Roll,
                },
            },
    {
        match deployment.metadata.deletion_timestamp {
            Some(_) => DeploymentStep::Leave,
            None => match &deployment.spec.strategy {
                DeploymentStrategy::Recreate => DeploymentStep::Recreate,
                DeploymentStrategy::RollingUpdate { .. } => DeploymentStep::Roll,
            },
        }
    }

    /// Generate a stable hash of the pod template for replicaset name. The template is given as
    /// text; `collision_count` counts if it is positive.
    pub fn generate_hash(template: &str, collision_count: i32) -> (r: String)
        ensures
            is_hash(r@, template@, collision_count),
    {
        let mut hasher = DefaultHasher::new();
        hash_text(template, &mut hasher);
        assert(hasher@ =~= text_writes(template@));
        if collision_count > 0 {
            hash_count(collision_count, &mut hasher);
        }
        let hash = hasher.finish();
        hash_text_of(hash)
    }

    /// The name of the replica set of the current template, which is given as text.
    pub fn replicaset_name(deployment: &Deployment, template: &str) -> (r: String)
        ensures
            exists|h: Seq<char>| #[trigger]
                is_hash(h, template@, deployment.status.collision_count) && r@
                    == deployment.metadata.name@ + "-"@ + h,
    {
        let hash = DeploymentController::generate_hash(
            template,
            deployment.status.collision_count,
        );
        assert(is_hash(hash@, template@, deployment.status.collision_count));
        concat3(deployment.metadata.name.as_str(), "-", hash.as_str())
    }

    /// The replica set of the current template, without pods yet.
    pub fn new_replicaset(deployment: &Deployment, name: String) -> (r: ReplicaSet)
        ensures
            r.deep_view() == set_view(*deployment, name@),
    {
        let mut m = ObjectMeta::bare(name, deployment.metadata.namespace.clone(), 0);
        m.labels = deployment.spec.selector.match_labels.copy();
        let owner = OwnerReference {
            api_version: deployment.api_version.clone(),
            kind: ResourceKind::Deployment,
            name: deployment.metadata.name.clone(),
            uid: deployment.metadata.uid,
            controller: true,
            block_owner_deletion: Some(true),
        };
        let mut owners: Vec<OwnerReference> = Vec::new();
        owners.push(owner);
        assert(owners.deep_view() =~= seq![owner.deep_view()]);
        m.owner_references = Some(owners);
        let mut template = deployment.spec.template.copy();
        template.metadata.labels.merge(&deployment.spec.selector.match_labels);
        let r = ReplicaSet {
            api_version: "v1".to_owned(),
            kind: "ReplicaSet".to_owned(),
            metadata: m,
            spec: ReplicaSetSpec {
                replicas: 0,
                selector: deployment.spec.selector.copy(),
                template,
            },
            status: ReplicaSetStatus {
                replicas: 0,
                fully_labeled_replicas: 0,
                ready_replicas: 0,
                available_replicas: 0,
            },
        };
        assert(r.metadata.deep_view() == set_meta(*deployment, name@));
        assert(r.spec.template.deep_view() == labelled(*deployment));
        r
    }

    /// What becomes of the wish to make the replica set of the current template, when a set of
    /// its name is already stored or not.
    pub fn create_replicaset(
        deployment: &Deployment,
        name: String,
        existing: Option<&ReplicaSet>,
    ) -> (r: NewReplicaSet)
        ensures
            match (r, existing) {
                (NewReplicaSet::Insert(rs), e) => e is None && rs.deep_view() == set_view(
                    *deployment,
                    name@,
                ),
                (NewReplicaSet::Existing, Some(e)) => owned_by(
                    e.metadata,
                    deployment.metadata.uid,
                ) && is_current(*e, *deployment),
                (NewReplicaSet::Collision(m), Some(e)) => if owned_by(
                    e.metadata,
                    deployment.metadata.uid,
                ) {
                    !is_current(*e, *deployment) && m@
                        == "Hash collision detected, collision_count incremented, will retry on next reconcile"@
                } else {
                    m@ == "ReplicaSet name conflict detected, collision_count incremented"@
                },
                _ => false,
            },
    {
        match existing {
            Some(e) => {
                if DeploymentController::is_owned_by(&e.metadata, &deployment.metadata) {
                    if DeploymentController::replicaset_matches_deployment(e, deployment) {
                        NewReplicaSet::Existing
                    } else {
                        NewReplicaSet::Collision(
                            "Hash collision detected, collision_count incremented, will retry on next reconcile".to_owned(),
                        )
                    }
                } else {
                    NewReplicaSet::Collision(
                        "ReplicaSet name conflict detected, collision_count incremented".to_owned(),
                    )
                }
            },
            None => NewReplicaSet::Insert(
                DeploymentController::new_replicaset(deployment, name),
            ),
        }
    }

    /// Sets the number of replicas of a stored replica set, `seen` being the number that was
    /// read before. Whether the set is to be stored again.
    pub fn scale_replicaset(seen: i32, new_replicas: i32, stored: &mut ReplicaSet) -> (r: bool)
        ensures
            r == (seen != new_replicas),
            *final(stored) == if r {
                (ReplicaSet {
                    spec: ReplicaSetSpec { replicas: new_replicas, ..old(stored).spec },
                    ..*old(stored)
                })
            } else {
                *old(stored)
            },
    {
        if seen == new_replicas {
            false
        } else {
            stored.spec.replicas = new_replicas;
            true
        }
    }

    /// The condition to record when an update took longer than its deadline. `elapsed` is the
    /// number of seconds since the update is said to make progress, if it can be told, and
    /// `now` the current time.
    pub fn overdue_condition(
        deployment: &Deployment,
        elapsed: Option<i128>,
        now: String,
    ) -> (r: Option<DeploymentCondition>)
        ensures
            match r {
                Some(c) => is_overdue(c, deployment.spec.progress_deadline_seconds, now@),
                None => true,
            },
            r is Some <==> progress_since(*deployment) is Some && (elapsed matches Some(e) && e
                > deployment.spec.progress_deadline_seconds),
    {
        let i = find_condition(&deployment.status.conditions, "Progressing");
        if i < deployment.status.conditions.len() && str_eq(
            deployment.status.conditions[i].status.as_str(),
            "True",
        ) {
            let deadline: i64 = deployment.spec.progress_deadline_seconds;
            if let Some(e) = elapsed {
                if e > deadline as i128 {
                    return Some(
                        DeploymentCondition {
                            condition_type: "Progressing".to_owned(),
                            status: "False".to_owned(),
                            reason: Some("ProgressDeadlineExceeded".to_owned()),
                            message: Some(
                                concat3(
                                    "ReplicaSet update exceeded ",
                                    to_decimal_signed(deadline).as_str(),
                                    "s",
                                ),
                            ),
                            last_transition_time: now.clone(),
                            last_update_time: Some(now),
                        },
                    );
                }
            }
        }
        None
    }

    /// Check if deployment has exceeded progress deadline: the condition to record, at a time
    /// given in seconds and nanoseconds since the epoch.
    pub fn check_progress_deadline(deployment: &Deployment, secs: i64, nanos: u32) -> (r: Option<
        DeploymentCondition,
    >)
        ensures
            match (progress_since(*deployment), clock::rfc3339_text(secs, nanos)) {
                (Some(since), Some(now)) => {
                    let overdue = clock::time_between(since, secs, nanos) matches Some(e)
                        && clock::whole_secs(e) > deployment.spec.progress_deadline_seconds;
                    match r {
                        Some(c) => overdue && is_overdue(
                            c,
                            deployment.spec.progress_deadline_seconds,
                            now,
                        ),
                        None => !overdue,
                    }
                },
                _ => r is None,
            },
    {
        let i = find_condition(&deployment.status.conditions, "Progressing");
        if i < deployment.status.conditions.len() {
            let elapsed: Option<i128> = match time_since(
                deployment.status.conditions[i].last_transition_time.as_str(),
                secs,
                nanos,
            ) {
                Some(d) => Some(whole_secs_of(d)),
                None => None,
            };
            match to_rfc3339(secs, nanos) {
                Some(now) => DeploymentController::overdue_condition(deployment, elapsed, now),
                None => None,
            }
        } else {
            None
        }
    }

    /// Update or add a condition in deployment status
    pub fn update_condition(stored: &mut Deployment, condition: DeploymentCondition)
        ensures
            final(stored).status.conditions@ == {
                let before = old(stored).status.conditions@;
                let i = condition_at(before, condition.condition_type@, 0);
                if i < before.len() {
                    before.update(i, condition)
                } else {
                    before.push(condition)
                }
            },
            *final(stored) == (Deployment {
                status: DeploymentStatus {
                    conditions: final(stored).status.conditions,
                    ..old(stored).status
                },
                ..*old(stored)
            }),
    {
        let i = find_condition(&stored.status.conditions, condition.condition_type.as_str());
        if i < stored.status.conditions.len() {
            stored.status.conditions.set(i, condition);
        } else {
            stored.status.conditions.push(condition);
        }
    }

    /// What a change of a deployment asks for: a new one is reconciled, and one whose
    /// specification changed.
    pub fn handle_deployment_change(change: &Change<Deployment>) -> (r: DeploymentCall)
        ensures
            r.reconcile == match *change {
                Change::Add(_) => true,
                Change::Update { old, new } => old.spec.deep_view() != new.spec.deep_view(),
                Change::Delete(_) => false,
            },
            r.increment_generation == (r.reconcile && *change is Update),
    {
        match change {
            Change::Add(_) => DeploymentCall { increment_generation: false, reconcile: true },
            Change::Update { old, new } => {
                let changed = !old.spec.same(&new.spec);
                DeploymentCall { increment_generation: changed, reconcile: changed }
            },
            Change::Delete(_) => DeploymentCall { increment_generation: false, reconcile: false },
        }
    }

    /// The deployment that controls a replica set: its name.
    pub fn controlling_deployment(m: &ObjectMeta) -> (r: Option<String>)
        ensures
            text::opt_text(r) == controller_of(*m),
    {
        match &m.owner_references {
            Some(owners) => {
                let mut i: usize = 0;
                while i < owners.len()
                    invariant
                        i <= owners@.len(),
                        m.owner_references == Some(*owners),
                        controller_at(owners@, 0) == controller_at(owners@, i as int),
                    decreases owners@.len() - i,
                {
                    if owners[i].kind == ResourceKind::Deployment && owners[i].controller {
                        return Some(owners[i].name.clone());
                    }
                    i = i + 1;
                }
                None
            },
            None => None,
        }
    }

    /// The deployment whose status is to be updated after a change of a replica set: its name.
    pub fn handle_replicaset_change(change: &Change<ReplicaSet>) -> (r: Option<String>)
        ensures
            text::opt_text(r) == match *change {
                Change::Add(rs) => controller_of(rs.metadata),
                Change::Update { old, new } => if old.status != new.status {
                    controller_of(new.metadata)
                } else {
                    None
                },
                Change::Delete(_) => None,
            },
    {
        match change {
            Change::Add(rs) => DeploymentController::controlling_deployment(&rs.metadata),
            Change::Update { old, new } => if old.status == new.status {
                None
            } else {
                DeploymentController::controlling_deployment(&new.metadata)
            },
            Change::Delete(_) => None,
        }
    }

    /// The kinds of objects that the controller watches.
    pub fn watch_resources() -> (r: Vec<ResourceKind>)
        ensures
            r@ == seq![ResourceKind::Deployment, ResourceKind::ReplicaSet],
    {
        let mut v: Vec<ResourceKind> = Vec::new();
        v.push(ResourceKind::Deployment);
        v.push(ResourceKind::ReplicaSet);
        v
    }
}

/// The number that the new set has after being asked to scale up.
pub open spec fn scaled(new_replicas: int, up: Option<int>) -> int {
    match up {
        Some(n) => n,
        None => new_replicas,
    }
}

/// A rolling update never has more pods than the desired number and the surge, where it had
/// no more before, and its new set never has more than desired. `total` counts the pods of
/// all sets; in between, the old sets give up `down` pods.
pub proof fn law_rolling_update_keeps_within_surge(
    desired: int,
    max_surge: int,
    max_unavailable: int,
    new_replicas: int,
    total: int,
    available: int,
)
    requires
        total <= desired + max_surge,
        new_replicas <= desired,
    ensures
        ({
            let first = scaled(new_replicas, scale_up(desired, max_surge, new_replicas, total));
            let total1 = total + first - new_replicas;
            let down = scale_down(desired, max_unavailable, total1, available);
            let total2 = total1 - down;
            let again = scaled(first, scale_up(desired, max_surge, first, total2));
            let total3 = total2 + again - first;
            &&& new_replicas <= first <= again <= desired
            &&& total1 <= desired + max_surge
            &&& total2 <= desired + max_surge
            &&& total3 <= desired + max_surge
        }),
{
}

/// What the old sets give up never takes the available pods below the least number that the
/// update keeps available, nor the pods in total below the desired number.
pub proof fn law_rolling_update_keeps_pods_available(
    desired: int,
    max_unavailable: int,
    total: int,
    available: int,
)
    ensures
        ({
            let down = scale_down(desired, max_unavailable, total, available);
            &&& down >= 0
            &&& down > 0 ==> available - down >= desired - max_unavailable && available - down >= 0
            &&& down > 0 ==> total - down >= desired
        }),
{
}

/// A rolling update that is not done moves on: with room above the desired number, an update
/// whose old sets still have pods either scales the new set up or the old sets down, once all
/// pods are available.
pub proof fn law_rolling_update_moves_on(
    desired: int,
    max_surge: int,
    max_unavailable: int,
    new_replicas: int,
    old_replicas: int,
)
    requires
        max_surge > 0,
        max_unavailable >= 0,
        0 <= new_replicas <= desired,
        old_replicas > 0,
        desired > 0,
    ensures
        ({
            let total = new_replicas + old_replicas;
            let first = scaled(new_replicas, scale_up(desired, max_surge, new_replicas, total));
            let total1 = total + first - new_replicas;
            first > new_replicas || scale_down(desired, max_unavailable, total1, total) > 0
        }),
{
}

/// What the first `n` sets of an order give up together.
pub open spec fn given_up(sets: Seq<ReplicaSet>, o: Seq<usize>, count: int, n: int) -> int
    decreases n,
{
    if n <= 0 {
        0
    } else {
        given_up(sets, o, count, n - 1) + cut(sets, o, count, n - 1)
    }
}

/// The old sets give up exactly what is asked of them, or all they have.
pub proof fn law_old_sets_give_up_what_is_asked(sets: Seq<ReplicaSet>, o: Seq<usize>, count: int)
    requires
        forall|k: int|
            0 <= k < o.len() ==> sets[(#[trigger] o[k]) as int].spec.replicas > 0,
    ensures
        given_up(sets, o, count, o.len() as int) == asked(count, sum_of(sets, o, o.len() as int)),
{
    let len = o.len() as int;
    let total = sum_of(sets, o, len);
    lemma_sum_grows(sets, o, 0, len);
    lemma_given_up(sets, o, count, len);
    if total > 0 {
        lemma_share(asked(count, total), total, 0, 0);
    }
}

proof fn lemma_given_up(sets: Seq<ReplicaSet>, o: Seq<usize>, count: int, n: int)
    requires
        0 <= n <= o.len(),
        forall|k: int| 0 <= k < o.len() ==> sets[(#[trigger] o[k]) as int].spec.replicas > 0,
    ensures
        ({
            let total = sum_of(sets, o, o.len() as int);
            given_up(sets, o, count, n) == share(asked(count, total), total, sum_of(sets, o, n))
        }),
    decreases n,
{
    let total = sum_of(sets, o, o.len() as int);
    lemma_sum_grows(sets, o, 0, o.len() as int);
    if n > 0 {
        lemma_given_up(sets, o, count, n - 1);
    } else if total > 0 {
        lemma_share(asked(count, total), total, 0, 0);
    }
}

/// Each old set gives up its proportion of what is asked, up to less than one pod, and no more
/// than it has.
pub proof fn law_old_sets_shrink_in_proportion(
    sets: Seq<ReplicaSet>,
    o: Seq<usize>,
    count: int,
    k: int,
)
    requires
        0 <= k < o.len(),
        forall|k: int|
            0 <= k < o.len() ==> sets[(#[trigger] o[k]) as int].spec.replicas > 0,
    ensures
        ({
            let total = sum_of(sets, o, o.len() as int);
            let have = sets[o[k] as int].spec.replicas;
            &&& 0 <= cut(sets, o, count, k) <= have
            &&& -total < cut(sets, o, count, k) * total - asked(count, total) * have < total
        }),
{
    let total = sum_of(sets, o, o.len() as int);
    let have = sets[o[k] as int].spec.replicas;
    assert(have > 0);
    lemma_sum_grows(sets, o, 0, k);
    lemma_sum_grows(sets, o, k + 1, o.len() as int);
    lemma_share(asked(count, total), total, sum_of(sets, o, k), have as int);
}

/// There is one order of the sets by size.
pub proof fn law_size_order_is_unique(a: Seq<usize>, b: Seq<usize>, sets: Seq<ReplicaSet>)
    requires
        sets.len() <= usize::MAX,
        is_size_order(a, sets),
        is_size_order(b, sets),
    ensures
        a == b,
{
    let (by1, keys1) = choose|by: Seq<usize>, keys: Seq<Option<i128>>| #[trigger]
        by_size_of(a, by, keys, sets);
    let (by2, keys2) = choose|by: Seq<usize>, keys: Seq<Option<i128>>| #[trigger]
        by_size_of(b, by, keys, sets);
    seqs::lemma_filter_members(positions(sets.len()), has_replicas(sets));
    assert(keys1 =~= keys2);
    lemma_filter_length(positions(sets.len()), has_replicas(sets));
    order::law_order_is_unique(by1, by2, keys1);
    assert(a =~= b);
}

/// There is one order of the sets by age.
pub proof fn law_age_order_is_unique(a: Seq<usize>, b: Seq<usize>, sets: Seq<ReplicaSet>)
    requires
        sets.len() <= usize::MAX,
        is_age_order(a, sets),
        is_age_order(b, sets),
    ensures
        a == b,
{
    let (by1, keys1) = choose|by: Seq<usize>, keys: Seq<Option<i128>>| #[trigger]
        by_age_of(a, by, keys, sets);
    let (by2, keys2) = choose|by: Seq<usize>, keys: Seq<Option<i128>>| #[trigger]
        by_age_of(b, by, keys, sets);
    assert(keys1 =~= keys2);
    lemma_filter_length(positions(sets.len()), has_none(sets));
    order::law_order_is_unique(by1, by2, keys1);
    assert(a =~= b);
}

proof fn lemma_filter_length(s: Seq<usize>, p: spec_fn(usize) -> bool)
    ensures
        s.filter(p).len() <= s.len(),
    decreases s.len(),
{
    reveal(Seq::filter);
    if s.len() > 0 {
        lemma_filter_length(s.drop_last(), p);
    }
}

/// The replica set made for a deployment is owned by it, and none other of its template is
/// made while it exists.
pub proof fn law_new_set_is_owned_and_current(d: Deployment, rs: ReplicaSet, name: Seq<char>)
    requires
        rs.deep_view() == set_view(d, name),
    ensures
        owned_by(rs.metadata, d.metadata.uid),
        controller_of(rs.metadata) == Some(d.metadata.name@),
        is_current(rs, d),
        rs.spec.replicas == 0,
{
    let m = rs.metadata;
    assert(m.deep_view().owner_references == set_meta(d, name).owner_references);
    let v = m.owner_references->0;
    assert(v.deep_view().len() == 1);
    assert(v.deep_view()[0] == v@[0].deep_view());
    assert(v@[0].uid == d.metadata.uid && v@[0].kind == ResourceKind::Deployment);
    assert(rs.spec.template.deep_view() == labelled(d));
}

/// One pod template always maps to one hash, as long as no collision was counted.
pub proof fn law_template_has_one_hash(a: Seq<char>, b: Seq<char>, template: Seq<char>, count: i32)
    requires
        count <= 0,
        is_hash(a, template, count),
        is_hash(b, template, count),
    ensures
        a == b,
{
}

/// A replica set runs the current template exactly when its pods are described like those of the
/// deployment in every respect: where they run, each container and init container by its name, its
/// image and all the rest, when they are restarted, their volumes, and the other fields.
pub proof fn law_current_set_runs_the_very_template(rs: ReplicaSet, d: Deployment, r: bool)
    requires
        call_ensures(DeploymentController::replicaset_matches_deployment, (&rs, &d), r),
    ensures
        ({
            let a = rs.spec.template.spec;
            let b = d.spec.template.spec;
            &&& r <==> {
                &&& a.node_name.deep_view() == b.node_name.deep_view()
                &&& pod::same_containers(a.containers@, b.containers@)
                &&& pod::same_containers(a.init_containers@, b.init_containers@)
                &&& a.restart_policy == b.restart_policy
                &&& pod::same_volumes(a.volumes@, b.volumes@)
                &&& a.rest@ == b.rest@
            }
            &&& r ==> a.containers@.len() == b.containers@.len()
            &&& r ==> forall|i: int|
                0 <= i < a.containers@.len() ==> (#[trigger] a.containers@[i]).image@
                    == b.containers@[i].image@ && a.containers@[i].name@ == b.containers@[i].name@
            &&& r ==> forall|i: int|
                0 <= i < a.init_containers@.len() ==> (#[trigger] a.init_containers@[i]).image@
                    == b.init_containers@[i].image@
        }),
{
    let a = rs.spec.template.spec;
    let b = d.spec.template.spec;
    pod::lemma_same_containers(a.containers, b.containers);
    pod::lemma_same_containers(a.init_containers, b.init_containers);
    pod::lemma_same_volumes(a.volumes, b.volumes);
}

/// Whether a replica set runs what the deployment describes.
pub open spec fn runs_template(rs: ReplicaSet, d: Deployment) -> bool {
    pod::same_spec(rs.spec.template.spec, d.spec.template.spec)
}

proof fn lemma_is_current(rs: ReplicaSet, d: Deployment)
    ensures
        is_current(rs, d) == runs_template(rs, d),
{
    pod::lemma_same_spec(rs.spec.template.spec, d.spec.template.spec);
}

/// The new replica set is the last of those that run the template of the deployment, and the old
/// ones are those that do not, each once.
pub proof fn law_sets_are_told_apart_by_their_template(
    d: Deployment,
    owned: Vec<ReplicaSet>,
    r: (Option<usize>, Vec<usize>),
)
    requires
        call_ensures(DeploymentController::get_new_and_old_replicasets, (&d, &owned), r),
        owned@.len() <= usize::MAX,
    ensures
        r.0 matches Some(i) ==> i < owned@.len() && runs_template(owned@[i as int], d) && forall|k: int|
            i < k < owned@.len() ==> !runs_template(#[trigger] owned@[k], d),
        r.0 is None ==> forall|k: int|
            0 <= k < owned@.len() ==> !runs_template(#[trigger] owned@[k], d),
        forall|i: usize| #[trigger]
            r.1@.contains(i) <==> i < owned@.len() && !runs_template(owned@[i as int], d),
        r.1@.no_duplicates(),
{
    lemma_last_current(d, owned@, owned@.len() as int);
    let ps = positions(owned@.len());
    let p = is_old(d, owned@);
    seqs::lemma_filter_members(ps, p);
    assert(ps.no_duplicates());
    seqs::lemma_filter_distinct(ps, p);
    assert forall|i: usize| #[trigger] r.1@.contains(i) <==> i < owned@.len() && !runs_template(
        owned@[i as int],
        d,
    ) by {
        if i < owned@.len() {
            assert(ps[i as int] == i);
            lemma_is_current(owned@[i as int], d);
        }
    }
    assert forall|k: int| 0 <= k < owned@.len() implies is_current(#[trigger] owned@[k], d)
        == runs_template(owned@[k], d) by {
        lemma_is_current(owned@[k], d);
    }
}

proof fn lemma_last_current(d: Deployment, sets: Seq<ReplicaSet>, n: int)
    requires
        0 <= n <= sets.len(),
    ensures
        match last_current(d, sets, n) {
            Some(i) => 0 <= i < n && is_current(sets[i], d) && forall|k: int|
                i < k < n ==> !is_current(#[trigger] sets[k], d),
            None => forall|k: int| 0 <= k < n ==> !is_current(#[trigger] sets[k], d),
        },
    decreases n,
{
    if n > 0 && !is_current(sets[n - 1], d) {
        lemma_last_current(d, sets, n - 1);
    }
}

proof fn lemma_first_current(d: Deployment, sets: Seq<ReplicaSet>, from: int)
    requires
        0 <= from <= sets.len(),
    ensures
        match first_current(d, sets, from) {
            Some(i) => from <= i < sets.len() && is_current(sets[i], d) && forall|k: int|
                from <= k < i ==> !is_current(#[trigger] sets[k], d),
            None => forall|k: int| from <= k < sets.len() ==> !is_current(#[trigger] sets[k], d),
        },
    decreases sets.len() - from,
{
    if from < sets.len() && !is_current(sets[from], d) {
        lemma_first_current(d, sets, from + 1);
    }
}

/// A replica set is used again when, and only when, one runs the template: the first of them.
pub proof fn law_set_of_the_template_is_used_again(
    d: Deployment,
    owned: Vec<ReplicaSet>,
    r: Option<usize>,
)
    requires
        call_ensures(DeploymentController::find_replicaset, (&d, &owned), r),
    ensures
        r matches Some(i) ==> i < owned@.len() && runs_template(owned@[i as int], d) && forall|k: int|
            0 <= k < i ==> !runs_template(#[trigger] owned@[k], d),
        r is None ==> forall|k: int|
            0 <= k < owned@.len() ==> !runs_template(#[trigger] owned@[k], d),
{
    lemma_first_current(d, owned@, 0);
    assert forall|k: int| 0 <= k < owned@.len() implies is_current(#[trigger] owned@[k], d)
        == runs_template(owned@[k], d) by {
        lemma_is_current(owned@[k], d);
    }
}

/// Whether one of the owners of an object is the deployment with the identifier.
pub open spec fn deployment_owns(m: ObjectMeta, uid: u128) -> bool {
    match m.owner_references {
        Some(v) => exists|i: int|
            0 <= i < v@.len() && (#[trigger] v@[i]).kind == ResourceKind::Deployment && v@[i].uid
                == uid,
        None => false,
    }
}

/// A replica set is owned by the deployment whose kind and identifier stand among its owners, and
/// the sets of a deployment are all those that it owns.
pub proof fn law_owned_sets_name_the_deployment(
    d: Deployment,
    all: Vec<ReplicaSet>,
    m: ObjectMeta,
    owned: bool,
    r: Vec<usize>,
)
    requires
        call_ensures(DeploymentController::is_owned_by, (&m, &d.metadata), owned),
        call_ensures(DeploymentController::owned_replicasets, (&d, &all), r),
        all@.len() <= usize::MAX,
    ensures
        owned == deployment_owns(m, d.metadata.uid),
        forall|i: usize| #[trigger]
            r@.contains(i) <==> i < all@.len() && deployment_owns(
                all@[i as int].metadata,
                d.metadata.uid,
            ),
        r@.no_duplicates(),
{
    let p = |i: usize| owned_by(all@[i as int].metadata, d.metadata.uid);
    let ps = positions(all@.len());
    assert(ps.no_duplicates());
    assert(r@ == ps.filter(p));
    seqs::lemma_filter_members(ps, p);
    seqs::lemma_filter_distinct(ps, p);
    assert forall|i: usize| #[trigger] r@.contains(i) <==> i < all@.len() && deployment_owns(
        all@[i as int].metadata,
        d.metadata.uid,
    ) by {
        if i < all@.len() {
            assert(ps[i as int] == i);
        }
    }
}

/// The new set is scaled up when it lacks replicas and there is room within the surge, and then as
/// far as both allow: to what is desired, or until the room is used up.
pub proof fn law_new_set_grows_as_far_as_it_may(
    desired: i32,
    strategy: RollingUpdateStrategy,
    new_replicas: i32,
    total: i32,
    r: Option<i32>,
)
    requires
        call_ensures(
            DeploymentController::rolling_scale_up,
            (desired, strategy, new_replicas, total),
            r,
        ),
    ensures
        r is Some <==> new_replicas < desired && total < desired + strategy.max_surge,
        r matches Some(n) ==> {
            &&& new_replicas < n <= desired
            &&& total + (n - new_replicas) <= desired + strategy.max_surge
            &&& n == desired || total + (n - new_replicas) == desired + strategy.max_surge
        },
{
}

/// The old sets give up as many pods as may go: not so many that fewer pods are available than the
/// update has to keep, or that fewer are left than desired, and with one more that would be so.
pub proof fn law_old_sets_give_up_as_many_as_may_go(
    desired: i32,
    strategy: RollingUpdateStrategy,
    old: Vec<ReplicaSet>,
    total: i32,
    available: i32,
    r: i32,
)
    requires
        call_ensures(
            DeploymentController::rolling_scale_down,
            (desired, strategy, &old, total, available),
            r,
        ),
    ensures
        r >= 0,
        old@.len() == 0 ==> r == 0,
        r > 0 ==> available - r >= desired - strategy.max_unavailable && available - r >= 0 && total
            - r >= desired,
        old@.len() > 0 ==> available - (r + 1) < desired - strategy.max_unavailable || available - (r
            + 1) < 0 || total - (r + 1) < desired,
{
}

/// A deployment that is recreated scales every old set that has replicas down to nothing, and its
/// new set to the desired number, unless it has that number.
pub proof fn law_recreation_empties_the_old_sets(
    d: Deployment,
    new_replicas: i32,
    old: Vec<ReplicaSet>,
    r: (Vec<usize>, Option<i32>),
)
    requires
        call_ensures(DeploymentController::recreate_update, (&d, new_replicas, &old), r),
        old@.len() <= usize::MAX,
    ensures
        forall|i: usize| #[trigger]
            r.0@.contains(i) <==> i < old@.len() && old@[i as int].spec.replicas > 0,
        r.0@.no_duplicates(),
        r.1 matches Some(n) ==> n == d.spec.replicas,
        r.1 is None <==> new_replicas == d.spec.replicas,
{
    let ps = positions(old@.len());
    let p = has_replicas(old@);
    assert(ps.no_duplicates());
    seqs::lemma_filter_members(ps, p);
    seqs::lemma_filter_distinct(ps, p);
    assert forall|i: usize| #[trigger] r.0@.contains(i) <==> i < old@.len()
        && old@[i as int].spec.replicas > 0 by {
        if i < old@.len() {
            assert(ps[i as int] == i);
        }
    }
}

/// The pods that a plan takes from the sets.
pub open spec fn taken(old: Seq<ReplicaSet>, plan: Seq<(usize, i32)>) -> int
    decreases plan.len(),
{
    if plan.len() == 0 {
        0
    } else {
        taken(old, plan.drop_last()) + old[plan.last().0 as int].spec.replicas - plan.last().1
    }
}

/// Whether the plan leaves the set without replicas.
pub open spec fn is_emptied(plan: Seq<(usize, i32)>, i: int) -> bool {
    exists|k: int| 0 <= k < plan.len() && (#[trigger] plan[k]).0 == i && plan[k].1 == 0
}

/// Scaling the old sets down takes as many pods from them as is asked for, from each at most what
/// it has and from none twice; where they have fewer together, they are all emptied.
pub proof fn law_old_sets_lose_the_count(old: Vec<ReplicaSet>, count: i32, r: Vec<(usize, i32)>)
    requires
        call_ensures(DeploymentController::scale_down_old_replicasets, (&old, count), r),
        old@.len() <= usize::MAX,
    ensures
        count <= 0 ==> r@.len() == 0,
        count > 0 ==> taken(old@, r@) <= count,
        forall|k: int|
            0 <= k < r@.len() ==> (#[trigger] r@[k]).0 < old@.len() && 0 <= r@[k].1
                < old@[r@[k].0 as int].spec.replicas,
        count > 0 && taken(old@, r@) < count ==> forall|i: int|
            0 <= i < old@.len() && (#[trigger] old@[i]).spec.replicas > 0 ==> is_emptied(r@, i),
        forall|j: int, k: int|
            0 <= j < k < r@.len() ==> (#[trigger] r@[j]).0 != (#[trigger] r@[k]).0,
{
    let o = choose|o: Seq<usize>| #[trigger]
        is_size_order(o, old@) && r@ == cut_list(old@, o, count as int, o.len() as int);
    lemma_size_order(o, old@);
    let len = o.len() as int;
    lemma_cut_list(old@, o, count as int, len);
    law_old_sets_give_up_what_is_asked(old@, o, count as int);
    let total = sum_of(old@, o, len);
    lemma_sum_grows(old@, o, 0, len);
    if count <= 0 {
        lemma_nothing_cut(old@, o, count as int, len);
    }
    if count > 0 && taken(old@, r@) < count {
        assert(asked(count as int, total) == total);
        lemma_all_cut(old@, o, count as int, len);
        assert forall|i: int| 0 <= i < old@.len() && (#[trigger] old@[i]).spec.replicas > 0 implies is_emptied(
        r@, i) by {
            let k = choose|k: int| 0 <= k < len && #[trigger] o[k] == i;
            assert(o[k] == i);
            assert(is_emptied(r@, o[k] as int));
        }
    }
}

/// An order of the sets by size holds every set with replicas once, larger ones first.
proof fn lemma_size_order(o: Seq<usize>, sets: Seq<ReplicaSet>)
    requires
        sets.len() <= usize::MAX,
        is_size_order(o, sets),
    ensures
        forall|k: int|
            0 <= k < o.len() ==> (#[trigger] o[k]) < sets.len() && sets[o[k] as int].spec.replicas > 0,
        forall|j: int, k: int| 0 <= j < k < o.len() ==> (#[trigger] o[j]) != (#[trigger] o[k]),
        forall|i: int|
            0 <= i < sets.len() && (#[trigger] sets[i]).spec.replicas > 0 ==> exists|k: int|
                0 <= k < o.len() && #[trigger] o[k] == i,
{
    let (by, keys) = choose|by: Seq<usize>, keys: Seq<Option<i128>>| #[trigger]
        by_size_of(o, by, keys, sets);
    let ps = positions(sets.len());
    let p = has_replicas(sets);
    let inner = ps.filter(p);
    lemma_with_replicas(sets);
    assert(ps.no_duplicates());
    seqs::lemma_filter_distinct(ps, p);
    seqs::lemma_filter_members(ps, p);
    assert forall|k: int| 0 <= k < o.len() implies (#[trigger] o[k]) < sets.len()
        && sets[o[k] as int].spec.replicas > 0 by {
        assert(o[k] == inner[by[k] as int]);
    }
    assert forall|j: int, k: int| 0 <= j < k < o.len() implies (#[trigger] o[j]) != (
    #[trigger] o[k]) by {
        assert(by[j] != by[k]);
    }
    lemma_filter_length(ps, p);
    assert forall|i: int| 0 <= i < sets.len() && (#[trigger] sets[i]).spec.replicas > 0 implies exists|
        k: int,
    | 0 <= k < o.len() && #[trigger] o[k] == i by {
        assert(ps[i] == i as usize);
        assert(ps.contains(i as usize));
        assert(p(i as usize));
        assert(inner.contains(i as usize));
        let m = choose|m: int| 0 <= m < inner.len() && inner[m] == i as usize;
        order::lemma_order_covers(by, keys, m);
        let k = choose|k: int| 0 <= k < by.len() && #[trigger] by[k] == m;
        assert(o[k] == i);
    }
}

proof fn lemma_cut_list(sets: Seq<ReplicaSet>, o: Seq<usize>, count: int, n: int)
    requires
        0 <= n <= o.len(),
        forall|k: int|
            0 <= k < o.len() ==> (#[trigger] o[k]) < sets.len() && sets[o[k] as int].spec.replicas > 0,
        forall|j: int, k: int| 0 <= j < k < o.len() ==> (#[trigger] o[j]) != (#[trigger] o[k]),
    ensures
        taken(sets, cut_list(sets, o, count, n)) == given_up(sets, o, count, n),
        forall|k: int|
            0 <= k < cut_list(sets, o, count, n).len() ==> ({
                let c = #[trigger] cut_list(sets, o, count, n)[k];
                c.0 < sets.len() && 0 <= c.1 < sets[c.0 as int].spec.replicas
            }),
        forall|k: int|
            0 <= k < cut_list(sets, o, count, n).len() ==> exists|i: int|
                0 <= i < n && #[trigger] o[i] == (#[trigger] cut_list(sets, o, count, n)[k]).0,
        forall|j: int, k: int|
            0 <= j < k < cut_list(sets, o, count, n).len() ==> (#[trigger] cut_list(
                sets,
                o,
                count,
                n,
            )[j]).0 != (#[trigger] cut_list(sets, o, count, n)[k]).0,
    decreases n,
{
    if n > 0 {
        lemma_cut_list(sets, o, count, n - 1);
        law_old_sets_shrink_in_proportion(sets, o, count, n - 1);
        let a = cut_list(sets, o, count, n - 1);
        let b = cut_list(sets, o, count, n);
        if cut(sets, o, count, n - 1) > 0 {
            assert(b.drop_last() =~= a);
            assert(b == a.push(b.last()));
        }
        assert forall|k: int| 0 <= k < b.len() implies exists|i: int|
            0 <= i < n && #[trigger] o[i] == (#[trigger] b[k]).0 by {
            if k < a.len() {
                assert(b[k] == a[k]);
                let i = choose|i: int| 0 <= i < n - 1 && #[trigger] o[i] == a[k].0;
                assert(o[i] == b[k].0);
            } else {
                assert(o[n - 1] == b[k].0);
            }
        }
        assert forall|k: int| 0 <= k < b.len() implies ({
            let c = #[trigger] b[k];
            c.0 < sets.len() && 0 <= c.1 < sets[c.0 as int].spec.replicas
        }) by {
            if k < a.len() {
                assert(b[k] == a[k]);
            }
        }
        assert forall|j: int, k: int| 0 <= j < k < b.len() implies (#[trigger] b[j]).0 != (
        #[trigger] b[k]).0 by {
            assert(b[j] == a[j]);
            if k < a.len() {
                assert(b[k] == a[k]);
            } else {
                let i = choose|i: int| 0 <= i < n - 1 && #[trigger] o[i] == a[j].0;
                assert(o[i] != o[n - 1]);
            }
        }
    }
}

proof fn lemma_nothing_cut(sets: Seq<ReplicaSet>, o: Seq<usize>, count: int, n: int)
    requires
        count <= 0,
        0 <= n <= o.len(),
        forall|k: int| 0 <= k < o.len() ==> sets[(#[trigger] o[k]) as int].spec.replicas > 0,
    ensures
        cut_list(sets, o, count, n).len() == 0,
    decreases n,
{
    if n > 0 {
        lemma_nothing_cut(sets, o, count, n - 1);
        let total = sum_of(sets, o, o.len() as int);
        lemma_sum_grows(sets, o, 0, n - 1);
        lemma_sum_grows(sets, o, n, o.len() as int);
        let have = sets[o[n - 1] as int].spec.replicas as int;
        lemma_share(0, total, sum_of(sets, o, n - 1), have);
        let d = share(0, total, sum_of(sets, o, n)) - share(0, total, sum_of(sets, o, n - 1));
        assert(0 * have == 0);
        assert(d <= 0) by (nonlinear_arith)
            requires
                d * total < total,
                total > 0,
        ;
    }
}

/// When the sets are asked for no less than they have, each gives up all that it has.
proof fn lemma_all_cut(sets: Seq<ReplicaSet>, o: Seq<usize>, count: int, n: int)
    requires
        0 <= n <= o.len(),
        forall|k: int| 0 <= k < o.len() ==> sets[(#[trigger] o[k]) as int].spec.replicas > 0,
        asked(count, sum_of(sets, o, o.len() as int)) == sum_of(sets, o, o.len() as int),
    ensures
        forall|k: int|
            0 <= k < n ==> is_emptied(cut_list(sets, o, count, n), (#[trigger] o[k]) as int),
    decreases n,
{
    if n > 0 {
        lemma_all_cut(sets, o, count, n - 1);
        let total = sum_of(sets, o, o.len() as int);
        lemma_sum_grows(sets, o, 0, n - 1);
        lemma_sum_grows(sets, o, n, o.len() as int);
        let have = sets[o[n - 1] as int].spec.replicas as int;
        assert(have > 0);
        lemma_share(total, total, sum_of(sets, o, n - 1), have);
        let d = cut(sets, o, count, n - 1);
        assert(d == have) by (nonlinear_arith)
            requires
                -total < d * total - total * have < total,
                total > 0,
        ;
        let a = cut_list(sets, o, count, n - 1);
        let b = cut_list(sets, o, count, n);
        assert(b[b.len() - 1].0 == o[n - 1] && b[b.len() - 1].1 == 0);
        assert forall|k: int| 0 <= k < n implies is_emptied(b, (#[trigger] o[k]) as int) by {
            if k < n - 1 {
                assert(is_emptied(a, o[k] as int));
                let m = choose|m: int|
                    0 <= m < a.len() && (#[trigger] a[m]).0 == o[k] as int && a[m].1 == 0;
                assert(b[m] == a[m]);
            }
        }
    }
}

/// The number of sets without replicas.
pub open spec fn number_empty(sets: Seq<ReplicaSet>) -> nat
    decreases sets.len(),
{
    if sets.len() == 0 {
        0
    } else if sets.last().spec.replicas == 0 {
        number_empty(sets.drop_last()) + 1
    } else {
        number_empty(sets.drop_last())
    }
}

proof fn lemma_number_empty(sets: Seq<ReplicaSet>, n: int)
    requires
        0 <= n <= sets.len() <= usize::MAX,
    ensures
        positions(sets.len()).take(n).filter(has_none(sets)).len() == number_empty(sets.take(n)),
    decreases n,
{
    let ps = positions(sets.len());
    if n == 0 {
        seqs::lemma_filter_none(ps, has_none(sets));
    } else {
        lemma_number_empty(sets, n - 1);
        seqs::lemma_filter_take(ps, has_none(sets), n - 1);
        assert(ps[n - 1] == n - 1);
        assert(sets.take(n).drop_last() =~= sets.take(n - 1));
    }
}

/// Cleaning up removes sets without replicas only, each once, as many as there are beyond the
/// limit of the history; and none of those that are kept is older than one that is removed, a set
/// of unknown age counting as the oldest.
pub proof fn law_oldest_empty_sets_are_cleaned_up(
    d: Deployment,
    old: Vec<ReplicaSet>,
    r: Vec<usize>,
)
    requires
        call_ensures(DeploymentController::clean_old_replicasets, (&d, &old), r),
        old@.len() <= usize::MAX,
        d.spec.revision_history_limit >= 0,
    ensures
        forall|i: usize| #[trigger]
            r@.contains(i) ==> i < old@.len() && old@[i as int].spec.replicas == 0,
        r@.no_duplicates(),
        r@.len() == if number_empty(old@) > d.spec.revision_history_limit {
            number_empty(old@) - d.spec.revision_history_limit
        } else {
            0
        },
        forall|i: usize, j: usize|
            #![trigger r@.contains(i), r@.contains(j)]
            r@.contains(i) && !r@.contains(j) && j < old@.len() && old@[j as int].spec.replicas == 0
                ==> {
                let a = old@[i as int].metadata.creation_timestamp;
                let b = old@[j as int].metadata.creation_timestamp;
                a matches Some(t) ==> (b matches Some(u) && t <= u)
            },
{
    let limit = d.spec.revision_history_limit;
    let o = choose|o: Seq<usize>| #[trigger]
        is_age_order(o, old@) && r@ == if o.len() <= limit {
            Seq::<usize>::empty()
        } else {
            o.take(least(o.len() as int, o.len() - limit))
        };
    let (by, keys) = choose|by: Seq<usize>, keys: Seq<Option<i128>>| #[trigger]
        by_age_of(o, by, keys, old@);
    let ps = positions(old@.len());
    let p = has_none(old@);
    let inner = ps.filter(p);
    assert(ps.no_duplicates());
    seqs::lemma_filter_distinct(ps, p);
    seqs::lemma_filter_members(ps, p);
    lemma_filter_length(ps, p);
    lemma_number_empty(old@, old@.len() as int);
    assert(ps.take(ps.len() as int) =~= ps);
    assert(old@.take(old@.len() as int) =~= old@);
    assert(o.len() == number_empty(old@));
    assert forall|k: int| 0 <= k < o.len() implies (#[trigger] o[k]) < old@.len()
        && old@[o[k] as int].spec.replicas == 0 by {
        assert(o[k] == inner[by[k] as int]);
        assert(inner.contains(o[k]));
    }
    assert forall|j: int, k: int| 0 <= j < k < o.len() implies (#[trigger] o[j]) != (
    #[trigger] o[k]) by {
        assert(by[j] != by[k]) by {
            assert(order::comes_before(keys, by[j], by[k]));
        }
    }
    assert forall|i: usize| #[trigger] r@.contains(i) implies i < old@.len()
        && old@[i as int].spec.replicas == 0 by {
        let k = choose|k: int| 0 <= k < r@.len() && r@[k] == i;
        assert(o[k] == i);
    }
    assert forall|i: usize, j: usize|
        #![trigger r@.contains(i), r@.contains(j)]
        r@.contains(i) && !r@.contains(j) && j < old@.len() && old@[j as int].spec.replicas == 0 implies {
        let a = old@[i as int].metadata.creation_timestamp;
        let b = old@[j as int].metadata.creation_timestamp;
        a matches Some(t) ==> (b matches Some(u) && t <= u)
    } by {
        let k = choose|k: int| 0 <= k < r@.len() && r@[k] == i;
        assert(o[k] == i);
        assert(ps[j as int] == j);
        assert(ps.contains(j));
        assert(inner.contains(j));
        let m = choose|m: int| 0 <= m < inner.len() && inner[m] == j;
        order::lemma_order_covers(by, keys, m);
        let q = choose|q: int| 0 <= q < by.len() && #[trigger] by[q] == m;
        assert(o[q] == j);
        if q < r@.len() {
            assert(r@[q] == j);
            assert(r@.contains(j));
        }
        assert(order::comes_before(keys, by[k], by[q]));
        assert(keys[by[k] as int] == old@[i as int].metadata.creation_timestamp);
        assert(keys[m] == old@[j as int].metadata.creation_timestamp);
    }
}

/// A sum over replica sets.
pub open spec fn sum_over(sets: Seq<ReplicaSet>, f: spec_fn(ReplicaSet) -> int) -> int
    decreases sets.len(),
{
    if sets.len() == 0 {
        0
    } else {
        sum_over(sets.drop_last(), f) + f(sets.last())
    }
}

pub open spec fn wanted_of() -> spec_fn(ReplicaSet) -> int {
    |s: ReplicaSet| s.spec.replicas as int
}

pub open spec fn existing_of() -> spec_fn(ReplicaSet) -> int {
    |s: ReplicaSet| s.status.replicas as int
}

pub open spec fn ready_of() -> spec_fn(ReplicaSet) -> int {
    |s: ReplicaSet| s.status.ready_replicas as int
}

pub open spec fn available_of() -> spec_fn(ReplicaSet) -> int {
    |s: ReplicaSet| s.status.available_replicas as int
}

proof fn lemma_sums(sets: Seq<ReplicaSet>, n: int)
    requires
        0 <= n <= sets.len(),
    ensures
        sum_replicas(sets, n) == sum_over(sets.take(n), wanted_of()),
        sum_existing(sets, n) == sum_over(sets.take(n), existing_of()),
        sum_ready(sets, n) == sum_over(sets.take(n), ready_of()),
        sum_available(sets, n) == sum_over(sets.take(n), available_of()),
    decreases n,
{
    if n > 0 {
        lemma_sums(sets, n - 1);
        assert(sets.take(n).drop_last() =~= sets.take(n - 1));
    }
}

/// The replicas of sets are counted up, each sort for itself: those wanted, those available, those
/// ready.
pub proof fn law_replicas_are_summed_up(sets: Vec<ReplicaSet>, r: (i32, i32, i32))
    requires
        call_ensures(DeploymentController::calculate_replica, (&sets,), r),
    ensures
        r.0 == sum_over(sets@, wanted_of()),
        r.1 == sum_over(sets@, available_of()),
        r.2 == sum_over(sets@, ready_of()),
{
    lemma_sums(sets@, sets@.len() as int);
    assert(sets@.take(sets@.len() as int) =~= sets@);
}

/// The status of a deployment tells how many pods its sets have, how many of these are ready and
/// available, how many run the current template, and how many of the desired ones are not
/// available. Nothing else of the deployment changes.
pub proof fn law_status_counts_the_pods_of_the_sets(
    desired: Deployment,
    owned: Vec<ReplicaSet>,
    stored: &mut Deployment,
)
    requires
        call_ensures(
            DeploymentController::update_deployment_status,
            (&desired, &owned, stored),
            (),
        ),
        sums_fit(owned@),
        fits(desired.spec.replicas - sum_over(owned@, available_of())),
    ensures
        ({
            let s = final(stored).status;
            let available = sum_over(owned@, available_of());
            &&& s.replicas == sum_over(owned@, existing_of())
            &&& s.ready_replicas == sum_over(owned@, ready_of())
            &&& s.available_replicas == available
            &&& s.unavailable_replicas >= 0
            &&& available < desired.spec.replicas ==> s.unavailable_replicas
                == desired.spec.replicas - available
            &&& available >= desired.spec.replicas ==> s.unavailable_replicas == 0
            &&& s.collision_count == old(stored).status.collision_count
            &&& s.conditions == old(stored).status.conditions
            &&& s.observed_generation == old(stored).status.observed_generation
            &&& final(stored).spec == old(stored).spec
            &&& final(stored).metadata == old(stored).metadata
            &&& forall|i: int|
                0 <= i < owned@.len() && runs_template(#[trigger] owned@[i], desired) && (forall|k: int|
                    i < k < owned@.len() ==> !runs_template(#[trigger] owned@[k], desired))
                    ==> s.updated_replicas == owned@[i].status.replicas
            &&& (forall|i: int|
                0 <= i < owned@.len() ==> !runs_template(#[trigger] owned@[i], desired))
                ==> s.updated_replicas == 0
        }),
{
    let n = owned@.len() as int;
    lemma_sums(owned@, n);
    assert(owned@.take(n) =~= owned@);
    assert(fits(sum_replicas(owned@, n)));
    lemma_last_current(desired, owned@, n);
    assert forall|k: int| 0 <= k < owned@.len() implies is_current(#[trigger] owned@[k], desired)
        == runs_template(owned@[k], desired) by {
        lemma_is_current(owned@[k], desired);
    }
}

/// The replica set that is made for a deployment runs its template, under the given name and in
/// its namespace. It chooses pods as the deployment does, and its pods will bear the labels of the
/// template and the pairs that the selector names; the deployment is its only owner, and it starts
/// without replicas.
pub proof fn law_new_set_is_the_one_described(d: Deployment, name: String, rs: ReplicaSet)
    requires
        call_ensures(DeploymentController::new_replicaset, (&d, name), rs),
    ensures
        runs_template(rs, d),
        rs.spec.replicas == 0,
        rs.spec.selector.match_labels@ == d.spec.selector.match_labels@,
        rs.spec.selector.match_expressions.deep_view()
            == d.spec.selector.match_expressions.deep_view(),
        rs.metadata.name@ == name@,
        rs.metadata.namespace@ == d.metadata.namespace@,
        rs.metadata.labels@ == d.spec.selector.match_labels@,
        rs.kind@ == "ReplicaSet"@,
        rs.spec.template.metadata.namespace@ == d.spec.template.metadata.namespace@,
        rs.spec.template.metadata.annotations@ == d.spec.template.metadata.annotations@,
        d.spec.selector.match_labels@.submap_of(rs.spec.template.metadata.labels@),
        forall|k: Seq<char>| #[trigger]
            rs.spec.template.metadata.labels@.contains_key(k)
                <==> d.spec.template.metadata.labels@.contains_key(k)
                || d.spec.selector.match_labels@.contains_key(k),
        forall|k: Seq<char>|
            d.spec.template.metadata.labels@.contains_key(k)
                && !d.spec.selector.match_labels@.contains_key(k)
                ==> #[trigger] rs.spec.template.metadata.labels@[k]
                == d.spec.template.metadata.labels@[k],
        rs.metadata.owner_references matches Some(v) && v@.len() == 1 && v@[0].kind
            == ResourceKind::Deployment && v@[0].uid == d.metadata.uid && v@[0].name@
            == d.metadata.name@ && v@[0].controller && v@[0].block_owner_deletion == Some(true),
        rs.status.replicas == 0 && rs.status.ready_replicas == 0 && rs.status.available_replicas == 0,
{
    let v = set_view(d, name@);
    assert(rs.deep_view() == v);
    assert(rs.spec.deep_view() == v.spec);
    assert(rs.spec.selector.deep_view() == d.spec.selector.deep_view());
    assert(rs.spec.template.deep_view() == labelled(d));
    assert(rs.spec.template.spec.deep_view() == d.spec.template.spec.deep_view());
    pod::lemma_same_spec(rs.spec.template.spec, d.spec.template.spec);
    assert(rs.spec.template.metadata.deep_view() == labelled(d).metadata);
    assert(rs.metadata.deep_view() == set_meta(d, name@));
    let o = rs.metadata.owner_references->0;
    assert(rs.metadata.owner_references.deep_view() == Some(o.deep_view()));
    assert(o.deep_view().len() == 1);
    assert(o.deep_view()[0] == o@[0].deep_view());
}

/// A set is made when none of the name is stored; a stored one is used when the deployment owns it
/// and it runs the template; in any other case the name is taken.
pub proof fn law_set_is_made_unless_its_name_is_taken(
    d: Deployment,
    name: String,
    existing: Option<&ReplicaSet>,
    r: NewReplicaSet,
)
    requires
        call_ensures(DeploymentController::create_replicaset, (&d, name, existing), r),
    ensures
        r is Insert <==> existing is None,
        r is Existing <==> (existing matches Some(e) && deployment_owns(e.metadata, d.metadata.uid)
            && runs_template(*e, d)),
        r is Collision <==> (existing matches Some(e) && !(deployment_owns(
            e.metadata,
            d.metadata.uid,
        ) && runs_template(*e, d))),
{
    if let Some(e) = existing {
        lemma_is_current(*e, d);
    }
}

/// Setting the number of replicas of a set changes nothing else, and is done unless the number is
/// the same.
pub proof fn law_scaling_sets_the_number_only(
    seen: i32,
    new_replicas: i32,
    stored: &mut ReplicaSet,
    r: bool,
)
    requires
        call_ensures(DeploymentController::scale_replicaset, (seen, new_replicas, stored), r),
    ensures
        seen != new_replicas ==> r && final(stored).spec.replicas == new_replicas,
        seen == new_replicas ==> !r && *final(stored) == *old(stored),
        final(stored).metadata == old(stored).metadata,
        final(stored).status == old(stored).status,
        final(stored).spec.selector == old(stored).spec.selector,
        final(stored).spec.template == old(stored).spec.template,
{
}

/// The deployment that controls an object is the first among its owners that is a deployment and
/// its controller.
pub proof fn law_controlling_deployment_is_named(m: ObjectMeta, r: Option<String>)
    requires
        call_ensures(DeploymentController::controlling_deployment, (&m,), r),
    ensures
        r matches Some(t) ==> first_controller_is(meta::listed_owners(m), t@),
        r is None ==> forall|k: int|
            0 <= k < meta::listed_owners(m).len() ==> !is_controller(
                #[trigger] meta::listed_owners(m)[k],
            ),
{
    if let Some(v) = m.owner_references {
        lemma_controller_at(v@, 0);
        let i = controller_at(v@, 0);
        if i < v@.len() {
            assert(is_controller(v@[i]));
        }
    }
}

/// Whether the first controlling deployment among the owners has the name.
pub open spec fn first_controller_is(owners: Seq<OwnerReference>, t: Seq<char>) -> bool {
    exists|i: int|
        {
            &&& 0 <= i < owners.len()
            &&& is_controller(#[trigger] owners[i])
            &&& owners[i].name@ == t
            &&& forall|k: int| 0 <= k < i ==> !is_controller(#[trigger] owners[k])
        }
}

/// Whether a reference is to a deployment that controls the object.
pub open spec fn is_controller(o: OwnerReference) -> bool {
    o.kind == ResourceKind::Deployment && o.controller
}

proof fn lemma_controller_at(owners: Seq<OwnerReference>, from: int)
    requires
        0 <= from <= owners.len(),
    ensures
        from <= controller_at(owners, from) <= owners.len(),
        forall|k: int|
            from <= k < controller_at(owners, from) ==> !is_controller(#[trigger] owners[k]),
        controller_at(owners, from) < owners.len() ==> is_controller(
            owners[controller_at(owners, from)],
        ),
    decreases owners.len() - from,
{
    if from < owners.len() && !is_controller(owners[from]) {
        lemma_controller_at(owners, from + 1);
    }
}

proof fn lemma_condition_at(conditions: Seq<DeploymentCondition>, kind: Seq<char>, from: int)
    requires
        0 <= from <= conditions.len(),
    ensures
        from <= condition_at(conditions, kind, from) <= conditions.len(),
        forall|k: int|
            from <= k < condition_at(conditions, kind, from) ==> (
            #[trigger] conditions[k]).condition_type@ != kind,
        condition_at(conditions, kind, from) < conditions.len()
            ==> conditions[condition_at(conditions, kind, from)].condition_type@ == kind,
    decreases conditions.len() - from,
{
    if from < conditions.len() && conditions[from].condition_type@ != kind {
        lemma_condition_at(conditions, kind, from + 1);
    }
}

/// A recorded condition is found among the conditions afterwards, in the place of the first one of
/// its type or at the end; the others stay as they are, and so does the rest of the deployment.
pub proof fn law_recorded_condition_replaces_its_like(
    stored: &mut Deployment,
    condition: DeploymentCondition,
)
    requires
        call_ensures(DeploymentController::update_condition, (stored, condition), ()),
    ensures
        ({
            let before = old(stored).status.conditions@;
            let after = final(stored).status.conditions@;
            &&& after.contains(condition)
            &&& (forall|k: int|
                0 <= k < before.len() ==> (#[trigger] before[k]).condition_type@
                    != condition.condition_type@) ==> after == before.push(condition)
            &&& forall|k: int|
                0 <= k < before.len() && (#[trigger] before[k]).condition_type@
                    == condition.condition_type@ ==> after.len() == before.len()
            &&& forall|k: int|
                0 <= k < before.len() && (#[trigger] before[k]).condition_type@
                    != condition.condition_type@ ==> after[k] == before[k]
            &&& final(stored).spec == old(stored).spec
            &&& final(stored).metadata == old(stored).metadata
            &&& final(stored).status.replicas == old(stored).status.replicas
        }),
{
    let before = old(stored).status.conditions@;
    let after = final(stored).status.conditions@;
    lemma_condition_at(before, condition.condition_type@, 0);
    let i = condition_at(before, condition.condition_type@, 0);
    assert(after[i] == condition);
}

/// An update is overdue when, and only when, the deployment is said to make progress and the time
/// since then is longer than its deadline; the condition then says that it does not make progress,
/// since when and why.
pub proof fn law_overdue_update_stops_progressing(
    d: Deployment,
    elapsed: Option<i128>,
    now: String,
    r: Option<DeploymentCondition>,
)
    requires
        call_ensures(DeploymentController::overdue_condition, (&d, elapsed, now), r),
    ensures
        r is Some ==> (elapsed matches Some(e) && e > d.spec.progress_deadline_seconds),
        r is Some ==> exists|i: int|
            0 <= i < d.status.conditions@.len() && (
            #[trigger] d.status.conditions@[i]).condition_type@ == "Progressing"@
                && d.status.conditions@[i].status@ == "True"@,
        (elapsed matches Some(e) && e > d.spec.progress_deadline_seconds) && (exists|i: int|
            0 <= i < d.status.conditions@.len() && (
            #[trigger] d.status.conditions@[i]).condition_type@ == "Progressing"@) && (forall|i: int|
            0 <= i < d.status.conditions@.len() && (
            #[trigger] d.status.conditions@[i]).condition_type@ == "Progressing"@
                ==> d.status.conditions@[i].status@ == "True"@) ==> r is Some,
        r matches Some(c) ==> c.condition_type@ == "Progressing"@ && c.status@ == "False"@
            && c.last_transition_time@ == now@ && (c.reason matches Some(m) && m@
            == "ProgressDeadlineExceeded"@) && c.message is Some,
{
    lemma_condition_at(d.status.conditions@, "Progressing"@, 0);
    let i = condition_at(d.status.conditions@, "Progressing"@, 0);
    if i < d.status.conditions@.len() {
        assert(d.status.conditions@[i].condition_type@ == "Progressing"@);
    }
}

/// A deployment that is being deleted is left alone; any other is recreated or rolled, as its
/// strategy says.
pub proof fn law_strategy_decides_how_to_update(d: Deployment, r: DeploymentStep)
    requires
        call_ensures(DeploymentController::reconcile_deployment, (&d,), r),
    ensures
        r == DeploymentStep::Leave <==> d.metadata.deletion_timestamp is Some,
        d.metadata.deletion_timestamp is None && d.spec.strategy is Recreate ==> r
            == DeploymentStep::Recreate,
        d.metadata.deletion_timestamp is None && d.spec.strategy is RollingUpdate ==> r
            == DeploymentStep::Roll,
{
}

/// A deployment is reconciled when it is new or its specification changed, and has its generation
/// counted up in the second case only. Its sets call for it when they are new or their numbers
/// changed.
pub proof fn law_changed_deployment_is_reconciled(
    a: Deployment,
    b: Deployment,
    x: DeploymentCall,
    y: DeploymentCall,
    z: DeploymentCall,
    p: ReplicaSet,
    q: ReplicaSet,
    s: Option<String>,
    t: Option<String>,
)
    requires
        call_ensures(DeploymentController::handle_deployment_change, (&Change::Add(b),), x),
        call_ensures(
            DeploymentController::handle_deployment_change,
            (&Change::Update { old: a, new: b },),
            y,
        ),
        call_ensures(DeploymentController::handle_deployment_change, (&Change::Delete(b),), z),
        call_ensures(
            DeploymentController::handle_replicaset_change,
            (&Change::Update { old: p, new: q },),
            s,
        ),
        call_ensures(DeploymentController::handle_replicaset_change, (&Change::Delete(q),), t),
    ensures
        x.reconcile && !x.increment_generation,
        y.reconcile <==> a.spec.deep_view() != b.spec.deep_view(),
        y.increment_generation <==> y.reconcile,
        !z.reconcile && !z.increment_generation,
        p.status == q.status ==> s is None,
        t is None,
{
}

/// The generation that was observed is written when it is another one than before.
pub proof fn law_observed_generation_follows(d: Deployment, r: Option<i64>)
    requires
        call_ensures(DeploymentController::update_observed_generation, (&d,), r),
    ensures
        r matches Some(g) ==> d.status.observed_generation != Some(g) && (
        d.metadata.generation matches Some(m) ==> g == m),
        r is None ==> d.status.observed_generation is Some && (
        d.metadata.generation is Some ==> d.status.observed_generation == d.metadata.generation),
{
}

} // verus!

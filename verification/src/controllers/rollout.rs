//! The course of a rolling update of a deployment.
use vstd::prelude::*;
use crate::controllers::deployment;
use crate::controllers::deployment::DeploymentController;
use crate::protocol::workload::{ReplicaSet, RollingUpdateStrategy};

verus! {

/// How far a rolling update has come.
#[derive(Debug)]
pub enum Rollout {
    /// The new set was scaled up, as far as it could be. The sets of the deployment are read.
    Grown {
        desired: i32,
        strategy: RollingUpdateStrategy,
        new_replicas: i32,
        old: Vec<ReplicaSet>,
        scaled_up: bool,
    },
    /// The old sets were scaled down to make room. The sets of the deployment are read.
    Shrunk { desired: i32, strategy: RollingUpdateStrategy, new_replicas: i32 },
    Ended,
}

/// What is to be scaled, before the sets are read again unless the update has ended.
#[derive(Debug)]
pub struct RolloutStep {
    /// The number of replicas that the new set is scaled to.
    pub new_set: Option<i32>,
    /// The old sets that are scaled, by their position, each with its number of replicas.
    pub old_sets: Vec<(usize, i32)>,
}

/// The number that a set is scaled to, if it is.
pub open spec fn as_int(o: Option<i32>) -> Option<int> {
    match o {
        Some(n) => Some(n as int),
        None => None,
    }
}

/// What a rolling update begins with: the new set grows as far as the surge allows, and the old
/// sets, where there are any, follow.
pub open spec fn begins(
    desired: i32,
    strategy: RollingUpdateStrategy,
    new_replicas: i32,
    old: Vec<ReplicaSet>,
    total: i32,
    r: (Rollout, RolloutStep),
) -> bool {
    &&& as_int(r.1.new_set) == deployment::scale_up(
        desired as int,
        strategy.max_surge as int,
        new_replicas as int,
        total as int,
    )
    &&& r.1.old_sets@.len() == 0
    &&& r.0 == if old@.len() == 0 {
        Rollout::Ended
    } else {
        Rollout::Grown {
            desired,
            strategy,
            new_replicas,
            old,
            scaled_up: r.1.new_set is Some,
        }
    }
}

/// Whether what follows from the sets that were read can be counted.
pub open spec fn can_follow(st: Rollout, owned: Seq<ReplicaSet>) -> bool {
    let total = deployment::sum_replicas(owned, owned.len() as int) as i32;
    &&& deployment::sums_fit(owned)
    &&& match st {
        Rollout::Grown { desired, strategy, .. } => deployment::can_scale_down(
            desired,
            strategy,
            total,
        ),
        Rollout::Shrunk { desired, strategy, new_replicas } => deployment::can_scale_up(
            desired,
            strategy,
            new_replicas,
            total,
        ),
        Rollout::Ended => false,
    }
}

/// What follows once the sets of the deployment were read. After the old sets gave up pods, the
/// new set is scaled up only where it had to wait for that: without surge, and with pods to come.
pub open spec fn follows(st: Rollout, owned: Seq<ReplicaSet>, r: (Rollout, RolloutStep)) -> bool {
    let n = owned.len() as int;
    let total = deployment::sum_replicas(owned, n);
    let available = deployment::sum_available(owned, n);
    match st {
        Rollout::Grown { desired, strategy, new_replicas, old, scaled_up } => {
            let down = if old@.len() == 0 {
                0
            } else {
                deployment::scale_down(
                    desired as int,
                    strategy.max_unavailable as int,
                    total,
                    available,
                )
            };
            &&& r.1.new_set is None
            &&& down == 0 ==> r.1.old_sets@.len() == 0
            &&& down > 0 ==> deployment::is_scale_down_plan(old@, down, r.1.old_sets@)
            &&& r.0 == if down > 0 && !scaled_up && strategy.max_surge == 0 && new_replicas
                < desired {
                Rollout::Shrunk { desired, strategy, new_replicas }
            } else {
                Rollout::Ended
            }
        },
        Rollout::Shrunk { desired, strategy, new_replicas } => {
            &&& as_int(r.1.new_set) == deployment::scale_up(
                desired as int,
                strategy.max_surge as int,
                new_replicas as int,
                total,
            )
            &&& r.1.old_sets@.len() == 0
            &&& r.0 is Ended
        },
        Rollout::Ended => false,
    }
}

impl DeploymentController {
    /// Rolling update: gradually replace old pods with new ones. `total` counts the replicas of
    /// the new set and the old ones.
    pub fn rolling_update(
        desired: i32,
        strategy: RollingUpdateStrategy,
        new_replicas: i32,
        old: Vec<ReplicaSet>,
        total: i32,
    ) -> (r: (Rollout, RolloutStep))
        requires
            deployment::can_scale_up(desired, strategy, new_replicas, total),
        ensures
            begins(desired, strategy, new_replicas, old, total, r),
    {
        let new_set = DeploymentController::rolling_scale_up(
            desired,
            strategy,
            new_replicas,
            total,
        );
        let step = RolloutStep { new_set, old_sets: Vec::new() };
        if old.len() == 0 {
            (Rollout::Ended, step)
        } else {
            let scaled_up = new_set.is_some();
            (Rollout::Grown { desired, strategy, new_replicas, old, scaled_up }, step)
        }
    }

    /// Goes on with a rolling update once the sets of the deployment were read again.
    pub fn rollout_step(st: Rollout, owned: &Vec<ReplicaSet>) -> (r: (Rollout, RolloutStep))
        requires
            can_follow(st, owned@),
        ensures
            follows(st, owned@, r),
    {
        let (total, available, _) = DeploymentController::calculate_replica(owned);
        match st {
            Rollout::Grown { desired, strategy, new_replicas, old, scaled_up } => {
                let down = DeploymentController::rolling_scale_down(
                    desired,
                    strategy,
                    &old,
                    total,
                    available,
                );
                if down <= 0 {
                    return (Rollout::Ended, RolloutStep { new_set: None, old_sets: Vec::new() });
                }
                let old_sets = DeploymentController::scale_down_old_replicasets(&old, down);
                let step = RolloutStep { new_set: None, old_sets };
                if !scaled_up && strategy.max_surge == 0 && new_replicas < desired {
                    (Rollout::Shrunk { desired, strategy, new_replicas }, step)
                } else {
                    (Rollout::Ended, step)
                }
            },
            Rollout::Shrunk { desired, strategy, new_replicas } => {
                let new_set = DeploymentController::rolling_scale_up(
                    desired,
                    strategy,
                    new_replicas,
                    total,
                );
                (Rollout::Ended, RolloutStep { new_set, old_sets: Vec::new() })
            },
            Rollout::Ended => (
                Rollout::Ended,
                RolloutStep { new_set: None, old_sets: Vec::new() },
            ),
        }
    }
}

/// An update begins with as many new pods as there may be: no more than desired, and not so many
/// that there are more pods in all than the update allows. It goes on while there are old sets.
pub proof fn law_update_begins_with_new_pods(
    desired: i32,
    strategy: RollingUpdateStrategy,
    new_replicas: i32,
    old: Vec<ReplicaSet>,
    total: i32,
    r: (Rollout, RolloutStep),
)
    requires
        call_ensures(
            DeploymentController::rolling_update,
            (desired, strategy, new_replicas, old, total),
            r,
        ),
    ensures
        r.1.new_set is Some <==> new_replicas < desired && total < desired + strategy.max_surge,
        r.1.new_set matches Some(n) ==> {
            &&& new_replicas < n <= desired
            &&& total + (n - new_replicas) <= desired + strategy.max_surge
            &&& n == desired || total + (n - new_replicas) == desired + strategy.max_surge
        },
        r.1.old_sets@.len() == 0,
        r.0 is Ended <==> old@.len() == 0,
{
}

/// Old pods go only so far that as many stay available as the update has to keep, and that there
/// are not fewer in all than desired. After that new pods come only where none could come before,
/// within the same bounds as at the beginning.
pub proof fn law_update_keeps_its_bounds(
    desired: i32,
    strategy: RollingUpdateStrategy,
    new_replicas: i32,
    old: Vec<ReplicaSet>,
    scaled_up: bool,
    owned: Vec<ReplicaSet>,
    r: (Rollout, RolloutStep),
    s: (Rollout, RolloutStep),
)
    requires
        call_ensures(
            DeploymentController::rollout_step,
            (Rollout::Grown { desired, strategy, new_replicas, old, scaled_up }, &owned),
            r,
        ),
        call_ensures(
            DeploymentController::rollout_step,
            (Rollout::Shrunk { desired, strategy, new_replicas }, &owned),
            s,
        ),
    ensures
        ({
            let n = owned@.len() as int;
            let total = deployment::sum_replicas(owned@, n);
            let available = deployment::sum_available(owned@, n);
            &&& r.1.new_set is None
            &&& r.1.old_sets@.len() > 0 ==> total > desired && available > desired
                - strategy.max_unavailable && available > 0
            &&& r.0 is Shrunk || r.0 is Ended
            &&& r.0 is Shrunk ==> !scaled_up && strategy.max_surge == 0 && new_replicas < desired
            &&& scaled_up ==> r.0 is Ended
            &&& s.0 is Ended && s.1.old_sets@.len() == 0
            &&& s.1.new_set is Some <==> new_replicas < desired && total < desired
                + strategy.max_surge
            &&& s.1.new_set matches Some(m) ==> new_replicas < m <= desired && total + (m
                - new_replicas) <= desired + strategy.max_surge
        }),
{
}

} // verus!

//! Placing pods on nodes.
use vstd::prelude::*;
use crate::protocol::pod::{PodSpec, PodTask};

verus! {

/// Where the scheduler wants a pod to run.
#[derive(Debug)]
pub struct Assignment {
    pub pod_name: String,
    pub node_name: String,
}

/// Places pods on nodes.
#[derive(Debug)]
pub struct Scheduler;

/// The pod with its node.
pub open spec fn assigned(pod: PodTask, node_name: String) -> PodTask {
    PodTask { spec: PodSpec { node_name: Some(node_name), ..pod.spec }, ..pod }
}

impl Scheduler {
    /// The pod to store for an assignment. `stored` is the pod in the store; nothing is stored for
    /// a pod that is not there.
    pub fn run(assignment: Assignment, stored: Option<PodTask>) -> (r: Option<(String, PodTask)>)
        ensures
            r == match stored {
                Some(pod) => Some((assignment.pod_name, assigned(pod, assignment.node_name))),
                None => None,
            },
    {
        match stored {
            Some(pod) => {
                let spec = PodSpec { node_name: Some(assignment.node_name), ..pod.spec };
                Some((assignment.pod_name, PodTask { spec, ..pod }))
            },
            None => None,
        }
    }
}

/// A later assignment of a pod replaces an earlier one.
pub proof fn law_last_assignment_holds(pod: PodTask, first: String, second: String)
    ensures
        assigned(assigned(pod, first), second) == assigned(pod, second),
        assigned(pod, first).metadata == pod.metadata,
        assigned(pod, first).status == pod.status,
{
}

/// A pod that is placed gets the node, and nothing else of it changes; it is stored under the name
/// that was placed.
pub proof fn law_placed_pod_gets_the_node(
    a: Assignment,
    stored: Option<PodTask>,
    r: Option<(String, PodTask)>,
)
    requires
        call_ensures(Scheduler::run, (a, stored), r),
    ensures
        r is Some <==> stored is Some,
        r matches Some(p) ==> {
            &&& p.0 == a.pod_name
            &&& p.1.spec.node_name == Some(a.node_name)
            &&& p.1.metadata == stored->0.metadata
            &&& p.1.status == stored->0.status
            &&& p.1.spec.containers == stored->0.spec.containers
            &&& p.1.spec.init_containers == stored->0.spec.init_containers
            &&& p.1.spec.restart_policy == stored->0.spec.restart_policy
            &&& p.1.spec.volumes == stored->0.spec.volumes
            &&& p.1.spec.rest == stored->0.spec.rest
        },
{
}

} // verus!

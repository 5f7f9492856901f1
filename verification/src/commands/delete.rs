//! Deleting pods.
use vstd::prelude::*;
use crate::node::watcher;
use crate::node::watcher::is_assigned_to;
use crate::protocol::message::RksMessage;
use crate::protocol::pod::PodTask;

verus! {

/// The message that tells a worker to delete a pod, if the pod was the worker's.
pub fn watch_delete(pod_name: String, pod: &PodTask, node_id: &str) -> (r: Option<RksMessage>)
    ensures
        r == if watcher::runs_on(*pod, node_id@) {
            Some(RksMessage::DeletePod(pod_name))
        } else {
            None
        },
{
    if is_assigned_to(pod, node_id) {
        Some(RksMessage::DeletePod(pod_name))
    } else {
        None
    }
}

} // verus!

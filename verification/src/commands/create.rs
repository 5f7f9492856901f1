//! Creating pods.
use vstd::prelude::*;
use crate::node::watcher;
use crate::node::watcher::is_assigned_to;
use crate::protocol::message;
use crate::protocol::message::RksMessage;
use crate::protocol::meta::ObjectMeta;
use crate::protocol::pod::PodTask;
use crate::text::{concat2, concat3};

verus! {

/// The message that tells a worker to create a pod, if the pod is the worker's.
pub fn watch_create(pod: PodTask, node_id: &str) -> (r: Option<RksMessage>)
    ensures
        r == if watcher::runs_on(pod, node_id@) {
            Some(RksMessage::CreatePod(pod))
        } else {
            None
        },
{
    if is_assigned_to(&pod, node_id) {
        Some(RksMessage::CreatePod(pod))
    } else {
        None
    }
}

/// Handle user-requested pod creation: the pod to store, created now, or the reply that one of
/// its name exists.
pub fn user_create(pod: PodTask, stored: bool, now: i128) -> (r: Result<PodTask, RksMessage>)
    ensures
        match r {
            Ok(p) => !stored && p == (PodTask {
                metadata: ObjectMeta { creation_timestamp: Some(now), ..pod.metadata },
                ..pod
            }),
            Err(m) => stored && message::reports(
                m,
                "Pod "@ + pod.metadata.name@ + " already exists"@,
            ),
        },
{
    if stored {
        return Err(
            RksMessage::Error(concat3("Pod ", pod.metadata.name.as_str(), " already exists")),
        );
    }
    let mut pod = pod;
    pod.metadata.creation_timestamp = Some(now);
    Ok(pod)
}

/// The reply that a pod could not be written.
pub fn serialization_failed(e: &str) -> (r: RksMessage)
    ensures
        message::reports(r, "Serialization error: "@ + e@),
{
    RksMessage::Error(concat2("Serialization error: ", e))
}

} // verus!

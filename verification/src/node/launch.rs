//! The course of sending a pod to its worker: its volumes come first.
use vstd::prelude::*;
use crate::csi::volume::{CsiError, Volume};
use crate::node::watcher;
use crate::node::watcher::{is_assigned_to, note_volume, volume_wishes, VolumeWish};
use crate::protocol::message::RksMessage;
use crate::protocol::meta::ObjectMeta;
use crate::protocol::pod::PodTask;

verus! {

/// How far a pod has come on its way to its worker.
#[derive(Debug)]
pub enum Launch {
    /// Its volumes are provisioned, one after the other; the first `at` are.
    Provisioning { pod: PodTask, wishes: Vec<VolumeWish>, at: usize },
    /// It is stored, with the identifiers of its volumes.
    Storing { pod: PodTask },
    Ended,
}

/// What is to be done next.
#[derive(Debug)]
pub enum LaunchAction {
    /// Provision the volume that comes next.
    Provision,
    Store,
    /// Send the message to the worker.
    Send(RksMessage),
    /// The pod belongs to another worker.
    Nothing,
    Fail(CsiError),
}

/// What an action came to.
#[derive(Debug)]
pub enum LaunchEvent {
    Provisioned(Result<Volume, CsiError>),
    Stored,
}

/// Whether the pod waits for an event of that kind.
pub open spec fn awaits(st: Launch, event: LaunchEvent) -> bool {
    match st {
        Launch::Provisioning { pod, wishes, at } => event is Provisioned && at < wishes@.len(),
        Launch::Storing { pod } => event is Stored,
        Launch::Ended => false,
    }
}

/// The pod with the identifier of a volume noted on it.
pub open spec fn is_noted(
    before: PodTask,
    vol_name: Seq<char>,
    volume_id: Seq<char>,
    after: PodTask,
) -> bool {
    &&& after.metadata.annotations@ == before.metadata.annotations@.insert(
        watcher::annotation_key(vol_name),
        volume_id,
    )
    &&& after == (PodTask {
        metadata: ObjectMeta { annotations: after.metadata.annotations, ..before.metadata },
        ..before
    })
}

/// Whether the pod goes to the worker, if it is assigned to it.
pub open spec fn goes_out(pod: PodTask, node_id: Seq<char>, r: (Launch, LaunchAction)) -> bool {
    r.0 is Ended && r.1 == if watcher::runs_on(pod, node_id) {
        LaunchAction::Send(RksMessage::CreatePod(pod))
    } else {
        LaunchAction::Nothing
    }
}

/// What a launch begins with: a pod without volumes goes out at once.
pub open spec fn begins(pod: PodTask, node_id: Seq<char>, r: (Launch, LaunchAction)) -> bool {
    let volumes = pod.spec.volumes@.filter(watcher::slayerfs());
    if volumes.len() == 0 {
        goes_out(pod, node_id, r)
    } else {
        r.1 is Provision && (r.0 matches Launch::Provisioning { pod: p, wishes, at } && p == pod
            && at == 0 && watcher::are_wishes(wishes@, pod, volumes))
    }
}

/// What follows an event. A volume that cannot be provisioned keeps the pod back.
pub open spec fn follows(
    st: Launch,
    node_id: Seq<char>,
    event: LaunchEvent,
    r: (Launch, LaunchAction),
) -> bool {
    match (st, event) {
        (Launch::Provisioning { pod, wishes, at }, LaunchEvent::Provisioned(outcome)) => {
            match outcome {
                Err(e) => r.0 is Ended && r.1 == LaunchAction::Fail(e),
                Ok(volume) => if at + 1 == wishes@.len() {
                    r.1 is Store && (r.0 matches Launch::Storing { pod: p } && is_noted(
                        pod,
                        wishes@[at as int].vol_name@,
                        volume.volume_id.0@,
                        p,
                    ))
                } else {
                    r.1 is Provision && (r.0 matches Launch::Provisioning {
                        pod: p,
                        wishes: w,
                        at: n,
                    } && w == wishes && n == at + 1 && is_noted(
                        pod,
                        wishes@[at as int].vol_name@,
                        volume.volume_id.0@,
                        p,
                    ))
                },
            }
        },
        (Launch::Storing { pod }, LaunchEvent::Stored) => goes_out(pod, node_id, r),
        _ => false,
    }
}

fn go_out(pod: PodTask, node_id: &str) -> (r: (Launch, LaunchAction))
    ensures
        goes_out(pod, node_id@, r),
{
    if is_assigned_to(&pod, node_id) {
        (Launch::Ended, LaunchAction::Send(RksMessage::CreatePod(pod)))
    } else {
        (Launch::Ended, LaunchAction::Nothing)
    }
}

/// Begins to send a pod to a worker.
pub fn enqueue_create(pod: PodTask, node_id: &str) -> (r: (Launch, LaunchAction))
    ensures
        begins(pod, node_id@, r),
{
    let wishes = volume_wishes(&pod);
    if wishes.len() == 0 {
        go_out(pod, node_id)
    } else {
        (Launch::Provisioning { pod, wishes, at: 0 }, LaunchAction::Provision)
    }
}

/// What follows an event on the way of a pod to its worker.
pub fn launch_step(st: Launch, node_id: &str, event: LaunchEvent) -> (r: (Launch, LaunchAction))
    requires
        awaits(st, event),
    ensures
        follows(st, node_id@, event, r),
{
    match (st, event) {
        (Launch::Provisioning { pod, wishes, at }, LaunchEvent::Provisioned(outcome)) => {
            match outcome {
                Err(e) => (Launch::Ended, LaunchAction::Fail(e)),
                Ok(volume) => {
                    let mut pod = pod;
                    note_volume(&mut pod, wishes[at].vol_name.as_str(), &volume.volume_id);
                    let n: usize = wishes.len();
                    if at + 1 == n {
                        (Launch::Storing { pod }, LaunchAction::Store)
                    } else {
                        (
                            Launch::Provisioning { pod, wishes, at: at + 1 },
                            LaunchAction::Provision,
                        )
                    }
                },
            }
        },
        (Launch::Storing { pod }, _) => go_out(pod, node_id),
        _ => (Launch::Ended, LaunchAction::Nothing),
    }
}

/// Whether the volumes that were provisioned are noted on the pod.
pub open spec fn volumes_are_noted(pod: PodTask, wishes: Seq<VolumeWish>, n: int) -> bool {
    forall|k: int|
        0 <= k < n ==> pod.metadata.annotations@.contains_key(
            watcher::annotation_key((#[trigger] wishes[k]).vol_name@),
        )
}

/// A pod is stored, and goes out, with all its volumes noted on it.
pub proof fn law_launched_pod_carries_its_volumes(
    pod: PodTask,
    wishes: Vec<VolumeWish>,
    at: usize,
    node_id: Seq<char>,
    event: LaunchEvent,
    r: (Launch, LaunchAction),
)
    requires
        at < wishes@.len(),
        volumes_are_noted(pod, wishes@, at as int),
        follows(Launch::Provisioning { pod, wishes, at }, node_id, event, r),
    ensures
        match r.0 {
            Launch::Provisioning { pod: p, wishes: w, at: n } => w == wishes && at < n
                < wishes@.len() && volumes_are_noted(p, wishes@, n as int),
            Launch::Storing { pod: p } => volumes_are_noted(p, wishes@, wishes@.len() as int),
            Launch::Ended => r.1 is Fail,
        },
{
}

/// A pod without volumes to make goes out at once, to its own node only.
pub proof fn law_pod_goes_to_its_node_only(pod: PodTask, node_id: &str, r: (Launch, LaunchAction))
    requires
        call_ensures(enqueue_create, (pod, node_id), r),
    ensures
        r.1 matches LaunchAction::Send(m) ==> m == RksMessage::CreatePod(pod) && (
        pod.spec.node_name matches Some(n) && n@ == node_id@),
        !(exists|k: int|
            0 <= k < pod.spec.volumes@.len() && (#[trigger] pod.spec.volumes@[k]).source is SlayerFs)
            ==> r.0 is Ended && ((pod.spec.node_name matches Some(n) && n@ == node_id@)
            <==> r.1 is Send),
        (exists|k: int|
            0 <= k < pod.spec.volumes@.len() && (#[trigger] pod.spec.volumes@[k]).source is SlayerFs)
            ==> r.1 is Provision,
{
    let volumes = pod.spec.volumes@.filter(watcher::slayerfs());
    crate::seqs::lemma_filter_members(pod.spec.volumes@, watcher::slayerfs());
    if volumes.len() > 0 {
        assert(volumes.contains(volumes[0]));
        assert(watcher::slayerfs()(volumes[0]));
        let k = choose|k: int| 0 <= k < pod.spec.volumes@.len() && pod.spec.volumes@[k] == volumes[0];
        assert(pod.spec.volumes@[k].source is SlayerFs);
    }
    if exists|k: int|
        0 <= k < pod.spec.volumes@.len() && (#[trigger] pod.spec.volumes@[k]).source is SlayerFs {
        let k = choose|k: int|
            0 <= k < pod.spec.volumes@.len() && (#[trigger] pod.spec.volumes@[k]).source is SlayerFs;
        let v = pod.spec.volumes@[k];
        assert(watcher::slayerfs()(v));
        assert(pod.spec.volumes@.contains(v));
        assert(volumes.contains(v));
    }
}

/// Volume after volume is made; each is noted on the pod by its name, and the pod is stored once
/// all are made. A volume that cannot be made ends it.
pub proof fn law_volumes_are_made_one_by_one(
    pod: PodTask,
    wishes: Vec<VolumeWish>,
    at: usize,
    node_id: &str,
    volume: Volume,
    e: CsiError,
    ok: (Launch, LaunchAction),
    failed: (Launch, LaunchAction),
)
    requires
        call_ensures(
            launch_step,
            (
                Launch::Provisioning { pod, wishes, at },
                node_id,
                LaunchEvent::Provisioned(Ok(volume)),
            ),
            ok,
        ),
        call_ensures(
            launch_step,
            (Launch::Provisioning { pod, wishes, at }, node_id, LaunchEvent::Provisioned(Err(e))),
            failed,
        ),
        at < wishes@.len(),
    ensures
        failed.0 is Ended && failed.1 == LaunchAction::Fail(e),
        at + 1 < wishes@.len() ==> ok.1 is Provision && ok.0 is Provisioning
            && ok.0->Provisioning_wishes == wishes && ok.0->Provisioning_at == at + 1,
        at + 1 == wishes@.len() ==> ok.1 is Store && ok.0 is Storing,
        ({
            let p = if at + 1 == wishes@.len() {
                ok.0->Storing_pod
            } else {
                ok.0->Provisioning_pod
            };
            let key = "csi.rk8s.io/"@ + wishes@[at as int].vol_name@;
            &&& p.metadata.annotations@.contains_key(key)
            &&& p.metadata.annotations@[key] == volume.volume_id.0@
            &&& p.spec == pod.spec
            &&& p.metadata.name == pod.metadata.name
            &&& p.metadata.uid == pod.metadata.uid
        }),
{
}

} // verus!

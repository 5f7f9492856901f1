//! Pushes the pods of a worker to it.
use vstd::prelude::*;
use crate::controllers::manager;
use crate::controllers::manager::decode_lossy;
use crate::csi::volume::{CreateVolumeRequest, VolumeId};
use crate::protocol::labels::LabelMap;
use crate::protocol::pod::{PodTask, PodVolume, VolumeSource};
use crate::random;
use crate::random::uid_to_text;
use crate::text;
use crate::text::{concat2, concat3, concat4, replace_text, str_eq};

verus! {

/// The annotation key for a given volume name.
pub open spec fn annotation_key(vol_name: Seq<char>) -> Seq<char> {
    "csi.rk8s.io/"@ + vol_name
}

/// Build the annotation key for a given volume name.
pub fn csi_volume_annotation_key(vol_name: &str) -> (r: String)
    ensures
        r@ == annotation_key(vol_name@),
{
    concat2("csi.rk8s.io/", vol_name)
}

/// Where a volume of a pod is mounted.
pub open spec fn target_text(uid: u128, vol_name: Seq<char>) -> Seq<char> {
    "/var/lib/rkl/pods/"@ + random::uid_text(uid) + "/volumes/"@ + vol_name
}

/// Where a volume of a pod is mounted.
pub fn target_path(uid: u128, vol_name: &str) -> (r: String)
    ensures
        r@ == target_text(uid, vol_name@),
{
    concat4("/var/lib/rkl/pods/", uid_to_text(uid).as_str(), "/volumes/", vol_name)
}

/// Whether the pod is assigned to the node.
pub open spec fn runs_on(pod: PodTask, node_id: Seq<char>) -> bool {
    pod.spec.node_name matches Some(n) && n@ == node_id
}

/// Whether the pod is assigned to the node.
pub fn is_assigned_to(pod: &PodTask, node_id: &str) -> (r: bool)
    ensures
        r == runs_on(*pod, node_id@),
{
    match &pod.spec.node_name {
        Some(n) => str_eq(n.as_str(), node_id),
        None => false,
    }
}

/// Whether a stored pod is looked at: when it is new, or when it is assigned to a node for the
/// first time.
pub fn handle_put_event(prev: Option<&PodTask>, new: &PodTask) -> (r: bool)
    ensures
        r == match prev {
            None => true,
            Some(p) => p.spec.node_name is None && new.spec.node_name is Some,
        },
{
    match prev {
        None => true,
        Some(p) => p.spec.node_name.is_none() && new.spec.node_name.is_some(),
    }
}

/// A volume to provision before a pod is sent to its worker.
#[derive(Debug)]
pub struct VolumeWish {
    pub vol_name: String,
    pub request: CreateVolumeRequest,
    pub target_path: String,
}

pub open spec fn is_slayerfs(v: PodVolume) -> bool {
    v.source is SlayerFs
}

/// Whether the wish is for a volume of a pod.
pub open spec fn is_wish(w: VolumeWish, pod: PodTask, v: PodVolume) -> bool {
    &&& w.vol_name == v.name
    &&& w.request.name@ == pod.metadata.name@ + "-"@ + v.name@
    &&& w.target_path@ == target_text(pod.metadata.uid, v.name@)
    &&& w.request.volume_capabilities@.len() == 0
    &&& v.source matches VolumeSource::SlayerFs { capacity_bytes, config } && {
        &&& w.request.capacity_bytes == match capacity_bytes {
            Some(c) => c,
            None => 0,
        }
        &&& w.request.parameters@ == match config {
            Some(json) => Map::<Seq<char>, Seq<char>>::empty().insert("slayerfs_config"@, json@),
            None => Map::<Seq<char>, Seq<char>>::empty(),
        }
    }
}

pub open spec fn slayerfs() -> spec_fn(PodVolume) -> bool {
    |v: PodVolume| is_slayerfs(v)
}

/// Whether the wishes are for the SlayerFS volumes of a pod, in order.
pub open spec fn are_wishes(w: Seq<VolumeWish>, pod: PodTask, volumes: Seq<PodVolume>) -> bool {
    &&& w.len() == volumes.len()
    &&& forall|i: int| 0 <= i < w.len() ==> is_wish(#[trigger] w[i], pod, volumes[i])
}

/// The volumes to provision before a pod is sent to its worker: one for each of its SlayerFS
/// volumes.
pub fn volume_wishes(pod: &PodTask) -> (r: Vec<VolumeWish>)
    ensures
        are_wishes(r@, *pod, pod.spec.volumes@.filter(slayerfs())),
{
    let ghost p = slayerfs();
    let ghost all = pod.spec.volumes@;
    let mut out: Vec<VolumeWish> = Vec::new();
    proof {
        crate::seqs::lemma_filter_none(all, p);
    }
    for i in 0..pod.spec.volumes.len()
        invariant
            all == pod.spec.volumes@,
            p == slayerfs(),
            are_wishes(out@, *pod, all.take(i as int).filter(p)),
    {
        proof {
            crate::seqs::lemma_filter_take(all, p, i as int);
        }
        let v: &PodVolume = &pod.spec.volumes[i];
        match &v.source {
            VolumeSource::SlayerFs { capacity_bytes, config } => {
                let mut parameters = LabelMap::new();
                if let Some(json) = config {
                    parameters.insert("slayerfs_config".to_owned(), json.clone());
                }
                let capacity: u64 = match capacity_bytes {
                    Some(c) => *c,
                    None => 0,
                };
                let w = VolumeWish {
                    vol_name: v.name.clone(),
                    request: CreateVolumeRequest {
                        name: concat3(pod.metadata.name.as_str(), "-", v.name.as_str()),
                        capacity_bytes: capacity,
                        volume_capabilities: Vec::new(),
                        parameters,
                    },
                    target_path: target_path(pod.metadata.uid, v.name.as_str()),
                };
                assert(is_wish(w, *pod, all[i as int]));
                out.push(w);
            },
            VolumeSource::Other(_) => {},
        }
    }
    assert(all.take(all.len() as int) =~= all);
    out
}

/// Notes the identifier of a provisioned volume on its pod.
pub fn note_volume(pod: &mut PodTask, vol_name: &str, volume_id: &VolumeId)
    ensures
        final(pod).metadata.annotations@ == old(pod).metadata.annotations@.insert(
            annotation_key(vol_name@),
            volume_id.0@,
        ),
        *final(pod) == (PodTask {
            metadata: crate::protocol::meta::ObjectMeta {
                annotations: final(pod).metadata.annotations,
                ..old(pod).metadata
            },
            ..*old(pod)
        }),
{
    pod.metadata.annotations.insert(csi_volume_annotation_key(vol_name), volume_id.0.clone());
}

/// The name of a deleted pod, by the key that it was stored under.
pub fn deleted_pod_name(key: &[u8]) -> (r: String)
    ensures
        r@ == text::replaced(manager::lossy_text(key@), "/registry/pods/"@, ""@),
{
    proof {
        reveal_strlit("/registry/pods/");
    }
    replace_text(decode_lossy(key).as_str(), "/registry/pods/", "")
}

/// A volume to remove after its pod was deleted.
#[derive(Debug)]
pub struct VolumeRemoval {
    pub volume_id: VolumeId,
    pub target_path: String,
}

/// Whether a volume is removed with its pod: a SlayerFS volume whose identifier is noted.
pub open spec fn removable(pod: PodTask) -> spec_fn(PodVolume) -> bool {
    |v: PodVolume|
        is_slayerfs(v) && pod.metadata.annotations@.contains_key(annotation_key(v.name@))
}

pub open spec fn is_removal(r: VolumeRemoval, pod: PodTask, v: PodVolume) -> bool {
    &&& r.volume_id.0@ == pod.metadata.annotations@[annotation_key(v.name@)]
    &&& r.target_path@ == target_text(pod.metadata.uid, v.name@)
}

pub open spec fn are_removals(r: Seq<VolumeRemoval>, pod: PodTask, volumes: Seq<PodVolume>) -> bool {
    &&& r.len() == volumes.len()
    &&& forall|i: int| 0 <= i < r.len() ==> is_removal(#[trigger] r[i], pod, volumes[i])
}

/// The volumes to remove after a pod of the node was deleted. Volumes whose identifier was not
/// noted are passed over; so are the pods of other nodes.
pub fn volume_removals(pod: &PodTask, node_id: &str) -> (r: Vec<VolumeRemoval>)
    ensures
        if runs_on(*pod, node_id@) {
            are_removals(r@, *pod, pod.spec.volumes@.filter(removable(*pod)))
        } else {
            r@.len() == 0
        },
{
    let mut out: Vec<VolumeRemoval> = Vec::new();
    if !is_assigned_to(pod, node_id) {
        return out;
    }
    let ghost p = removable(*pod);
    let ghost all = pod.spec.volumes@;
    proof {
        crate::seqs::lemma_filter_none(all, p);
    }
    for i in 0..pod.spec.volumes.len()
        invariant
            all == pod.spec.volumes@,
            p == removable(*pod),
            are_removals(out@, *pod, all.take(i as int).filter(p)),
    {
        proof {
            crate::seqs::lemma_filter_take(all, p, i as int);
        }
        let v: &PodVolume = &pod.spec.volumes[i];
        let ours = match &v.source {
            VolumeSource::SlayerFs { capacity_bytes: _, config: _ } => true,
            VolumeSource::Other(_) => false,
        };
        if ours {
            let key = csi_volume_annotation_key(v.name.as_str());
            if let Some(id) = pod.metadata.annotations.get(key.as_str()) {
                let x = VolumeRemoval {
                    volume_id: VolumeId(id.clone()),
                    target_path: target_path(pod.metadata.uid, v.name.as_str()),
                };
                assert(is_removal(x, *pod, all[i as int]));
                out.push(x);
            }
        }
    }
    assert(all.take(all.len() as int) =~= all);
    out
}

/// A volume that was noted on its pod is removed with it, by the identifier that was noted and
/// from the path where it was mounted.
pub proof fn law_noted_volume_is_removed(
    before: PodTask,
    after: PodTask,
    v: PodVolume,
    id: VolumeId,
)
    requires
        is_slayerfs(v),
        after.metadata.annotations@ == before.metadata.annotations@.insert(
            annotation_key(v.name@),
            id.0@,
        ),
        after.metadata.uid == before.metadata.uid,
    ensures
        removable(after)(v),
        forall|r: VolumeRemoval| #[trigger]
            is_removal(r, after, v) ==> r.volume_id.0@ == id.0@ && r.target_path@ == target_text(
                before.metadata.uid,
                v.name@,
            ),
{
}

/// A volume is asked for with what the pod says of it: under the pod's name and its own, with its
/// capacity and configuration, and at a place of the pod.
pub proof fn law_wishes_are_those_of_the_pod(pod: PodTask, r: Vec<VolumeWish>, i: int)
    requires
        call_ensures(volume_wishes, (&pod,), r),
        0 <= i < r@.len(),
    ensures
        exists|v: PodVolume| #[trigger]
            pod.spec.volumes@.contains(v) && r@[i].vol_name == v.name && r@[i].request.name@
                == pod.metadata.name@ + "-"@ + v.name@ && r@[i].target_path@ == "/var/lib/rkl/pods/"@
                + random::uid_text(pod.metadata.uid) + "/volumes/"@ + v.name@ && (
            v.source matches VolumeSource::SlayerFs { capacity_bytes, config }
                && r@[i].request.capacity_bytes == if capacity_bytes is Some {
                capacity_bytes->0
            } else {
                0
            } && (config matches Some(json) ==> r@[i].request.parameters@.contains_key(
                "slayerfs_config"@,
            ) && r@[i].request.parameters@["slayerfs_config"@] == json@)),
{
    let volumes = pod.spec.volumes@.filter(slayerfs());
    let v = volumes[i];
    assert(volumes.contains(v));
    crate::seqs::lemma_filter_members(pod.spec.volumes@, slayerfs());
    assert(is_wish(r@[i], pod, v));
    assert(pod.spec.volumes@.contains(v));
}

/// Each such volume of the pod is asked for.
pub proof fn law_each_volume_is_asked_for(pod: PodTask, r: Vec<VolumeWish>, k: int)
    requires
        call_ensures(volume_wishes, (&pod,), r),
        0 <= k < pod.spec.volumes@.len(),
        pod.spec.volumes@[k].source is SlayerFs,
    ensures
        exists|i: int| 0 <= i < r@.len() && (#[trigger] r@[i]).vol_name == pod.spec.volumes@[k].name,
{
    let volumes = pod.spec.volumes@.filter(slayerfs());
    let v = pod.spec.volumes@[k];
    crate::seqs::lemma_filter_members(pod.spec.volumes@, slayerfs());
    assert(slayerfs()(v));
    assert(pod.spec.volumes@.contains(v));
    assert(volumes.contains(v));
    let i = choose|i: int| 0 <= i < volumes.len() && volumes[i] == v;
    assert(is_wish(r@[i], pod, volumes[i]));
}

/// A volume that was noted is known by its name; nothing else of the pod changes, nor any other
/// note.
pub proof fn law_volume_is_noted_by_its_name(
    pod: &mut PodTask,
    vol_name: &str,
    volume_id: VolumeId,
    key: String,
    other: Seq<char>,
)
    requires
        call_ensures(note_volume, (pod, vol_name, &volume_id), ()),
        call_ensures(csi_volume_annotation_key, (vol_name,), key),
    ensures
        key@ == "csi.rk8s.io/"@ + vol_name@,
        final(pod).metadata.annotations@.contains_key(key@),
        final(pod).metadata.annotations@[key@] == volume_id.0@,
        other != key@ ==> (final(pod).metadata.annotations@.contains_key(other) <==> old(pod).metadata.annotations@.contains_key(other)),
        other != key@ && old(pod).metadata.annotations@.contains_key(other)
            ==> final(pod).metadata.annotations@[other] == old(pod).metadata.annotations@[other],
        final(pod).spec == old(pod).spec,
        final(pod).status == old(pod).status,
        final(pod).metadata.name == old(pod).metadata.name,
        final(pod).metadata.uid == old(pod).metadata.uid,
        final(pod).metadata.labels == old(pod).metadata.labels,
{
}

/// Only volumes of pods on the node are removed, and only those that were noted, by what was noted.
pub proof fn law_removed_volumes_were_noted(
    pod: PodTask,
    node_id: &str,
    r: Vec<VolumeRemoval>,
    assigned: bool,
    i: int,
)
    requires
        call_ensures(volume_removals, (&pod, node_id), r),
        call_ensures(is_assigned_to, (&pod, node_id), assigned),
        0 <= i < r@.len(),
    ensures
        assigned,
        pod.spec.node_name matches Some(n) && n@ == node_id@,
        exists|v: PodVolume| #[trigger]
            pod.spec.volumes@.contains(v) && v.source is SlayerFs
                && pod.metadata.annotations@.contains_key("csi.rk8s.io/"@ + v.name@)
                && r@[i].volume_id.0@ == pod.metadata.annotations@["csi.rk8s.io/"@ + v.name@]
                && r@[i].target_path@ == "/var/lib/rkl/pods/"@ + random::uid_text(pod.metadata.uid)
                + "/volumes/"@ + v.name@,
{
    let volumes = pod.spec.volumes@.filter(removable(pod));
    let v = volumes[i];
    assert(volumes.contains(v));
    crate::seqs::lemma_filter_members(pod.spec.volumes@, removable(pod));
    assert(is_removal(r@[i], pod, v));
    assert(pod.spec.volumes@.contains(v));
}

/// A pod goes to its worker when it appears, or when it gets a node; a change of a pod that has
/// one does not send it again.
pub proof fn law_pod_is_sent_when_it_gets_a_node(prev: PodTask, new: PodTask, first: bool, r: bool)
    requires
        call_ensures(handle_put_event, (None::<&PodTask>, &new), first),
        call_ensures(handle_put_event, (Some(&prev), &new), r),
    ensures
        first,
        r <==> prev.spec.node_name is None && new.spec.node_name is Some,
{
}

} // verus!

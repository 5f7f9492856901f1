//! Volume lifecycle orchestration for pod create/delete flows.
//!
//! Each operation is a sequence of steps. The caller performs a step and hands back what came
//! of it.
use std::collections::HashSet;
use vstd::prelude::*;
use crate::csi::volume::{
    AccessMode, CreateVolumeRequest, CsiError, CsiMessage, Volume, VolumeCapability, VolumeId,
};
use crate::protocol::value::Value;
use crate::text::{concat2, concat3, concat4};

verus! {

/// How long an answer of a node is awaited, in seconds.
pub const CSI_REQUEST_TIMEOUT_SECONDS: u64 = 30;

/// The global staging mount path of a volume.
pub open spec fn staging_text(id: VolumeId) -> Seq<char> {
    "/var/lib/rkl/volumes/"@ + id.0@ + "/globalmount"@
}

/// Build the global staging mount path for a volume.
pub fn staging_path(id: &VolumeId) -> (r: String)
    ensures
        r@ == staging_text(*id),
{
    concat3("/var/lib/rkl/volumes/", id.0.as_str(), "/globalmount")
}

/// The first capability of a request, or the usual one.
pub open spec fn capability_of(req: CreateVolumeRequest) -> VolumeCapability {
    if req.volume_capabilities@.len() > 0 {
        req.volume_capabilities@[0]
    } else {
        VolumeCapability { access_mode: AccessMode::ReadWriteOnce }
    }
}

/// A volume on its way to a pod.
#[derive(Debug)]
pub enum Provision {
    Creating { capability: VolumeCapability, target: String },
    Staging { volume: Volume, capability: VolumeCapability, target: String },
    Publishing { volume: Volume },
    /// Undoing the staging after the error.
    Unstaging { volume_id: VolumeId, error: CsiError },
    /// Undoing the creation after the error.
    Deleting { error: CsiError },
    Ended,
}

/// What is done next for a volume on its way to a pod.
#[derive(Debug)]
pub enum ProvisionStep {
    /// Create the volume.
    Create(CreateVolumeRequest),
    /// Send the message to the node and wait for its answer.
    Send(CsiMessage),
    /// Delete the volume's metadata.
    Delete(VolumeId),
    Done(Volume),
    Failed(CsiError),
}

/// What came of a step.
#[derive(Debug)]
pub enum StepOutcome {
    Created(Volume),
    Succeeded,
    Failed(CsiError),
}

pub open spec fn is_stage(m: CsiMessage, v: Volume, c: VolumeCapability) -> bool {
    m matches CsiMessage::StageVolume {
        volume_id,
        staging_target_path,
        volume_capability,
        volume_context,
    } && volume_id == v.volume_id && staging_target_path@ == staging_text(v.volume_id)
        && volume_capability == c && volume_context@ == v.volume_context@
}

pub open spec fn is_publish(m: CsiMessage, v: Volume, c: VolumeCapability, t: Seq<char>) -> bool {
    m matches CsiMessage::PublishVolume {
        volume_id,
        staging_target_path,
        target_path,
        volume_capability,
        read_only,
    } && volume_id == v.volume_id && staging_target_path@ == staging_text(v.volume_id)
        && target_path@ == t && volume_capability == c && read_only == (c.access_mode
        == AccessMode::ReadOnlyMany)
}

pub open spec fn is_unstage(m: CsiMessage, id: VolumeId) -> bool {
    m matches CsiMessage::UnstageVolume { volume_id, staging_target_path } && volume_id == id
        && staging_target_path@ == staging_text(id)
}

pub open spec fn is_unpublish(m: CsiMessage, id: VolumeId, t: Seq<char>) -> bool {
    m matches CsiMessage::UnpublishVolume { volume_id, target_path } && volume_id == id
        && target_path@ == t
}

/// Begins to provision a volume and mount it at a path.
pub fn provision_and_mount(req: CreateVolumeRequest, target_path: String) -> (r: (
    Provision,
    ProvisionStep,
))
    ensures
        r.0 == (Provision::Creating { capability: capability_of(req), target: target_path }),
        r.1 == ProvisionStep::Create(req),
{
    let capability = if req.volume_capabilities.len() > 0 {
        req.volume_capabilities[0]
    } else {
        VolumeCapability { access_mode: AccessMode::ReadWriteOnce }
    };
    (Provision::Creating { capability, target: target_path }, ProvisionStep::Create(req))
}

/// Whether `r` follows the outcome of the step that a state awaits. A volume is created,
/// staged and published; when one of the last two fails, what was done before is undone.
pub open spec fn follows(st: Provision, outcome: StepOutcome, r: (Provision, ProvisionStep)) -> bool {
    match (st, outcome) {
        (Provision::Creating { capability, target }, StepOutcome::Created(v)) => {
            &&& r.0 == (Provision::Staging { volume: v, capability, target })
            &&& r.1 matches ProvisionStep::Send(m) && is_stage(m, v, capability)
        },
        (Provision::Creating { capability, target }, StepOutcome::Failed(e)) => {
            r == (Provision::Ended, ProvisionStep::Failed(e))
        },
        (Provision::Staging { volume, capability, target }, StepOutcome::Succeeded) => {
            &&& r.0 == (Provision::Publishing { volume })
            &&& r.1 matches ProvisionStep::Send(m) && is_publish(m, volume, capability, target@)
        },
        (Provision::Staging { volume, capability, target }, StepOutcome::Failed(e)) => {
            &&& r.0 == (Provision::Deleting { error: e })
            &&& r.1 == ProvisionStep::Delete(volume.volume_id)
        },
        (Provision::Publishing { volume }, StepOutcome::Succeeded) => r == (
            Provision::Ended,
            ProvisionStep::Done(volume),
        ),
        (Provision::Publishing { volume }, StepOutcome::Failed(e)) => {
            &&& r.0 == (Provision::Unstaging { volume_id: volume.volume_id, error: e })
            &&& r.1 matches ProvisionStep::Send(m) && is_unstage(m, volume.volume_id)
        },
        (Provision::Unstaging { volume_id, error }, _) => {
            &&& r.0 == (Provision::Deleting { error })
            &&& r.1 == ProvisionStep::Delete(volume_id)
        },
        (Provision::Deleting { error }, _) => r == (
            Provision::Ended,
            ProvisionStep::Failed(error),
        ),
        _ => true,
    }
}

/// Whether the outcome is one of the step that the state awaits.
pub open spec fn awaits(st: Provision, outcome: StepOutcome) -> bool {
    match st {
        Provision::Creating { .. } => !(outcome is Succeeded),
        Provision::Ended => false,
        _ => !(outcome is Created),
    }
}

/// Goes on with a volume on its way to a pod.
pub fn provision_step(st: Provision, outcome: StepOutcome) -> (r: (Provision, ProvisionStep))
    requires
        awaits(st, outcome),
    ensures
        follows(st, outcome, r),
{
    match (st, outcome) {
        (Provision::Creating { capability, target }, StepOutcome::Created(v)) => {
            let m = CsiMessage::StageVolume {
                volume_id: v.volume_id.copy(),
                staging_target_path: staging_path(&v.volume_id),
                volume_capability: capability,
                volume_context: v.volume_context.copy(),
            };
            (Provision::Staging { volume: v, capability, target }, ProvisionStep::Send(m))
        },
        (Provision::Creating { capability: _, target: _ }, StepOutcome::Failed(e)) => (
            Provision::Ended,
            ProvisionStep::Failed(e),
        ),
        (Provision::Staging { volume, capability, target }, StepOutcome::Succeeded) => {
            let m = CsiMessage::PublishVolume {
                volume_id: volume.volume_id.copy(),
                staging_target_path: staging_path(&volume.volume_id),
                target_path: target,
                volume_capability: capability,
                read_only: capability.access_mode == AccessMode::ReadOnlyMany,
            };
            (Provision::Publishing { volume }, ProvisionStep::Send(m))
        },
        (Provision::Staging { volume, capability: _, target: _ }, StepOutcome::Failed(e)) => (
            Provision::Deleting { error: e },
            ProvisionStep::Delete(volume.volume_id),
        ),
        (Provision::Publishing { volume }, StepOutcome::Succeeded) => (
            Provision::Ended,
            ProvisionStep::Done(volume),
        ),
        (Provision::Publishing { volume }, StepOutcome::Failed(e)) => {
            let m = CsiMessage::UnstageVolume {
                volume_id: volume.volume_id.copy(),
                staging_target_path: staging_path(&volume.volume_id),
            };
            (
                Provision::Unstaging { volume_id: volume.volume_id, error: e },
                ProvisionStep::Send(m),
            )
        },
        (Provision::Unstaging { volume_id, error }, _) => (
            Provision::Deleting { error },
            ProvisionStep::Delete(volume_id),
        ),
        (Provision::Deleting { error }, _) => (Provision::Ended, ProvisionStep::Failed(error)),
        (s, _) => (
            s,
            ProvisionStep::Failed(CsiError::Internal("unexpected outcome".to_owned())),
        ),
    }
}

/// The number of steps that a volume on its way has at most still to take.
pub open spec fn steps_left(st: Provision) -> int {
    match st {
        Provision::Creating { .. } => 5,
        Provision::Staging { .. } => 4,
        Provision::Publishing { .. } => 3,
        Provision::Unstaging { .. } => 2,
        Provision::Deleting { .. } => 1,
        Provision::Ended => 0,
    }
}

/// A volume on its way gets nearer to its end with every step.
pub proof fn law_provisioning_ends(
    st: Provision,
    outcome: StepOutcome,
    r: (Provision, ProvisionStep),
)
    requires
        awaits(st, outcome),
        follows(st, outcome, r),
    ensures
        steps_left(r.0) < steps_left(st),
        r.0 is Ended <==> (r.1 is Done || r.1 is Failed),
{
}

/// A volume whose publication fails is unstaged and deleted, whatever comes of the unstaging,
/// and the error of the publication is reported.
pub proof fn law_failed_publication_is_undone(
    volume: Volume,
    e: CsiError,
    r1: (Provision, ProvisionStep),
    o2: StepOutcome,
    r2: (Provision, ProvisionStep),
    o3: StepOutcome,
    r3: (Provision, ProvisionStep),
)
    requires
        follows(Provision::Publishing { volume }, StepOutcome::Failed(e), r1),
        awaits(r1.0, o2),
        follows(r1.0, o2, r2),
        awaits(r2.0, o3),
        follows(r2.0, o3, r3),
    ensures
        r1.1 matches ProvisionStep::Send(m) && is_unstage(m, volume.volume_id),
        r2.1 == ProvisionStep::Delete(volume.volume_id),
        r3.1 == ProvisionStep::Failed(e),
{
}

/// A volume on its way out.
#[derive(Debug)]
pub enum Deprovision {
    Unpublishing { volume_id: VolumeId },
    Unstaging { volume_id: VolumeId, first_error: Option<CsiError> },
    Deleting { first_error: Option<CsiError> },
    Ended,
}

/// What is done next for a volume on its way out.
#[derive(Debug)]
pub enum DeprovisionStep {
    Send(CsiMessage),
    Delete(VolumeId),
    Done,
    Failed(CsiError),
}

/// Begins to unmount a volume from a path and to remove it.
pub fn unmount_and_deprovision(volume_id: VolumeId, target_path: String) -> (r: (
    Deprovision,
    DeprovisionStep,
))
    ensures
        r.0 == (Deprovision::Unpublishing { volume_id }),
        r.1 matches DeprovisionStep::Send(m) && is_unpublish(m, volume_id, target_path@),
{
    let m = CsiMessage::UnpublishVolume { volume_id: volume_id.copy(), target_path };
    (Deprovision::Unpublishing { volume_id }, DeprovisionStep::Send(m))
}

/// The first of two errors.
pub open spec fn first_error(before: Option<CsiError>, outcome: Result<(), CsiError>) -> Option<
    CsiError,
> {
    match (before, outcome) {
        (Some(e), _) => Some(e),
        (None, Err(e)) => Some(e),
        (None, Ok(_)) => None,
    }
}

/// Whether `r` follows the outcome of the step that a state awaits. Each step is attempted
/// regardless of prior failures; the first error is reported.
pub open spec fn goes_on(
    st: Deprovision,
    outcome: Result<(), CsiError>,
    r: (Deprovision, DeprovisionStep),
) -> bool {
    match st {
        Deprovision::Unpublishing { volume_id } => {
            &&& r.0 == (Deprovision::Unstaging {
                volume_id,
                first_error: first_error(None, outcome),
            })
            &&& r.1 matches DeprovisionStep::Send(m) && is_unstage(m, volume_id)
        },
        Deprovision::Unstaging { volume_id, first_error: e } => {
            &&& r.0 == (Deprovision::Deleting { first_error: first_error(e, outcome) })
            &&& r.1 == DeprovisionStep::Delete(volume_id)
        },
        Deprovision::Deleting { first_error: e } => {
            &&& r.0 is Ended
            &&& r.1 == match first_error(e, outcome) {
                Some(x) => DeprovisionStep::Failed(x),
                None => DeprovisionStep::Done,
            }
        },
        Deprovision::Ended => r.0 is Ended && r.1 is Done,
    }
}

fn keep_first(before: Option<CsiError>, outcome: Result<(), CsiError>) -> (r: Option<CsiError>)
    ensures
        r == first_error(before, outcome),
{
    match (before, outcome) {
        (Some(e), _) => Some(e),
        (None, Err(e)) => Some(e),
        (None, Ok(_)) => None,
    }
}

/// Goes on with a volume on its way out.
pub fn deprovision_step(st: Deprovision, outcome: Result<(), CsiError>) -> (r: (
    Deprovision,
    DeprovisionStep,
))
    ensures
        goes_on(st, outcome, r),
{
    match st {
        Deprovision::Unpublishing { volume_id } => {
            let m = CsiMessage::UnstageVolume {
                volume_id: volume_id.copy(),
                staging_target_path: staging_path(&volume_id),
            };
            (
                Deprovision::Unstaging { volume_id, first_error: keep_first(None, outcome) },
                DeprovisionStep::Send(m),
            )
        },
        Deprovision::Unstaging { volume_id, first_error: e } => (
            Deprovision::Deleting { first_error: keep_first(e, outcome) },
            DeprovisionStep::Delete(volume_id),
        ),
        Deprovision::Deleting { first_error: e } => match keep_first(e, outcome) {
            Some(x) => (Deprovision::Ended, DeprovisionStep::Failed(x)),
            None => (Deprovision::Ended, DeprovisionStep::Done),
        },
        Deprovision::Ended => (Deprovision::Ended, DeprovisionStep::Done),
    }
}

/// A volume on its way out is unpublished, unstaged and deleted, whatever comes of each; the
/// first error is reported, and none when there was none.
pub proof fn law_deprovisioning_attempts_all(
    volume_id: VolumeId,
    o1: Result<(), CsiError>,
    r1: (Deprovision, DeprovisionStep),
    o2: Result<(), CsiError>,
    r2: (Deprovision, DeprovisionStep),
    o3: Result<(), CsiError>,
    r3: (Deprovision, DeprovisionStep),
)
    requires
        goes_on(Deprovision::Unpublishing { volume_id }, o1, r1),
        goes_on(r1.0, o2, r2),
        goes_on(r2.0, o3, r3),
    ensures
        r1.1 matches DeprovisionStep::Send(m) && is_unstage(m, volume_id),
        r2.1 == DeprovisionStep::Delete(volume_id),
        r3.1 == match (o1, o2, o3) {
            (Err(e), _, _) => DeprovisionStep::Failed(e),
            (Ok(_), Err(e), _) => DeprovisionStep::Failed(e),
            (Ok(_), Ok(_), Err(e)) => DeprovisionStep::Failed(e),
            (Ok(_), Ok(_), Ok(_)) => DeprovisionStep::Done,
        },
{
}

/// What sending a message to a node came to.
#[derive(Debug)]
pub enum Reply {
    /// The node has no connection.
    NoSession,
    SendFailed(String),
    TimedOut,
    /// The answer can no longer come.
    Dropped,
    /// The node answered with the message, which is shown as the text.
    Answer { message: CsiMessage, text: String },
}

pub open spec fn is_internal(r: Result<(), CsiError>, m: Seq<char>) -> bool {
    r matches Err(CsiError::Internal(t)) && t@ == m
}

/// What a request to a node came to.
pub fn csi_result(node_id: &str, reply: Reply) -> (r: Result<(), CsiError>)
    ensures
        match reply {
            Reply::NoSession => is_internal(r, "node "@ + node_id@ + " not found in registry"@),
            Reply::SendFailed(e) => r matches Err(CsiError::Transport(m)) && m@
                == "failed to send to node "@ + node_id@ + ": "@ + e@,
            Reply::TimedOut => is_internal(
                r,
                "CSI request to node "@ + node_id@ + " timed out after 30s"@,
            ),
            Reply::Dropped => is_internal(
                r,
                "CSI response channel dropped for node "@ + node_id@,
            ),
            Reply::Answer { message, text } => match message {
                CsiMessage::Done => r == Ok::<(), CsiError>(()),
                CsiMessage::Error(e) => r == Err::<(), CsiError>(e),
                _ => is_internal(r, "unexpected CSI response: "@ + text@),
            },
        },
{
    match reply {
        Reply::NoSession => Err(
            CsiError::Internal(concat3("node ", node_id, " not found in registry")),
        ),
        Reply::SendFailed(e) => Err(
            CsiError::Transport(concat4("failed to send to node ", node_id, ": ", e.as_str())),
        ),
        Reply::TimedOut => Err(
            CsiError::Internal(concat3("CSI request to node ", node_id, " timed out after 30s")),
        ),
        Reply::Dropped => Err(
            CsiError::Internal(concat2("CSI response channel dropped for node ", node_id)),
        ),
        Reply::Answer { message, text } => match message {
            CsiMessage::Done => Ok(()),
            CsiMessage::Error(e) => Err(e),
            _ => Err(
                CsiError::Internal(concat2("unexpected CSI response: ", text.as_str())),
            ),
        },
    }
}

/// The requests to nodes that are not answered yet.
#[derive(Debug)]
pub struct PendingRequests {
    ids: HashSet<u128>,
}

impl View for PendingRequests {
    type V = Set<u128>;

    closed spec fn view(&self) -> Set<u128> {
        self.ids@
    }
}

impl PendingRequests {
    /// No requests.
    pub fn new() -> (r: Self)
        ensures
            r@ == Set::<u128>::empty(),
    {
        PendingRequests { ids: HashSet::new() }
    }

    /// Notes a request before it is sent.
    pub fn register(&mut self, id: u128)
        ensures
            final(self)@ == old(self)@.insert(id),
    {
        let _ = self.ids.insert(id);
    }

    /// Takes a request off: whether someone awaits its answer.
    pub fn route_response(&mut self, id: u128) -> (r: bool)
        ensures
            r == old(self)@.contains(id),
            final(self)@ == old(self)@.remove(id),
    {
        self.ids.remove(&id)
    }
}

/// An answer is passed on once: a second one with its identifier finds nobody.
pub proof fn law_answers_are_routed_once(pending: Set<u128>, id: u128)
    ensures
        pending.insert(id).contains(id),
        !pending.insert(id).remove(id).contains(id),
        !pending.contains(id) ==> pending.insert(id).remove(id) == pending,
{
    if !pending.contains(id) {
        assert(pending.insert(id).remove(id) =~= pending);
    }
}

/// A volume is created, then staged, then published, each for the volume that was created and with
/// the wish's first capability; it is done when it is published.
pub proof fn law_volume_is_staged_and_then_published(
    req: CreateVolumeRequest,
    target: String,
    v: Volume,
    a: (Provision, ProvisionStep),
    b: (Provision, ProvisionStep),
    c: (Provision, ProvisionStep),
    d: (Provision, ProvisionStep),
)
    requires
        call_ensures(provision_and_mount, (req, target), a),
        call_ensures(provision_step, (a.0, StepOutcome::Created(v)), b),
        call_ensures(provision_step, (b.0, StepOutcome::Succeeded), c),
        call_ensures(provision_step, (c.0, StepOutcome::Succeeded), d),
    ensures
        a.1 == ProvisionStep::Create(req),
        ({
            let mode = if req.volume_capabilities@.len() > 0 {
                req.volume_capabilities@[0].access_mode
            } else {
                AccessMode::ReadWriteOnce
            };
            let place = "/var/lib/rkl/volumes/"@ + v.volume_id.0@ + "/globalmount"@;
            &&& b.1 matches ProvisionStep::Send(CsiMessage::StageVolume {
                volume_id,
                staging_target_path,
                volume_capability,
                volume_context,
            }) && volume_id == v.volume_id && staging_target_path@ == place
                && volume_capability.access_mode == mode && volume_context@ == v.volume_context@
            &&& c.1 matches ProvisionStep::Send(CsiMessage::PublishVolume {
                volume_id,
                staging_target_path,
                target_path,
                volume_capability,
                read_only,
            }) && volume_id == v.volume_id && staging_target_path@ == place && target_path@ == target@
                && volume_capability.access_mode == mode && read_only == (mode
                == AccessMode::ReadOnlyMany)
        }),
        d.1 == ProvisionStep::Done(v),
        d.0 is Ended,
{
}

/// A volume that cannot be staged is deleted; one that cannot be published is unstaged and
/// deleted. Either way the error that came first is given.
pub proof fn law_failed_volume_is_taken_down(
    v: Volume,
    capability: VolumeCapability,
    target: String,
    e: CsiError,
    after: StepOutcome,
    last: StepOutcome,
    a: (Provision, ProvisionStep),
    b: (Provision, ProvisionStep),
    c: (Provision, ProvisionStep),
    d: (Provision, ProvisionStep),
    f: (Provision, ProvisionStep),
)
    requires
        call_ensures(
            provision_step,
            (Provision::Staging { volume: v, capability, target }, StepOutcome::Failed(e)),
            a,
        ),
        call_ensures(provision_step, (a.0, last), b),
        call_ensures(
            provision_step,
            (Provision::Publishing { volume: v }, StepOutcome::Failed(e)),
            c,
        ),
        call_ensures(provision_step, (c.0, after), d),
        call_ensures(provision_step, (d.0, last), f),
    ensures
        a.1 == ProvisionStep::Delete(v.volume_id),
        b.1 == ProvisionStep::Failed(e) && b.0 is Ended,
        c.1 matches ProvisionStep::Send(CsiMessage::UnstageVolume {
            volume_id,
            staging_target_path,
        }) && volume_id == v.volume_id && staging_target_path@ == "/var/lib/rkl/volumes/"@
            + v.volume_id.0@ + "/globalmount"@,
        d.1 == ProvisionStep::Delete(v.volume_id),
        f.1 == ProvisionStep::Failed(e) && f.0 is Ended,
{
}

/// A volume is unpublished, unstaged and deleted, whatever fails on the way; the first error is
/// given at the end.
pub proof fn law_volume_is_taken_down_to_the_end(
    id: VolumeId,
    target: String,
    x: Result<(), CsiError>,
    y: Result<(), CsiError>,
    z: Result<(), CsiError>,
    a: (Deprovision, DeprovisionStep),
    b: (Deprovision, DeprovisionStep),
    c: (Deprovision, DeprovisionStep),
    d: (Deprovision, DeprovisionStep),
)
    requires
        call_ensures(unmount_and_deprovision, (id, target), a),
        call_ensures(deprovision_step, (a.0, x), b),
        call_ensures(deprovision_step, (b.0, y), c),
        call_ensures(deprovision_step, (c.0, z), d),
    ensures
        a.1 matches DeprovisionStep::Send(CsiMessage::UnpublishVolume { volume_id, target_path })
            && volume_id == id && target_path@ == target@,
        b.1 matches DeprovisionStep::Send(CsiMessage::UnstageVolume {
            volume_id,
            staging_target_path,
        }) && volume_id == id && staging_target_path@ == "/var/lib/rkl/volumes/"@ + id.0@
            + "/globalmount"@,
        c.1 == DeprovisionStep::Delete(id),
        d.0 is Ended,
        x is Err ==> d.1 == DeprovisionStep::Failed(x->Err_0),
        x is Ok && y is Err ==> d.1 == DeprovisionStep::Failed(y->Err_0),
        x is Ok && y is Ok && z is Err ==> d.1 == DeprovisionStep::Failed(z->Err_0),
        x is Ok && y is Ok && z is Ok ==> d.1 is Done,
{
}

} // verus!
